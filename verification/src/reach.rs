//! What the declared keys reach: which keys an expression stands for, which
//! expressions an entry stands for in a house, and which entities a command
//! publish is granted.

use crate::expand;
use crate::expand::Direction;
use crate::expand::ExpandedView;
use crate::grants;
use crate::grants::GrantEntityView;
use crate::grants::GrantView;
use crate::keyspace;
use crate::keyspace::SegmentView;
use crate::manifest::Priority;
use crate::manifest::PublishSpec;
use crate::manifest::UnitKind;
use crate::manifest::WriteMode;
use crate::manifest::CAPABILITIES;
use crate::names;
use crate::order;
use crate::repo::House;
use crate::repo::LoadedEntity;
use crate::repo::LoadedUnit;
use crate::text;
use vstd::prelude::*;

verus! {

/// One segment of an expression stands for: a literal for itself, `**` for
/// any run of segments, the empty one too, and every other for any one
/// segment.
pub proof fn law_segments_stand_for_keys(s: SegmentView, key: Seq<Seq<char>>)
    ensures
        keyspace::key_matches(seq![s], key) <==> match s {
            SegmentView::Literal(l) => key.len() == 1 && key[0] == l,
            SegmentView::AnyRec => true,
            _ => key.len() == 1,
        },
    decreases key.len(),
{
    assert(seq![s].drop_first() =~= Seq::empty());
    if key.len() > 0 {
        law_segments_stand_for_keys(s, key.drop_first());
        assert(key.drop_first().len() == key.len() - 1);
    }
    reveal_with_fuel(keyspace::key_matches, 2);
}

/// An expression in two parts stands for the keys that can be cut in two,
/// each part of the expression standing for one part of the key.
pub proof fn law_expressions_match_part_by_part(
    a: Seq<SegmentView>,
    b: Seq<SegmentView>,
    key: Seq<Seq<char>>,
)
    ensures
        keyspace::key_matches(a + b, key) <==> exists|cut: int|
            0 <= cut <= key.len() && #[trigger] keyspace::key_matches(a, key.take(cut))
                && keyspace::key_matches(b, key.skip(cut)),
{
    if keyspace::key_matches(a + b, key) {
        let cut = lemma_cut(a, b, key);
        assert(keyspace::key_matches(a, key.take(cut)));
    }
    if exists|cut: int|
        0 <= cut <= key.len() && #[trigger] keyspace::key_matches(a, key.take(cut))
            && keyspace::key_matches(b, key.skip(cut)) {
        let cut = choose|cut: int|
            0 <= cut <= key.len() && #[trigger] keyspace::key_matches(a, key.take(cut))
                && keyspace::key_matches(b, key.skip(cut));
        lemma_joined(a, b, key, cut);
    }
}

proof fn lemma_cut(a: Seq<SegmentView>, b: Seq<SegmentView>, key: Seq<Seq<char>>) -> (cut: int)
    requires
        keyspace::key_matches(a + b, key),
    ensures
        0 <= cut <= key.len(),
        keyspace::key_matches(a, key.take(cut)),
        keyspace::key_matches(b, key.skip(cut)),
    decreases a.len() + key.len(),
{
    if a.len() == 0 {
        assert(a + b =~= b);
        assert(key.skip(0) =~= key);
        0
    } else {
        let tail = a.drop_first();
        assert((a + b).drop_first() =~= tail + b);
        assert((a + b)[0] == a[0]);
        match a[0] {
            SegmentView::AnyRec => {
                if keyspace::key_matches(tail + b, key) {
                    lemma_cut(tail, b, key)
                } else {
                    let rest = key.drop_first();
                    let cut = lemma_cut(a, b, rest);
                    assert(key.take(cut + 1).drop_first() =~= rest.take(cut));
                    assert(key.skip(cut + 1) =~= rest.skip(cut));
                    cut + 1
                }
            },
            _ => {
                let rest = key.drop_first();
                let cut = lemma_cut(tail, b, rest);
                assert(key.take(cut + 1).drop_first() =~= rest.take(cut));
                assert(key.skip(cut + 1) =~= rest.skip(cut));
                cut + 1
            },
        }
    }
}

proof fn lemma_joined(a: Seq<SegmentView>, b: Seq<SegmentView>, key: Seq<Seq<char>>, cut: int)
    requires
        0 <= cut <= key.len(),
        keyspace::key_matches(a, key.take(cut)),
        keyspace::key_matches(b, key.skip(cut)),
    ensures
        keyspace::key_matches(a + b, key),
    decreases a.len() + cut,
{
    if a.len() == 0 {
        assert(a + b =~= b);
        assert(key.skip(0) =~= key);
    } else {
        let tail = a.drop_first();
        let rest = key.drop_first();
        assert((a + b).drop_first() =~= tail + b);
        assert((a + b)[0] == a[0]);
        if cut > 0 {
            assert(key.take(cut).drop_first() =~= rest.take(cut - 1));
            assert(key.skip(cut) =~= rest.skip(cut - 1));
        }
        match a[0] {
            SegmentView::AnyRec => {
                if keyspace::key_matches(tail, key.take(cut)) {
                    lemma_joined(tail, b, key, cut);
                } else {
                    lemma_joined(a, b, rest, cut - 1);
                }
            },
            _ => {
                lemma_joined(tail, b, rest, cut - 1);
            },
        }
    }
}

/// An expression covers a prefix exactly where it stands for some key that
/// begins with the prefix.
pub proof fn law_covering_is_matching_a_longer_key(k: Seq<SegmentView>, prefix: Seq<Seq<char>>)
    ensures
        keyspace::covers(k, prefix) <==> exists|key: Seq<Seq<char>>|
            prefix.is_prefix_of(key) && #[trigger] keyspace::key_matches(k, key),
{
    if keyspace::covers(k, prefix) {
        let rest = choose|rest: Seq<Seq<char>>| #[trigger]
            keyspace::key_matches(k, prefix + rest);
        assert(prefix.is_prefix_of(prefix + rest)) by {
            assert((prefix + rest).subrange(0, prefix.len() as int) =~= prefix);
        }
    }
    if exists|key: Seq<Seq<char>>|
        prefix.is_prefix_of(key) && #[trigger] keyspace::key_matches(k, key) {
        let key = choose|key: Seq<Seq<char>>|
            prefix.is_prefix_of(key) && #[trigger] keyspace::key_matches(k, key);
        assert(prefix + key.skip(prefix.len() as int) =~= key);
    }
}

/// The expression stands for some key of the entity under the class:
/// `home/{class}/{room}/{name}` and what lies below.
pub open spec fn touches(
    k: Seq<SegmentView>,
    class: Seq<char>,
    room: Seq<char>,
    name: Seq<char>,
) -> bool {
    exists|key: Seq<Seq<char>>|
        key.len() >= 4 && key[0] == "home"@ && key[1] == class && key[2] == room && key[3] == name
            && #[trigger] keyspace::key_matches(k, key)
}

pub proof fn lemma_touches(
    k: Seq<SegmentView>,
    class: Seq<char>,
    room: Seq<char>,
    name: Seq<char>,
)
    ensures
        keyspace::covers(k, grants::subtree(class, room, name)) <==> touches(k, class, room, name),
{
    let prefix = grants::subtree(class, room, name);
    if keyspace::covers(k, prefix) {
        let rest = choose|rest: Seq<Seq<char>>| #[trigger]
            keyspace::key_matches(k, prefix + rest);
        let key = prefix + rest;
        assert(key[0] == "home"@ && key[1] == class && key[2] == room && key[3] == name);
    }
    if touches(k, class, room, name) {
        let key = choose|key: Seq<Seq<char>>|
            key.len() >= 4 && key[0] == "home"@ && key[1] == class && key[2] == room && key[3]
                == name && #[trigger] keyspace::key_matches(k, key);
        assert(prefix + key.skip(4) =~= key);
    }
}

/// `c` is `k` with the room and the name in the place of its templates.
pub open spec fn filled_in(
    c: Seq<SegmentView>,
    k: Seq<SegmentView>,
    room: Seq<char>,
    name: Seq<char>,
) -> bool {
    &&& c.len() == k.len()
    &&& forall|i: int|
        0 <= i < k.len() ==> {
            &&& k[i] is RoomTemplate ==> #[trigger] c[i] == SegmentView::Literal(room)
            &&& k[i] is EntityTemplate ==> c[i] == SegmentView::Literal(name)
            &&& !(k[i] is RoomTemplate) && !(k[i] is EntityTemplate) ==> c[i] == k[i]
        }
}

/// The write mode that an entity's file declares; shared where it declares
/// none.
pub open spec fn write_mode(e: LoadedEntity) -> WriteMode {
    match e.file.write_policy.mode {
        Some(mode) => mode,
        None => WriteMode::Shared,
    }
}

/// The entity takes what is sent under the class of the expression: commands
/// go to an arbitrated entity under the arbiter class and to any other under
/// the cmd class.
pub open spec fn takes_class(e: LoadedEntity, k: Seq<SegmentView>) -> bool {
    &&& k[1] == SegmentView::Literal("cmd"@) ==> write_mode(e) != WriteMode::Arbitrated
    &&& k[1] == SegmentView::Literal("arbiter"@) ==> write_mode(e) == WriteMode::Arbitrated
}

/// The expansion of an entry of unit `u`.
pub open spec fn is_expansion(
    x: ExpandedView,
    u: LoadedUnit,
    entry: Seq<char>,
    source: Seq<char>,
    direction: Direction,
) -> bool {
    &&& x.unit == u.manifest.unit.name@
    &&& x.kind == u.manifest.unit.kind
    &&& x.entry == entry
    &&& x.source == source
    &&& x.direction == direction
}

/// The expansion tells how the entry was written: with templates, or with a
/// zone for its room.
pub open spec fn tells_form(x: ExpandedView, h: House, k: Seq<SegmentView>) -> bool {
    &&& x.templated == has_template(k)
    &&& x.zone == if !has_template(k) && names_zone(h, k) {
        Some(k[2]->Literal_0)
    } else {
        None
    }
}

/// A `{room}` or an `{entity}` occurs in the expression.
pub open spec fn has_template(k: Seq<SegmentView>) -> bool {
    k.contains(SegmentView::RoomTemplate) || k.contains(SegmentView::EntityTemplate)
}

pub proof fn lemma_template(k: Seq<SegmentView>)
    ensures
        keyspace::templated(k) <==> has_template(k),
{
    if keyspace::templated(k) {
        let i = choose|i: int|
            0 <= i < k.len() && (#[trigger] k[i] is RoomTemplate || k[i] is EntityTemplate);
        assert(k.contains(k[i]));
    }
    if k.contains(SegmentView::RoomTemplate) {
        let i = k.index_of(SegmentView::RoomTemplate);
        assert(k[i] is RoomTemplate);
    }
    if k.contains(SegmentView::EntityTemplate) {
        let i = k.index_of(SegmentView::EntityTemplate);
        assert(k[i] is EntityTemplate);
    }
}

/// `c` is `k` filled in for an entity that the unit binds and that takes the
/// class.
pub open spec fn fills_one(
    c: Seq<SegmentView>,
    h: House,
    unit: Seq<char>,
    k: Seq<SegmentView>,
) -> bool {
    exists|m: int|
        0 <= m < h.entities@.len() && (#[trigger] h.entities@[m]).owner@ == unit && takes_class(
            h.entities@[m],
            k,
        ) && filled_in(c, k, h.entities@[m].file.entity.room@, h.entities@[m].name@)
}

/// What an entry written as the expression `k` stands for in the house.
/// With templates it stands, for every entity that the unit binds and that
/// takes the class, for the expression with that entity's room and name
/// filled in, and for nothing else. Without, it stands for itself, or, where
/// its room slot names a zone, for itself in each room of the zone.
pub open spec fn stands_for(
    exprs: Seq<Seq<SegmentView>>,
    h: House,
    unit: Seq<char>,
    k: Seq<SegmentView>,
) -> bool {
    if has_template(k) {
        &&& forall|m: int|
            #![trigger h.entities@[m]]
            0 <= m < h.entities@.len() && h.entities@[m].owner@ == unit && takes_class(
                h.entities@[m],
                k,
            ) ==> exists|c: int|
                0 <= c < exprs.len() && filled_in(
                    #[trigger] exprs[c],
                    k,
                    h.entities@[m].file.entity.room@,
                    h.entities@[m].name@,
                )
        &&& forall|c: int| 0 <= c < exprs.len() ==> #[trigger] fills_one(exprs[c], h, unit, k)
    } else if names_zone(h, k) {
        let rooms = names::lookup(h.zones@, k[2]->Literal_0)->Some_0@;
        &&& exprs.len() == rooms.len()
        &&& forall|c: int|
            0 <= c < rooms.len() ==> (#[trigger] exprs[c]).len() == k.len() && exprs[c][2]
                == SegmentView::Literal(rooms[c]@) && forall|i: int|
                0 <= i < k.len() && i != 2 ==> #[trigger] exprs[c][i] == k[i]
    } else {
        exprs.len() == 1 && exprs[0] == k
    }
}

/// The room slot of the expression, third in the classes that are addressed
/// per entity, names a zone of the house.
pub open spec fn names_zone(h: House, k: Seq<SegmentView>) -> bool {
    &&& k.len() > 2
    &&& k[1] == SegmentView::Literal("state"@) || k[1] == SegmentView::Literal("cmd"@) || k[1]
        == SegmentView::Literal("arbiter"@) || k[1] == SegmentView::Literal("forecast"@)
    &&& k[2] is Literal
    &&& names::lookup(h.zones@, k[2]->Literal_0) is Some
}

proof fn lemma_addressed(class: Seq<char>)
    ensures
        text::listed(keyspace::ENTITY_ADDRESSED@, class) <==> class == "state"@ || class == "cmd"@
            || class == "arbiter"@ || class == "forecast"@,
{
    let all = keyspace::ENTITY_ADDRESSED@;
    assert(all[0]@ == "state"@ && all[1]@ == "cmd"@ && all[2]@ == "arbiter"@ && all[3]@
        == "forecast"@);
    assert(all.len() == 4);
    if text::listed(all, class) {
        let i = choose|i: int| 0 <= i < all.len() && (#[trigger] all[i])@ == class;
        assert(i == 0 || i == 1 || i == 2 || i == 3);
    }
}

proof fn lemma_zone_slot(h: House, k: Seq<SegmentView>)
    requires
        k.len() > 1,
    ensures
        names_zone(h, k) <==> expand::zone_of(h, k) is Some,
        names_zone(h, k) ==> expand::zone_of(h, k)->Some_0.0 == k[2]->Literal_0
            && expand::zone_of(h, k)->Some_0.1 == names::lookup(
            h.zones@,
            k[2]->Literal_0,
        )->Some_0,
{
    if k[1] is Literal {
        lemma_addressed(k[1]->Literal_0);
    }
}

proof fn lemma_stands_for(h: House, unit: Seq<char>, k: Seq<SegmentView>)
    requires
        k.len() > 1,
    ensures
        stands_for(expand::exprs_of(h, unit, k), h, unit, k),
{
    let exprs = expand::exprs_of(h, unit, k);
    lemma_zone_slot(h, k);
    lemma_template(k);
    if keyspace::templated(k) {
        let entities = h.entities@;
        let f = |i: int|
            text::only_if(
                expand::expands_over(entities[i], unit, k),
                keyspace::substituted(k, entities[i].file.entity.room@, entities[i].name@),
            );
        assert forall|m: int|
            #![trigger h.entities@[m]]
            0 <= m < entities.len() && h.entities@[m].owner@ == unit && takes_class(
                h.entities@[m],
                k,
            ) implies exists|c: int|
            0 <= c < exprs.len() && filled_in(
                #[trigger] exprs[c],
                k,
                h.entities@[m].file.entity.room@,
                h.entities@[m].name@,
            ) by {
            let x = keyspace::substituted(k, entities[m].file.entity.room@, entities[m].name@);
            assert(f(m) =~= seq![x]);
            assert(f(m)[0] == x);
            assert(f(m).contains(x));
            text::lemma_each_has(entities.len(), f, m, x);
            let c = exprs.index_of(x);
            assert(exprs[c] == x);
        }
        assert forall|c: int| 0 <= c < exprs.len() implies #[trigger] fills_one(
            exprs[c],
            h,
            unit,
            k,
        ) by {
            let m = text::lemma_in_each(entities.len(), f, c);
            assert(f(m).contains(exprs[c]));
            assert(h.entities@[m].owner@ == unit);
        }
    } else if names_zone(h, k) {
        let rooms = names::lookup(h.zones@, k[2]->Literal_0)->Some_0@;
        assert forall|c: int| 0 <= c < rooms.len() implies (#[trigger] exprs[c]).len() == k.len()
            && exprs[c][2] == SegmentView::Literal(rooms[c]@) && forall|i: int|
            0 <= i < k.len() && i != 2 ==> #[trigger] exprs[c][i] == k[i] by {
            assert(exprs[c] == k.update(2, SegmentView::Literal(rooms[c]@)));
        }
    } else {
        assert(exprs =~= seq![k]);
    }
}

proof fn lemma_entry_expands(
    h: House,
    u: LoadedUnit,
    entry: Seq<char>,
    raw: Seq<char>,
    direction: Direction,
    k: Seq<SegmentView>,
)
    requires
        expand::checked(raw) == Ok::<Seq<SegmentView>, Seq<char>>(k),
        has_template(k) ==> u.manifest.unit.kind != UnitKind::Service,
    ensures
        expand::entry_keys(h, u, entry, raw, direction).len() == 1,
        is_expansion(
            expand::entry_keys(h, u, entry, raw, direction)[0],
            u,
            entry,
            raw,
            direction,
        ),
        stands_for(
            expand::entry_keys(h, u, entry, raw, direction)[0].exprs,
            h,
            u.manifest.unit.name@,
            k,
        ),
        tells_form(expand::entry_keys(h, u, entry, raw, direction)[0], h, k),
{
    assert(expand::entry_errors(u, entry, raw).len() == 0);
    lemma_stands_for(h, u.manifest.unit.name@, k);
    lemma_zone_slot(h, k);
    lemma_template(k);
}

/// Every published key that lies in the key space is expanded, in a unit
/// that may use what it is written with: under its unit and its entry, to
/// all that it stands for in the house and to nothing else.
pub proof fn law_publishes_reach_what_they_stand_for(
    h: House,
    i: int,
    j: int,
    k: Seq<SegmentView>,
)
    requires
        0 <= i < h.units@.len(),
        h.units@[i].manifest.bus is Some,
        0 <= j < h.units@[i].manifest.bus->Some_0.publishes@.len(),
        expand::checked(h.units@[i].manifest.bus->Some_0.publishes@[j].1.key@) == Ok::<
            Seq<SegmentView>,
            Seq<char>,
        >(k),
        has_template(k) ==> h.units@[i].manifest.unit.kind != UnitKind::Service,
    ensures
        exists|n: int|
            0 <= n < expand::house_keys(h, h.units@.len()).len() && is_expansion(
                #[trigger] expand::house_keys(h, h.units@.len())[n],
                h.units@[i],
                h.units@[i].manifest.bus->Some_0.publishes@[j].0@,
                h.units@[i].manifest.bus->Some_0.publishes@[j].1.key@,
                Direction::Publishes,
            ) && stands_for(
                expand::house_keys(h, h.units@.len())[n].exprs,
                h,
                h.units@[i].manifest.unit.name@,
                k,
            ) && tells_form(expand::house_keys(h, h.units@.len())[n], h, k),
{
    let u = h.units@[i];
    let entries = u.manifest.bus->Some_0.publishes@;
    let raw = entries[j].1.key@;
    lemma_entry_expands(h, u, entries[j].0@, raw, Direction::Publishes, k);
    let part = expand::entry_keys(h, u, entries[j].0@, raw, Direction::Publishes);
    let x = part[0];
    assert(part.contains(x));
    let f = |j: int|
        expand::entry_keys(h, u, entries[j].0@, entries[j].1.key@, Direction::Publishes);
    text::lemma_each_has(entries.len(), f, j, x);
    lemma_unit_key_in_house(h, i, x);
    let keys = expand::house_keys(h, h.units@.len());
    let n = keys.index_of(x);
    assert(keys[n] == x);
}

/// The same of every key that is subscribed to.
pub proof fn law_subscribes_reach_what_they_stand_for(
    h: House,
    i: int,
    j: int,
    k: Seq<SegmentView>,
)
    requires
        0 <= i < h.units@.len(),
        h.units@[i].manifest.bus is Some,
        0 <= j < h.units@[i].manifest.bus->Some_0.subscribes@.len(),
        expand::checked(h.units@[i].manifest.bus->Some_0.subscribes@[j].1@) == Ok::<
            Seq<SegmentView>,
            Seq<char>,
        >(k),
        has_template(k) ==> h.units@[i].manifest.unit.kind != UnitKind::Service,
    ensures
        exists|n: int|
            0 <= n < expand::house_keys(h, h.units@.len()).len() && is_expansion(
                #[trigger] expand::house_keys(h, h.units@.len())[n],
                h.units@[i],
                h.units@[i].manifest.bus->Some_0.subscribes@[j].0@,
                h.units@[i].manifest.bus->Some_0.subscribes@[j].1@,
                Direction::Subscribes,
            ) && stands_for(
                expand::house_keys(h, h.units@.len())[n].exprs,
                h,
                h.units@[i].manifest.unit.name@,
                k,
            ) && tells_form(expand::house_keys(h, h.units@.len())[n], h, k),
{
    let u = h.units@[i];
    let entries = u.manifest.bus->Some_0.subscribes@;
    let raw = entries[j].1@;
    lemma_entry_expands(h, u, entries[j].0@, raw, Direction::Subscribes, k);
    let part = expand::entry_keys(h, u, entries[j].0@, raw, Direction::Subscribes);
    let x = part[0];
    assert(part.contains(x));
    let f = |j: int|
        expand::entry_keys(h, u, entries[j].0@, entries[j].1@, Direction::Subscribes);
    text::lemma_each_has(entries.len(), f, j, x);
    assert(expand::subscribe_keys(h, u, entries.len()).contains(x));
    lemma_unit_key_in_house(h, i, x);
    let keys = expand::house_keys(h, h.units@.len());
    let n = keys.index_of(x);
    assert(keys[n] == x);
}

proof fn lemma_unit_key_in_house(h: House, i: int, x: ExpandedView)
    requires
        0 <= i < h.units@.len(),
        h.units@[i].manifest.bus is Some,
        expand::publish_keys(
            h,
            h.units@[i],
            h.units@[i].manifest.bus->Some_0.publishes@.len(),
        ).contains(x) || expand::subscribe_keys(
            h,
            h.units@[i],
            h.units@[i].manifest.bus->Some_0.subscribes@.len(),
        ).contains(x),
    ensures
        expand::house_keys(h, h.units@.len()).contains(x),
{
    let u = h.units@[i];
    let bus = u.manifest.bus->Some_0;
    let a = expand::publish_keys(h, u, bus.publishes@.len());
    let b = expand::subscribe_keys(h, u, bus.subscribes@.len());
    let g = |i: int| expand::unit_keys(h, h.units@[i]);
    assert(g(i) == a + b);
    if a.contains(x) {
        let p = a.index_of(x);
        assert((a + b)[p] == x);
    } else {
        let p = b.index_of(x);
        assert((a + b)[a.len() + p] == x);
    }
    assert(g(i).contains(x));
    text::lemma_each_has(h.units@.len(), g, i, x);
}

/// The classes of the key space.
pub open spec fn is_class(c: Seq<char>) -> bool {
    c == "state"@ || c == "cmd"@ || c == "arbiter"@ || c == "forecast"@ || c == "config"@ || c
        == "meta"@ || c == "health"@ || c == "clock"@ || c == "history"@ || c == "discovery"@
}

/// How a piece between two slashes reads.
pub open spec fn reads_as(s: SegmentView, piece: Seq<char>) -> bool {
    &&& s == SegmentView::Any <==> piece == "*"@
    &&& s == SegmentView::AnyRec <==> piece == "**"@
    &&& s == SegmentView::RoomTemplate <==> piece == "{room}"@
    &&& s == SegmentView::EntityTemplate <==> piece == "{entity}"@
    &&& s is Literal ==> s->Literal_0 == piece
}

/// The expression lies in the key space: `home`, one of the classes, and as
/// many segments as the class is addressed with, unless a `**` stands for
/// the missing ones.
pub open spec fn in_key_space(k: Seq<SegmentView>) -> bool {
    &&& k.len() > 1
    &&& k[0] == SegmentView::Literal("home"@)
    &&& k[1] is Literal
    &&& is_class(k[1]->Literal_0)
    &&& k.contains(SegmentView::AnyRec) || {
        let class = k[1]->Literal_0;
        &&& k.len() >= 3
        &&& class == "state"@ || class == "cmd"@ || class == "arbiter"@ ==> k.len() >= 5
        &&& class == "forecast"@ ==> k.len() >= 6
    }
}

pub proof fn lemma_classes(class: Seq<char>)
    ensures
        text::listed(keyspace::CLASSES@, class) <==> is_class(class),
{
    let all = keyspace::CLASSES@;
    assert(all.len() == 10);
    assert(all[0]@ == "state"@ && all[1]@ == "cmd"@ && all[2]@ == "arbiter"@ && all[3]@
        == "forecast"@ && all[4]@ == "config"@);
    assert(all[5]@ == "meta"@ && all[6]@ == "health"@ && all[7]@ == "clock"@ && all[8]@
        == "history"@ && all[9]@ == "discovery"@);
    if text::listed(all, class) {
        let i = choose|i: int| 0 <= i < all.len() && (#[trigger] all[i])@ == class;
        assert(i == 0 || i == 1 || i == 2 || i == 3 || i == 4 || i == 5 || i == 6 || i == 7 || i
            == 8 || i == 9);
    }
}

proof fn lemma_pieces_read(piece: Seq<char>)
    ensures
        reads_as(keyspace::segment_of(piece), piece),
{
    reveal_strlit("*");
    reveal_strlit("**");
    reveal_strlit("{room}");
    reveal_strlit("{entity}");
    assert("*"@.len() == 1 && "**"@.len() == 2 && "{room}"@.len() == 6 && "{entity}"@.len() == 8);
}

/// A written key is taken exactly where it has no empty piece and, read
/// piece by piece, lies in the key space.
pub proof fn law_the_key_space_is_what_is_taken(raw: Seq<char>)
    ensures
        expand::checked(raw) is Ok <==> raw.len() > 0 && !text::split_at_each(raw, '/').contains(
            Seq::empty(),
        ) && (exists|k: Seq<SegmentView>| #[trigger] in_key_space(k) && spells(raw, k)),
        expand::checked(raw) is Ok ==> spells(raw, expand::checked(raw)->Ok_0) && in_key_space(
            expand::checked(raw)->Ok_0,
        ),
{
    let pieces = text::split_at_each(raw, '/');
    let k = Seq::new(pieces.len(), |i: int| keyspace::segment_of(pieces[i]));
    assert forall|i: int| 0 <= i < pieces.len() implies reads_as(#[trigger] k[i], pieces[i]) by {
        lemma_pieces_read(pieces[i]);
    }
    assert(spells(raw, k));
    assert forall|o: Seq<SegmentView>| #[trigger] in_key_space(o) && spells(raw, o) implies o
        == k by {
        assert forall|i: int| 0 <= i < pieces.len() implies o[i] == k[i] by {
            assert(reads_as(o[i], pieces[i]));
            assert(reads_as(k[i], pieces[i]));
        }
        assert(o =~= k);
    }
    lemma_in_key_space(k, raw);
    if expand::checked(raw) is Ok {
        assert(in_key_space(k) && spells(raw, k));
        assert(expand::checked(raw)->Ok_0 == k);
    }
    if exists|o: Seq<SegmentView>| #[trigger] in_key_space(o) && spells(raw, o) {
        let o = choose|o: Seq<SegmentView>| #[trigger] in_key_space(o) && spells(raw, o);
        assert(o == k);
        assert(keyspace::schema_fault(k, raw) is None);
    }
}

proof fn lemma_in_key_space(k: Seq<SegmentView>, raw: Seq<char>)
    ensures
        in_key_space(k) <==> keyspace::schema_fault(k, raw) is None,
{
    if k.len() > 1 && k[1] is Literal {
        lemma_classes(k[1]->Literal_0);
        lemma_addressed(k[1]->Literal_0);
        lemma_class_words();
    }
}

proof fn lemma_class_words()
    ensures
        "forecast"@ != "state"@,
        "forecast"@ != "cmd"@,
        "forecast"@ != "arbiter"@,
{
    reveal_strlit("forecast");
    reveal_strlit("state");
    reveal_strlit("cmd");
    reveal_strlit("arbiter");
    assert("forecast"@.len() == 8 && "state"@.len() == 5 && "cmd"@.len() == 3 && "arbiter"@.len()
        == 7);
}

/// The expression is what is written, piece by piece.
pub open spec fn spells(raw: Seq<char>, k: Seq<SegmentView>) -> bool {
    let pieces = text::split_at_each(raw, '/');
    &&& k.len() == pieces.len()
    &&& forall|i: int| 0 <= i < k.len() ==> reads_as(#[trigger] k[i], pieces[i])
}

/// Unit `u` of the house is the one that declares the publish: the first of
/// its name that has the entry.
pub open spec fn declares_publish(
    h: House,
    u: int,
    unit: Seq<char>,
    entry: Seq<char>,
    spec: PublishSpec,
) -> bool {
    &&& 0 <= u < h.units@.len()
    &&& h.units@[u].manifest.unit.name@ == unit
    &&& h.units@[u].manifest.bus is Some
    &&& names::lookup(h.units@[u].manifest.bus->Some_0.publishes@, entry) == Some(spec)
    &&& forall|v: int|
        0 <= v < u && (#[trigger] h.units@[v]).manifest.unit.name@ == unit
            && h.units@[v].manifest.bus is Some ==> names::lookup(
            h.units@[v].manifest.bus->Some_0.publishes@,
            entry,
        ) is None
}

proof fn lemma_declarer(
    units: Seq<LoadedUnit>,
    unit: Seq<char>,
    entry: Seq<char>,
    u: int,
)
    requires
        0 <= u < units.len(),
        units[u].manifest.unit.name@ == unit,
        grants::publishes_under(units[u], entry),
        forall|v: int|
            0 <= v < u && (#[trigger] units[v]).manifest.unit.name@ == unit
                ==> !grants::publishes_under(units[v], entry),
    ensures
        grants::declarer(units, unit, entry) == Some(units[u]),
    decreases units.len(),
{
    if u > 0 {
        let rest = units.drop_first();
        assert(rest[u - 1] == units[u]);
        assert forall|v: int|
            0 <= v < u - 1 && (#[trigger] rest[v]).manifest.unit.name@
                == unit implies !grants::publishes_under(rest[v], entry) by {
            assert(rest[v] == units[v + 1]);
        }
        lemma_declarer(rest, unit, entry, u - 1);
    }
}

pub proof fn lemma_declaration(h: House, u: int, k: ExpandedView, spec: PublishSpec)
    requires
        declares_publish(h, u, k.unit, k.entry, spec),
    ensures
        grants::declarer(h.units@, k.unit, k.entry) == Some(h.units@[u]),
        grants::declaration(h, k) == spec,
{
    assert forall|v: int|
        0 <= v < u && (#[trigger] h.units@[v]).manifest.unit.name@
            == k.unit implies !grants::publishes_under(h.units@[v], k.entry) by {}
    lemma_declarer(h.units@, k.unit, k.entry, u);
}

/// The key is a command publish of a unit that is no adapter: one of its
/// expressions has the class `cmd`, or it has none and its source has it.
pub open spec fn is_command_publish(x: ExpandedView) -> bool {
    &&& x.kind != UnitKind::Adapter
    &&& x.direction == Direction::Publishes
    &&& (exists|c: int|
        0 <= c < x.exprs.len() && (#[trigger] x.exprs[c]).len() > 1 && x.exprs[c][1]
            == SegmentView::Literal("cmd"@)) || x.exprs.len() == 0 && source_commands(x.source)
}

/// The second piece of the source is `cmd`, and no piece of it is empty.
pub open spec fn source_commands(source: Seq<char>) -> bool {
    let pieces = text::split_at_each(source, '/');
    &&& source.len() > 0
    &&& !pieces.contains(Seq::empty())
    &&& pieces.len() > 1
    &&& pieces[1] == "cmd"@
}

proof fn lemma_source_commands(source: Seq<char>)
    ensures
        source_commands(source) <==> match keyspace::parsed(source) {
            Ok(e) => keyspace::class_of(e) == Some("cmd"@),
            Err(_) => false,
        },
{
    let pieces = text::split_at_each(source, '/');
    if pieces.len() > 1 {
        lemma_pieces_read(pieces[1]);
        reveal_strlit("*");
        reveal_strlit("**");
        reveal_strlit("{room}");
        reveal_strlit("{entity}");
        reveal_strlit("cmd");
        assert("*"@.len() == 1 && "**"@.len() == 2 && "{room}"@.len() == 6 && "{entity}"@.len()
            == 8 && "cmd"@.len() == 3);
    }
}

pub proof fn lemma_commands(x: ExpandedView)
    ensures
        is_command_publish(x) <==> grants::commands(x),
{
    lemma_source_commands(x.source);
    if grants::any_of_class(x.exprs, "cmd"@) {
        let c = choose|c: int|
            0 <= c < x.exprs.len() && keyspace::class_of(#[trigger] x.exprs[c]) == Some("cmd"@);
        assert(x.exprs[c].len() > 1);
    }
    if exists|c: int|
        0 <= c < x.exprs.len() && (#[trigger] x.exprs[c]).len() > 1 && x.exprs[c][1]
            == SegmentView::Literal("cmd"@) {
        let c = choose|c: int|
            0 <= c < x.exprs.len() && (#[trigger] x.exprs[c]).len() > 1 && x.exprs[c][1]
                == SegmentView::Literal("cmd"@);
        assert(keyspace::class_of(x.exprs[c]) == Some("cmd"@));
    }
}

/// The entity has the capability, and one of the expressions stands for one
/// of its command keys.
pub open spec fn reachable(
    exprs: Seq<Seq<SegmentView>>,
    capability: Seq<char>,
    e: LoadedEntity,
) -> bool {
    &&& e.file.entity.capability@ == capability
    &&& exists|c: int|
        0 <= c < exprs.len() && touches(
            #[trigger] exprs[c],
            "cmd"@,
            e.file.entity.room@,
            e.name@,
        )
}

/// What the table records of an entity: its name, room and owner, and the
/// write mode that is in force.
pub open spec fn records(r: GrantEntityView, e: LoadedEntity) -> bool {
    &&& r.name == e.name@
    &&& r.room == e.file.entity.room@
    &&& r.owner == e.owner@
    &&& r.write == write_mode(e)
}

/// The record is of an entity of the house that has the capability and that
/// the expressions reach.
pub open spec fn records_reached(
    r: GrantEntityView,
    h: House,
    exprs: Seq<Seq<SegmentView>>,
    capability: Seq<char>,
) -> bool {
    exists|m: int|
        0 <= m < h.entities@.len() && reachable(exprs, capability, #[trigger] h.entities@[m])
            && records(r, h.entities@[m])
}

/// The entities of a grant are those, and only those, that have its
/// capability and that the expressions reach, by name.
pub open spec fn grants_what_it_reaches(g: GrantView, h: House, exprs: Seq<Seq<SegmentView>>) -> bool {
    &&& forall|m: int|
        0 <= m < h.entities@.len() && reachable(
            exprs,
            g.capability,
            #[trigger] h.entities@[m],
        ) ==> exists|j: int|
            0 <= j < g.entities.len() && records(#[trigger] g.entities[j], h.entities@[m])
    &&& forall|j: int|
        0 <= j < g.entities.len() ==> #[trigger] records_reached(
            g.entities[j],
            h,
            exprs,
            g.capability,
        )
    &&& forall|a: int, b: int|
        0 <= a < b < g.entities.len() ==> !text::lex_lt(
            (#[trigger] g.entities[b]).name,
            (#[trigger] g.entities[a]).name,
        )
}

proof fn lemma_reachable(x: ExpandedView, capability: Seq<char>, e: LoadedEntity)
    ensures
        reachable(x.exprs, capability, e) <==> grants::grants_onto(x, capability, e),
{
    let prefix = grants::subtree("cmd"@, e.file.entity.room@, e.name@);
    assert forall|c: int| 0 <= c < x.exprs.len() implies keyspace::covers(
        #[trigger] x.exprs[c],
        prefix,
    ) == touches(x.exprs[c], "cmd"@, e.file.entity.room@, e.name@) by {
        lemma_touches(x.exprs[c], "cmd"@, e.file.entity.room@, e.name@);
    }
}

proof fn lemma_deduped_in_order<T: order::Ranked>(s: Seq<T::V>)
    requires
        order::in_order::<T>(s),
    ensures
        order::in_order::<T>(order::deduped(s)),
        s.len() > 0 ==> order::deduped(s).len() > 0 && order::deduped(s).last() == s.last(),
        forall|i: int|
            0 <= i < order::deduped(s).len() ==> s.contains(#[trigger] order::deduped(s)[i]),
    decreases s.len(),
{
    if s.len() > 1 {
        let d = s.drop_last();
        assert(order::in_order::<T>(d));
        lemma_deduped_in_order::<T>(d);
        let r = order::deduped(s);
        let q = order::deduped(d);
        assert forall|i: int| 0 <= i < r.len() implies s.contains(#[trigger] r[i]) by {
            if i < q.len() {
                assert(d.contains(q[i]));
                let m = d.index_of(q[i]);
                assert(s[m] == r[i]);
            } else {
                assert(s[s.len() - 1] == r[i]);
            }
        }
        if r.len() > q.len() {
            assert forall|i: int, j: int| 0 <= i < j < r.len() implies !T::goes_before(
                #[trigger] r[j],
                #[trigger] r[i],
            ) by {
                if j == q.len() {
                    assert(d.contains(q[i]));
                    let m = d.index_of(q[i]);
                    assert(s[m] == r[i]);
                    assert(s[s.len() - 1] == r[j]);
                }
            }
        }
    } else if s.len() == 1 {
        assert(order::deduped(s) =~= s);
    }
}

pub proof fn lemma_granted_has(h: House, x: ExpandedView, capability: Seq<char>, m: int) -> (j: int)
    requires
        0 <= m < h.entities@.len(),
        reachable(x.exprs, capability, h.entities@[m]),
    ensures
        0 <= j < grants::granted(h, x, capability).len(),
        records(grants::granted(h, x, capability)[j], h.entities@[m]),
{
    let entities = h.entities@;
    let found = grants::reached(h, x, capability, entities.len());
    let s = order::sorted::<grants::GrantEntity>(found);
    let f = |i: int|
        text::only_if(
            grants::grants_onto(x, capability, entities[i]),
            grants::granted_record(entities[i]),
        );
    let r = grants::granted_record(entities[m]);
    lemma_reachable(x, capability, entities[m]);
    assert(f(m)[0] == r);
    assert(f(m).contains(r));
    text::lemma_each_has(entities.len(), f, m, r);
    order::lemma_sorted::<grants::GrantEntity>(found);
    vstd::seq_lib::to_multiset_contains(found, r);
    vstd::seq_lib::to_multiset_contains(s, r);
    order::lemma_deduped_keeps(s, r);
    grants::granted(h, x, capability).index_of(r)
}

pub proof fn lemma_granted_from(h: House, x: ExpandedView, capability: Seq<char>, j: int) -> (m: int)
    requires
        0 <= j < grants::granted(h, x, capability).len(),
    ensures
        0 <= m < h.entities@.len(),
        reachable(x.exprs, capability, h.entities@[m]),
        records(grants::granted(h, x, capability)[j], h.entities@[m]),
{
    let entities = h.entities@;
    let found = grants::reached(h, x, capability, entities.len());
    let s = order::sorted::<grants::GrantEntity>(found);
    let f = |i: int|
        text::only_if(
            grants::grants_onto(x, capability, entities[i]),
            grants::granted_record(entities[i]),
        );
    let r = grants::granted(h, x, capability)[j];
    order::lemma_sorted::<grants::GrantEntity>(found);
    lemma_deduped_in_order::<grants::GrantEntity>(s);
    assert(s.contains(r));
    vstd::seq_lib::to_multiset_contains(s, r);
    vstd::seq_lib::to_multiset_contains(found, r);
    let p = found.index_of(r);
    let m = text::lemma_in_each(entities.len(), f, p);
    assert(f(m).contains(found[p]));
    lemma_reachable(x, capability, entities[m]);
    m
}

proof fn lemma_granted_by_name(h: House, x: ExpandedView, capability: Seq<char>, a: int, b: int)
    requires
        0 <= a < b < grants::granted(h, x, capability).len(),
    ensures
        !text::lex_lt(
            grants::granted(h, x, capability)[b].name,
            grants::granted(h, x, capability)[a].name,
        ),
{
    let found = grants::reached(h, x, capability, h.entities@.len());
    let s = order::sorted::<grants::GrantEntity>(found);
    let r = order::deduped(s);
    order::lemma_sorted::<grants::GrantEntity>(found);
    lemma_deduped_in_order::<grants::GrantEntity>(s);
    assert(!<grants::GrantEntity as order::Ranked>::goes_before(r[b], r[a]));
}

proof fn lemma_granted(h: House, x: ExpandedView, g: GrantView)
    requires
        g.entities == grants::granted(h, x, g.capability),
    ensures
        grants_what_it_reaches(g, h, x.exprs),
{
    assert forall|m: int|
        0 <= m < h.entities@.len() && reachable(
            x.exprs,
            g.capability,
            #[trigger] h.entities@[m],
        ) implies exists|j: int|
        0 <= j < g.entities.len() && records(#[trigger] g.entities[j], h.entities@[m]) by {
        let j = lemma_granted_has(h, x, g.capability, m);
        assert(records(g.entities[j], h.entities@[m]));
    }
    assert forall|j: int| 0 <= j < g.entities.len() implies #[trigger] records_reached(
        g.entities[j],
        h,
        x.exprs,
        g.capability,
    ) by {
        let m = lemma_granted_from(h, x, g.capability, j);
        assert(reachable(x.exprs, g.capability, h.entities@[m]));
    }
    assert forall|a: int, b: int| 0 <= a < b < g.entities.len() implies !text::lex_lt(
        (#[trigger] g.entities[b]).name,
        (#[trigger] g.entities[a]).name,
    ) by {
        lemma_granted_by_name(h, x, g.capability, a, b);
    }
}

/// Every command publish whose declaration names a known capability has its
/// grant in the table: with that capability, with the declared priority or
/// else that of automations, and onto exactly the entities of the house that
/// have the capability and lie under one of its expressions.
pub proof fn law_commands_are_granted(
    h: House,
    keys: Seq<ExpandedView>,
    n: int,
    u: int,
    spec: PublishSpec,
)
    requires
        0 <= n < keys.len(),
        is_command_publish(keys[n]),
        declares_publish(h, u, keys[n].unit, keys[n].entry, spec),
        spec.capability is Some,
        text::listed(CAPABILITIES@, spec.capability->Some_0@),
    ensures
        exists|i: int|
            0 <= i < grants::grant_table(h, keys).len() && (#[trigger] grants::grant_table(
                h,
                keys,
            )[i]).unit == keys[n].unit && grants::grant_table(h, keys)[i].publish == keys[n].entry
                && grants::grant_table(h, keys)[i].capability == spec.capability->Some_0@
                && grants::grant_table(h, keys)[i].priority == (match spec.priority {
                Some(p) => p,
                None => Priority::Automation,
            }) && grants_what_it_reaches(grants::grant_table(h, keys)[i], h, keys[n].exprs),
{
    let x = keys[n];
    lemma_commands(x);
    lemma_declaration(h, u, x, spec);
    assert(grants::capability_errors(h, x).len() == 0);
    let g = grants::key_grants(h, x)[0];
    let raw = grants::raw_grants(h, keys, keys.len());
    let table = grants::grant_table(h, keys);
    let f = |i: int| grants::key_grants(h, keys[i]);
    assert(f(n)[0] == g);
    assert(f(n).contains(g));
    text::lemma_each_has(keys.len(), f, n, g);
    order::lemma_sorted::<grants::Grant>(raw);
    vstd::seq_lib::to_multiset_contains(raw, g);
    vstd::seq_lib::to_multiset_contains(table, g);
    lemma_granted(h, x, g);
    let i = table.index_of(g);
    assert(table[i] == g);
}

/// The publish of the keys that a grant is made of.
pub open spec fn grant_of(
    g: GrantView,
    h: House,
    x: ExpandedView,
    u: int,
    spec: PublishSpec,
) -> bool {
    &&& is_command_publish(x)
    &&& x.unit == g.unit
    &&& x.entry == g.publish
    &&& declares_publish(h, u, g.unit, g.publish, spec)
    &&& spec.capability is Some
    &&& spec.capability->Some_0@ == g.capability
    &&& text::listed(CAPABILITIES@, g.capability)
    &&& g.priority == match spec.priority {
        Some(p) => p,
        None => Priority::Automation,
    }
    &&& grants_what_it_reaches(g, h, x.exprs)
}

/// Every grant of the table comes from a command publish of the keys, is
/// for the capability that it declares, and is onto exactly the entities
/// that have the capability and lie under one of its expressions.
pub proof fn law_grants_come_from_commands(h: House, keys: Seq<ExpandedView>, i: int)
    requires
        grants::keys_resolve(h, keys),
        0 <= i < grants::grant_table(h, keys).len(),
    ensures
        exists|n: int, u: int, spec: PublishSpec|
            0 <= n < keys.len() && #[trigger] grant_of(
                grants::grant_table(h, keys)[i],
                h,
                keys[n],
                u,
                spec,
            ),
{
    let raw = grants::raw_grants(h, keys, keys.len());
    let table = grants::grant_table(h, keys);
    let g = table[i];
    let f = |i: int| grants::key_grants(h, keys[i]);
    order::lemma_sorted::<grants::Grant>(raw);
    assert(table.contains(g));
    vstd::seq_lib::to_multiset_contains(table, g);
    vstd::seq_lib::to_multiset_contains(raw, g);
    let p = raw.index_of(g);
    let n = text::lemma_in_each(keys.len(), f, p);
    assert(f(n).contains(raw[p]));
    let x = keys[n];
    lemma_commands(x);
    assert(x.direction == Direction::Publishes);
    let u = lemma_declared_at(h.units@, x.unit, x.entry);
    let spec = names::lookup(h.units@[u].manifest.bus->Some_0.publishes@, x.entry)->Some_0;
    assert(declares_publish(h, u, x.unit, x.entry, spec));
    lemma_declaration(h, u, x, spec);
    lemma_granted(h, x, g);
    assert(grant_of(g, h, x, u, spec));
}

/// The table goes by unit, then by publish.
pub proof fn law_the_grant_table_is_ordered(h: House, keys: Seq<ExpandedView>, a: int, b: int)
    requires
        0 <= a < b < grants::grant_table(h, keys).len(),
    ensures
        ({
            let g = grants::grant_table(h, keys)[a];
            let k = grants::grant_table(h, keys)[b];
            &&& !text::lex_lt(k.unit, g.unit)
            &&& k.unit == g.unit ==> !text::lex_lt(k.publish, g.publish)
        }),
{
    order::lemma_sorted::<grants::Grant>(grants::raw_grants(h, keys, keys.len()));
    let table = grants::grant_table(h, keys);
    assert(!<grants::Grant as order::Ranked>::goes_before(table[b], table[a]));
}

proof fn lemma_declared_at(units: Seq<LoadedUnit>, unit: Seq<char>, entry: Seq<char>) -> (u: int)
    requires
        grants::declarer(units, unit, entry) is Some,
    ensures
        0 <= u < units.len(),
        units[u].manifest.unit.name@ == unit,
        grants::publishes_under(units[u], entry),
        forall|v: int|
            0 <= v < u && (#[trigger] units[v]).manifest.unit.name@ == unit
                ==> !grants::publishes_under(units[v], entry),
    decreases units.len(),
{
    if units[0].manifest.unit.name@ == unit && grants::publishes_under(units[0], entry) {
        0
    } else {
        let rest = units.drop_first();
        let u = lemma_declared_at(rest, unit, entry);
        assert forall|v: int|
            0 <= v < u + 1 && (#[trigger] units[v]).manifest.unit.name@
                == unit implies !grants::publishes_under(units[v], entry) by {
            if v > 0 {
                assert(rest[v - 1] == units[v]);
            }
        }
        u + 1
    }
}

} // verus!
