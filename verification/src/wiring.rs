//! How the units of an accepted house are wired: which inputs are fed from
//! where, which classes each unit publishes under, and which command
//! publishes declare what they are for.

use crate::expand::Direction;
use crate::expand::ExpandedView;
use crate::grants;
use crate::grants::FeedView;
use crate::keyspace;
use crate::manifest::UnitKind;
use crate::manifest::CAPABILITIES;
use crate::order;
use crate::policies::is_first_entity;
use crate::policies::is_first_unit;
use crate::policies::law_entities_are_found_by_name;
use crate::policies::law_units_are_found_by_name;
use crate::policies::lemma_automation;
use crate::policies::lemma_first_entity;
use crate::policies::names_automation;
use crate::reach::declares_publish;
use crate::reach::is_command_publish;
use crate::reach::lemma_commands;
use crate::reach::lemma_declaration;
use crate::manifest::PublishSpec;
use crate::repo;
use crate::repo::House;
use crate::repo::LoadedEntity;
use crate::text;
use vstd::prelude::*;

verus! {

/// The state key of the aspect of an entity.
pub open spec fn state_key(e: LoadedEntity, aspect: Seq<char>) -> Seq<char> {
    "home/state/"@ + e.file.entity.room@ + "/"@ + e.name@ + "/"@ + aspect
}

/// One of the keys that the unit publishes stands for the key or for one
/// below it.
pub open spec fn publishes(keys: Seq<ExpandedView>, unit: Seq<char>, key: Seq<char>) -> bool {
    exists|n: int, c: int|
        #![trigger keys[n].exprs[c]]
        0 <= n < keys.len() && keys[n].unit == unit && keys[n].direction == Direction::Publishes
            && 0 <= c < keys[n].exprs.len() && keyspace::covers(
            keys[n].exprs[c],
            text::split_at_each(key, '/'),
        )
}

proof fn lemma_published(keys: Seq<ExpandedView>, unit: Seq<char>, key: Seq<char>)
    ensures
        grants::published(keys, unit, text::split_at_each(key, '/')) <==> publishes(
            keys,
            unit,
            key,
        ),
{
    let pieces = text::split_at_each(key, '/');
    if grants::published(keys, unit, pieces) {
        let n = choose|n: int|
            0 <= n < keys.len() && (#[trigger] keys[n]).unit == unit && keys[n].direction
                == Direction::Publishes && grants::any_covers(keys[n].exprs, pieces);
        let c = choose|c: int|
            0 <= c < keys[n].exprs.len() && keyspace::covers(#[trigger] keys[n].exprs[c], pieces);
        assert(keyspace::covers(keys[n].exprs[c], pieces));
    }
    if publishes(keys, unit, key) {
        let (n, c) = choose|n: int, c: int|
            #![trigger keys[n].exprs[c]]
            0 <= n < keys.len() && keys[n].unit == unit && keys[n].direction
                == Direction::Publishes && 0 <= c < keys[n].exprs.len() && keyspace::covers(
                keys[n].exprs[c],
                pieces,
            );
        assert(grants::any_covers(keys[n].exprs, pieces));
    }
}

/// Input `j` of entity `i`, a device's, is fed from entity `s`: the first of
/// the name that the input gives, which an automation binds only if it also
/// publishes the aspect.
pub open spec fn feeds_from(
    h: House,
    keys: Seq<ExpandedView>,
    i: int,
    j: int,
    s: int,
) -> bool {
    &&& 0 <= i < h.entities@.len()
    &&& h.entities@[i].file.inputs is Some
    &&& !names_automation(h, h.entities@[i].owner@)
    &&& 0 <= j < h.entities@[i].file.inputs->Some_0@.len()
    &&& is_first_entity(h.entities@, s, h.entities@[i].file.inputs->Some_0@[j].1.entity@)
    &&& names_automation(h, h.entities@[s].owner@) ==> publishes(
        keys,
        h.entities@[s].owner@,
        state_key(h.entities@[s], h.entities@[i].file.inputs->Some_0@[j].1.aspect@),
    )
}

/// What the feed of input `j` of entity `i` from entity `s` says.
pub open spec fn feed_says(x: FeedView, h: House, i: int, j: int, s: int) -> bool {
    let input = h.entities@[i].file.inputs->Some_0@[j];
    &&& x.entity == h.entities@[i].name@
    &&& x.input == input.0@
    &&& x.source_entity == h.entities@[s].name@
    &&& x.source_aspect == input.1.aspect@
    &&& x.source_owner == h.entities@[s].owner@
    &&& x.key == state_key(h.entities@[s], input.1.aspect@)
}

/// The feeds of a house are those of its device inputs whose source exists
/// and is published: each of them, and nothing else.
pub proof fn law_feeds_are_what_is_wired(h: House, keys: Seq<ExpandedView>, x: FeedView)
    ensures
        grants::house_feeds(h, keys, h.entities@.len()).contains(x) <==> exists|
            i: int,
            j: int,
            s: int,
        |
            #[trigger] feeds_from(h, keys, i, j, s) && feed_says(x, h, i, j, s),
{
    let all = grants::house_feeds(h, keys, h.entities@.len());
    let f = |i: int| grants::entity_feeds(h, keys, h.entities@[i]);
    if all.contains(x) {
        let p = all.index_of(x);
        let i = text::lemma_in_each(h.entities@.len(), f, p);
        assert(f(i).contains(all[p]));
        let e = h.entities@[i];
        lemma_automation(h, e.owner@);
        let inputs = e.file.inputs->Some_0@;
        let part = grants::inputs_feeds(h, keys, e, inputs.len());
        let g = |j: int| grants::input_feeds(h, keys, e, inputs[j].0@, inputs[j].1);
        let q = part.index_of(x);
        let j = text::lemma_in_each(inputs.len(), g, q);
        assert(g(j).contains(part[q]));
        let name = inputs[j].1.entity@;
        law_entities_are_found_by_name(h.entities@, name);
        let src = repo::entity_named(h.entities@, name)->Some_0;
        let s = choose|s: int|
            #[trigger] is_first_entity(h.entities@, s, name) && h.entities@[s] == src;
        lemma_automation(h, src.owner@);
        lemma_published(keys, src.owner@, state_key(src, inputs[j].1.aspect@));
        assert(feeds_from(h, keys, i, j, s));
        assert(feed_says(x, h, i, j, s));
    }
    if exists|i: int, j: int, s: int|
        #[trigger] feeds_from(h, keys, i, j, s) && feed_says(x, h, i, j, s) {
        let (i, j, s) = choose|i: int, j: int, s: int|
            #[trigger] feeds_from(h, keys, i, j, s) && feed_says(x, h, i, j, s);
        let e = h.entities@[i];
        let inputs = e.file.inputs->Some_0@;
        let src = h.entities@[s];
        lemma_automation(h, e.owner@);
        lemma_automation(h, src.owner@);
        lemma_first_entity(h.entities@, s, inputs[j].1.entity@);
        lemma_published(keys, src.owner@, state_key(src, inputs[j].1.aspect@));
        let g = |j: int| grants::input_feeds(h, keys, e, inputs[j].0@, inputs[j].1);
        assert(g(j).len() == 1);
        assert(g(j)[0] == x);
        assert(g(j).contains(x));
        text::lemma_each_has(inputs.len(), g, j, x);
        assert(f(i).contains(x));
        text::lemma_each_has(h.entities@.len(), f, i, x);
    }
}

/// Input `j` of entity `i` is in order: a device's, from an entity of the
/// house, which an automation binds only if it also publishes the aspect.
pub open spec fn input_in_order(h: House, keys: Seq<ExpandedView>, i: int, j: int) -> bool {
    exists|s: int| #[trigger] feeds_from(h, keys, i, j, s)
}

proof fn lemma_input(h: House, keys: Seq<ExpandedView>, i: int, j: int)
    requires
        0 <= i < h.entities@.len(),
        h.entities@[i].file.inputs is Some,
        !grants::is_automation(h, h.entities@[i].owner@),
        0 <= j < h.entities@[i].file.inputs->Some_0@.len(),
    ensures
        grants::input_errors(
            h,
            keys,
            h.entities@[i],
            h.entities@[i].file.inputs->Some_0@[j].0@,
            h.entities@[i].file.inputs->Some_0@[j].1,
        ).len() == 0 <==> input_in_order(h, keys, i, j),
{
    let e = h.entities@[i];
    let source = e.file.inputs->Some_0@[j].1;
    let name = source.entity@;
    lemma_automation(h, e.owner@);
    law_entities_are_found_by_name(h.entities@, name);
    if repo::entity_named(h.entities@, name) is Some {
        let src = repo::entity_named(h.entities@, name)->Some_0;
        lemma_automation(h, src.owner@);
        lemma_published(keys, src.owner@, state_key(src, source.aspect@));
        let s = choose|s: int|
            #[trigger] is_first_entity(h.entities@, s, name) && h.entities@[s] == src;
        if !grants::unpublished(h, keys, src, source.aspect@) {
            assert(feeds_from(h, keys, i, j, s));
        }
    }
    if input_in_order(h, keys, i, j) {
        let s = choose|s: int| #[trigger] feeds_from(h, keys, i, j, s);
        lemma_first_entity(h.entities@, s, name);
    }
}

/// Nothing is said about inputs exactly where every entity that declares
/// some is a device's, and each of its inputs is in order.
pub proof fn law_inputs_are_in_order(h: House, keys: Seq<ExpandedView>)
    ensures
        grants::house_feed_errors(h, keys, h.entities@.len()).len() == 0 <==> forall|i: int|
            0 <= i < h.entities@.len() && (#[trigger] h.entities@[i]).file.inputs is Some ==> (
            !names_automation(h, h.entities@[i].owner@) && forall|j: int|
                0 <= j < h.entities@[i].file.inputs->Some_0@.len() ==> #[trigger] input_in_order(
                    h,
                    keys,
                    i,
                    j,
                )),
{
    let f = |i: int| grants::entity_feed_errors(h, keys, h.entities@[i]);
    let n = h.entities@.len();
    text::lemma_each_empty(n, f);
    assert forall|i: int| 0 <= i < n implies ((#[trigger] f(i)).len() == 0 <==> (
    h.entities@[i].file.inputs is Some ==> (!names_automation(h, h.entities@[i].owner@) && forall|
        j: int,
    |
        0 <= j < h.entities@[i].file.inputs->Some_0@.len() ==> #[trigger] input_in_order(
            h,
            keys,
            i,
            j,
        )))) by {
        let e = h.entities@[i];
        lemma_automation(h, e.owner@);
        if e.file.inputs is Some && !grants::is_automation(h, e.owner@) {
            let inputs = e.file.inputs->Some_0@;
            let g = |j: int| grants::input_errors(h, keys, e, inputs[j].0@, inputs[j].1);
            text::lemma_each_empty(inputs.len(), g);
            assert forall|j: int| 0 <= j < inputs.len() implies ((#[trigger] g(j)).len() == 0
                <==> input_in_order(h, keys, i, j)) by {
                lemma_input(h, keys, i, j);
            }
            if f(i).len() == 0 {
                assert forall|j: int| 0 <= j < inputs.len() implies #[trigger] input_in_order(
                    h,
                    keys,
                    i,
                    j,
                ) by {
                    assert(g(j).len() == 0);
                }
            }
        }
    }
    if grants::house_feed_errors(h, keys, n).len() == 0 {
        assert forall|i: int|
            0 <= i < n && (#[trigger] h.entities@[i]).file.inputs is Some implies (
        !names_automation(h, h.entities@[i].owner@) && forall|j: int|
            0 <= j < h.entities@[i].file.inputs->Some_0@.len() ==> #[trigger] input_in_order(
                h,
                keys,
                i,
                j,
            )) by {
            assert(f(i).len() == 0);
        }
    }
}

/// Piece `p` of the source as it is written.
pub open spec fn piece(x: ExpandedView, p: int) -> Option<Seq<char>> {
    let pieces = text::split_at_each(x.source, '/');
    if 0 <= p < pieces.len() {
        Some(pieces[p])
    } else {
        None
    }
}

/// The unit may publish the key. Nobody but the core publishes under
/// `config` and `meta`. Under `health` and `discovery` a unit publishes
/// below its own name. Under `arbiter`, `clock` and `history` one service
/// publishes, and no other unit.
pub open spec fn may_publish(h: House, keys: Seq<ExpandedView>, n: int) -> bool {
    let class = piece(keys[n], 1);
    &&& class != Some("config"@)
    &&& class != Some("meta"@)
    &&& class == Some("health"@) || class == Some("discovery"@) ==> piece(keys[n], 2) == Some(
        keys[n].unit,
    )
    &&& class == Some("arbiter"@) || class == Some("clock"@) || class == Some("history"@) ==> {
        &&& exists|u: int|
            #[trigger] is_first_unit(h.units@, u, keys[n].unit)
                && h.units@[u].manifest.unit.kind == UnitKind::Service
        &&& forall|m: int|
            0 <= m < keys.len() && (#[trigger] keys[m]).direction == Direction::Publishes && piece(
                keys[m],
                1,
            ) == class ==> keys[m].unit == keys[n].unit
    }
}

proof fn lemma_sole_publisher(keys: Seq<ExpandedView>, n: int, class: Seq<char>)
    requires
        0 <= n < keys.len(),
        keys[n].direction == Direction::Publishes,
        piece(keys[n], 1) == Some(class),
    ensures
        grants::class_publishers(keys, class).len() <= 1 <==> forall|m: int|
            0 <= m < keys.len() && (#[trigger] keys[m]).direction == Direction::Publishes && piece(
                keys[m],
                1,
            ) == Some(class) ==> keys[m].unit == keys[n].unit,
{
    let all = grants::publishers(keys, class, keys.len());
    let units = order::distinct(all);
    order::lemma_distinct(all);
    let f = |i: int|
        text::only_if(
            keys[i].direction == Direction::Publishes && grants::source_piece(keys[i], 1) == Some(
                class,
            ),
            keys[i].unit,
        );
    assert forall|m: int|
        0 <= m < keys.len() && (#[trigger] keys[m]).direction == Direction::Publishes && piece(
            keys[m],
            1,
        ) == Some(class) implies units.contains(keys[m].unit) by {
        assert(f(m)[0] == keys[m].unit);
        assert(f(m).contains(keys[m].unit));
        text::lemma_each_has(keys.len(), f, m, keys[m].unit);
        assert(all.contains(keys[m].unit));
    }
    assert(units.contains(keys[n].unit));
    if units.len() <= 1 {
        assert forall|m: int|
            0 <= m < keys.len() && (#[trigger] keys[m]).direction == Direction::Publishes && piece(
                keys[m],
                1,
            ) == Some(class) implies keys[m].unit == keys[n].unit by {
            assert(units.contains(keys[m].unit));
        }
    } else {
        let a = units[0];
        let b = units[1];
        assert(units.contains(a) && units.contains(b));
        assert(all.contains(a) && all.contains(b));
        let p = all.index_of(a);
        let q = all.index_of(b);
        let i = text::lemma_in_each(keys.len(), f, p);
        let j = text::lemma_in_each(keys.len(), f, q);
        assert(f(i).contains(all[p]));
        assert(f(j).contains(all[q]));
        assert(keys[i].unit == a && keys[j].unit == b);
        assert(text::lex_lt(units[0], units[1]));
        text::lemma_lex_irreflexive(a);
    }
}

proof fn lemma_may_publish(h: House, keys: Seq<ExpandedView>, n: int)
    requires
        0 <= n < keys.len(),
        keys[n].direction == Direction::Publishes,
        piece(keys[n], 1) is Some ==> repo::unit_named(h.units@, keys[n].unit) is Some,
    ensures
        grants::reserved_errors(h, keys, keys[n]).len() == 0 <==> may_publish(h, keys, n),
{
    let class = piece(keys[n], 1);
    reveal_strlit("config");
    reveal_strlit("meta");
    reveal_strlit("health");
    reveal_strlit("discovery");
    reveal_strlit("arbiter");
    reveal_strlit("clock");
    reveal_strlit("history");
    assert("config"@.len() == 6 && "meta"@.len() == 4 && "health"@.len() == 6 && "discovery"@.len()
        == 9 && "arbiter"@.len() == 7 && "clock"@.len() == 5 && "history"@.len() == 7);
    assert("config"@[0] == 'c' && "health"@[0] == 'h' && "arbiter"@[0] == 'a' && "history"@[0]
        == 'h');
    if class is Some {
        lemma_sole_publisher(keys, n, class->Some_0);
        law_units_are_found_by_name(h.units@, keys[n].unit);
        let unit = repo::unit_named(h.units@, keys[n].unit)->Some_0;
        let u = choose|u: int|
            #[trigger] is_first_unit(h.units@, u, keys[n].unit) && h.units@[u] == unit;
        assert(is_first_unit(h.units@, u, keys[n].unit));
        assert forall|v: int| #[trigger] is_first_unit(h.units@, v, keys[n].unit) implies v
            == u by {
            if v < u {
                assert(h.units@[v].manifest.unit.name@ != keys[n].unit);
            } else if u < v {
                assert(h.units@[u].manifest.unit.name@ != keys[n].unit);
            }
        }
    }
}

/// Nothing is said about reserved classes exactly where every published key
/// is one that its unit may publish.
pub proof fn law_reserved_classes_are_kept(h: House, keys: Seq<ExpandedView>)
    requires
        grants::keys_resolve(h, keys),
    ensures
        grants::all_reserved_errors(h, keys, keys.len()).len() == 0 <==> forall|n: int|
            0 <= n < keys.len() && (#[trigger] keys[n]).direction == Direction::Publishes
                ==> may_publish(h, keys, n),
{
    let f = |i: int| grants::reserved_errors(h, keys, keys[i]);
    text::lemma_each_empty(keys.len(), f);
    assert forall|n: int| 0 <= n < keys.len() implies ((#[trigger] f(n)).len() == 0 <==> (
    keys[n].direction == Direction::Publishes ==> may_publish(h, keys, n))) by {
        if keys[n].direction == Direction::Publishes {
            assert(grants::source_piece(keys[n], 1) == piece(keys[n], 1));
            lemma_may_publish(h, keys, n);
        }
    }
    if grants::all_reserved_errors(h, keys, keys.len()).len() == 0 {
        assert forall|n: int|
            0 <= n < keys.len() && (#[trigger] keys[n]).direction
                == Direction::Publishes implies may_publish(h, keys, n) by {
            assert(f(n).len() == 0);
        }
    }
}

/// A command publish is in order exactly where its declaration names a
/// capability that is known. Every other key is.
pub proof fn law_commands_declare_a_capability(
    h: House,
    x: ExpandedView,
    u: int,
    spec: PublishSpec,
)
    requires
        is_command_publish(x) ==> declares_publish(h, u, x.unit, x.entry, spec),
    ensures
        grants::capability_errors(h, x).len() == 0 <==> (is_command_publish(x)
            ==> spec.capability is Some && text::listed(
            CAPABILITIES@,
            spec.capability->Some_0@,
        )),
{
    lemma_commands(x);
    if is_command_publish(x) {
        lemma_declaration(h, u, x, spec);
    }
}

} // verus!
