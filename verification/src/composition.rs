//! What the dashboard, the names and the declared keys of an accepted house
//! are, and what it takes for a house to be accepted as a whole.

use crate::acceptance;
use crate::acceptance::is_room;
use crate::acceptance::plain_name;
use crate::error::ErrorView;
use crate::expand;
use crate::floats;
use crate::grants;
use crate::grants::GrantView;
use crate::graph;
use crate::manifest;
use crate::manifest::UnitKind;
use crate::manifest::ViewSpec;
use crate::manifest::WidgetKind;
use crate::manifest::WidgetSpec;
use crate::order;
use crate::reach;
use crate::repo;
use crate::repo::House;
use crate::repo::LoadedUnit;
use crate::text;
use crate::validate;
use vstd::prelude::*;

verus! {

/// The widget has the fields of its kind and no others. Tiles, dials,
/// burners, charts and entity cards show an entity; a chart needs an aspect,
/// and a tile or a dial may have one; a room card names a room; unit and
/// parameter cards name a unit; only a chart has hours, a positive number;
/// only a group has widgets, and it needs some, and may have a label.
pub open spec fn fields_in_order(w: WidgetSpec) -> bool {
    let shows_entity = w.kind == WidgetKind::Tile || w.kind == WidgetKind::Dial || w.kind
        == WidgetKind::Burner || w.kind == WidgetKind::Entity || w.kind == WidgetKind::Chart;
    &&& w.entity is Some <==> shows_entity
    &&& w.kind == WidgetKind::Chart ==> w.aspect is Some
    &&& w.aspect is Some ==> w.kind == WidgetKind::Chart || w.kind == WidgetKind::Tile || w.kind
        == WidgetKind::Dial
    &&& w.room is Some <==> w.kind == WidgetKind::Room
    &&& w.unit is Some <==> w.kind == WidgetKind::Unit || w.kind == WidgetKind::Params
    &&& w.widgets@.len() > 0 <==> w.kind == WidgetKind::Group
    &&& w.label is Some ==> w.kind == WidgetKind::Group
    &&& w.hours matches Some(hours) ==> w.kind == WidgetKind::Chart && floats::place(hours.bits())
        > 0 && floats::finite(hours.bits())
}

proof fn lemma_field_words()
    ensures
        "entity"@.len() == 6,
        "aspect"@.len() == 6,
        "room"@.len() == 4,
        "unit"@.len() == 4,
        "hours"@.len() == 5,
        "label"@.len() == 5,
        "widgets"@.len() == 7,
        "entity"@[0] == 'e',
        "aspect"@[0] == 'a',
        "room"@[0] == 'r',
        "unit"@[0] == 'u',
        "hours"@[0] == 'h',
        "label"@[0] == 'l',
{
    reveal_strlit("entity");
    reveal_strlit("aspect");
    reveal_strlit("room");
    reveal_strlit("unit");
    reveal_strlit("hours");
    reveal_strlit("label");
    reveal_strlit("widgets");
}

proof fn lemma_missing(words: Seq<Seq<char>>, list: Seq<Seq<char>>, from: int)
    requires
        0 <= from,
    ensures
        validate::first_missing(words, list, from) is None <==> forall|i: int|
            from <= i < words.len() ==> list.contains(#[trigger] words[i]),
    decreases words.len() - from,
{
    if from < words.len() {
        lemma_missing(words, list, from + 1);
        if list.contains(words[from]) && validate::first_missing(words, list, from + 1) is None {
            assert forall|i: int| from <= i < words.len() implies list.contains(
                #[trigger] words[i],
            ) by {
                if i > from {
                    assert(from + 1 <= i);
                }
            }
        }
    }
}

proof fn lemma_in_sum(a: Seq<Seq<char>>, b: Seq<Seq<char>>, x: Seq<char>)
    ensures
        (a + b).contains(x) <==> a.contains(x) || b.contains(x),
{
    if a.contains(x) {
        let i = a.index_of(x);
        assert((a + b)[i] == x);
    }
    if b.contains(x) {
        let i = b.index_of(x);
        assert((a + b)[a.len() + i] == x);
    }
    if (a + b).contains(x) {
        let i = (a + b).index_of(x);
        if i < a.len() {
            assert(a[i] == x);
        } else {
            assert(b[i - a.len()] == x);
        }
    }
}

proof fn lemma_only(b: bool, y: Seq<char>, x: Seq<char>)
    ensures
        text::only_if(b, y).contains(x) <==> b && x == y,
{
    if b {
        assert(text::only_if(b, y)[0] == y);
    }
}

proof fn lemma_present(w: WidgetSpec, x: Seq<char>)
    ensures
        validate::present_fields(w).contains(x) <==> {
            ||| w.entity is Some && x == "entity"@
            ||| w.aspect is Some && x == "aspect"@
            ||| w.room is Some && x == "room"@
            ||| w.unit is Some && x == "unit"@
            ||| w.hours is Some && x == "hours"@
            ||| w.label is Some && x == "label"@
            ||| w.widgets@.len() > 0 && x == "widgets"@
        },
{
    let a = text::only_if(w.entity is Some, "entity"@);
    let b = text::only_if(w.aspect is Some, "aspect"@);
    let c = text::only_if(w.room is Some, "room"@);
    let d = text::only_if(w.unit is Some, "unit"@);
    let e = text::only_if(w.hours is Some, "hours"@);
    let f = text::only_if(w.label is Some, "label"@);
    let g = text::only_if(w.widgets@.len() > 0, "widgets"@);
    lemma_only(w.entity is Some, "entity"@, x);
    lemma_only(w.aspect is Some, "aspect"@, x);
    lemma_only(w.room is Some, "room"@, x);
    lemma_only(w.unit is Some, "unit"@, x);
    lemma_only(w.hours is Some, "hours"@, x);
    lemma_only(w.label is Some, "label"@, x);
    lemma_only(w.widgets@.len() > 0, "widgets"@, x);
    lemma_in_sum(a, b, x);
    lemma_in_sum(a + b, c, x);
    lemma_in_sum(a + b + c, d, x);
    lemma_in_sum(a + b + c + d, e, x);
    lemma_in_sum(a + b + c + d + e, f, x);
    lemma_in_sum(a + b + c + d + e + f, g, x);
}

/// The words that a kind of widget needs and may have.
spec fn needs(kind: WidgetKind, x: Seq<char>) -> bool {
    match kind {
        WidgetKind::Tile | WidgetKind::Dial | WidgetKind::Burner | WidgetKind::Entity => x
            == "entity"@,
        WidgetKind::Chart => x == "entity"@ || x == "aspect"@,
        WidgetKind::Room => x == "room"@,
        WidgetKind::Unit | WidgetKind::Params => x == "unit"@,
        WidgetKind::Group => x == "widgets"@,
        _ => false,
    }
}

spec fn may_have(kind: WidgetKind, x: Seq<char>) -> bool {
    match kind {
        WidgetKind::Tile | WidgetKind::Dial => x == "aspect"@,
        WidgetKind::Chart => x == "hours"@,
        WidgetKind::Group => x == "label"@,
        _ => false,
    }
}

proof fn lemma_needs(kind: WidgetKind, x: Seq<char>)
    ensures
        validate::required_fields(kind).contains(x) <==> needs(kind, x),
        validate::optional_fields(kind).contains(x) <==> may_have(kind, x),
{
    let r = validate::required_fields(kind);
    let o = validate::optional_fields(kind);
    if needs(kind, x) {
        if r[0] != x {
            assert(r[1] == x);
        }
    }
    if may_have(kind, x) {
        assert(o[0] == x);
    }
    if r.contains(x) {
        let i = r.index_of(x);
        assert(i == 0 || i == 1);
    }
    if o.contains(x) {
        let i = o.index_of(x);
        assert(i == 0);
    }
}

proof fn lemma_required_present(w: WidgetSpec)
    ensures
        validate::first_missing(validate::required_fields(w.kind), validate::present_fields(w), 0)
            is None <==> forall|x: Seq<char>|
            needs(w.kind, x) ==> #[trigger] validate::present_fields(w).contains(x),
{
    let required = validate::required_fields(w.kind);
    let present = validate::present_fields(w);
    lemma_missing(required, present, 0);
    if validate::first_missing(required, present, 0) is None {
        assert forall|x: Seq<char>| needs(w.kind, x) implies #[trigger] present.contains(x) by {
            lemma_needs(w.kind, x);
            let i = required.index_of(x);
            assert(present.contains(required[i]));
        }
    }
    if forall|x: Seq<char>| needs(w.kind, x) ==> #[trigger] present.contains(x) {
        assert forall|i: int| 0 <= i < required.len() implies present.contains(
            #[trigger] required[i],
        ) by {
            lemma_needs(w.kind, required[i]);
            assert(required.contains(required[i]));
        }
    }
}

proof fn lemma_present_allowed(w: WidgetSpec)
    ensures
        validate::first_missing(
            validate::present_fields(w),
            validate::required_fields(w.kind) + validate::optional_fields(w.kind),
            0,
        ) is None <==> forall|x: Seq<char>| #[trigger]
            validate::present_fields(w).contains(x) ==> needs(w.kind, x) || may_have(w.kind, x),
{
    let required = validate::required_fields(w.kind);
    let optional = validate::optional_fields(w.kind);
    let present = validate::present_fields(w);
    lemma_missing(present, required + optional, 0);
    if validate::first_missing(present, required + optional, 0) is None {
        assert forall|x: Seq<char>| #[trigger] present.contains(x) implies needs(w.kind, x)
            || may_have(w.kind, x) by {
            let i = present.index_of(x);
            assert((required + optional).contains(present[i]));
            lemma_in_sum(required, optional, x);
            lemma_needs(w.kind, x);
        }
    }
    if forall|x: Seq<char>| #[trigger]
        present.contains(x) ==> needs(w.kind, x) || may_have(w.kind, x) {
        assert forall|i: int| 0 <= i < present.len() implies (required + optional).contains(
            #[trigger] present[i],
        ) by {
            assert(present.contains(present[i]));
            lemma_in_sum(required, optional, present[i]);
            lemma_needs(w.kind, present[i]);
        }
    }
}

/// Nothing is said about the fields of a widget exactly where they are in
/// order.
pub proof fn law_widgets_have_the_fields_of_their_kind(w: WidgetSpec)
    ensures
        validate::fields_fault(w) is None <==> fields_in_order(w),
{
    lemma_field_words();
    lemma_required_present(w);
    lemma_present_allowed(w);
    let p = validate::present_fields(w);
    assert forall|x: Seq<char>| #[trigger] p.contains(x) <==> {
        ||| w.entity is Some && x == "entity"@
        ||| w.aspect is Some && x == "aspect"@
        ||| w.room is Some && x == "room"@
        ||| w.unit is Some && x == "unit"@
        ||| w.hours is Some && x == "hours"@
        ||| w.label is Some && x == "label"@
        ||| w.widgets@.len() > 0 && x == "widgets"@
    } by {
        lemma_present(w, x);
    }
    assert(p.contains("entity"@) <==> w.entity is Some);
    assert(p.contains("aspect"@) <==> w.aspect is Some);
    assert(p.contains("room"@) <==> w.room is Some);
    assert(p.contains("unit"@) <==> w.unit is Some);
    assert(p.contains("hours"@) <==> w.hours is Some);
    assert(p.contains("label"@) <==> w.label is Some);
    assert(p.contains("widgets"@) <==> w.widgets@.len() > 0);
    match w.kind {
        WidgetKind::Tile => {},
        WidgetKind::Dial => {},
        WidgetKind::Burner => {},
        WidgetKind::Entity => {},
        WidgetKind::Chart => {},
        WidgetKind::Room => {},
        WidgetKind::Unit => {},
        WidgetKind::Params => {},
        WidgetKind::Group => {},
        _ => {},
    }
}

/// What the widget refers to is there: its entity, which is a burner for a
/// burner widget, its room and its unit; and its aspect is a plain name.
pub open spec fn references_in_order(h: House, w: WidgetSpec) -> bool {
    &&& w.entity matches Some(name) ==> exists|i: int|
        #[trigger] crate::policies::is_first_entity(h.entities@, i, name@) && (w.kind
            == WidgetKind::Burner ==> h.entities@[i].file.entity.capability@ == "burner"@)
    &&& w.aspect matches Some(aspect) ==> plain_name(aspect@)
    &&& w.room matches Some(room) ==> is_room(h, room@)
    &&& w.unit matches Some(unit) ==> exists|i: int|
        0 <= i < h.units@.len() && (#[trigger] h.units@[i]).manifest.unit.name@ == unit@
}

proof fn lemma_references(h: House, w: WidgetSpec, subject: Seq<char>)
    ensures
        validate::reference_errors(h, w, subject).len() == 0 <==> references_in_order(h, w),
{
    if let Some(name) = w.entity {
        crate::policies::law_entities_are_found_by_name(h.entities@, name@);
        if repo::entity_named(h.entities@, name@) is Some {
            let i = choose|i: int|
                #[trigger] crate::policies::is_first_entity(h.entities@, i, name@)
                    && h.entities@[i] == repo::entity_named(h.entities@, name@)->Some_0;
            assert(crate::policies::is_first_entity(h.entities@, i, name@));
            assert forall|k: int| #[trigger] crate::policies::is_first_entity(
                h.entities@,
                k,
                name@,
            ) implies h.entities@[k] == h.entities@[i] by {
                crate::policies::lemma_first_entity(h.entities@, k, name@);
            }
        } else {
            assert forall|k: int| !(#[trigger] crate::policies::is_first_entity(
                h.entities@,
                k,
                name@,
            )) by {
                if crate::policies::is_first_entity(h.entities@, k, name@) {
                    assert(h.entities@[k].name@ != name@);
                }
            }
        }
    }
    if let Some(aspect) = w.aspect {
        acceptance::lemma_plain(aspect@);
    }
    if let Some(room) = w.room {
        acceptance::lemma_rooms(h, room@);
    }
    if let Some(unit) = w.unit {
        crate::restarts::lemma_has_unit(h.units@, unit@);
    }
    assert(validate::entity_reference_errors(h, w, subject).len() == 0 <==> (
    w.entity matches Some(name) ==> exists|i: int|
        #[trigger] crate::policies::is_first_entity(h.entities@, i, name@) && (w.kind
            == WidgetKind::Burner ==> h.entities@[i].file.entity.capability@ == "burner"@)));
}

/// The widget is in order by itself, as are those of a group, none of which
/// is a group.
pub open spec fn widget_in_order(h: House, w: WidgetSpec) -> bool {
    &&& fields_in_order(w)
    &&& references_in_order(h, w)
    &&& forall|k: int|
        0 <= k < w.widgets@.len() ==> (#[trigger] w.widgets@[k]).kind != WidgetKind::Group
            && fields_in_order(w.widgets@[k]) && references_in_order(h, w.widgets@[k])
}

proof fn lemma_widget(h: House, w: WidgetSpec, subject: Seq<char>)
    ensures
        validate::widget_errors(h, w, subject).len() == 0 <==> fields_in_order(w)
            && references_in_order(h, w),
{
    law_widgets_have_the_fields_of_their_kind(w);
    lemma_references(h, w, subject);
}

proof fn lemma_group(h: House, w: WidgetSpec, subject: Seq<char>)
    ensures
        validate::group_errors(h, w, subject, w.widgets@.len()).len() == 0 <==> forall|k: int|
            0 <= k < w.widgets@.len() ==> (#[trigger] w.widgets@[k]).kind != WidgetKind::Group
                && fields_in_order(w.widgets@[k]) && references_in_order(h, w.widgets@[k]),
{
    let n = w.widgets@.len();
    let f = |j: int|
        if w.widgets@[j].kind == WidgetKind::Group {
            seq![
                validate::dashboard_failure(
                    "dashboard-nested-group"@,
                    validate::indexed(subject, j),
                    "a group holds widgets, never another group"@,
                ),
            ]
        } else {
            validate::widget_errors(h, w.widgets@[j], validate::indexed(subject, j))
        };
    lemma_group_is_each(h, w, subject, n, f);
    text::lemma_each_empty(n, f);
    assert forall|k: int| 0 <= k < n implies ((#[trigger] f(k)).len() == 0 <==> (w.widgets@[k].kind
        != WidgetKind::Group && fields_in_order(w.widgets@[k]) && references_in_order(
        h,
        w.widgets@[k],
    ))) by {
        lemma_widget(h, w.widgets@[k], validate::indexed(subject, k));
    }
    if validate::group_errors(h, w, subject, n).len() == 0 {
        assert forall|k: int| 0 <= k < n implies (#[trigger] w.widgets@[k]).kind
            != WidgetKind::Group && fields_in_order(w.widgets@[k]) && references_in_order(
            h,
            w.widgets@[k],
        ) by {
            assert(f(k).len() == 0);
        }
    }
}

proof fn lemma_group_is_each(
    h: House,
    w: WidgetSpec,
    subject: Seq<char>,
    n: nat,
    f: spec_fn(int) -> Seq<ErrorView>,
)
    requires
        forall|j: int| #[trigger]
            f(j) == if w.widgets@[j].kind == WidgetKind::Group {
                seq![
                    validate::dashboard_failure(
                        "dashboard-nested-group"@,
                        validate::indexed(subject, j),
                        "a group holds widgets, never another group"@,
                    ),
                ]
            } else {
                validate::widget_errors(h, w.widgets@[j], validate::indexed(subject, j))
            },
    ensures
        validate::group_errors(h, w, subject, n) == text::each(n, f),
    decreases n,
{
    if n > 0 {
        lemma_group_is_each(h, w, subject, (n - 1) as nat, f);
    }
}

/// The view has a name of its own, which the dashboard does not keep to
/// itself; it is generated or composed of widgets, one of the two; and its
/// widgets are in order.
pub open spec fn view_in_order(h: House, views: Seq<ViewSpec>, i: int) -> bool {
    let v = views[i];
    &&& v.name@ != "health"@
    &&& v.name@ != "notshown"@
    &&& forall|k: int| 0 <= k < i ==> (#[trigger] views[k]).name@ != v.name@
    &&& v.kind is Some <==> v.widgets@.len() == 0
    &&& forall|j: int| 0 <= j < v.widgets@.len() ==> widget_in_order(h, #[trigger] v.widgets@[j])
}

proof fn lemma_view(h: House, views: Seq<ViewSpec>, i: int)
    requires
        0 <= i < views.len(),
    ensures
        validate::view_errors(h, views, i).len() == 0 <==> view_in_order(h, views, i),
{
    let v = views[i];
    let f = |j: int|
        validate::widget_errors(h, v.widgets@[j], validate::indexed(v.name@, j))
            + validate::group_errors(
            h,
            v.widgets@[j],
            validate::indexed(v.name@, j),
            v.widgets@[j].widgets@.len(),
        );
    text::lemma_each_empty(v.widgets@.len(), f);
    assert forall|j: int| 0 <= j < v.widgets@.len() implies ((#[trigger] f(j)).len() == 0
        <==> widget_in_order(h, v.widgets@[j])) by {
        lemma_widget(h, v.widgets@[j], validate::indexed(v.name@, j));
        lemma_group(h, v.widgets@[j], validate::indexed(v.name@, j));
    }
    if validate::widgets_errors(h, v, v.widgets@.len()).len() == 0 {
        assert forall|j: int| 0 <= j < v.widgets@.len() implies widget_in_order(
            h,
            #[trigger] v.widgets@[j],
        ) by {
            assert(f(j).len() == 0);
        }
    }
    if validate::seen_before(views, i, v.name@) {
        let k = choose|k: int|
            0 <= k < i && k < views.len() && (#[trigger] views[k]).name@ == v.name@;
        assert(views[k].name@ == v.name@);
    }
}

/// Nothing is said about the dashboard exactly where no entity file has a
/// dashboard section and every view is in order.
pub proof fn law_the_dashboard_is_in_order(h: House)
    ensures
        validate::dashboard_errors(h).len() == 0 <==> {
            &&& forall|i: int|
                0 <= i < h.entities@.len() ==> (#[trigger] h.entities@[i]).file.dashboard is None
            &&& forall|i: int|
                #![trigger validate::views_in(h)[i]]
                0 <= i < validate::views_in(h).len() ==> view_in_order(
                    h,
                    validate::views_in(h),
                    i,
                )
        },
{
    let views = validate::views_in(h);
    let g = |i: int| validate::view_errors(h, views, i);
    text::lemma_each_empty(views.len(), g);
    lemma_retired(h, h.entities@.len());
    assert forall|i: int| 0 <= i < views.len() implies ((#[trigger] g(i)).len() == 0
        <==> view_in_order(h, views, i)) by {
        lemma_view(h, views, i);
    }
    if validate::views_errors(h, views, views.len()).len() == 0 {
        assert forall|i: int|
            #![trigger validate::views_in(h)[i]]
            0 <= i < validate::views_in(h).len() implies view_in_order(
            h,
            validate::views_in(h),
            i,
        ) by {
            assert(g(i).len() == 0);
        }
    } else {
        let i = choose|i: int| 0 <= i < views.len() && (#[trigger] g(i)).len() != 0;
        let v = validate::views_in(h)[i];
    }
}

proof fn lemma_retired(h: House, n: nat)
    requires
        n <= h.entities@.len(),
    ensures
        validate::retired_errors(h, n).len() == 0 <==> forall|i: int|
            0 <= i < n ==> (#[trigger] h.entities@[i]).file.dashboard is None,
    decreases n,
{
    if n > 0 {
        lemma_retired(h, (n - 1) as nat);
    }
}

/// Nothing is said about the declared keys exactly where each lies in the
/// key space and templates are used by adapters and automations alone.
pub proof fn law_declared_keys_are_in_order(h: House)
    ensures
        expand::house_key_errors(h, h.units@.len()).len() == 0 <==> forall|i: int|
            0 <= i < h.units@.len() ==> keys_in_order(#[trigger] h.units@[i]),
{
    let f = |i: int| expand::unit_errors(h.units@[i]);
    text::lemma_each_empty(h.units@.len(), f);
    assert forall|i: int| 0 <= i < h.units@.len() implies ((#[trigger] f(i)).len() == 0
        <==> keys_in_order(h.units@[i])) by {
        lemma_unit_keys(h.units@[i]);
    }
    if expand::house_key_errors(h, h.units@.len()).len() == 0 {
        assert forall|i: int| 0 <= i < h.units@.len() implies keys_in_order(
            #[trigger] h.units@[i],
        ) by {
            assert(f(i).len() == 0);
        }
    }
}

/// The key as it is written is one that the unit may declare.
pub open spec fn key_in_order(u: LoadedUnit, raw: Seq<char>) -> bool {
    &&& expand::checked(raw) is Ok
    &&& reach::has_template(expand::checked(raw)->Ok_0) ==> u.manifest.unit.kind
        != UnitKind::Service
}

/// The keys that the unit publishes and those that it subscribes to are ones
/// that it may declare.
pub open spec fn keys_in_order(u: LoadedUnit) -> bool {
    u.manifest.bus matches Some(bus) ==> {
        &&& forall|j: int|
            0 <= j < bus.publishes@.len() ==> key_in_order(
                u,
                (#[trigger] bus.publishes@[j]).1.key@,
            )
        &&& forall|j: int|
            0 <= j < bus.subscribes@.len() ==> key_in_order(u, (#[trigger] bus.subscribes@[j]).1@)
    }
}

proof fn lemma_entry_in_order(u: LoadedUnit, entry: Seq<char>, raw: Seq<char>)
    ensures
        expand::entry_errors(u, entry, raw).len() == 0 <==> key_in_order(u, raw),
{
    if expand::checked(raw) is Ok {
        reach::lemma_template(expand::checked(raw)->Ok_0);
    }
}

proof fn lemma_unit_keys(u: LoadedUnit)
    ensures
        expand::unit_errors(u).len() == 0 <==> keys_in_order(u),
{
    if u.manifest.bus is Some {
        let bus = u.manifest.bus->Some_0;
        let p = |i: int|
            expand::entry_errors(u, bus.publishes@[i].0@, bus.publishes@[i].1.key@);
        let s = |i: int| expand::entry_errors(u, bus.subscribes@[i].0@, bus.subscribes@[i].1@);
        text::lemma_each_empty(bus.publishes@.len(), p);
        text::lemma_each_empty(bus.subscribes@.len(), s);
        assert forall|i: int| 0 <= i < bus.publishes@.len() implies ((#[trigger] p(i)).len() == 0
            <==> key_in_order(u, bus.publishes@[i].1.key@)) by {
            lemma_entry_in_order(u, bus.publishes@[i].0@, bus.publishes@[i].1.key@);
        }
        assert forall|i: int| 0 <= i < bus.subscribes@.len() implies ((#[trigger] s(i)).len() == 0
            <==> key_in_order(u, bus.subscribes@[i].1@)) by {
            lemma_entry_in_order(u, bus.subscribes@[i].0@, bus.subscribes@[i].1@);
        }
        if expand::unit_errors(u).len() == 0 {
            assert forall|j: int| 0 <= j < bus.publishes@.len() implies key_in_order(
                u,
                (#[trigger] bus.publishes@[j]).1.key@,
            ) by {
                assert(p(j).len() == 0);
            }
            assert forall|j: int| 0 <= j < bus.subscribes@.len() implies key_in_order(
                u,
                (#[trigger] bus.subscribes@[j]).1@,
            ) by {
                assert(s(j).len() == 0);
            }
        }
    }
}

/// A table whose units can be numbered so that every owner comes before the
/// units that command its entities is not refused for a cycle.
pub proof fn law_a_table_with_an_order_is_accepted(
    table: Seq<GrantView>,
    place: spec_fn(Seq<char>) -> nat,
)
    requires
        forall|i: int, j: int|
            #![trigger table[i].entities[j]]
            0 <= i < table.len() && 0 <= j < table[i].entities.len() && table[i].entities[j].owner
                != table[i].unit ==> place(table[i].entities[j].owner) < place(table[i].unit),
    ensures
        grants::cycle_errors(table).len() == 0,
{
    let edges = grants::grant_edges_of(table, table.len());
    assert forall|k: int| 0 <= k < edges.len() implies place((#[trigger] edges[k]).0) < place(
        edges[k].1,
    ) by {
        assert(edges.contains((edges[k].0, edges[k].1)));
        crate::policies::law_edges_lead_from_owners(table, edges[k].0, edges[k].1);
        let (i, j) = choose|i: int, j: int|
            #![trigger table[i].entities[j]]
            0 <= i < table.len() && 0 <= j < table[i].entities.len() && table[i].unit == edges[k].1
                && table[i].entities[j].owner == edges[k].0;
        assert(table[i].entities[j].owner == edges[k].0);
    }
    let all = graph::nodes(edges);
    let f = |i: int| text::only_if(graph::stuck(edges, all[i]), all[i]);
    text::lemma_each_empty(all.len(), f);
    assert forall|i: int| 0 <= i < all.len() implies (#[trigger] f(i)).len() == 0 by {
        if graph::stuck(edges, all[i]) {
            let s = choose|s: Set<Seq<char>>| #[trigger]
                s.contains(all[i]) && graph::backed(edges, s);
            lemma_no_descent(edges, s, all[i], place);
        }
    }
}

proof fn lemma_no_descent(
    edges: Seq<(Seq<char>, Seq<char>)>,
    s: Set<Seq<char>>,
    u: Seq<char>,
    place: spec_fn(Seq<char>) -> nat,
)
    requires
        forall|k: int|
            0 <= k < edges.len() ==> place((#[trigger] edges[k]).0) < place(edges[k].1),
        graph::backed(edges, s),
    ensures
        !s.contains(u),
    decreases place(u),
{
    if s.contains(u) {
        assert(graph::waits(edges, u, s));
        let k = choose|k: int|
            0 <= k < edges.len() && (#[trigger] edges[k]).1 == u && s.contains(edges[k].0);
        lemma_no_descent(edges, s, edges[k].0, place);
    }
}

} // verus!
