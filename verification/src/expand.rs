//! Plan-time expansion of every declared key.

use crate::error;
use crate::error::report;
use crate::error::ErrorView;
use crate::error::ValidationError;
use crate::keyspace;
use crate::keyspace::KeyExpr;
use crate::keyspace::SegmentView;
use crate::manifest::UnitKind;
use crate::manifest::WriteMode;
use crate::names;
use crate::repo;
use crate::repo::House;
use crate::repo::LoadedEntity;
use crate::repo::LoadedUnit;
use crate::text;
use crate::text::cat3;
use crate::text::str_eq;
use vstd::prelude::*;

verus! {

broadcast use crate::text::group_views;

#[derive(Debug, Clone, Copy, PartialEq, Eq, Structural)]
pub enum Direction {
    Publishes,
    Subscribes,
}

impl Direction {
    /// The word a plan uses for it.
    pub open spec fn word(self) -> Seq<char> {
        match self {
            Direction::Publishes => "publishes"@,
            Direction::Subscribes => "subscribes"@,
        }
    }

    pub fn verb(&self) -> (r: &'static str)
        ensures
            r@ == self.word(),
    {
        match self {
            Direction::Publishes => "publishes",
            Direction::Subscribes => "subscribes",
        }
    }
}

/// One `[bus]` entry with its plan-time expansion: templates substituted per
/// bound entity, zone references expanded to one expression per room.
#[derive(Debug)]
pub struct ExpandedKey {
    pub unit: String,
    pub kind: UnitKind,
    pub entry: String,
    pub direction: Direction,
    /// The expression as written in the manifest.
    pub source: String,
    /// Zone name, when the room slot referenced a zone.
    pub zone: Option<String>,
    /// Whether the expression was written with templates.
    pub templated: bool,
    pub exprs: Vec<KeyExpr>,
}

/// What an expanded entry says.
pub struct ExpandedView {
    pub unit: Seq<char>,
    pub kind: UnitKind,
    pub entry: Seq<char>,
    pub direction: Direction,
    pub source: Seq<char>,
    pub zone: Option<Seq<char>>,
    pub templated: bool,
    pub exprs: Seq<Seq<SegmentView>>,
}

impl View for ExpandedKey {
    type V = ExpandedView;

    open spec fn view(&self) -> ExpandedView {
        ExpandedView {
            unit: self.unit@,
            kind: self.kind,
            entry: self.entry@,
            direction: self.direction,
            source: self.source@,
            zone: text::opt_text(self.zone),
            templated: self.templated,
            exprs: text::views(self.exprs@),
        }
    }
}

/// The expression that `raw` denotes, where it parses and lies inside the key
/// space; else the complaint.
pub open spec fn checked(raw: Seq<char>) -> Result<Seq<SegmentView>, Seq<char>> {
    match keyspace::parsed(raw) {
        Err(e) => Err(e),
        Ok(k) => match keyspace::schema_fault(k, raw) {
            Some(e) => Err(e),
            None => Ok(k),
        },
    }
}

/// Whether a templated expression expands over the entity: one that the unit
/// binds and, for the command classes, one whose write mode sends commands
/// down that class. A unit physically lacks a cmd path to an arbitrated
/// entity, and an arbiter path to any other.
pub open spec fn expands_over(e: LoadedEntity, unit: Seq<char>, k: Seq<SegmentView>) -> bool {
    &&& e.owner@ == unit
    &&& keyspace::class_of(k) == Some("cmd"@) ==> e.file.write_policy.in_force()
        != WriteMode::Arbitrated
    &&& keyspace::class_of(k) == Some("arbiter"@) ==> e.file.write_policy.in_force()
        == WriteMode::Arbitrated
}

/// A templated expression, once for each of the first `n` entities it
/// expands over.
pub open spec fn bound_exprs(
    entities: Seq<LoadedEntity>,
    unit: Seq<char>,
    k: Seq<SegmentView>,
    n: nat,
) -> Seq<Seq<SegmentView>> {
    text::each(
        n,
        |i: int|
            text::only_if(
                expands_over(entities[i], unit, k),
                keyspace::substituted(k, entities[i].file.entity.room@, entities[i].name@),
            ),
    )
}

/// The zone that the expression's room slot names, with its rooms.
pub open spec fn zone_of(h: House, k: Seq<SegmentView>) -> Option<(Seq<char>, Vec<String>)> {
    match keyspace::room_of(k) {
        Some(SegmentView::Literal(room)) => match names::lookup(h.zones@, room) {
            Some(rooms) => Some((room, rooms)),
            None => None,
        },
        _ => None,
    }
}

/// The concrete expressions that an expression stands for in the house.
pub open spec fn exprs_of(h: House, unit: Seq<char>, k: Seq<SegmentView>) -> Seq<Seq<SegmentView>> {
    if keyspace::templated(k) {
        bound_exprs(h.entities@, unit, k, h.entities@.len())
    } else {
        match zone_of(h, k) {
            Some((_, rooms)) => Seq::new(
                rooms@.len(),
                |i: int| k.update(2, SegmentView::Literal(rooms@[i]@)),
            ),
            None => seq![k],
        }
    }
}

/// `unit.entry`
pub open spec fn entry_name(unit: Seq<char>, entry: Seq<char>) -> Seq<char> {
    unit + "."@ + entry
}

/// What is wrong with one entry.
pub open spec fn entry_errors(u: LoadedUnit, entry: Seq<char>, raw: Seq<char>) -> Seq<ErrorView> {
    let subject = entry_name(u.manifest.unit.name@, entry);
    match checked(raw) {
        Err(message) => seq![
            error::failure("key-outside-schema"@, subject, message, Some(u.path@)),
        ],
        Ok(k) => if keyspace::templated(k) && u.manifest.unit.kind == UnitKind::Service {
            seq![
                error::failure(
                    "template-outside-binding-unit"@,
                    subject,
                    "\""@ + raw
                        + "\" uses {room}/{entity} templates, which only adapters and automations may use"@,
                    Some(u.path@),
                ),
            ]
        } else {
            Seq::empty()
        },
    }
}

/// The expansion of one entry, where nothing is wrong with it.
pub open spec fn entry_keys(
    h: House,
    u: LoadedUnit,
    entry: Seq<char>,
    raw: Seq<char>,
    direction: Direction,
) -> Seq<ExpandedView> {
    if entry_errors(u, entry, raw).len() > 0 {
        Seq::empty()
    } else {
        let k = checked(raw)->Ok_0;
        let unit = u.manifest.unit.name@;
        seq![
            ExpandedView {
                unit,
                kind: u.manifest.unit.kind,
                entry,
                direction,
                source: raw,
                zone: if keyspace::templated(k) {
                    None
                } else {
                    match zone_of(h, k) {
                        Some((zone, _)) => Some(zone),
                        None => None,
                    }
                },
                templated: keyspace::templated(k),
                exprs: exprs_of(h, unit, k),
            },
        ]
    }
}

/// The expansions of the first `n` publishes of a unit.
pub open spec fn publish_keys(h: House, u: LoadedUnit, n: nat) -> Seq<ExpandedView> {
    let entries = u.manifest.bus->Some_0.publishes@;
    text::each(
        n,
        |i: int|
            entry_keys(h, u, entries[i].0@, entries[i].1.key@, Direction::Publishes),
    )
}

/// The expansions of the first `n` subscribes of a unit.
pub open spec fn subscribe_keys(h: House, u: LoadedUnit, n: nat) -> Seq<ExpandedView> {
    let entries = u.manifest.bus->Some_0.subscribes@;
    text::each(
        n,
        |i: int| entry_keys(h, u, entries[i].0@, entries[i].1@, Direction::Subscribes),
    )
}

/// What is wrong with the first `n` publishes of a unit.
pub open spec fn publish_errors(u: LoadedUnit, n: nat) -> Seq<ErrorView> {
    let entries = u.manifest.bus->Some_0.publishes@;
    text::each(n, |i: int| entry_errors(u, entries[i].0@, entries[i].1.key@))
}

/// What is wrong with the first `n` subscribes of a unit.
pub open spec fn subscribe_errors(u: LoadedUnit, n: nat) -> Seq<ErrorView> {
    let entries = u.manifest.bus->Some_0.subscribes@;
    text::each(n, |i: int| entry_errors(u, entries[i].0@, entries[i].1@))
}

/// The expansions of a unit: its publishes, then its subscribes.
pub open spec fn unit_keys(h: House, u: LoadedUnit) -> Seq<ExpandedView> {
    match u.manifest.bus {
        None => Seq::empty(),
        Some(bus) => publish_keys(h, u, bus.publishes@.len()) + subscribe_keys(
            h,
            u,
            bus.subscribes@.len(),
        ),
    }
}

/// What is wrong with the entries of a unit.
pub open spec fn unit_errors(u: LoadedUnit) -> Seq<ErrorView> {
    match u.manifest.bus {
        None => Seq::empty(),
        Some(bus) => publish_errors(u, bus.publishes@.len()) + subscribe_errors(
            u,
            bus.subscribes@.len(),
        ),
    }
}

/// The expansions of the first `n` units.
pub open spec fn house_keys(h: House, n: nat) -> Seq<ExpandedView> {
    text::each(n, |i: int| unit_keys(h, h.units@[i]))
}

/// What is wrong with the entries of the first `n` units.
pub open spec fn house_key_errors(h: House, n: nat) -> Seq<ErrorView> {
    text::each(n, |i: int| unit_errors(h.units@[i]))
}

fn expand_template(house: &House, unit: &str, expr: &KeyExpr) -> (r: Vec<KeyExpr>)
    ensures
        text::views(r@) == bound_exprs(house.entities@, unit@, expr@, house.entities@.len()),
{
    let cmd = expr.class_is("cmd");
    let arbiter = expr.class_is("arbiter");
    let mut out: Vec<KeyExpr> = Vec::new();
    for i in 0..house.entities.len()
        invariant
            cmd == (keyspace::class_of(expr@) == Some("cmd"@)),
            arbiter == (keyspace::class_of(expr@) == Some("arbiter"@)),
            text::views(out@) == bound_exprs(house.entities@, unit@, expr@, i as nat),
    {
        let e = &house.entities[i];
        let mode = e.file.write_policy.mode();
        if str_eq(e.owner.as_str(), unit) && (!cmd || mode != WriteMode::Arbitrated) && (!arbiter
            || mode == WriteMode::Arbitrated) {
            out.push(expr.substitute(e.file.entity.room.as_str(), e.name.as_str()));
        }
    }
    out
}

fn expand_zone(expr: &KeyExpr, rooms: &Vec<String>) -> (r: Vec<KeyExpr>)
    requires
        expr@.len() > 2,
    ensures
        text::views(r@) == Seq::new(
            rooms@.len(),
            |i: int| expr@.update(2, SegmentView::Literal(rooms@[i]@)),
        ),
{
    let mut out: Vec<KeyExpr> = Vec::new();
    for i in 0..rooms.len()
        invariant
            expr@.len() > 2,
            out@.len() == i,
            forall|j: int|
                0 <= j < i ==> (#[trigger] out@[j])@ == expr@.update(
                    2,
                    SegmentView::Literal(rooms@[j]@),
                ),
    {
        out.push(expr.with_room(rooms[i].as_str()));
    }
    assert(text::views(out@) =~= Seq::new(
        rooms@.len(),
        |i: int| expr@.update(2, SegmentView::Literal(rooms@[i]@)),
    ));
    out
}

fn expand_plain(house: &House, expr: KeyExpr) -> (r: (Option<String>, Vec<KeyExpr>))
    requires
        !keyspace::templated(expr@),
    ensures
        text::opt_text(r.0) == match zone_of(*house, expr@) {
            Some((zone, _)) => Some(zone),
            None => None,
        },
        forall|unit: Seq<char>| text::views(r.1@) == #[trigger] exprs_of(*house, unit, expr@),
{
    if let Some(slot) = expr.room_slot() {
        if let Some(room) = slot.literal() {
            if let Some(rooms) = house.zones.get(room.as_str()) {
                return (Some(room.clone()), expand_zone(&expr, rooms));
            }
        }
    }
    let mut out: Vec<KeyExpr> = Vec::new();
    out.push(expr);
    assert(text::views(out@) =~= seq![expr@]);
    (None, out)
}

fn check_key(raw: &str) -> (r: Result<KeyExpr, String>)
    ensures
        match r {
            Ok(k) => checked(raw@) == Ok::<Seq<SegmentView>, Seq<char>>(k@),
            Err(e) => checked(raw@) == Err::<Seq<SegmentView>, Seq<char>>(e@),
        },
{
    match KeyExpr::parse(raw) {
        Err(e) => Err(e),
        Ok(expr) => match expr.check_schema(raw) {
            Err(e) => Err(e),
            Ok(_) => Ok(expr),
        },
    }
}

fn expand_entry(
    house: &House,
    unit: &LoadedUnit,
    entry: &String,
    raw: &String,
    direction: Direction,
    expanded: &mut Vec<ExpandedKey>,
    errors: &mut Vec<ValidationError>,
)
    ensures
        text::views(final(expanded)@) == text::views(old(expanded)@) + entry_keys(
            *house,
            *unit,
            entry@,
            raw@,
            direction,
        ),
        text::views(final(errors)@) == text::views(old(errors)@) + entry_errors(
            *unit,
            entry@,
            raw@,
        ),
{
    let name = &unit.manifest.unit.name;
    let subject = cat3(name.as_str(), ".", entry.as_str());
    let expr = match check_key(raw.as_str()) {
        Ok(expr) => expr,
        Err(message) => {
            report(errors, "key-outside-schema", subject.as_str(), message, Some(unit.path.clone()));
            return ;
        },
    };
    let templated = expr.has_template();
    if templated && unit.manifest.unit.kind == UnitKind::Service {
        report(
            errors,
            "template-outside-binding-unit",
            subject.as_str(),
            cat3(
                "\"",
                raw.as_str(),
                "\" uses {room}/{entity} templates, which only adapters and automations may use",
            ),
            Some(unit.path.clone()),
        );
        return ;
    }
    let (zone, exprs) = if templated {
        (None, expand_template(house, name.as_str(), &expr))
    } else {
        expand_plain(house, expr)
    };
    assert(text::views(exprs@) == exprs_of(*house, name@, checked(raw@)->Ok_0));
    expanded.push(
        ExpandedKey {
            unit: name.clone(),
            kind: unit.manifest.unit.kind,
            entry: entry.clone(),
            direction,
            source: raw.clone(),
            zone,
            templated,
            exprs,
        },
    );
}

fn expand_unit(
    house: &House,
    unit: &LoadedUnit,
    expanded: &mut Vec<ExpandedKey>,
    errors: &mut Vec<ValidationError>,
)
    ensures
        text::views(final(expanded)@) == text::views(old(expanded)@) + unit_keys(*house, *unit),
        text::views(final(errors)@) == text::views(old(errors)@) + unit_errors(*unit),
{
    let bus = match &unit.manifest.bus {
        Some(bus) => bus,
        None => {
            return ;
        },
    };
    let ghost before = text::views(expanded@);
    let ghost faults = text::views(errors@);
    let n = bus.publishes.len();
    for i in 0..n
        invariant
            unit.manifest.bus == Some(*bus),
            n == bus.publishes@.len(),
            text::views(expanded@) == before + publish_keys(*house, *unit, i as nat),
            text::views(errors@) == faults + publish_errors(*unit, i as nat),
    {
        expand_entry(
            house,
            unit,
            bus.publishes.name(i),
            &bus.publishes.value(i).key,
            Direction::Publishes,
            expanded,
            errors,
        );
    }
    let ghost before2 = text::views(expanded@);
    let ghost faults2 = text::views(errors@);
    let m = bus.subscribes.len();
    for i in 0..m
        invariant
            unit.manifest.bus == Some(*bus),
            m == bus.subscribes@.len(),
            text::views(expanded@) == before2 + subscribe_keys(*house, *unit, i as nat),
            text::views(errors@) == faults2 + subscribe_errors(*unit, i as nat),
    {
        expand_entry(
            house,
            unit,
            bus.subscribes.name(i),
            bus.subscribes.value(i),
            Direction::Subscribes,
            expanded,
            errors,
        );
    }
}

/// Expands every bus entry of every unit. Keys that fail to parse or fall
/// outside the key-space schema produce errors and no expansion.
pub fn expand(house: &House) -> (r: (Vec<ExpandedKey>, Vec<ValidationError>))
    ensures
        text::views(r.0@) == house_keys(*house, house.units@.len()),
        text::views(r.1@) == house_key_errors(*house, house.units@.len()),
{
    let mut expanded: Vec<ExpandedKey> = Vec::new();
    let mut errors: Vec<ValidationError> = Vec::new();
    for i in 0..house.units.len()
        invariant
            text::views(expanded@) == house_keys(*house, i as nat),
            text::views(errors@) == house_key_errors(*house, i as nat),
    {
        expand_unit(house, &house.units[i], &mut expanded, &mut errors);
    }
    (expanded, errors)
}

} // verus!
