//! The grant table: which unit may command which entity, and the rules that
//! the declared keys must keep.

use crate::error;
use crate::error::report;
use crate::error::ErrorView;
use crate::error::ValidationError;
use crate::expand;
use crate::expand::Direction;
use crate::expand::ExpandedKey;
use crate::expand::ExpandedView;
use crate::graph;
use crate::keyspace;
use crate::keyspace::KeyExpr;
use crate::keyspace::SegmentView;
use crate::manifest::InputSource;
use crate::manifest::Priority;
use crate::manifest::PublishSpec;
use crate::manifest::UnitKind;
use crate::manifest::WriteMode;
use crate::manifest::CAPABILITIES;
use crate::names;
use crate::order;
use crate::order::Alike;
use crate::order::Ranked;
use crate::repo;
use crate::repo::House;
use crate::repo::LoadedEntity;
use crate::repo::LoadedUnit;
use crate::text;
use crate::text::cat11;
use crate::text::cat3;
use crate::text::cat5;
use crate::text::cat6;
use crate::text::cat7;
use crate::text::is_listed;
use crate::text::str_eq;
use vstd::prelude::*;

verus! {

broadcast use crate::text::group_views;

/// One resolved write grant: a non-adapter publish expression resolved
/// against the concrete entity set. The table doubles as the dependency
/// graph (unit -> entities -> owner units).
#[derive(Debug, Clone, PartialEq, Eq)]
pub struct Grant {
    pub unit: String,
    pub publish: String,
    pub capability: String,
    pub priority: Priority,
    /// Granted entities (key match + capability match), sorted by name.
    pub entities: Vec<GrantEntity>,
}

/// A granted entity with the policy facts the grant table is the record
/// of. Because these live in the table, an entity move, a write-mode
/// flip, or a re-binding IS a grant-table delta — and any grant delta
/// escalates the plan to structural, with the owner shown exactly what
/// changed.
#[derive(Debug, Clone, PartialEq, Eq)]
pub struct GrantEntity {
    pub name: String,
    pub room: String,
    pub write: WriteMode,
    /// The binding unit — the walk-order edge source. An adapter, or an
    /// automation for a commandable virtual entity.
    pub owner: String,
}

/// One resolved feed: a device input wired to a source aspect. Rendered in
/// the plan next to the grant table; not a walk-order edge — a control loop
/// that reads a device and feeds a term back is legitimately cyclic.
#[derive(Debug, Clone, PartialEq, Eq)]
pub struct Feed {
    /// The fed entity and its adapter's input name.
    pub entity: String,
    pub input: String,
    /// The source, resolved.
    pub source_entity: String,
    pub source_aspect: String,
    pub source_owner: String,
    pub key: String,
}

/// What a grant says.
pub struct GrantView {
    pub unit: Seq<char>,
    pub publish: Seq<char>,
    pub capability: Seq<char>,
    pub priority: Priority,
    pub entities: Seq<GrantEntityView>,
}

/// What a granted entity says.
pub struct GrantEntityView {
    pub name: Seq<char>,
    pub room: Seq<char>,
    pub write: WriteMode,
    pub owner: Seq<char>,
}

/// What a feed says.
pub struct FeedView {
    pub entity: Seq<char>,
    pub input: Seq<char>,
    pub source_entity: Seq<char>,
    pub source_aspect: Seq<char>,
    pub source_owner: Seq<char>,
    pub key: Seq<char>,
}

impl View for Grant {
    type V = GrantView;

    open spec fn view(&self) -> GrantView {
        GrantView {
            unit: self.unit@,
            publish: self.publish@,
            capability: self.capability@,
            priority: self.priority,
            entities: text::views(self.entities@),
        }
    }
}

impl View for GrantEntity {
    type V = GrantEntityView;

    open spec fn view(&self) -> GrantEntityView {
        GrantEntityView {
            name: self.name@,
            room: self.room@,
            write: self.write,
            owner: self.owner@,
        }
    }
}

impl View for Feed {
    type V = FeedView;

    open spec fn view(&self) -> FeedView {
        FeedView {
            entity: self.entity@,
            input: self.input@,
            source_entity: self.source_entity@,
            source_aspect: self.source_aspect@,
            source_owner: self.source_owner@,
            key: self.key@,
        }
    }
}

impl Ranked for GrantEntity {
    open spec fn goes_before(a: GrantEntityView, b: GrantEntityView) -> bool {
        text::lex_lt(a.name, b.name)
    }

    proof fn lemma_order(a: GrantEntityView, b: GrantEntityView, c: GrantEntityView) {
        <String as Ranked>::lemma_order(a.name, b.name, c.name);
    }

    fn before(&self, other: &GrantEntity) -> (r: bool) {
        self.name.before(&other.name)
    }
}

impl Alike for GrantEntity {
    fn same(&self, other: &GrantEntity) -> (r: bool) {
        self.name.same(&other.name) && self.room.same(&other.room) && self.write == other.write
            && self.owner.same(&other.owner)
    }
}

impl Ranked for Grant {
    open spec fn goes_before(a: GrantView, b: GrantView) -> bool {
        text::lex_lt(a.unit, b.unit) || a.unit == b.unit && text::lex_lt(a.publish, b.publish)
    }

    proof fn lemma_order(a: GrantView, b: GrantView, c: GrantView) {
        <String as Ranked>::lemma_order(a.unit, b.unit, c.unit);
        <String as Ranked>::lemma_order(a.publish, b.publish, c.publish);
        text::lemma_lex_irreflexive(a.unit);
        text::lemma_lex_total(a.unit, b.unit);
        text::lemma_lex_total(b.unit, c.unit);
        if text::lex_lt(b.unit, a.unit) && text::lex_lt(c.unit, b.unit) {
            text::lemma_lex_transitive(c.unit, b.unit, a.unit);
        }
        if text::lex_lt(a.unit, c.unit) && text::lex_lt(c.unit, a.unit) {
            text::lemma_lex_transitive(a.unit, c.unit, a.unit);
        }
    }

    fn before(&self, other: &Grant) -> (r: bool) {
        self.unit.before(&other.unit) || (self.unit.same(&other.unit) && self.publish.before(
            &other.publish,
        ))
    }
}

impl Alike for Grant {
    fn same(&self, other: &Grant) -> (r: bool) {
        self.unit.same(&other.unit) && self.publish.same(&other.publish) && self.capability.same(
            &other.capability,
        ) && self.priority == other.priority && same_entities(&self.entities, &other.entities)
    }
}

impl GrantEntity {
    /// The same record once more.
    pub fn copy(&self) -> (r: GrantEntity)
        ensures
            r@ == self@,
    {
        GrantEntity {
            name: self.name.clone(),
            room: self.room.clone(),
            write: self.write,
            owner: self.owner.clone(),
        }
    }
}

impl Grant {
    /// The same grant once more.
    pub fn copy(&self) -> (r: Grant)
        ensures
            r@ == self@,
    {
        let mut entities: Vec<GrantEntity> = Vec::new();
        for i in 0..self.entities.len()
            invariant
                entities@.len() == i,
                forall|k: int| 0 <= k < i ==> (#[trigger] entities@[k])@ == self.entities@[k]@,
        {
            entities.push(self.entities[i].copy());
        }
        assert(text::views(entities@) =~= text::views(self.entities@));
        Grant {
            unit: self.unit.clone(),
            publish: self.publish.clone(),
            capability: self.capability.clone(),
            priority: self.priority,
            entities,
        }
    }
}

fn same_entities(a: &Vec<GrantEntity>, b: &Vec<GrantEntity>) -> (r: bool)
    ensures
        r == (text::views(a@) == text::views(b@)),
{
    if a.len() != b.len() {
        assert(text::views(a@).len() != text::views(b@).len());
        return false;
    }
    for i in 0..a.len()
        invariant
            a@.len() == b@.len(),
            forall|k: int| 0 <= k < i ==> (#[trigger] a@[k])@ == b@[k]@,
    {
        if !a[i].same(&b[i]) {
            assert(text::views(a@)[i as int] != text::views(b@)[i as int]);
            return false;
        }
    }
    assert(text::views(a@) =~= text::views(b@));
    true
}

/// The first of the units with this name is an automation.
pub open spec fn is_automation(h: House, unit: Seq<char>) -> bool {
    match repo::unit_named(h.units@, unit) {
        Some(u) => u.manifest.unit.kind == UnitKind::Automation,
        None => false,
    }
}

fn bound_by_automation(house: &House, unit: &str) -> (r: bool)
    ensures
        r == is_automation(*house, unit@),
{
    match house.unit(unit) {
        Some(u) => u.manifest.unit.kind == UnitKind::Automation,
        None => false,
    }
}

/// Whether one of the expressions has the class.
pub open spec fn any_of_class(exprs: Seq<Seq<SegmentView>>, class: Seq<char>) -> bool {
    exists|i: int| 0 <= i < exprs.len() && keyspace::class_of(#[trigger] exprs[i]) == Some(class)
}

/// Whether one of the expressions covers the prefix.
pub open spec fn any_covers(exprs: Seq<Seq<SegmentView>>, prefix: Seq<Seq<char>>) -> bool {
    exists|i: int| 0 <= i < exprs.len() && keyspace::covers(#[trigger] exprs[i], prefix)
}

/// Whether one of the expressions has the class and covers the prefix.
pub open spec fn any_of_class_covers(
    exprs: Seq<Seq<SegmentView>>,
    class: Seq<char>,
    prefix: Seq<Seq<char>>,
) -> bool {
    exists|i: int|
        0 <= i < exprs.len() && keyspace::class_of(#[trigger] exprs[i]) == Some(class)
            && keyspace::covers(exprs[i], prefix)
}

/// The subtree of an entity under a class: `home/{class}/{room}/{name}`.
pub open spec fn subtree(class: Seq<char>, room: Seq<char>, name: Seq<char>) -> Seq<Seq<char>> {
    seq!["home"@, class, room, name]
}

fn has_class(exprs: &Vec<KeyExpr>, class: &str) -> (r: bool)
    ensures
        r == any_of_class(text::views(exprs@), class@),
{
    let ghost all = text::views(exprs@);
    for i in 0..exprs.len()
        invariant
            all == text::views(exprs@),
            forall|k: int|
                0 <= k < i ==> keyspace::class_of(#[trigger] all[k]) != Some(class@),
    {
        assert(all[i as int] == exprs@[i as int]@);
        if exprs[i].class_is(class) {
            return true;
        }
    }
    false
}

fn reaches_entity(expr: &KeyExpr, class: &str, room: &str, name: &str) -> (r: bool)
    ensures
        r == keyspace::covers(expr@, subtree(class@, room@, name@)),
{
    let prefix = ["home", class, room, name];
    assert(text::views(prefix@) =~= subtree(class@, room@, name@));
    expr.matches_prefix(&prefix)
}

fn covers_entity(exprs: &Vec<KeyExpr>, class: &str, room: &str, name: &str) -> (r: bool)
    ensures
        r == any_covers(text::views(exprs@), subtree(class@, room@, name@)),
{
    let ghost all = text::views(exprs@);
    for i in 0..exprs.len()
        invariant
            all == text::views(exprs@),
            forall|k: int|
                0 <= k < i ==> !keyspace::covers(
                    #[trigger] all[k],
                    subtree(class@, room@, name@),
                ),
    {
        assert(all[i as int] == exprs@[i as int]@);
        if reaches_entity(&exprs[i], class, room, name) {
            return true;
        }
    }
    false
}

fn class_covers_entity(exprs: &Vec<KeyExpr>, class: &str, room: &str, name: &str) -> (r: bool)
    ensures
        r == any_of_class_covers(text::views(exprs@), class@, subtree(class@, room@, name@)),
{
    let ghost all = text::views(exprs@);
    for i in 0..exprs.len()
        invariant
            all == text::views(exprs@),
            forall|k: int|
                0 <= k < i ==> !(keyspace::class_of(#[trigger] all[k]) == Some(class@)
                    && keyspace::covers(all[k], subtree(class@, room@, name@))),
    {
        assert(all[i as int] == exprs@[i as int]@);
        if exprs[i].class_is(class) && reaches_entity(&exprs[i], class, room, name) {
            return true;
        }
    }
    false
}

/// Whether the unit publishes something that covers the key.
pub open spec fn published(
    expanded: Seq<ExpandedView>,
    unit: Seq<char>,
    pieces: Seq<Seq<char>>,
) -> bool {
    exists|i: int|
        0 <= i < expanded.len() && (#[trigger] expanded[i]).unit == unit && expanded[i].direction
            == Direction::Publishes && any_covers(expanded[i].exprs, pieces)
}

fn covers_key(exprs: &Vec<KeyExpr>, pieces: &Vec<&str>) -> (r: bool)
    ensures
        r == any_covers(text::views(exprs@), text::views(pieces@)),
{
    let ghost all = text::views(exprs@);
    for i in 0..exprs.len()
        invariant
            all == text::views(exprs@),
            forall|k: int|
                0 <= k < i ==> !keyspace::covers(#[trigger] all[k], text::views(pieces@)),
    {
        assert(all[i as int] == exprs@[i as int]@);
        if exprs[i].matches_prefix(pieces.as_slice()) {
            return true;
        }
    }
    false
}

fn publishes_key(expanded: &Vec<ExpandedKey>, unit: &str, key: &str) -> (r: bool)
    ensures
        r == published(text::views(expanded@), unit@, text::split_at_each(key@, '/')),
{
    let owned = text::split(key, '/');
    let mut pieces: Vec<&str> = Vec::new();
    for i in 0..owned.len()
        invariant
            pieces@.len() == i,
            forall|k: int| 0 <= k < i ==> (#[trigger] pieces@[k])@ == owned@[k]@,
    {
        pieces.push(owned[i].as_str());
    }
    assert(text::views(pieces@) =~= text::views(owned@));
    let ghost all = text::views(expanded@);
    for i in 0..expanded.len()
        invariant
            all == text::views(expanded@),
            text::views(pieces@) == text::split_at_each(key@, '/'),
            forall|k: int|
                0 <= k < i ==> !((#[trigger] all[k]).unit == unit@ && all[k].direction
                    == Direction::Publishes && any_covers(all[k].exprs, text::views(pieces@))),
    {
        assert(all[i as int] == expanded@[i as int]@);
        if str_eq(expanded[i].unit.as_str(), unit) && expanded[i].direction == Direction::Publishes
            && covers_key(&expanded[i].exprs, &pieces) {
            return true;
        }
    }
    false
}

/// The state key that a source aspect is published on.
pub open spec fn source_key(src: LoadedEntity, aspect: Seq<char>) -> Seq<char> {
    "home/state/"@ + src.file.entity.room@ + "/"@ + src.name@ + "/"@ + aspect
}

/// Whether a source is bound by an automation that does not publish it.
pub open spec fn unpublished(
    h: House,
    expanded: Seq<ExpandedView>,
    src: LoadedEntity,
    aspect: Seq<char>,
) -> bool {
    is_automation(h, src.owner@) && !published(
        expanded,
        src.owner@,
        text::split_at_each(source_key(src, aspect), '/'),
    )
}

/// What is wrong with one input of an entity.
pub open spec fn input_errors(
    h: House,
    expanded: Seq<ExpandedView>,
    e: LoadedEntity,
    input: Seq<char>,
    source: InputSource,
) -> Seq<ErrorView> {
    let subject = expand::entry_name(e.name@, input);
    match repo::entity_named(h.entities@, source.entity@) {
        None => seq![
            error::failure(
                "input-unknown-entity"@,
                subject,
                "source entity \""@ + source.entity@ + "\" does not exist"@,
                Some(e.path@),
            ),
        ],
        Some(src) => text::only_if(
            unpublished(h, expanded, src, source.aspect@),
            error::failure(
                "input-unpublished-aspect"@,
                subject,
                "\""@ + src.owner@ + "\" does not publish "@ + source_key(src, source.aspect@)
                    + "; a fed aspect must be in its owner's [bus.publishes]"@,
                Some(e.path@),
            ),
        ),
    }
}

/// The feed of one input of an entity, where nothing is wrong with it.
pub open spec fn input_feeds(
    h: House,
    expanded: Seq<ExpandedView>,
    e: LoadedEntity,
    input: Seq<char>,
    source: InputSource,
) -> Seq<FeedView> {
    match repo::entity_named(h.entities@, source.entity@) {
        None => Seq::empty(),
        Some(src) => text::only_if(
            !unpublished(h, expanded, src, source.aspect@),
            FeedView {
                entity: e.name@,
                input,
                source_entity: src.name@,
                source_aspect: source.aspect@,
                source_owner: src.owner@,
                key: source_key(src, source.aspect@),
            },
        ),
    }
}

/// What is wrong with the first `n` inputs of an entity.
pub open spec fn inputs_errors(
    h: House,
    expanded: Seq<ExpandedView>,
    e: LoadedEntity,
    n: nat,
) -> Seq<ErrorView> {
    let inputs = e.file.inputs->Some_0@;
    text::each(n, |i: int| input_errors(h, expanded, e, inputs[i].0@, inputs[i].1))
}

/// The feeds of the first `n` inputs of an entity.
pub open spec fn inputs_feeds(
    h: House,
    expanded: Seq<ExpandedView>,
    e: LoadedEntity,
    n: nat,
) -> Seq<FeedView> {
    let inputs = e.file.inputs->Some_0@;
    text::each(n, |i: int| input_feeds(h, expanded, e, inputs[i].0@, inputs[i].1))
}

/// What is wrong with the inputs of an entity.
pub open spec fn entity_feed_errors(
    h: House,
    expanded: Seq<ExpandedView>,
    e: LoadedEntity,
) -> Seq<ErrorView> {
    match e.file.inputs {
        None => Seq::empty(),
        Some(inputs) => if is_automation(h, e.owner@) {
            seq![
                error::failure(
                    "virtual-entity-fed"@,
                    e.name@,
                    "automation-owned entities have no device inputs to feed"@,
                    Some(e.path@),
                ),
            ]
        } else {
            inputs_errors(h, expanded, e, inputs@.len())
        },
    }
}

/// The feeds of an entity.
pub open spec fn entity_feeds(
    h: House,
    expanded: Seq<ExpandedView>,
    e: LoadedEntity,
) -> Seq<FeedView> {
    match e.file.inputs {
        None => Seq::empty(),
        Some(inputs) => if is_automation(h, e.owner@) {
            Seq::empty()
        } else {
            inputs_feeds(h, expanded, e, inputs@.len())
        },
    }
}

/// The feeds of the first `n` entities.
pub open spec fn house_feeds(h: House, expanded: Seq<ExpandedView>, n: nat) -> Seq<FeedView> {
    text::each(n, |i: int| entity_feeds(h, expanded, h.entities@[i]))
}

/// What is wrong with the inputs of the first `n` entities.
pub open spec fn house_feed_errors(h: House, expanded: Seq<ExpandedView>, n: nat) -> Seq<
    ErrorView,
> {
    text::each(n, |i: int| entity_feed_errors(h, expanded, h.entities@[i]))
}

fn resolve_input(
    house: &House,
    expanded: &Vec<ExpandedKey>,
    entity: &LoadedEntity,
    input: &String,
    source: &InputSource,
    feeds: &mut Vec<Feed>,
    errors: &mut Vec<ValidationError>,
)
    ensures
        text::views(final(feeds)@) == text::views(old(feeds)@) + input_feeds(
            *house,
            text::views(expanded@),
            *entity,
            input@,
            *source,
        ),
        text::views(final(errors)@) == text::views(old(errors)@) + input_errors(
            *house,
            text::views(expanded@),
            *entity,
            input@,
            *source,
        ),
{
    let subject = cat3(entity.name.as_str(), ".", input.as_str());
    let src = match house.entity(source.entity.as_str()) {
        Some(src) => src,
        None => {
            report(
                errors,
                "input-unknown-entity",
                subject.as_str(),
                cat3("source entity \"", source.entity.as_str(), "\" does not exist"),
                Some(entity.path.clone()),
            );
            return ;
        },
    };
    let key = cat6(
        "home/state/",
        src.file.entity.room.as_str(),
        "/",
        src.name.as_str(),
        "/",
        source.aspect.as_str(),
    );
    if bound_by_automation(house, src.owner.as_str()) && !publishes_key(
        expanded,
        src.owner.as_str(),
        key.as_str(),
    ) {
        report(
            errors,
            "input-unpublished-aspect",
            subject.as_str(),
            cat5(
                "\"",
                src.owner.as_str(),
                "\" does not publish ",
                key.as_str(),
                "; a fed aspect must be in its owner's [bus.publishes]",
            ),
            Some(entity.path.clone()),
        );
        return ;
    }
    feeds.push(
        Feed {
            entity: entity.name.clone(),
            input: input.clone(),
            source_entity: src.name.clone(),
            source_aspect: source.aspect.clone(),
            source_owner: src.owner.clone(),
            key,
        },
    );
}

fn resolve_entity_feeds(
    house: &House,
    expanded: &Vec<ExpandedKey>,
    entity: &LoadedEntity,
    feeds: &mut Vec<Feed>,
    errors: &mut Vec<ValidationError>,
)
    ensures
        text::views(final(feeds)@) == text::views(old(feeds)@) + entity_feeds(
            *house,
            text::views(expanded@),
            *entity,
        ),
        text::views(final(errors)@) == text::views(old(errors)@) + entity_feed_errors(
            *house,
            text::views(expanded@),
            *entity,
        ),
{
    let inputs = match &entity.file.inputs {
        Some(inputs) => inputs,
        None => {
            return ;
        },
    };
    if bound_by_automation(house, entity.owner.as_str()) {
        report(
            errors,
            "virtual-entity-fed",
            entity.name.as_str(),
            "automation-owned entities have no device inputs to feed".to_owned(),
            Some(entity.path.clone()),
        );
        return ;
    }
    let ghost before = text::views(feeds@);
    let ghost faults = text::views(errors@);
    let n = inputs.len();
    for i in 0..n
        invariant
            entity.file.inputs == Some(*inputs),
            n == inputs@.len(),
            text::views(feeds@) == before + inputs_feeds(
                *house,
                text::views(expanded@),
                *entity,
                i as nat,
            ),
            text::views(errors@) == faults + inputs_errors(
                *house,
                text::views(expanded@),
                *entity,
                i as nat,
            ),
    {
        resolve_input(house, expanded, entity, inputs.name(i), inputs.value(i), feeds, errors);
    }
}

/// Resolves every `[inputs]` block: the source exists, the target is a
/// device, and an automation-owned source actually publishes the aspect.
pub fn resolve_feeds(house: &House, expanded: &Vec<ExpandedKey>) -> (r: (
    Vec<Feed>,
    Vec<ValidationError>,
))
    ensures
        text::views(r.0@) == house_feeds(
            *house,
            text::views(expanded@),
            house.entities@.len(),
        ),
        text::views(r.1@) == house_feed_errors(
            *house,
            text::views(expanded@),
            house.entities@.len(),
        ),
{
    let mut feeds: Vec<Feed> = Vec::new();
    let mut errors: Vec<ValidationError> = Vec::new();
    for i in 0..house.entities.len()
        invariant
            text::views(feeds@) == house_feeds(*house, text::views(expanded@), i as nat),
            text::views(errors@) == house_feed_errors(*house, text::views(expanded@), i as nat),
    {
        resolve_entity_feeds(house, expanded, &house.entities[i], &mut feeds, &mut errors);
    }
    (feeds, errors)
}

/// The unit publishes under the entry.
pub open spec fn publishes_under(u: LoadedUnit, entry: Seq<char>) -> bool {
    match u.manifest.bus {
        Some(bus) => names::lookup(bus.publishes@, entry) is Some,
        None => false,
    }
}

/// The unit that declares a publish: the first of the name that has the
/// entry.
pub open spec fn declarer(units: Seq<LoadedUnit>, unit: Seq<char>, entry: Seq<char>) -> Option<
    LoadedUnit,
>
    decreases units.len(),
{
    if units.len() == 0 {
        None
    } else if units[0].manifest.unit.name@ == unit && publishes_under(units[0], entry) {
        Some(units[0])
    } else {
        declarer(units.drop_first(), unit, entry)
    }
}

/// Whether an error about the key may name its unit's manifest.
pub open spec fn names_manifest(k: ExpandedView) -> bool {
    source_piece(k, 1) is Some || !k.templated && any_of_class(k.exprs, "state"@)
}

/// The published keys come from units of the house: there is a unit of the
/// name, and a command publish is declared.
pub open spec fn keys_resolve(h: House, expanded: Seq<ExpandedView>) -> bool {
    forall|i: int|
        0 <= i < expanded.len() && (#[trigger] expanded[i]).direction == Direction::Publishes ==> {
            &&& names_manifest(expanded[i]) ==> repo::unit_named(h.units@, expanded[i].unit) is Some
            &&& commands(expanded[i]) ==> declarer(
                h.units@,
                expanded[i].unit,
                expanded[i].entry,
            ) is Some
        }
}

/// The declaration of a command key.
pub open spec fn declaration(h: House, k: ExpandedView) -> PublishSpec {
    names::lookup(
        declarer(h.units@, k.unit, k.entry)->Some_0.manifest.bus->Some_0.publishes@,
        k.entry,
    )->Some_0
}

/// The path of the manifest that declares a command key.
pub open spec fn declared_in(h: House, k: ExpandedView) -> Option<Seq<char>> {
    Some(declarer(h.units@, k.unit, k.entry)->Some_0.path@)
}

/// The manifest path of a key's unit.
pub open spec fn path_of(h: House, k: ExpandedView) -> Option<Seq<char>> {
    Some(repo::unit_named(h.units@, k.unit)->Some_0.path@)
}

/// Whether the key is a command publish of a unit that is no adapter. A
/// templated publish that expanded to nothing is classified by its source.
pub open spec fn commands(k: ExpandedView) -> bool {
    &&& k.kind != UnitKind::Adapter
    &&& k.direction == Direction::Publishes
    &&& any_of_class(k.exprs, "cmd"@) || k.exprs.len() == 0 && match keyspace::parsed(k.source) {
        Ok(e) => keyspace::class_of(e) == Some("cmd"@),
        Err(_) => false,
    }
}

/// Whether a command key reaches the entity.
pub open spec fn grants_onto(k: ExpandedView, capability: Seq<char>, e: LoadedEntity) -> bool {
    e.file.entity.capability@ == capability && any_covers(
        k.exprs,
        subtree("cmd"@, e.file.entity.room@, e.name@),
    )
}

/// The record of a granted entity.
pub open spec fn granted_record(e: LoadedEntity) -> GrantEntityView {
    GrantEntityView {
        name: e.name@,
        room: e.file.entity.room@,
        write: e.file.write_policy.in_force(),
        owner: e.owner@,
    }
}

/// Those of the first `n` entities that a command key reaches.
pub open spec fn reached(h: House, k: ExpandedView, capability: Seq<char>, n: nat) -> Seq<
    GrantEntityView,
> {
    text::each(
        n,
        |i: int|
            text::only_if(
                grants_onto(k, capability, h.entities@[i]),
                granted_record(h.entities@[i]),
            ),
    )
}

/// The entities granted to a command key, by name.
pub open spec fn granted(h: House, k: ExpandedView, capability: Seq<char>) -> Seq<
    GrantEntityView,
> {
    order::deduped(order::sorted::<GrantEntity>(reached(h, k, capability, h.entities@.len())))
}

/// What is wrong with a command key's capability.
pub open spec fn capability_errors(h: House, k: ExpandedView) -> Seq<ErrorView> {
    let subject = expand::entry_name(k.unit, k.entry);
    if !commands(k) {
        Seq::empty()
    } else {
        match declaration(h, k).capability {
            None => seq![
                error::failure(
                    "publish-missing-capability"@,
                    subject,
                    "cmd publish \""@ + k.source + "\" must declare a capability"@,
                    declared_in(h, k),
                ),
            ],
            Some(capability) => text::only_if(
                !text::listed(CAPABILITIES@, capability@),
                error::failure(
                    "unknown-capability"@,
                    subject,
                    "unknown capability \""@ + capability@ + "\""@,
                    declared_in(h, k),
                ),
            ),
        }
    }
}

/// The grant of a command key.
pub open spec fn key_grants(h: House, k: ExpandedView) -> Seq<GrantView> {
    if !commands(k) || capability_errors(h, k).len() > 0 {
        Seq::empty()
    } else {
        let capability = declaration(h, k).capability->Some_0@;
        seq![
            GrantView {
                unit: k.unit,
                publish: k.entry,
                capability,
                priority: match declaration(h, k).priority {
                    Some(p) => p,
                    None => Priority::Automation,
                },
                entities: granted(h, k, capability),
            },
        ]
    }
}

/// The warning about a command key that reaches nothing.
pub open spec fn key_warnings(h: House, k: ExpandedView) -> Seq<Seq<char>> {
    if !commands(k) || capability_errors(h, k).len() > 0 {
        Seq::empty()
    } else {
        text::only_if(
            granted(h, k, declaration(h, k).capability->Some_0@).len() == 0,
            "publish "@ + expand::entry_name(k.unit, k.entry) + " matches no entities"@,
        )
    }
}

/// The grants of the first `n` keys, in the order of the keys.
pub open spec fn raw_grants(h: House, expanded: Seq<ExpandedView>, n: nat) -> Seq<GrantView> {
    text::each(n, |i: int| key_grants(h, expanded[i]))
}

/// The warnings about the first `n` keys.
pub open spec fn grant_warnings(h: House, expanded: Seq<ExpandedView>, n: nat) -> Seq<Seq<char>> {
    text::each(n, |i: int| key_warnings(h, expanded[i]))
}

/// What is wrong with the capabilities of the first `n` keys.
pub open spec fn all_capability_errors(h: House, expanded: Seq<ExpandedView>, n: nat) -> Seq<
    ErrorView,
> {
    text::each(n, |i: int| capability_errors(h, expanded[i]))
}

/// The grant table: by unit, then by publish.
pub open spec fn grant_table(h: House, expanded: Seq<ExpandedView>) -> Seq<GrantView> {
    order::sorted::<Grant>(raw_grants(h, expanded, expanded.len()))
}

fn granted_entities(house: &House, key: &ExpandedKey, capability: &str) -> (r: Vec<GrantEntity>)
    ensures
        text::views(r@) == granted(*house, key@, capability@),
{
    let mut out: Vec<GrantEntity> = Vec::new();
    for i in 0..house.entities.len()
        invariant
            text::views(out@) == reached(*house, key@, capability@, i as nat),
    {
        let e = &house.entities[i];
        if str_eq(e.file.entity.capability.as_str(), capability) && covers_entity(
            &key.exprs,
            "cmd",
            e.file.entity.room.as_str(),
            e.name.as_str(),
        ) {
            out.push(
                GrantEntity {
                    name: e.name.clone(),
                    room: e.file.entity.room.clone(),
                    write: e.file.write_policy.mode(),
                    owner: e.owner.clone(),
                },
            );
        }
    }
    order::dedup(order::sort(out))
}

fn is_command(key: &ExpandedKey) -> (r: bool)
    ensures
        r == commands(key@),
{
    if key.kind == UnitKind::Adapter || key.direction != Direction::Publishes {
        return false;
    }
    if has_class(&key.exprs, "cmd") {
        return true;
    }
    key.exprs.len() == 0 && match KeyExpr::parse(key.source.as_str()) {
        Ok(e) => e.class_is("cmd"),
        Err(_) => false,
    }
}

fn declaring_unit<'a>(house: &'a House, unit: &str, entry: &str) -> (r: Option<&'a LoadedUnit>)
    ensures
        match r {
            Some(u) => declarer(house.units@, unit@, entry@) == Some(*u) && publishes_under(
                *u,
                entry@,
            ),
            None => declarer(house.units@, unit@, entry@) is None,
        },
{
    let mut i: usize = 0;
    assert(house.units@.skip(0) =~= house.units@);
    while i < house.units.len()
        invariant
            i <= house.units@.len(),
            declarer(house.units@, unit@, entry@) == declarer(
                house.units@.skip(i as int),
                unit@,
                entry@,
            ),
        decreases house.units@.len() - i,
    {
        let u = &house.units[i];
        assert(house.units@.skip(i as int).drop_first() =~= house.units@.skip(i + 1));
        if str_eq(u.manifest.unit.name.as_str(), unit) {
            if let Some(bus) = &u.manifest.bus {
                if bus.publishes.get(entry).is_some() {
                    return Some(u);
                }
            }
        }
        i = i + 1;
    }
    None
}

fn resolve_key(
    house: &House,
    key: &ExpandedKey,
    grants: &mut Vec<Grant>,
    warnings: &mut Vec<String>,
    errors: &mut Vec<ValidationError>,
)
    requires
        commands(key@) ==> declarer(house.units@, key@.unit, key@.entry) is Some,
    ensures
        text::views(final(grants)@) == text::views(old(grants)@) + key_grants(*house, key@),
        text::views(final(warnings)@) == text::views(old(warnings)@) + key_warnings(*house, key@),
        text::views(final(errors)@) == text::views(old(errors)@) + capability_errors(*house, key@),
{
    if !is_command(key) {
        return ;
    }
    if let Some(unit) = declaring_unit(house, key.unit.as_str(), key.entry.as_str()) {
        if let Some(bus) = &unit.manifest.bus {
            if let Some(spec) = bus.publishes.get(key.entry.as_str()) {
                let subject = cat3(key.unit.as_str(), ".", key.entry.as_str());
                let capability = match &spec.capability {
                    Some(capability) => capability,
                    None => {
                        report(
                            errors,
                            "publish-missing-capability",
                            subject.as_str(),
                            cat3(
                                "cmd publish \"",
                                key.source.as_str(),
                                "\" must declare a capability",
                            ),
                            Some(unit.path.clone()),
                        );
                        return ;
                    },
                };
                if !is_listed(&CAPABILITIES, capability.as_str()) {
                    report(
                        errors,
                        "unknown-capability",
                        subject.as_str(),
                        cat3("unknown capability \"", capability.as_str(), "\""),
                        Some(unit.path.clone()),
                    );
                    return ;
                }
                let entities = granted_entities(house, key, capability.as_str());
                if entities.len() == 0 {
                    warnings.push(cat3("publish ", subject.as_str(), " matches no entities"));
                }
                grants.push(
                    Grant {
                        unit: key.unit.clone(),
                        publish: key.entry.clone(),
                        capability: capability.clone(),
                        priority: match spec.priority {
                            Some(p) => p,
                            None => Priority::Automation,
                        },
                        entities,
                    },
                );
            }
        }
    }
}

fn resolve_grants(
    house: &House,
    expanded: &Vec<ExpandedKey>,
    warnings: &mut Vec<String>,
    errors: &mut Vec<ValidationError>,
) -> (r: Vec<Grant>)
    requires
        keys_resolve(*house, text::views(expanded@)),
    ensures
        text::views(r@) == grant_table(*house, text::views(expanded@)),
        text::views(final(warnings)@) == text::views(old(warnings)@) + grant_warnings(
            *house,
            text::views(expanded@),
            expanded@.len(),
        ),
        text::views(final(errors)@) == text::views(old(errors)@) + all_capability_errors(
            *house,
            text::views(expanded@),
            expanded@.len(),
        ),
{
    let ghost keys = text::views(expanded@);
    let ghost told = text::views(warnings@);
    let ghost faults = text::views(errors@);
    let mut grants: Vec<Grant> = Vec::new();
    for i in 0..expanded.len()
        invariant
            keys == text::views(expanded@),
            keys_resolve(*house, keys),
            text::views(grants@) == raw_grants(*house, keys, i as nat),
            text::views(warnings@) == told + grant_warnings(*house, keys, i as nat),
            text::views(errors@) == faults + all_capability_errors(*house, keys, i as nat),
    {
        assert(keys[i as int] == expanded@[i as int]@);
        resolve_key(house, &expanded[i], &mut grants, warnings, errors);
    }
    order::sort(grants)
}

/// The publishes of one grant onto the named entity, among its first `n`
/// entities.
pub open spec fn writes_onto(g: GrantView, name: Seq<char>, n: nat) -> Seq<Seq<char>> {
    text::each(
        n,
        |j: int| text::only_if(g.entities[j].name == name, expand::entry_name(g.unit, g.publish)),
    )
}

/// The publishes that write onto the named entity below the manual band,
/// among the first `n` grants. Exclusivity constrains the automation band
/// only: manual-band units sit above it by construction and never count.
pub open spec fn writers_of(grants: Seq<GrantView>, name: Seq<char>, n: nat) -> Seq<Seq<char>> {
    text::each(
        n,
        |i: int|
            if grants[i].priority == Priority::Manual {
                Seq::empty()
            } else {
                writes_onto(grants[i], name, grants[i].entities.len())
            },
    )
}

/// Two writers on an exclusive entity.
pub open spec fn exclusive_errors(e: LoadedEntity, grants: Seq<GrantView>) -> Seq<ErrorView> {
    let writers = writers_of(grants, e.name@, grants.len());
    text::only_if(
        e.file.write_policy.in_force() == WriteMode::Exclusive && writers.len() > 1,
        error::failure(
            "exclusive-write-conflict"@,
            e.name@,
            "exclusive entity has "@ + text::decimal(writers.len()) + " writers: "@ + text::joined(
                writers,
                ", "@,
            ),
            Some(e.path@),
        ),
    )
}

/// Two writers on one of the first `n` entities, that being exclusive.
pub open spec fn all_exclusive_errors(h: House, grants: Seq<GrantView>, n: nat) -> Seq<ErrorView> {
    text::each(n, |i: int| exclusive_errors(h.entities@[i], grants))
}

fn writers(grants: &Vec<Grant>, name: &str) -> (r: Vec<String>)
    ensures
        text::views(r@) == writers_of(text::views(grants@), name@, grants@.len()),
{
    let ghost gs = text::views(grants@);
    let mut out: Vec<String> = Vec::new();
    for i in 0..grants.len()
        invariant
            gs == text::views(grants@),
            text::views(out@) == writers_of(gs, name@, i as nat),
    {
        assert(gs[i as int] == grants@[i as int]@);
        if grants[i].priority != Priority::Manual {
            let ghost before = text::views(out@);
            let many = grants[i].entities.len();
            for j in 0..many
                invariant
                    many == grants@[i as int].entities@.len(),
                    i < grants@.len(),
                    gs == text::views(grants@),
                    gs[i as int] == grants@[i as int]@,
                    text::views(out@) == before + writes_onto(gs[i as int], name@, j as nat),
            {
                assert(gs[i as int].entities[j as int] == grants@[i as int].entities@[j as int]@);
                if str_eq(grants[i].entities[j].name.as_str(), name) {
                    out.push(cat3(grants[i].unit.as_str(), ".", grants[i].publish.as_str()));
                }
            }
        }
    }
    out
}

fn check_exclusive(house: &House, grants: &Vec<Grant>, errors: &mut Vec<ValidationError>)
    ensures
        text::views(final(errors)@) == text::views(old(errors)@) + all_exclusive_errors(
            *house,
            text::views(grants@),
            house.entities@.len(),
        ),
{
    let ghost gs = text::views(grants@);
    let ghost faults = text::views(errors@);
    for i in 0..house.entities.len()
        invariant
            gs == text::views(grants@),
            text::views(errors@) == faults + all_exclusive_errors(*house, gs, i as nat),
    {
        let e = &house.entities[i];
        if e.file.write_policy.mode() == WriteMode::Exclusive {
            let found = writers(grants, e.name.as_str());
            if found.len() > 1 {
                let count = text::decimal_of(found.len() as u64);
                let list = text::join(&found, ", ");
                let message = text::cat4(
                    "exclusive entity has ",
                    count.as_str(),
                    " writers: ",
                    list.as_str(),
                );
                report(
                    errors,
                    "exclusive-write-conflict",
                    e.name.as_str(),
                    message,
                    Some(e.path.clone()),
                );
            }
        }
    }
}

/// Whether some publish brings arbitrated commands to the entity.
pub open spec fn arbiter_covers(expanded: Seq<ExpandedView>, e: LoadedEntity) -> bool {
    exists|i: int|
        0 <= i < expanded.len() && (#[trigger] expanded[i]).direction == Direction::Publishes
            && any_of_class_covers(
            expanded[i].exprs,
            "arbiter"@,
            subtree("arbiter"@, e.file.entity.room@, e.name@),
        )
}

/// An arbitrated entity with no arbiter-class publish reaching it would
/// silently never receive a command.
pub open spec fn arbitrated_errors(e: LoadedEntity, expanded: Seq<ExpandedView>) -> Seq<ErrorView> {
    text::only_if(
        e.file.write_policy.in_force() == WriteMode::Arbitrated && !arbiter_covers(expanded, e),
        error::failure(
            "arbitrated-uncovered"@,
            e.name@,
            "arbitrated entity \""@ + e.name@ + "\" has no arbiter-class publish covering it"@,
            Some(e.path@),
        ),
    )
}

/// The uncovered ones among the first `n` entities.
pub open spec fn all_arbitrated_errors(h: House, expanded: Seq<ExpandedView>, n: nat) -> Seq<
    ErrorView,
> {
    text::each(n, |i: int| arbitrated_errors(h.entities@[i], expanded))
}

fn covered_by_arbiter(expanded: &Vec<ExpandedKey>, e: &LoadedEntity) -> (r: bool)
    ensures
        r == arbiter_covers(text::views(expanded@), *e),
{
    let ghost keys = text::views(expanded@);
    let room = e.file.entity.room.as_str();
    let name = e.name.as_str();
    for i in 0..expanded.len()
        invariant
            keys == text::views(expanded@),
            room@ == e.file.entity.room@,
            name@ == e.name@,
            forall|k: int|
                0 <= k < i ==> !((#[trigger] keys[k]).direction == Direction::Publishes
                    && any_of_class_covers(
                    keys[k].exprs,
                    "arbiter"@,
                    subtree("arbiter"@, room@, name@),
                )),
    {
        assert(keys[i as int] == expanded@[i as int]@);
        if expanded[i].direction == Direction::Publishes && class_covers_entity(
            &expanded[i].exprs,
            "arbiter",
            room,
            name,
        ) {
            return true;
        }
    }
    false
}

fn check_arbitrated(house: &House, expanded: &Vec<ExpandedKey>, errors: &mut Vec<ValidationError>)
    ensures
        text::views(final(errors)@) == text::views(old(errors)@) + all_arbitrated_errors(
            *house,
            text::views(expanded@),
            house.entities@.len(),
        ),
{
    let ghost faults = text::views(errors@);
    for i in 0..house.entities.len()
        invariant
            text::views(errors@) == faults + all_arbitrated_errors(
                *house,
                text::views(expanded@),
                i as nat,
            ),
    {
        let e = &house.entities[i];
        if e.file.write_policy.mode() == WriteMode::Arbitrated && !covered_by_arbiter(expanded, e) {
            report(
                errors,
                "arbitrated-uncovered",
                e.name.as_str(),
                cat3(
                    "arbitrated entity \"",
                    e.name.as_str(),
                    "\" has no arbiter-class publish covering it",
                ),
                Some(e.path.clone()),
            );
        }
    }
}

/// Whether the entity's owner subscribes to the entity's command keys.
pub open spec fn owner_listens(expanded: Seq<ExpandedView>, e: LoadedEntity) -> bool {
    exists|i: int|
        0 <= i < expanded.len() && (#[trigger] expanded[i]).unit == e.owner@
            && expanded[i].direction == Direction::Subscribes && any_of_class_covers(
            expanded[i].exprs,
            "cmd"@,
            subtree("cmd"@, e.file.entity.room@, e.name@),
        )
}

/// A commandable virtual entity is a latch: its owning automation subscribes
/// to the entity's cmd keys and sets its own state. A grant onto an
/// automation-owned entity nobody subscribes for would hand commands to a
/// producer that never receives them.
pub open spec fn latch_errors(
    h: House,
    expanded: Seq<ExpandedView>,
    g: GrantView,
    name: Seq<char>,
) -> Seq<ErrorView> {
    match repo::entity_named(h.entities@, name) {
        None => Seq::empty(),
        Some(e) => text::only_if(
            is_automation(h, e.owner@) && !owner_listens(expanded, e),
            error::failure(
                "virtual-entity-commanded"@,
                name,
                "\""@ + name + "\" is bound by automation \""@ + e.owner@
                    + "\", which subscribes to no home/cmd/"@ + e.file.entity.room@ + "/"@ + name
                    + " keys (cmd publish "@ + expand::entry_name(g.unit, g.publish) + ")"@,
                Some(e.path@),
            ),
        ),
    }
}

/// The first `n` entities of a grant that are latches nobody set up.
pub open spec fn grant_latch_errors(
    h: House,
    expanded: Seq<ExpandedView>,
    g: GrantView,
    n: nat,
) -> Seq<ErrorView> {
    text::each(n, |j: int| latch_errors(h, expanded, g, g.entities[j].name))
}

/// The same over the first `n` grants.
pub open spec fn all_latch_errors(
    h: House,
    expanded: Seq<ExpandedView>,
    grants: Seq<GrantView>,
    n: nat,
) -> Seq<ErrorView> {
    text::each(n, |i: int| grant_latch_errors(h, expanded, grants[i], grants[i].entities.len()))
}

fn listens(expanded: &Vec<ExpandedKey>, e: &LoadedEntity) -> (r: bool)
    ensures
        r == owner_listens(text::views(expanded@), *e),
{
    let ghost keys = text::views(expanded@);
    let room = e.file.entity.room.as_str();
    let name = e.name.as_str();
    for i in 0..expanded.len()
        invariant
            keys == text::views(expanded@),
            room@ == e.file.entity.room@,
            name@ == e.name@,
            forall|k: int|
                0 <= k < i ==> !((#[trigger] keys[k]).unit == e.owner@ && keys[k].direction
                    == Direction::Subscribes && any_of_class_covers(
                    keys[k].exprs,
                    "cmd"@,
                    subtree("cmd"@, room@, name@),
                )),
    {
        assert(keys[i as int] == expanded@[i as int]@);
        if str_eq(expanded[i].unit.as_str(), e.owner.as_str()) && expanded[i].direction
            == Direction::Subscribes && class_covers_entity(&expanded[i].exprs, "cmd", room, name) {
            return true;
        }
    }
    false
}

fn check_latch(
    house: &House,
    expanded: &Vec<ExpandedKey>,
    grant: &Grant,
    name: &String,
    errors: &mut Vec<ValidationError>,
)
    ensures
        text::views(final(errors)@) == text::views(old(errors)@) + latch_errors(
            *house,
            text::views(expanded@),
            grant@,
            name@,
        ),
{
    if let Some(e) = house.entity(name.as_str()) {
        if bound_by_automation(house, e.owner.as_str()) && !listens(expanded, e) {
            let publish = cat3(grant.unit.as_str(), ".", grant.publish.as_str());
            report(
                errors,
                "virtual-entity-commanded",
                name.as_str(),
                cat11(
                    "\"",
                    name.as_str(),
                    "\" is bound by automation \"",
                    e.owner.as_str(),
                    "\", which subscribes to no home/cmd/",
                    e.file.entity.room.as_str(),
                    "/",
                    name.as_str(),
                    " keys (cmd publish ",
                    publish.as_str(),
                    ")",
                ),
                Some(e.path.clone()),
            );
        }
    }
}

fn check_latches(
    house: &House,
    expanded: &Vec<ExpandedKey>,
    grants: &Vec<Grant>,
    errors: &mut Vec<ValidationError>,
)
    ensures
        text::views(final(errors)@) == text::views(old(errors)@) + all_latch_errors(
            *house,
            text::views(expanded@),
            text::views(grants@),
            grants@.len(),
        ),
{
    let ghost gs = text::views(grants@);
    let ghost keys = text::views(expanded@);
    let ghost faults = text::views(errors@);
    for i in 0..grants.len()
        invariant
            gs == text::views(grants@),
            keys == text::views(expanded@),
            text::views(errors@) == faults + all_latch_errors(*house, keys, gs, i as nat),
    {
        assert(gs[i as int] == grants@[i as int]@);
        let ghost before = text::views(errors@);
        let many = grants[i].entities.len();
        for j in 0..many
            invariant
                many == grants@[i as int].entities@.len(),
                i < grants@.len(),
                gs == text::views(grants@),
                keys == text::views(expanded@),
                gs[i as int] == grants@[i as int]@,
                text::views(errors@) == before + grant_latch_errors(
                    *house,
                    keys,
                    gs[i as int],
                    j as nat,
                ),
        {
            assert(gs[i as int].entities[j as int] == grants@[i as int].entities@[j as int]@);
            check_latch(house, expanded, &grants[i], &grants[i].entities[j].name, errors);
        }
    }
}

/// The edges of one grant: from the owner of each of its first `n` entities
/// to the granting unit, where the two differ.
pub open spec fn edges_of(g: GrantView, n: nat) -> Seq<(Seq<char>, Seq<char>)> {
    text::each(
        n,
        |j: int| text::only_if(g.entities[j].owner != g.unit, (g.entities[j].owner, g.unit)),
    )
}

/// The edges of the first `n` grants: the granted entities' owner units must
/// be up before the granting unit.
pub open spec fn grant_edges_of(grants: Seq<GrantView>, n: nat) -> Seq<(Seq<char>, Seq<char>)> {
    text::each(n, |i: int| edges_of(grants[i], grants[i].entities.len()))
}

/// No edge of a grant table leads from a unit to itself.
pub proof fn lemma_edges_lead_away(grants: Seq<GrantView>)
    ensures
        forall|k: int|
            0 <= k < grant_edges_of(grants, grants.len()).len() ==> (#[trigger] grant_edges_of(
                grants,
                grants.len(),
            )[k]).0 != grant_edges_of(grants, grants.len())[k].1,
{
    let edges = grant_edges_of(grants, grants.len());
    let f = |i: int| edges_of(grants[i], grants[i].entities.len());
    assert forall|k: int| 0 <= k < edges.len() implies (#[trigger] edges[k]).0 != edges[k].1 by {
        let i = text::lemma_in_each(grants.len(), f, k);
        let g = grants[i];
        let inner = edges_of(g, g.entities.len());
        let m = inner.index_of(edges[k]);
        let h = |j: int|
            text::only_if(g.entities[j].owner != g.unit, (g.entities[j].owner, g.unit));
        let j = text::lemma_in_each(g.entities.len(), h, m);
        assert(h(j).contains(inner[m]));
    }
}

/// Edges (owner, dependent) from a grant table. The owner rides in the grant
/// itself, so edges hold even for entities the repo no longer declares.
/// Owners are adapters, or automations for commandable virtual entities.
pub fn grant_edges(grants: &Vec<Grant>) -> (r: Vec<(String, String)>)
    ensures
        text::views(r@) == grant_edges_of(text::views(grants@), grants@.len()),
{
    let ghost gs = text::views(grants@);
    let mut out: Vec<(String, String)> = Vec::new();
    for i in 0..grants.len()
        invariant
            gs == text::views(grants@),
            text::views(out@) == grant_edges_of(gs, i as nat),
    {
        assert(gs[i as int] == grants@[i as int]@);
        let ghost before = text::views(out@);
        let many = grants[i].entities.len();
        for j in 0..many
            invariant
                many == grants@[i as int].entities@.len(),
                i < grants@.len(),
                gs == text::views(grants@),
                gs[i as int] == grants@[i as int]@,
                text::views(out@) == before + edges_of(gs[i as int], j as nat),
        {
            assert(gs[i as int].entities[j as int] == grants@[i as int].entities@[j as int]@);
            let owner = &grants[i].entities[j].owner;
            if !str_eq(owner.as_str(), grants[i].unit.as_str()) {
                out.push((owner.clone(), grants[i].unit.clone()));
            }
        }
    }
    out
}

/// The units of the table that no apply order can serve.
pub open spec fn cyclic_units(grants: Seq<GrantView>) -> Seq<Seq<char>> {
    let edges = grant_edges_of(grants, grants.len());
    graph::stuck_nodes(edges, graph::nodes(edges).len())
}

/// A cycle among the grant edges: the apply walk needs an order, so the house
/// is refused rather than its units started in an arbitrary one.
pub open spec fn cycle_errors(grants: Seq<GrantView>) -> Seq<ErrorView> {
    text::only_if(
        cyclic_units(grants).len() > 0,
        error::failure(
            "grant-cycle"@,
            text::joined(cyclic_units(grants), ", "@),
            "each of these units commands an entity another of them binds, so no apply order exists"@,
            None,
        ),
    )
}

fn check_cycle(grants: &Vec<Grant>, errors: &mut Vec<ValidationError>)
    ensures
        text::views(final(errors)@) == text::views(old(errors)@) + cycle_errors(
            text::views(grants@),
        ),
{
    let edges = grant_edges(grants);
    let members = graph::cycle_members(&edges);
    if members.len() > 0 {
        let subject = text::join(&members, ", ");
        report(
            errors,
            "grant-cycle",
            subject.as_str(),
            "each of these units commands an entity another of them binds, so no apply order exists".to_owned(),
            None,
        );
    }
}

/// The literal at a place of an expression.
pub open spec fn literal_at(expr: Seq<SegmentView>, i: int) -> Option<Seq<char>> {
    if 0 <= i < expr.len() {
        match expr[i] {
            SegmentView::Literal(l) => Some(l),
            _ => None,
        }
    } else {
        None
    }
}

/// Whether the unit binds the entity in the room.
pub open spec fn binds(h: House, unit: Seq<char>, room: Seq<char>, name: Seq<char>) -> bool {
    exists|i: int|
        0 <= i < h.entities@.len() && (#[trigger] h.entities@[i]).name@ == name
            && h.entities@[i].owner@ == unit && h.entities@[i].file.entity.room@ == room
}

/// State keys belong to bound entities: a concrete one must name a bound
/// entity's room and name literally.
pub open spec fn state_key_errors(
    h: House,
    k: ExpandedView,
    expr: Seq<SegmentView>,
) -> Seq<ErrorView> {
    let subject = expand::entry_name(k.unit, k.entry);
    if keyspace::class_of(expr) != Some("state"@) {
        Seq::empty()
    } else {
        match (literal_at(expr, 2), literal_at(expr, 3)) {
            (Some(room), Some(name)) => text::only_if(
                !binds(h, k.unit, room, name),
                error::failure(
                    "state-publish-unbound"@,
                    subject,
                    "state key \"home/state/"@ + room + "/"@ + name
                        + "/…\" is not under an entity bound by \""@ + k.unit + "\""@,
                    path_of(h, k),
                ),
            ),
            _ => seq![
                error::failure(
                    "state-publish-unbound"@,
                    subject,
                    "state publish \""@ + k.source
                        + "\" needs literal room and entity segments (or {room}/{entity} templates)"@,
                    path_of(h, k),
                ),
            ],
        }
    }
}

/// The same over the first `n` expressions of a key. Templated publishes are
/// bound by construction.
pub open spec fn state_errors(h: House, k: ExpandedView, n: nat) -> Seq<ErrorView> {
    if k.direction != Direction::Publishes || k.templated {
        Seq::empty()
    } else {
        text::each(n, |j: int| state_key_errors(h, k, k.exprs[j]))
    }
}

/// The same over the first `n` keys.
pub open spec fn all_state_errors(h: House, expanded: Seq<ExpandedView>, n: nat) -> Seq<ErrorView> {
    text::each(n, |i: int| state_errors(h, expanded[i], expanded[i].exprs.len()))
}

fn is_bound(house: &House, unit: &str, room: &str, name: &str) -> (r: bool)
    ensures
        r == binds(*house, unit@, room@, name@),
{
    for i in 0..house.entities.len()
        invariant
            forall|k: int|
                0 <= k < i ==> !((#[trigger] house.entities@[k]).name@ == name@
                    && house.entities@[k].owner@ == unit@
                    && house.entities@[k].file.entity.room@ == room@),
    {
        let e = &house.entities[i];
        if str_eq(e.name.as_str(), name) && str_eq(e.owner.as_str(), unit) && str_eq(
            e.file.entity.room.as_str(),
            room,
        ) {
            return true;
        }
    }
    false
}

fn literal_segment(expr: &KeyExpr, i: usize) -> (r: Option<&String>)
    ensures
        literal_at(expr@, i as int) == match r {
            Some(l) => Some(l@),
            None => None,
        },
{
    if i < expr.0.len() {
        assert(expr@[i as int] == expr.0@[i as int]@);
        expr.0[i].literal()
    } else {
        None
    }
}

fn check_state_key(
    house: &House,
    key: &ExpandedKey,
    unit: &LoadedUnit,
    expr: &KeyExpr,
    errors: &mut Vec<ValidationError>,
)
    requires
        repo::unit_named(house.units@, key@.unit) == Some(*unit),
    ensures
        text::views(final(errors)@) == text::views(old(errors)@) + state_key_errors(
            *house,
            key@,
            expr@,
        ),
{
    if !expr.class_is("state") {
        return ;
    }
    let subject = cat3(key.unit.as_str(), ".", key.entry.as_str());
    if let Some(room) = literal_segment(expr, 2) {
        if let Some(name) = literal_segment(expr, 3) {
            if !is_bound(house, key.unit.as_str(), room.as_str(), name.as_str()) {
                report(
                    errors,
                    "state-publish-unbound",
                    subject.as_str(),
                    cat7(
                        "state key \"home/state/",
                        room.as_str(),
                        "/",
                        name.as_str(),
                        "/…\" is not under an entity bound by \"",
                        key.unit.as_str(),
                        "\"",
                    ),
                    Some(unit.path.clone()),
                );
            }
            return ;
        }
    }
    report(
        errors,
        "state-publish-unbound",
        subject.as_str(),
        cat3(
            "state publish \"",
            key.source.as_str(),
            "\" needs literal room and entity segments (or {room}/{entity} templates)",
        ),
        Some(unit.path.clone()),
    );
}

fn check_state(house: &House, expanded: &Vec<ExpandedKey>, errors: &mut Vec<ValidationError>)
    requires
        keys_resolve(*house, text::views(expanded@)),
    ensures
        text::views(final(errors)@) == text::views(old(errors)@) + all_state_errors(
            *house,
            text::views(expanded@),
            expanded@.len(),
        ),
{
    let ghost keys = text::views(expanded@);
    let ghost faults = text::views(errors@);
    for i in 0..expanded.len()
        invariant
            keys == text::views(expanded@),
            keys_resolve(*house, keys),
            text::views(errors@) == faults + all_state_errors(*house, keys, i as nat),
    {
        let key = &expanded[i];
        assert(keys[i as int] == key@);
        if key.direction == Direction::Publishes && !key.templated {
            if let Some(unit) = house.unit(key.unit.as_str()) {
                let ghost before = text::views(errors@);
                for j in 0..key.exprs.len()
                    invariant
                        repo::unit_named(house.units@, key@.unit) == Some(*unit),
                        key@.direction == Direction::Publishes && !key@.templated,
                        text::views(errors@) == before + state_errors(*house, key@, j as nat),
                {
                    assert(key@.exprs[j as int] == key.exprs@[j as int]@);
                    check_state_key(house, key, unit, &key.exprs[j], errors);
                }
            } else {
                proof {
                    let f = |j: int| state_key_errors(*house, key@, key@.exprs[j]);
                    assert forall|j: int| 0 <= j < key@.exprs.len() implies (#[trigger] f(j)).len()
                        == 0 by {
                        assert(keyspace::class_of(key@.exprs[j]) != Some("state"@));
                    }
                    text::lemma_each_empty(key@.exprs.len(), f);
                    assert(text::views(errors@) =~= text::views(errors@) + state_errors(
                        *house,
                        key@,
                        key@.exprs.len(),
                    ));
                }
            }
        }
    }
}

/// The segment at a place of the expression as written.
pub open spec fn source_piece(k: ExpandedView, i: int) -> Option<Seq<char>> {
    let pieces = text::split_at_each(k.source, '/');
    if 0 <= i < pieces.len() {
        Some(pieces[i])
    } else {
        None
    }
}

/// The units that publish under the class, among the first `n` keys.
pub open spec fn publishers(expanded: Seq<ExpandedView>, class: Seq<char>, n: nat) -> Seq<
    Seq<char>,
> {
    text::each(
        n,
        |i: int|
            text::only_if(
                expanded[i].direction == Direction::Publishes && source_piece(expanded[i], 1)
                    == Some(class),
                expanded[i].unit,
            ),
    )
}

/// The units that publish under the class, each once, by name.
pub open spec fn class_publishers(expanded: Seq<ExpandedView>, class: Seq<char>) -> Seq<Seq<char>> {
    order::distinct(publishers(expanded, class, expanded.len()))
}

/// The units of a list other than one, among the first `n`.
pub open spec fn others(units: Seq<Seq<char>>, unit: Seq<char>, n: nat) -> Seq<Seq<char>> {
    text::each(n, |i: int| text::only_if(units[i] != unit, units[i]))
}

/// Why a key may not be published by its unit. `config` and `meta` are the
/// core's alone; `health` and `discovery` are per unit, under the publishing
/// unit's own name; `arbiter`, `clock` and `history` are one service's output
/// each.
pub open spec fn reserved_message(h: House, expanded: Seq<ExpandedView>, k: ExpandedView) -> Option<
    Seq<char>,
> {
    match source_piece(k, 1) {
        None => None,
        Some(class) => if class == "config"@ || class == "meta"@ {
            Some(
                "\""@ + k.source + "\" publishes under home/"@ + class
                    + "/, which only the core writes"@,
            )
        } else if class == "health"@ || class == "discovery"@ {
            if source_piece(k, 2) == Some(k.unit) {
                None
            } else {
                Some(
                    "\""@ + k.source + "\" must sit under this unit's own name: home/"@ + class
                        + "/"@ + k.unit + "/..."@,
                )
            }
        } else if class == "arbiter"@ || class == "clock"@ || class == "history"@ {
            let units = class_publishers(expanded, class);
            if repo::unit_named(h.units@, k.unit)->Some_0.manifest.unit.kind != UnitKind::Service {
                Some(
                    "\""@ + k.source + "\": only a service may publish under home/"@ + class
                        + "/"@,
                )
            } else if units.len() > 1 {
                Some(
                    "\""@ + k.source + "\": home/"@ + class + "/ is also published by "@
                        + text::joined(others(units, k.unit, units.len()), ", "@)
                        + "; exactly one service owns it"@,
                )
            } else {
                None
            }
        } else {
            None
        },
    }
}

/// The failure of a key that its unit may not publish.
pub open spec fn reserved_errors(h: House, expanded: Seq<ExpandedView>, k: ExpandedView) -> Seq<
    ErrorView,
> {
    if k.direction != Direction::Publishes {
        Seq::empty()
    } else {
        match reserved_message(h, expanded, k) {
            Some(message) => seq![
                error::failure(
                    "reserved-class-publish"@,
                    expand::entry_name(k.unit, k.entry),
                    message,
                    path_of(h, k),
                ),
            ],
            None => Seq::empty(),
        }
    }
}

/// The same over the first `n` keys.
pub open spec fn all_reserved_errors(h: House, expanded: Seq<ExpandedView>, n: nat) -> Seq<
    ErrorView,
> {
    text::each(n, |i: int| reserved_errors(h, expanded, expanded[i]))
}

fn source_segment(key: &ExpandedKey, i: usize) -> (r: Option<String>)
    ensures
        text::opt_text(r) == source_piece(key@, i as int),
{
    let pieces = text::split(key.source.as_str(), '/');
    if i < pieces.len() {
        assert(text::views(pieces@)[i as int] == pieces@[i as int]@);
        Some(pieces[i].clone())
    } else {
        None
    }
}

fn units_publishing(expanded: &Vec<ExpandedKey>, class: &str) -> (r: Vec<String>)
    ensures
        text::views(r@) == class_publishers(text::views(expanded@), class@),
{
    let ghost keys = text::views(expanded@);
    let mut out: Vec<String> = Vec::new();
    for i in 0..expanded.len()
        invariant
            keys == text::views(expanded@),
            text::views(out@) == publishers(keys, class@, i as nat),
    {
        let key = &expanded[i];
        assert(keys[i as int] == key@);
        if key.direction == Direction::Publishes {
            if let Some(found) = source_segment(key, 1) {
                if str_eq(found.as_str(), class) {
                    out.push(key.unit.clone());
                }
            }
        }
    }
    order::sort_distinct(out)
}

fn without(units: &Vec<String>, unit: &str) -> (r: Vec<String>)
    ensures
        text::views(r@) == others(text::views(units@), unit@, units@.len()),
{
    let ghost all = text::views(units@);
    let mut out: Vec<String> = Vec::new();
    for i in 0..units.len()
        invariant
            all == text::views(units@),
            text::views(out@) == others(all, unit@, i as nat),
    {
        assert(all[i as int] == units@[i as int]@);
        if !str_eq(units[i].as_str(), unit) {
            out.push(units[i].clone());
        }
    }
    out
}

fn reserved_complaint(
    expanded: &Vec<ExpandedKey>,
    key: &ExpandedKey,
    kind: UnitKind,
    Ghost(h): Ghost<House>,
) -> (r: Option<String>)
    requires
        repo::unit_named(h.units@, key@.unit) is Some,
        repo::unit_named(h.units@, key@.unit)->Some_0.manifest.unit.kind == kind,
    ensures
        text::opt_text(r) == reserved_message(h, text::views(expanded@), key@),
{
    let class = match source_segment(key, 1) {
        Some(class) => class,
        None => {
            return None;
        },
    };
    let class = class.as_str();
    let source = key.source.as_str();
    if str_eq(class, "config") || str_eq(class, "meta") {
        return Some(
            cat5("\"", source, "\" publishes under home/", class, "/, which only the core writes"),
        );
    }
    if str_eq(class, "health") || str_eq(class, "discovery") {
        let own = match source_segment(key, 2) {
            Some(next) => str_eq(next.as_str(), key.unit.as_str()),
            None => false,
        };
        if own {
            return None;
        }
        return Some(
            cat7(
                "\"",
                source,
                "\" must sit under this unit's own name: home/",
                class,
                "/",
                key.unit.as_str(),
                "/...",
            ),
        );
    }
    if str_eq(class, "arbiter") || str_eq(class, "clock") || str_eq(class, "history") {
        if kind != UnitKind::Service {
            return Some(
                cat5("\"", source, "\": only a service may publish under home/", class, "/"),
            );
        }
        let units = units_publishing(expanded, class);
        if units.len() > 1 {
            let rest = text::join(&without(&units, key.unit.as_str()), ", ");
            return Some(
                cat7(
                    "\"",
                    source,
                    "\": home/",
                    class,
                    "/ is also published by ",
                    rest.as_str(),
                    "; exactly one service owns it",
                ),
            );
        }
    }
    None
}

fn check_reserved(house: &House, expanded: &Vec<ExpandedKey>, errors: &mut Vec<ValidationError>)
    requires
        keys_resolve(*house, text::views(expanded@)),
    ensures
        text::views(final(errors)@) == text::views(old(errors)@) + all_reserved_errors(
            *house,
            text::views(expanded@),
            expanded@.len(),
        ),
{
    let ghost keys = text::views(expanded@);
    let ghost faults = text::views(errors@);
    for i in 0..expanded.len()
        invariant
            keys == text::views(expanded@),
            keys_resolve(*house, keys),
            text::views(errors@) == faults + all_reserved_errors(*house, keys, i as nat),
    {
        let key = &expanded[i];
        assert(keys[i as int] == key@);
        if key.direction == Direction::Publishes {
            if let Some(unit) = house.unit(key.unit.as_str()) {
                let message = reserved_complaint(
                    expanded,
                    key,
                    unit.manifest.unit.kind,
                    Ghost(*house),
                );
                if let Some(message) = message {
                    let subject = cat3(key.unit.as_str(), ".", key.entry.as_str());
                    report(
                        errors,
                        "reserved-class-publish",
                        subject.as_str(),
                        message,
                        Some(unit.path.clone()),
                    );
                }
            }
        }
    }
}

/// Everything that is wrong with the grants and the declared keys.
pub open spec fn resolve_errors(h: House, expanded: Seq<ExpandedView>) -> Seq<ErrorView> {
    let table = grant_table(h, expanded);
    all_capability_errors(h, expanded, expanded.len()) + all_exclusive_errors(
        h,
        table,
        h.entities@.len(),
    ) + all_arbitrated_errors(h, expanded, h.entities@.len()) + all_latch_errors(
        h,
        expanded,
        table,
        table.len(),
    ) + cycle_errors(table) + all_state_errors(h, expanded, expanded.len()) + all_reserved_errors(
        h,
        expanded,
        expanded.len(),
    )
}

/// Resolves the grant table and enforces write policy.
pub fn resolve(house: &House, expanded: &Vec<ExpandedKey>) -> (r: (
    Vec<Grant>,
    Vec<String>,
    Vec<ValidationError>,
))
    requires
        keys_resolve(*house, text::views(expanded@)),
    ensures
        text::views(r.0@) == grant_table(*house, text::views(expanded@)),
        text::views(r.1@) == grant_warnings(*house, text::views(expanded@), expanded@.len()),
        text::views(r.2@) == resolve_errors(*house, text::views(expanded@)),
{
    let mut warnings: Vec<String> = Vec::new();
    let mut errors: Vec<ValidationError> = Vec::new();
    let grants = resolve_grants(house, expanded, &mut warnings, &mut errors);
    check_exclusive(house, &grants, &mut errors);
    check_arbitrated(house, expanded, &mut errors);
    check_latches(house, expanded, &grants, &mut errors);
    check_cycle(&grants, &mut errors);
    check_state(house, expanded, &mut errors);
    check_reserved(house, expanded, &mut errors);
    (grants, warnings, errors)
}

} // verus!
