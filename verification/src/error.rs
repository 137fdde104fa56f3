//! Validation failures, their rendering and the explanation of each code.

use crate::order;
use crate::text;
use crate::text::cat3;
use crate::text::cat6;
use crate::text::str_eq;
use vstd::prelude::*;

verus! {

broadcast use crate::text::group_views;

/// A single validation failure with a stable, machine-comparable rendering:
/// `error[<code>] <subject>: <message> (<file>)`.
#[derive(Debug, Clone, PartialEq, Eq)]
pub struct ValidationError {
    pub code: &'static str,
    pub subject: String,
    pub message: String,
    /// House-relative path, when the error is attributable to one file.
    pub file: Option<String>,
}

/// What a failure says.
pub struct ErrorView {
    pub code: Seq<char>,
    pub subject: Seq<char>,
    pub message: Seq<char>,
    pub file: Option<Seq<char>>,
}

impl View for ValidationError {
    type V = ErrorView;

    open spec fn view(&self) -> ErrorView {
        ErrorView {
            code: self.code@,
            subject: self.subject@,
            message: self.message@,
            file: text::opt_text(self.file),
        }
    }
}

/// The failure with these four parts.
pub open spec fn failure(
    code: Seq<char>,
    subject: Seq<char>,
    message: Seq<char>,
    file: Option<Seq<char>>,
) -> ErrorView {
    ErrorView { code, subject, message, file }
}

/// `error[<code>] <subject>: <message> (<file>)`
pub open spec fn error_text(e: ErrorView) -> Seq<char> {
    let head = "error["@ + e.code + "] "@ + e.subject + ": "@ + e.message;
    match e.file {
        Some(file) => head + " ("@ + file + ")"@,
        None => head,
    }
}

impl ValidationError {
    pub fn new(code: &'static str, subject: String, message: String, file: Option<String>) -> (r: Self)
        ensures
            r@ == failure(code@, subject@, message@, text::opt_text(file)),
    {
        ValidationError { code, subject, message, file }
    }

    pub fn to_string(&self) -> (r: String)
        ensures
            r@ == error_text(self@),
    {
        let mut line = cat6(
            "error[",
            self.code,
            "] ",
            self.subject.as_str(),
            ": ",
            self.message.as_str(),
        );
        if let Some(file) = &self.file {
            line.append(" (");
            line.append(file.as_str());
            line.append(")");
        }
        line
    }
}

/// Adds one failure to the list.
pub fn report(
    errors: &mut Vec<ValidationError>,
    code: &'static str,
    subject: &str,
    message: String,
    file: Option<String>,
)
    ensures
        text::views(final(errors)@) == text::views(old(errors)@).push(
            failure(code@, subject@, message@, text::opt_text(file)),
        ),
{
    errors.push(ValidationError::new(code, subject.to_owned(), message, file));
}

/// The rendering of each failure.
pub open spec fn error_lines(errors: Seq<ErrorView>) -> Seq<Seq<char>> {
    Seq::new(errors.len(), |i: int| error_text(errors[i]))
}

/// Deterministic rendering: every line once, in order.
pub fn render_sorted(errors: &Vec<ValidationError>) -> (r: Vec<String>)
    ensures
        text::views(r@) == order::distinct(error_lines(text::views(errors@))),
{
    let mut lines: Vec<String> = Vec::new();
    let mut i: usize = 0;
    while i < errors.len()
        invariant
            i <= errors@.len(),
            lines@.len() == i,
            forall|j: int| 0 <= j < i ==> (#[trigger] lines@[j])@ == error_text(errors@[j]@),
        decreases errors@.len() - i,
    {
        lines.push(errors[i].to_string());
        i = i + 1;
    }
    assert(text::views(lines@) =~= error_lines(text::views(errors@)));
    order::sort_distinct(lines)
}

/// Every error code the pipeline can emit, with the paragraph a reader (or
/// an agent) needs to fix it: what the rule is and why it exists. The
/// only registry: whatever shows an explanation reads from here.
pub const CODES: [(&'static str, &'static str); 46] = [
    (
        "parse-error",
        "A file under units/, an entities dir, or zones.toml could not be read \
         or is not valid TOML; the subject is the file and the message is the \
         parser's. Nothing else in that file is checked until it parses.",
    ),
    (
        "unsupported-schema",
        "Every manifest, entity file and zones.toml begins with `schema = N`. \
         This core supports schema 1 only; a file from a newer or older \
         contract is refused rather than half-read.",
    ),
    (
        "missing-units-dir",
        "A house repo is a directory with a `units/` subdirectory holding one \
         TOML manifest per unit. Without it the path is not a house.",
    ),
    (
        "missing-entities-dir",
        "An adapter's or automation's `[entities] dir` names a directory, \
         relative to the house root, that does not exist. Each entity the \
         unit binds is one `<name>.toml` file in it; the file stem is the \
         entity's name.",
    ),
    (
        "invalid-name",
        "Unit, parameter, entity, room and zone names become bus key segments \
         (`home/state/{room}/{entity}/...`, `home/config/{unit}/{param}`), so \
         each must be non-empty ASCII letters, digits, `_`, `-` or `.`.",
    ),
    (
        "reserved-unit-name",
        "`system` is the core's own unit name: it serves `home/meta/system/**` \
         itself, so no manifest may claim it.",
    ),
    (
        "reserved-room-name",
        "A room may not be `home` or a key class (state, cmd, arbiter, config, \
         meta, health, clock, history, discovery), since rooms sit in the key \
         path right after the class. The pseudo-rooms `global` and `person` are \
         the exception: an entity with no place in the house lives in one of \
         those.",
    ),
    (
        "reserved-zone-name",
        "A zone name may not be `home`, a key class, or a pseudo-room \
         (`global`, `person`). Zones expand in the room slot of key \
         expressions, and pseudo-rooms are not places, so here there is no \
         exception.",
    ),
    (
        "zone-room-collision",
        "A zone and a room share a name. A zone reference in a key expression \
         expands to its member rooms, so a name cannot mean both a place and \
         a set of places.",
    ),
    (
        "zone-pseudo-room",
        "A zone lists `global` or `person` as a member. Pseudo-rooms hold \
         entities that have no place; a zone is a set of places.",
    ),
    (
        "zone-unknown-room",
        "A zone lists a room no entity is bound to. Rooms exist by being named \
         in entity files; zones.toml groups them and cannot invent one.",
    ),
    (
        "duplicate-unit-name",
        "Two manifests declare the same `[unit] name`. The name is the unit's \
         identity on the bus (`home/health/{unit}`, `home/config/{unit}/*`) and \
         in the supervisor, so it must be unique across the house.",
    ),
    (
        "duplicate-entity-name",
        "Two entity files, possibly under different adapters, share a file \
         stem. Entity names are house-global (`home/state/{room}/{entity}/...` \
         is addressed by name, not by owner), so the stem must be unique.",
    ),
    (
        "duplicate-entity-id",
        "Two entity files bound to the same adapter share an `id`. The id is the \
         adapter-native address (a zigbee2mqtt topic segment, an ESPHome node), \
         and one device cannot be two entities of one adapter.",
    ),
    (
        "invalid-manifest",
        "The manifest parsed, but its sections do not fit its `kind`. Adapters \
         require `[entities]` and `[discovery]`; `[entities]` is valid only for \
         adapters and automations; `[discovery]` only for adapters and \
         services; discovery mode `static` needs `endpoint`, mode `mdns` needs \
         `service`.",
    ),
    (
        "unknown-capability",
        "An entity file's `capability`, or a cmd publish's `capability`, is not \
         one the core knows. The vocabulary is fixed (binary_sensor, camera, \
         climate, cover, light, lock, person, presence, router, sensor, switch, \
         vpn) because grants, the arbiter and the dashboard key on it.",
    ),
    (
        "missing-owner-unit",
        "An entity file's `[write_policy] owner` names a unit that does not \
         exist in units/.",
    ),
    (
        "owner-mismatch",
        "An entity file's `[write_policy] owner` names a unit other than the one \
         whose `[entities] dir` the file sits in. The binding unit is the owner \
         by construction; the field must agree with the file's location.",
    ),
    (
        "virtual-entity-arbitrated",
        "An entity bound by an automation is virtual. If it takes commands it \
         is a latch: a command sets its state and last write wins, with no \
         device to contend for and no hold to expire, so arbitration has \
         nothing to order. A physical button's press travels at the \
         automation band yet is family intent, and arbitration would rank \
         it below the dashboard. Use `shared` or `exclusive`.",
    ),
    (
        "virtual-entity-commanded",
        "A cmd-class publish grant resolves onto an entity bound by an \
         automation that does not subscribe to that entity's cmd keys \
         (`home/cmd/{room}/{entity}/**`), so the command would reach nobody. \
         Either the owner is a read-only virtual sensor — narrow the publish \
         key or its capability — or it is meant to be a latch and needs the \
         subscription in its `[bus.subscribes]`.",
    ),
    (
        "grant-cycle",
        "Automations that bind commandable virtual entities are walk-order \
         edge sources like adapters: an owner starts before the units \
         commanding its entities. These units each command an entity another \
         of them binds, so no order exists. A latch must not command its own \
         commanders; break the loop by making one side a state subscription.",
    ),
    (
        "invalid-default",
        "A parameter's `default` does not fit its declared `type`, or violates \
         the parameter's own constraint. Types: bool, int, float (an integer \
         literal is accepted), string, time (an ISO string such as \
         \"22:00\").",
    ),
    (
        "malformed-constraint",
        "A parameter's `constraint` uses a key the type does not understand \
         (min/max on int and float, after/before on time), gives it a value \
         of the wrong type, or has min greater than max.",
    ),
    (
        "key-outside-schema",
        "A `[bus]` key expression must be `home/{class}/...`: it starts with \
         `home/`, names a known class literally (state, cmd, arbiter, config, \
         meta, health, clock, history, discovery), and has at least one \
         segment after the class.",
    ),
    (
        "template-outside-binding-unit",
        "A `[bus]` key uses `{room}` or `{entity}` templates, which expand per \
         bound entity and so are valid only in units that bind entities: \
         adapters and automations. A service names concrete keys or \
         wildcards.",
    ),
    (
        "publish-missing-capability",
        "A publish under `home/cmd/` must declare `capability`. The grant table \
         resolves a cmd publish onto the entities of that capability its key \
         covers, and a plan prints the result; without the capability there \
         is nothing to resolve.",
    ),
    (
        "exclusive-write-conflict",
        "An entity with `write_policy.mode = \"exclusive\"` is covered by more \
         than one automation-band cmd grant. Exclusivity constrains the \
         automation band only: manual-band units (the dashboard, voice) sit \
         above it by construction and do not count.",
    ),
    (
        "arbitrated-uncovered",
        "An entity with `write_policy.mode = \"arbitrated\"` has no unit \
         publishing under `home/arbiter/` whose key covers it. Arbitration is \
         a unit (adapters/arbiter.py), not core machinery: the house must \
         bind one before the first arbitrated entity plans.",
    ),
    (
        "virtual-entity-fed",
        "An `[inputs]` block sits on an entity bound by an automation. A fed \
         input is a device's control input (docs/design.md, Device feeds); a \
         virtual entity has no device behind it and nothing to feed.",
    ),
    (
        "input-unknown-entity",
        "An `[inputs]` entry names a source entity that no unit binds. The \
         source is referenced by entity name and aspect — the identity the \
         bus keys derive from — so the entity must exist in the house.",
    ),
    (
        "input-unpublished-aspect",
        "An `[inputs]` entry reads an aspect of an automation-owned entity \
         that the automation's `[bus.publishes]` does not cover. Virtual \
         sensors name their aspects literally in the publish key, so a feed \
         from one is checked at plan time; nothing would ever arrive on the \
         key otherwise.",
    ),
    (
        "state-publish-unbound",
        "A publish under `home/state/` must name, literally, the room and entity \
         of an entity this unit binds (or use `{room}`/`{entity}` templates). \
         State keys belong to the binding unit; an automation that wants to \
         publish a derived value needs an entity file for it, which also puts \
         the value in front of the recorder and the dashboard.",
    ),
    (
        "write-mode-required",
        "An entity file's `[write_policy]` has no `mode`, and its capability takes \
         commands. A write mode governs commands, so it may be left out only \
         where there are none to govern; a light or a lock never inherits a \
         policy silently.",
    ),
    (
        "entity-id-required",
        "An entity file bound by an adapter has no `[entity] id`. The id is the \
         adapter-native address of the device; only an automation's virtual \
         entity, which has no device behind it, may leave it out.",
    ),
    (
        "reserved-class-publish",
        "A publish sits under a class that is not this unit's to write. `config` \
         and `meta` are the core's alone; `health` and `discovery` are per \
         unit, under the publishing unit's own name; `arbiter`, `clock` and \
         `history` are each one service's output.",
    ),
    (
        "entity-dashboard-retired",
        "An entity file carries a `[dashboard]` table. Placement on the dashboard \
         lives in dashboard.toml: put the entity on a view with a `tile` widget.",
    ),
    (
        "dashboard-reserved-view",
        "A view in dashboard.toml is named `health` or `notshown`. Those names \
         belong to the dashboard's fixed chrome.",
    ),
    (
        "dashboard-duplicate-view",
        "Two views in dashboard.toml share a name. The name is how a view is \
         addressed, so each is declared once.",
    ),
    (
        "dashboard-view-shape",
        "A view in dashboard.toml is either generated (`kind`) or composed \
         (`widgets`). This one has both, or neither.",
    ),
    (
        "dashboard-nested-group",
        "A `group` widget holds another group. A group holds plain widgets, one \
         level deep: dashboard.toml is not a layout language.",
    ),
    (
        "dashboard-widget-fields",
        "A widget lacks a field its kind requires, carries one its kind does not \
         take, or gives `hours` a value that is not a positive number.",
    ),
    (
        "dashboard-unknown-entity",
        "A widget names an entity that no unit binds.",
    ),
    (
        "dashboard-widget-capability",
        "A `burner` widget draws the burner vocabulary, so the entity it names \
         must have the capability `burner`.",
    ),
    (
        "dashboard-invalid-aspect",
        "A widget's `aspect` becomes a bus key segment, so it must be non-empty \
         ASCII letters, digits, `_`, `-` or `.`.",
    ),
    (
        "dashboard-unknown-room",
        "A widget names a room that no entity is bound to.",
    ),
    (
        "dashboard-unknown-unit",
        "A widget names a unit that does not exist in units/.",
    ),
];

/// The explanation registered for `code` at `from` or later.
pub open spec fn explained_from(code: Seq<char>, from: int) -> Option<Seq<char>>
    decreases CODES@.len() - from,
{
    if from < 0 || from >= CODES@.len() {
        None
    } else if CODES@[from].0@ == code {
        Some(CODES@[from].1@)
    } else {
        explained_from(code, from + 1)
    }
}

/// The explanation registered for `code`.
pub open spec fn explanation(code: Seq<char>) -> Option<Seq<char>> {
    explained_from(code, 0)
}

/// The explanation registered for `code`, if any.
pub fn explain(code: &str) -> (r: Option<&'static str>)
    ensures
        match r {
            Some(t) => explanation(code@) == Some(t@),
            None => explanation(code@) == None::<Seq<char>>,
        },
{
    let codes = CODES;
    let mut i: usize = 0;
    while i < codes.len()
        invariant
            codes == CODES,
            i <= codes@.len(),
            explanation(code@) == explained_from(code@, i as int),
        decreases codes@.len() - i,
    {
        if str_eq(codes[i].0, code) {
            return Some(codes[i].1);
        }
        i = i + 1;
    }
    None
}

/// The distinct codes of the failures, in order.
pub open spec fn codes_of(errors: Seq<ErrorView>) -> Seq<Seq<char>> {
    order::distinct(Seq::new(errors.len(), |i: int| errors[i].code))
}

/// The paragraph that explains a code.
pub open spec fn paragraph(code: Seq<char>) -> Seq<char> {
    code + ": "@ + match explanation(code) {
        Some(t) => t,
        None => "(no explanation registered)"@,
    }
}

/// One `code: explanation` paragraph per distinct code in `errors`, in code
/// order — appended wherever a refused plan is reported so the reader has
/// the rule next to the failure.
pub fn explanations(errors: &Vec<ValidationError>) -> (r: Vec<String>)
    ensures
        text::views(r@) == Seq::new(
            codes_of(text::views(errors@)).len(),
            |i: int| paragraph(codes_of(text::views(errors@))[i]),
        ),
{
    let mut codes: Vec<String> = Vec::new();
    let mut i: usize = 0;
    while i < errors.len()
        invariant
            i <= errors@.len(),
            codes@.len() == i,
            forall|j: int| 0 <= j < i ==> (#[trigger] codes@[j])@ == errors@[j]@.code,
        decreases errors@.len() - i,
    {
        codes.push(errors[i].code.to_owned());
        i = i + 1;
    }
    let ghost found = text::views(errors@);
    assert(text::views(codes@) =~= Seq::new(found.len(), |i: int| found[i].code));
    let codes = order::sort_distinct(codes);
    let mut out: Vec<String> = Vec::new();
    let mut k: usize = 0;
    while k < codes.len()
        invariant
            k <= codes@.len(),
            out@.len() == k,
            forall|j: int| 0 <= j < k ==> (#[trigger] out@[j])@ == paragraph(codes@[j]@),
        decreases codes@.len() - k,
    {
        let known = match explain(codes[k].as_str()) {
            Some(t) => t,
            None => "(no explanation registered)",
        };
        out.push(cat3(codes[k].as_str(), ": ", known));
        k = k + 1;
    }
    assert(text::views(out@) =~= Seq::new(
        codes_of(found).len(),
        |i: int| paragraph(codes_of(found)[i]),
    ));
    out
}

} // verus!
