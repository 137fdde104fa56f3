//! The manifest contract: unit manifests, entity files, zones and the
//! dashboard file, as plain values.

use crate::floats::Real;
use crate::names::NameMap;
use crate::text;
use crate::text::str_eq;
use crate::tomlvalue::TomlValue;
use vstd::prelude::*;

verus! {

/// Capabilities known to the core; the list grows with adapters. The aspect
/// vocabulary of each is `VOCABULARY` below.
pub const CAPABILITIES: [&'static str; 12] = [
    "binary_sensor",
    "camera",
    "climate",
    "cover",
    "light",
    "lock",
    "person",
    "presence",
    "router",
    "sensor",
    "switch",
    "vpn",
];

/// One capability's aspect vocabulary: what an adapter binding it must
/// publish under which names, and what the family surfaces act on. The base
/// aspect is what commands target and the dashboard widget renders; aspects
/// are the optional ones an entity file may declare; notable names the
/// reading that counts as a deviation.
#[derive(Debug)]
pub struct Capability {
    pub name: &'static str,
    /// The aspect the capability's widget and cmd grant act on, if any.
    pub base: Option<&'static str>,
    /// Optional aspects an entity may declare in `features`, and other
    /// names the vocabulary reserves for this capability; separated by
    /// commas.
    pub aspects: &'static str,
    /// The reading and value that is out of the ordinary, if any.
    pub notable: Option<&'static str>,
    pub note: &'static str,
}

/// The vocabulary of every capability: its name, base aspect, further
/// aspects, notable reading and note. An empty text says there is none.
pub const VOCABULARY: [(
    &'static str,
    &'static str,
    &'static str,
    &'static str,
    &'static str,
); 12] = [
    (
        "binary_sensor",
        "",
        "",
        "",
        "A boolean under its native name.",
    ),
    (
        "camera",
        "",
        "motion",
        "",
        "`motion` (bool). Media rides the go2rtc plane, never the bus.",
    ),
    (
        "climate",
        "setpoint",
        "indoor_temperature, feed_temperature",
        "",
        "`setpoint` in °C is the family lever; the two readings are normalized when the device has them.",
    ),
    (
        "cover",
        "",
        "",
        "",
        "Reserved; no adapter binds it yet.",
    ),
    (
        "light",
        "on",
        "brightness, color_temp",
        "on = true",
        "`brightness` 0–254 (the Zigbee2MQTT scale the dashboard assumes), `color_temp` in mired.",
    ),
    (
        "lock",
        "locked",
        "",
        "locked = false",
        "",
    ),
    (
        "person",
        "",
        "lat, lon, accuracy, battery, fixed_at",
        "",
        "Scalar position aspects; `fixed_at` is the fix's epoch timestamp. Room is always `person`.",
    ),
    (
        "presence",
        "",
        "occupancy, presence",
        "",
        "Either spelling is accepted; adapters pass their native one through.",
    ),
    (
        "router",
        "",
        "wan",
        "wan = false",
        "",
    ),
    (
        "sensor",
        "",
        "",
        "",
        "Numeric aspects under descriptive names (`temperature`, `humidity`); widgets come from what is published.",
    ),
    (
        "switch",
        "on",
        "",
        "",
        "",
    ),
    (
        "vpn",
        "",
        "up",
        "up = false",
        "",
    ),
];

/// Aspects every capability shares: `available` (device liveness, opt-in,
/// notable when false) and `{aspect}_valid` beside a reading the device
/// itself may stop trusting.
pub const COMMON_ASPECTS: [(&'static str, &'static str); 2] = [
    ("available", "bool, published on transition by the owning adapter when the protocol has a real loss signal; `false` is notable (docs/design.md, Availability)."),
    ("{aspect}_valid", "bool beside a reading the device itself may stop trusting; the value stands, the flag says stale."),
];

pub const SUPPORTED_SCHEMA: u32 = 1;

/// The row of the vocabulary that names the capability, at `from` or later.
pub open spec fn row_from(name: Seq<char>, from: int) -> Option<int>
    decreases VOCABULARY@.len() - from,
{
    if from < 0 || from >= VOCABULARY@.len() {
        None
    } else if VOCABULARY@[from].0@ == name {
        Some(from)
    } else {
        row_from(name, from + 1)
    }
}

/// Whether the capability has a base aspect, which is what commands target.
pub open spec fn takes_commands(name: Seq<char>) -> bool {
    match row_from(name, 0) {
        Some(row) => VOCABULARY@[row].1@.len() > 0,
        None => false,
    }
}

fn present(s: &'static str) -> (r: Option<&'static str>)
    ensures
        match r {
            Some(t) => t@ == s@ && s@.len() > 0,
            None => s@.len() == 0,
        },
{
    if s.unicode_len() > 0 {
        Some(s)
    } else {
        None
    }
}

/// The vocabulary of the named capability.
pub fn capability(name: &str) -> (r: Option<Capability>)
    ensures
        match (r, row_from(name@, 0)) {
            (Some(c), Some(row)) => {
                &&& c.name@ == VOCABULARY@[row].0@
                &&& c.base is Some <==> VOCABULARY@[row].1@.len() > 0
                &&& c.base matches Some(b) ==> b@ == VOCABULARY@[row].1@
                &&& c.aspects@ == VOCABULARY@[row].2@
                &&& c.notable is Some <==> VOCABULARY@[row].3@.len() > 0
                &&& c.notable matches Some(n) ==> n@ == VOCABULARY@[row].3@
                &&& c.note@ == VOCABULARY@[row].4@
            },
            (None, None) => true,
            _ => false,
        },
{
    let rows = VOCABULARY;
    let mut i: usize = 0;
    while i < rows.len()
        invariant
            rows == VOCABULARY,
            i <= rows@.len(),
            row_from(name@, 0) == row_from(name@, i as int),
        decreases rows@.len() - i,
    {
        if str_eq(rows[i].0, name) {
            let row = rows[i];
            return Some(
                Capability {
                    name: row.0,
                    base: present(row.1),
                    aspects: row.2,
                    notable: present(row.3),
                    note: row.4,
                },
            );
        }
        i = i + 1;
    }
    None
}

/// A unit manifest: `units/<name>.toml`. One schema, three kinds (adapter,
/// automation, service); which sections a kind accepts is stated on each
/// section, and the validator refuses a mismatch with `invalid-manifest`.
#[derive(Debug, PartialEq, Eq)]
pub struct UnitManifest {
    /// Contract version. Must be 1 (`unsupported-schema` otherwise).
    pub schema: u32,
    pub unit: UnitSection,
    pub runtime: RuntimeSection,
    /// How an adapter reaches its backend. Required for adapters, allowed
    /// for services, refused for automations.
    pub discovery: Option<DiscoverySection>,
    /// The unit's declared bus surface. A unit gets exactly this and
    /// nothing else: the SDK refuses a publish outside it.
    pub bus: Option<BusSection>,
    /// Live parameters, keyed by name (`home/config/{unit}/{param}`).
    /// Names become key segments (`invalid-name`).
    pub params: Option<NameMap<ParamSpec>>,
    /// The entities this unit binds. Required for adapters, allowed for
    /// automations (virtual sensors), refused for services.
    pub entities: Option<EntitiesSection>,
    /// Human names for voice and the dashboard. Dashboard quality is a
    /// function of naming hygiene.
    pub naming: Option<UnitNaming>,
}

/// `[unit]`: identity.
#[derive(Debug, PartialEq, Eq)]
pub struct UnitSection {
    /// Unique across the house; a bus key segment (`home/health/{unit}`,
    /// `home/config/{unit}/*`), so letters, digits, `_`, `-`, `.` only.
    /// `system` is reserved for the core.
    pub name: String,
    pub kind: UnitKind,
    pub description: Option<String>,
    /// Which repo files are this unit's inputs. Absent means `own` — the
    /// unit's command, its own entity files, its zone if it uses one.
    pub inputs: Option<UnitInputs>,
}

/// A unit whose model spans the WHOLE house (the dashboard) is changed by
/// any entity or manifest anywhere, not just by files it owns. Per-unit
/// change detection cannot infer that, so the unit declares it: otherwise
/// `apply` reports success while leaving the unit confidently stale.
#[derive(Debug, Clone, Copy, PartialEq, Eq, Structural)]
pub enum UnitInputs {
    /// The unit's own files: its command, its entity files, its zone.
    Own,
    /// Every manifest and entity file in the house.
    House,
}

/// What a unit is, which decides the sections it may carry and how it is
/// ordered in an apply walk.
#[derive(Debug, Clone, Copy, PartialEq, Eq, Structural)]
pub enum UnitKind {
    /// Puts devices on the bus: binds entities, needs `[discovery]` and
    /// `[entities]`, publishes their state, takes their commands.
    Adapter,
    /// Regulates: subscribes state, publishes commands at the automation
    /// band, and may bind read-only virtual entities via `[entities]`.
    Automation,
    /// Infrastructure with no entities (the recorder, the dashboard, the
    /// arbiter, the clock). May carry `[discovery]`.
    Service,
}

impl UnitKind {
    /// The word a manifest uses for it.
    pub open spec fn word(self) -> Seq<char> {
        match self {
            UnitKind::Adapter => "adapter"@,
            UnitKind::Automation => "automation"@,
            UnitKind::Service => "service"@,
        }
    }

    pub fn as_str(&self) -> (r: &'static str)
        ensures
            r@ == self.word(),
    {
        match self {
            UnitKind::Adapter => "adapter",
            UnitKind::Automation => "automation",
            UnitKind::Service => "service",
        }
    }
}

/// `[runtime]`: how the supervisor runs the unit.
#[derive(Debug, PartialEq, Eq)]
pub struct RuntimeSection {
    /// Shell command, run from the house root with `HOMEOSTAT_UNIT` and
    /// `HOMEOSTAT_BUS` set. Typically `uv run units/<name>.py`.
    pub command: String,
    pub restart: RestartPolicy,
    /// Seconds between SIGTERM and SIGKILL at shutdown. Default 5.
    pub shutdown_grace_s: Option<u32>,
}

/// When the supervisor restarts an exited unit. Every restart carries
/// backoff and a circuit breaker; the policy only says which exits count.
#[derive(Debug, Clone, Copy, PartialEq, Eq, Structural)]
pub enum RestartPolicy {
    /// Restart after any exit, clean or not.
    Always,
    /// Restart only after a non-zero exit or a signal.
    OnFailure,
    /// Never restart; a stopped unit stays stopped until the next apply.
    Never,
}

/// `[discovery]`: how an adapter finds its backend. `static` needs
/// `endpoint`, `mdns` needs `service` (`invalid-manifest` otherwise).
#[derive(Debug, PartialEq, Eq)]
pub struct DiscoverySection {
    pub mode: DiscoveryMode,
    /// A URL such as `mqtt://host:1883`. `${VAR}` expands from the unit's
    /// environment at start; an unset variable is a startup error.
    pub endpoint: Option<String>,
    /// The mDNS service type to browse, e.g. `_esphomelib._tcp`.
    pub service: Option<String>,
}

/// How the backend address is obtained.
#[derive(Debug, Clone, Copy, PartialEq, Eq, Structural)]
pub enum DiscoveryMode {
    /// One configured `endpoint`.
    Static,
    /// Each device resolved individually by browsing `service`.
    Mdns,
}

/// `[bus]`: the unit's declared key surface. Keys are `home/{class}/...`
/// (`key-outside-schema` otherwise); a zone name in the room slot expands
/// to its rooms at plan time; `{room}`/`{entity}` templates expand per
/// bound entity and are valid only in adapters and automations
/// (`template-outside-binding-unit`).
#[derive(Debug, PartialEq, Eq)]
pub struct BusSection {
    /// `[bus.subscribes]`: binding name → key expression. The SDK
    /// subscribes by binding name. A unit's own `home/config/{unit}/*` is
    /// implicit and never declared.
    pub subscribes: NameMap<String>,
    /// `[bus.publishes]`: binding name → what the unit may publish. This
    /// is what the plan resolves into the grant table.
    pub publishes: NameMap<PublishSpec>,
}

/// One publish the unit is allowed.
#[derive(Debug, PartialEq, Eq)]
pub struct PublishSpec {
    /// Key expression. Under `home/state/` it must name a bound entity's
    /// room and entity literally or by template (`state-publish-unbound`).
    pub key: String,
    /// Required under `home/cmd/` (`publish-missing-capability`): the grant
    /// resolves onto bound entities of this capability that the key covers.
    /// Must be a known capability (`unknown-capability`).
    pub capability: Option<String>,
    /// The band commands leave at. Automations publish at `automation`;
    /// the family's surfaces (dashboard, voice) at `manual`, which always
    /// wins in arbitration.
    pub priority: Option<Priority>,
}

/// Command priority bands, lowest to highest.
#[derive(Debug, Clone, Copy, PartialEq, Eq, Structural)]
pub enum Priority {
    Automation,
    Agent,
    Family,
    Manual,
}

impl Priority {
    /// The word a manifest uses for it.
    pub open spec fn word(self) -> Seq<char> {
        match self {
            Priority::Automation => "automation"@,
            Priority::Agent => "agent"@,
            Priority::Family => "family"@,
            Priority::Manual => "manual"@,
        }
    }

    pub fn as_str(&self) -> (r: &'static str)
        ensures
            r@ == self.word(),
    {
        match self {
            Priority::Automation => "automation",
            Priority::Agent => "agent",
            Priority::Family => "family",
            Priority::Manual => "manual",
        }
    }
}

/// `[params.<name>]`: one live parameter. The manifest default is the
/// value until something writes `home/config/{unit}/{param}`; a write
/// outside the constraint is refused with the old value still in force.
#[derive(Debug, PartialEq, Eq)]
pub struct ParamSpec {
    pub param_type: ParamType,
    /// A TOML literal of the declared type (`invalid-default` otherwise):
    /// `true`, `30`, `0.5` (an integer literal is accepted for `float`),
    /// `"text"`, or `"22:00"` for `time`. Must satisfy the constraint.
    pub default: TomlValue,
    /// Inline table of constraint keys the type understands
    /// (`malformed-constraint` otherwise): `min`/`max` for `int` and
    /// `float`; `after`/`before` (`"HH:MM"`, may span midnight) for `time`.
    pub constraint: Option<NameMap<TomlValue>>,
    /// Who may change it live. `family` params appear as editable
    /// setpoints on the dashboard; anything else is visible there but
    /// written only through the repo (a propose) or the bus.
    pub editable_by: Option<EditableBy>,
}

/// Parameter value types.
#[derive(Debug, Clone, Copy, PartialEq, Eq, Structural)]
pub enum ParamType {
    Bool,
    Int,
    Float,
    String,
    /// A wall-clock time of day, `"HH:MM"`; the SDK serves it as a
    /// `datetime.time`.
    Time,
}

impl ParamType {
    /// The word a manifest uses for it.
    pub open spec fn word(self) -> Seq<char> {
        match self {
            ParamType::Bool => "bool"@,
            ParamType::Int => "int"@,
            ParamType::Float => "float"@,
            ParamType::String => "string"@,
            ParamType::Time => "time"@,
        }
    }

    pub fn as_str(&self) -> (r: &'static str)
        ensures
            r@ == self.word(),
    {
        match self {
            ParamType::Bool => "bool",
            ParamType::Int => "int",
            ParamType::Float => "float",
            ParamType::String => "string",
            ParamType::Time => "time",
        }
    }
}

/// Actor tiers that may write a parameter live.
#[derive(Debug, Clone, Copy, PartialEq, Eq, Structural)]
pub enum EditableBy {
    Owner,
    Family,
}

impl EditableBy {
    /// The word a manifest uses for it.
    pub open spec fn word(self) -> Seq<char> {
        match self {
            EditableBy::Owner => "owner"@,
            EditableBy::Family => "family"@,
        }
    }

    pub fn as_str(&self) -> (r: &'static str)
        ensures
            r@ == self.word(),
    {
        match self {
            EditableBy::Owner => "owner",
            EditableBy::Family => "family",
        }
    }
}

/// `[entities]`: where this unit's entity files live.
#[derive(Debug, PartialEq, Eq)]
pub struct EntitiesSection {
    /// Directory relative to the house root, e.g. `entities/zigbee/`. Each
    /// `<name>.toml` in it is one bound entity; the stem is its name
    /// (`missing-entities-dir` if absent).
    pub dir: String,
}

/// `[naming]` on a unit.
#[derive(Debug, PartialEq, Eq)]
pub struct UnitNaming {
    /// Swedish label.
    pub sv: Option<String>,
    /// English label; the dashboard falls back to the name with `_`
    /// replaced by spaces.
    pub en: Option<String>,
    /// Alternative spoken names.
    pub aliases: Vec<String>,
    /// Zone or room the unit belongs to, for grouping.
    pub room: Option<String>,
}

/// An entity file: `<entities dir>/<name>.toml`. The file stem is the
/// entity's name, unique across the house (`duplicate-entity-name`), and
/// a key segment (`invalid-name`).
#[derive(Debug, PartialEq, Eq)]
pub struct EntityFile {
    /// Contract version. Must be 1.
    pub schema: u32,
    pub entity: EntitySection,
    pub naming: Option<EntityNaming>,
    pub write_policy: WritePolicy,
    /// `[inputs]`: device inputs fed from one source each, keyed by the
    /// adapter's own input name (e.g. `indoor_temperature_actual`). A fed
    /// input is a continuous signal with one master, not a command: it
    /// stops being a command aspect for this entity, never rides the
    /// arbiter, and staleness is the device's own validity window. Only a
    /// device entity can be fed (`virtual-entity-fed`); the adapter is the
    /// authority on which input names exist.
    pub inputs: Option<NameMap<InputSource>>,
    /// Retired: placement on the dashboard lives in `dashboard.toml`
    /// (`entity-dashboard-retired`).
    pub dashboard: Option<TomlValue>,
}

/// The source of a fed input: an entity and one of its aspects, i.e. the
/// state key `home/state/{room}/{entity}/{aspect}`. The plan resolves it
/// and prints the edge, as it does a grant.
#[derive(Debug, PartialEq, Eq)]
pub struct InputSource {
    /// Name of the source entity; must exist (`input-unknown-entity`). Any
    /// owner will do — an automation's virtual sensor or another adapter's
    /// device.
    pub entity: String,
    /// The aspect to read. When the source is automation-owned, that
    /// automation's `[bus.publishes]` must cover the key
    /// (`input-unpublished-aspect`).
    pub aspect: String,
}

/// `[entity]`: what the device is and where.
#[derive(Debug, PartialEq, Eq)]
pub struct EntitySection {
    /// The adapter-native address (a zigbee2mqtt friendly name, an ESPHome
    /// node, a camera's go2rtc stream). Unique per adapter
    /// (`duplicate-entity-id`). An adapter's entity needs one
    /// (`entity-id-required`); a virtual entity has no device to address.
    pub id: Option<String>,
    /// One of: binary_sensor, camera, climate, cover, light, lock, person,
    /// presence, router, sensor, switch, vpn (`unknown-capability`). Decides
    /// the base aspect, the dashboard widget and which cmd grants apply.
    pub capability: String,
    /// Optional aspects beyond the capability's base, as the adapter
    /// names them (`brightness`, `color_temp` on a light). For a sensor it
    /// is descriptive only; its widgets come from the numeric aspects it
    /// publishes.
    pub features: Vec<String>,
    /// The single source of spatial truth for this entity. A key segment;
    /// not `home` or a key class (`reserved-room-name`). The pseudo-rooms
    /// `global` and `person` are for entities with no place.
    pub room: String,
}

/// `[naming]` on an entity.
#[derive(Debug, PartialEq, Eq)]
pub struct EntityNaming {
    /// Swedish label.
    pub sv: Option<String>,
    /// English label; the dashboard falls back to the name with `_`
    /// replaced by spaces.
    pub en: Option<String>,
    /// Alternative spoken names.
    pub aliases: Vec<String>,
}

/// `[write_policy]`: who may command the entity and how conflicts resolve.
#[derive(Debug, PartialEq, Eq)]
pub struct WritePolicy {
    /// Required where the capability takes commands
    /// (`write-mode-required`); shared where it is left out.
    pub mode: Option<WriteMode>,
    /// Exactly one unit binds each entity: an adapter, or an automation
    /// for virtual sensors. Must exist (`missing-owner-unit`) and be the
    /// unit whose entities dir holds this file (`owner-mismatch`).
    pub owner: String,
}

impl WritePolicy {
    /// The mode in force.
    pub open spec fn in_force(self) -> WriteMode {
        match self.mode {
            Some(mode) => mode,
            None => WriteMode::Shared,
        }
    }

    pub fn mode(&self) -> (r: WriteMode)
        ensures
            r == self.in_force(),
    {
        match self.mode {
            Some(mode) => mode,
            None => WriteMode::Shared,
        }
    }
}

/// How commands toward the entity are governed. An automation-owned
/// (virtual) entity is read-only: `arbitrated` is refused
/// (`virtual-entity-arbitrated`) and no cmd grant may cover it
/// (`virtual-entity-commanded`).
#[derive(Debug, Clone, Copy, PartialEq, Eq, Structural)]
pub enum WriteMode {
    /// Any granted writer may command it; last write wins.
    Shared,
    /// At most one automation-band writer may be granted
    /// (`exclusive-write-conflict`); manual-band surfaces sit above.
    Exclusive,
    /// Commands go through the arbiter (leases, bands, preemption); the
    /// house must bind an arbiter-class publish covering it
    /// (`arbitrated-uncovered`).
    Arbitrated,
}

impl WriteMode {
    /// The word a manifest uses for it.
    pub open spec fn word(self) -> Seq<char> {
        match self {
            WriteMode::Shared => "shared"@,
            WriteMode::Exclusive => "exclusive"@,
            WriteMode::Arbitrated => "arbitrated"@,
        }
    }

    pub fn as_str(&self) -> (r: &'static str)
        ensures
            r@ == self.word(),
    {
        match self {
            WriteMode::Shared => "shared",
            WriteMode::Exclusive => "exclusive",
            WriteMode::Arbitrated => "arbitrated",
        }
    }
}

/// `zones.toml` at the house root: named sets of rooms that expand in the
/// room slot of key expressions.
#[derive(Debug, PartialEq, Eq)]
pub struct ZonesFile {
    /// Contract version. Must be 1.
    pub schema: u32,
    /// `[zones]`: zone name → member rooms. A zone name is a key segment,
    /// not reserved (`reserved-zone-name`), not also a room
    /// (`zone-room-collision`); members must be rooms some entity binds
    /// (`zone-unknown-room`) and never pseudo-rooms (`zone-pseudo-room`).
    pub zones: NameMap<Vec<String>>,
}

/// `dashboard.toml` at the house root: the views of the dashboard.
#[derive(Debug, PartialEq, Eq)]
pub struct DashboardFile {
    pub view: Vec<ViewSpec>,
}

/// One view: a generated one (`kind`) or a composition of `widgets`, never
/// both (`dashboard-view-shape`).
#[derive(Debug, PartialEq, Eq)]
pub struct ViewSpec {
    pub name: String,
    pub kind: Option<String>,
    pub widgets: Vec<WidgetSpec>,
}

/// One widget. Which fields it carries is decided by its kind
/// (`dashboard-widget-fields`).
#[derive(Debug, PartialEq, Eq)]
pub struct WidgetSpec {
    pub kind: WidgetKind,
    pub entity: Option<String>,
    pub aspect: Option<String>,
    pub room: Option<String>,
    pub unit: Option<String>,
    pub hours: Option<Real>,
    pub label: Option<String>,
    pub widgets: Vec<WidgetSpec>,
}

/// What a widget draws.
#[derive(Debug, Clone, Copy, PartialEq, Eq, Structural)]
pub enum WidgetKind {
    Tile,
    Dial,
    Burner,
    Chart,
    Entity,
    Room,
    Unit,
    Params,
    People,
    Deviations,
    MapView,
    Group,
}

impl WidgetKind {
    /// The word the dashboard file uses for it.
    pub open spec fn word(self) -> Seq<char> {
        match self {
            WidgetKind::Tile => "tile"@,
            WidgetKind::Dial => "dial"@,
            WidgetKind::Burner => "burner"@,
            WidgetKind::Chart => "chart"@,
            WidgetKind::Entity => "entity"@,
            WidgetKind::Room => "room"@,
            WidgetKind::Unit => "unit"@,
            WidgetKind::Params => "params"@,
            WidgetKind::People => "people"@,
            WidgetKind::Deviations => "deviations"@,
            WidgetKind::MapView => "map"@,
            WidgetKind::Group => "group"@,
        }
    }

    pub fn as_str(&self) -> (r: &'static str)
        ensures
            r@ == self.word(),
    {
        match self {
            WidgetKind::Tile => "tile",
            WidgetKind::Dial => "dial",
            WidgetKind::Burner => "burner",
            WidgetKind::Chart => "chart",
            WidgetKind::Entity => "entity",
            WidgetKind::Room => "room",
            WidgetKind::Unit => "unit",
            WidgetKind::Params => "params",
            WidgetKind::People => "people",
            WidgetKind::Deviations => "deviations",
            WidgetKind::MapView => "map",
            WidgetKind::Group => "group",
        }
    }
}

} // verus!
