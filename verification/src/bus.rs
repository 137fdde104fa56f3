//! The supervision key schema and what travels on it.
//!
//! - `home/health/{unit}`  supervisor-published health status
//! - `home/health/{unit}/alive`  liveliness token declared by the unit itself
//! - `home/meta/{unit}/manifest_hash`  sha256 of the unit's manifest file
//! - `home/meta/{unit}/log`  the unit's captured output
//! - `home/config/{unit}/{param}`  core-owned live parameter values

use crate::json::Json;
use crate::json::JsonView;
use crate::text;
use crate::text::cat2;
use crate::text::cat3;
use crate::text::cat4;
use vstd::prelude::*;

verus! {

broadcast use crate::text::group_views;

pub const DEFAULT_LISTEN: &'static str = "tcp/127.0.0.1:7447";

/// Environment variable carrying the unit's name into its process.
pub const ENV_UNIT: &'static str = "HOMEOSTAT_UNIT";

/// Environment variable carrying the bus connect endpoint into a unit.
pub const ENV_BUS: &'static str = "HOMEOSTAT_BUS";

pub const GRANTS_KEY: &'static str = "home/meta/system/grants";

pub const APPLIED_COMMIT_KEY: &'static str = "home/meta/system/applied_commit";

/// The apply control queryable: a GET with payload is an apply request
/// (the same query-as-command pattern as config writes).
pub const APPLY_KEY: &'static str = "home/meta/system/apply";

pub fn health_key(unit: &str) -> (r: String)
    ensures
        r@ == "home/health/"@ + unit@,
{
    cat2("home/health/", unit)
}

pub fn liveliness_key(unit: &str) -> (r: String)
    ensures
        r@ == "home/health/"@ + unit@ + "/alive"@,
{
    cat3("home/health/", unit, "/alive")
}

pub fn manifest_hash_key(unit: &str) -> (r: String)
    ensures
        r@ == "home/meta/"@ + unit@ + "/manifest_hash"@,
{
    cat3("home/meta/", unit, "/manifest_hash")
}

pub fn files_hash_key(unit: &str) -> (r: String)
    ensures
        r@ == "home/meta/"@ + unit@ + "/files_hash"@,
{
    cat3("home/meta/", unit, "/files_hash")
}

pub fn manifest_key(unit: &str) -> (r: String)
    ensures
        r@ == "home/meta/"@ + unit@ + "/manifest"@,
{
    cat3("home/meta/", unit, "/manifest")
}

/// The key of a unit's captured output.
pub open spec fn log_path(unit: Seq<char>) -> Seq<char> {
    "home/meta/"@ + unit + "/log"@
}

pub fn log_key(unit: &str) -> (r: String)
    ensures
        r@ == log_path(unit@),
{
    cat3("home/meta/", unit, "/log")
}

/// The key of a parameter.
pub open spec fn config_path(unit: Seq<char>, param: Seq<char>) -> Seq<char> {
    "home/config/"@ + unit + "/"@ + param
}

pub fn config_key(unit: &str, param: &str) -> (r: String)
    ensures
        r@ == config_path(unit@, param@),
{
    cat4("home/config/", unit, "/", param)
}

/// The settings of a bus session: mode, no scouting, and where it listens or
/// connects. Topology is explicit (the supervisor listens, everyone else
/// connects), which keeps parallel buses isolated and makes localhost
/// deterministic.
pub open spec fn session_settings(mode: Seq<char>, place: Seq<char>, endpoint: Seq<char>) -> Seq<
    (Seq<char>, Seq<char>),
> {
    seq![
        ("mode"@, "\""@ + mode + "\""@),
        ("scouting/multicast/enabled"@, "false"@),
        ("scouting/gossip/enabled"@, "false"@),
        (place, "[\""@ + endpoint + "\"]"@),
    ]
}

fn settings(mode: &str, place: &str, endpoint: &str) -> (r: Vec<(String, String)>)
    ensures
        text::views(r@) == session_settings(mode@, place@, endpoint@),
{
    let r = vec![
        ("mode".to_owned(), cat3("\"", mode, "\"")),
        ("scouting/multicast/enabled".to_owned(), "false".to_owned()),
        ("scouting/gossip/enabled".to_owned(), "false".to_owned()),
        (place.to_owned(), cat3("[\"", endpoint, "\"]")),
    ];
    assert(text::views(r@) =~= session_settings(mode@, place@, endpoint@));
    r
}

/// Supervisor-side session settings: a router listening on `endpoint`. Router
/// mode makes the supervisor the hub that routes between the units and any
/// observer connected to it.
pub fn listen_config(endpoint: &str) -> (r: Vec<(String, String)>)
    ensures
        text::views(r@) == session_settings("router"@, "listen/endpoints"@, endpoint@),
{
    settings("router", "listen/endpoints", endpoint)
}

/// Unit/observer-side session settings: a client connected to `endpoint`.
pub fn connect_config(endpoint: &str) -> (r: Vec<(String, String)>)
    ensures
        text::views(r@) == session_settings("client"@, "connect/endpoints"@, endpoint@),
{
    settings("client", "connect/endpoints", endpoint)
}

/// Supervision status of a unit, published at `home/health/{unit}` on every
/// transition and refreshed periodically for late subscribers.
#[derive(Debug, Clone, Copy, PartialEq, Eq, Structural)]
pub enum HealthStatus {
    /// Process spawned, liveliness token not yet seen.
    Starting,
    /// Liveliness token present on the bus.
    Running,
    /// Process exited; restart scheduled after `backoff_ms`.
    Backoff,
    /// Circuit breaker open: too many consecutive quick failures, no
    /// further restarts until the supervisor itself is restarted.
    Open,
    /// Not running and not coming back (policy `never`, clean exit under
    /// `on-failure`, or supervisor shutdown).
    Stopped,
}

impl HealthStatus {
    /// The status as it is written on the bus.
    pub open spec fn word(self) -> Seq<char> {
        match self {
            HealthStatus::Starting => "starting"@,
            HealthStatus::Running => "running"@,
            HealthStatus::Backoff => "backoff"@,
            HealthStatus::Open => "open"@,
            HealthStatus::Stopped => "stopped"@,
        }
    }

    pub fn as_str(&self) -> (r: &'static str)
        ensures
            r@ == self.word(),
    {
        match self {
            HealthStatus::Starting => "starting",
            HealthStatus::Running => "running",
            HealthStatus::Backoff => "backoff",
            HealthStatus::Open => "open",
            HealthStatus::Stopped => "stopped",
        }
    }
}

#[derive(Debug, Clone, Copy, PartialEq, Eq, Structural)]
pub struct Health {
    pub status: HealthStatus,
    pub pid: Option<u32>,
    /// Restarts performed since the supervisor started this unit.
    pub restarts: u32,
    /// Planned restart delay; only present in `Backoff`.
    pub backoff_ms: Option<u64>,
    /// Exit code of the most recent exit, if it exited with one.
    pub last_exit_code: Option<i32>,
}

/// One captured line of a unit's output.
#[derive(Debug, PartialEq, Eq)]
pub struct LogEntry {
    /// Microseconds UTC.
    pub ts_us: i64,
    /// "stdout" | "stderr"
    pub stream: String,
    pub line: String,
}

/// Payload of a GET on `home/meta/system/apply`: what the CLI asks of the
/// running supervisor.
#[derive(Debug, PartialEq, Eq)]
pub struct ApplyRequest {
    /// The repo's HEAD when the house root is a git worktree root;
    /// published at `home/meta/system/applied_commit` on success.
    pub base_commit: Option<String>,
}

#[derive(Debug, PartialEq, Eq)]
pub struct ApplyParam {
    pub unit: String,
    pub param: String,
    pub value: Json,
}

#[derive(Debug, PartialEq, Eq)]
pub struct ApplyStep {
    pub unit: String,
    /// "stop" | "start" | "restart"
    pub action: String,
    pub ok: bool,
    pub error: Option<String>,
}

/// The supervisor's reply to an apply request. `steps` holds every unit
/// step attempted, in walk order; a halted walk names its position.
#[derive(Debug, PartialEq, Eq)]
pub struct ApplyResult {
    pub ok: bool,
    pub tier: Option<String>,
    pub params: Vec<ApplyParam>,
    pub steps: Vec<ApplyStep>,
    /// Unit at which the walk halted in place, if it did.
    pub halted_at: Option<String>,
    /// Units the walk never reached.
    pub not_reached: Vec<String>,
    pub error: Option<String>,
}

/// What an entry of a log stands for.
pub struct LogEntryView {
    pub ts_us: int,
    pub stream: Seq<char>,
    pub line: Seq<char>,
}

impl View for LogEntry {
    type V = LogEntryView;

    open spec fn view(&self) -> LogEntryView {
        LogEntryView { ts_us: self.ts_us as int, stream: self.stream@, line: self.line@ }
    }
}

pub struct ApplyParamView {
    pub unit: Seq<char>,
    pub param: Seq<char>,
    pub value: JsonView,
}

impl View for ApplyParam {
    type V = ApplyParamView;

    open spec fn view(&self) -> ApplyParamView {
        ApplyParamView { unit: self.unit@, param: self.param@, value: self.value@ }
    }
}

pub struct ApplyStepView {
    pub unit: Seq<char>,
    pub action: Seq<char>,
    pub ok: bool,
    pub error: Option<Seq<char>>,
}

impl View for ApplyStep {
    type V = ApplyStepView;

    open spec fn view(&self) -> ApplyStepView {
        ApplyStepView {
            unit: self.unit@,
            action: self.action@,
            ok: self.ok,
            error: text::opt_text(self.error),
        }
    }
}

#[verifier::ext_equal]
pub struct ApplyResultView {
    pub ok: bool,
    pub tier: Option<Seq<char>>,
    pub params: Seq<ApplyParamView>,
    pub steps: Seq<ApplyStepView>,
    pub halted_at: Option<Seq<char>>,
    pub not_reached: Seq<Seq<char>>,
    pub error: Option<Seq<char>>,
}

impl View for ApplyResult {
    type V = ApplyResultView;

    open spec fn view(&self) -> ApplyResultView {
        ApplyResultView {
            ok: self.ok,
            tier: text::opt_text(self.tier),
            params: text::views(self.params@),
            steps: text::views(self.steps@),
            halted_at: text::opt_text(self.halted_at),
            not_reached: text::views(self.not_reached@),
            error: text::opt_text(self.error),
        }
    }
}

} // verus!
