//! The per-unit supervision state machine: what follows a failed spawn, an
//! exit, a liveliness token or a shutdown, and the health it is told by. The
//! caller owns the child process and the clock; it reports events and does
//! what the phase asks.

use crate::bus::Health;
use crate::bus::HealthStatus;
use crate::manifest::RestartPolicy;
use crate::repo::LoadedUnit;
use crate::scan;
use crate::supervisor::backoff;
use crate::supervisor::backoff::Breaker;
use crate::supervisor::backoff::Decision;
use crate::text;
use vstd::prelude::*;

verus! {

pub const DEFAULT_GRACE_S: u32 = 5;

/// Health is republished at this cadence so late subscribers see current
/// state.
pub const HEALTH_REFRESH_MS: u64 = 1_000;

pub struct UnitSpec {
    pub name: String,
    pub command: String,
    pub restart: RestartPolicy,
    /// Milliseconds between SIGTERM and SIGKILL.
    pub grace: u64,
    /// House repo root; the unit's cwd.
    pub cwd: String,
    /// Bus endpoint handed to the unit via HOMEOSTAT_BUS.
    pub endpoint: String,
}

/// The grace in milliseconds that a manifest asks for.
pub open spec fn grace_of(grace_s: Option<u32>) -> int {
    match grace_s {
        Some(s) => s * 1000,
        None => DEFAULT_GRACE_S * 1000,
    }
}

impl UnitSpec {
    pub fn grace_from_manifest(grace_s: Option<u32>) -> (r: u64)
        ensures
            r == grace_of(grace_s),
    {
        match grace_s {
            Some(s) => s as u64 * 1000,
            None => DEFAULT_GRACE_S as u64 * 1000,
        }
    }

    /// How a loaded unit is run.
    pub fn from_loaded(unit: &LoadedUnit, root: &str, listen: &str) -> (r: UnitSpec)
        ensures
            r.name@ == unit.manifest.unit.name@,
            r.command@ == unit.manifest.runtime.command@,
            r.restart == unit.manifest.runtime.restart,
            r.grace == grace_of(unit.manifest.runtime.shutdown_grace_s),
            r.cwd@ == root@,
            r.endpoint@ == listen@,
    {
        UnitSpec {
            name: unit.manifest.unit.name.clone(),
            command: unit.manifest.runtime.command.clone(),
            restart: unit.manifest.runtime.restart,
            grace: UnitSpec::grace_from_manifest(unit.manifest.runtime.shutdown_grace_s),
            cwd: root.to_owned(),
            endpoint: listen.to_owned(),
        }
    }
}

/// ` (` what `)`, where there is something to say.
pub open spec fn remark(before: Seq<char>, n: Option<int>, after: Seq<char>) -> Seq<char> {
    match n {
        Some(i) => before + scan::integer(i) + after,
        None => Seq::empty(),
    }
}

pub open spec fn widened_u32(n: Option<u32>) -> Option<int> {
    match n {
        Some(i) => Some(i as int),
        None => None,
    }
}

pub open spec fn widened_u64(n: Option<u64>) -> Option<int> {
    match n {
        Some(i) => Some(i as int),
        None => None,
    }
}

pub open spec fn widened_i32(n: Option<i32>) -> Option<int> {
    match n {
        Some(i) => Some(i as int),
        None => None,
    }
}

/// The line that the supervisor logs when a unit's health changes.
pub open spec fn transition_text(unit: Seq<char>, h: Health) -> Seq<char> {
    "[homeostat] "@ + unit + ": "@ + h.status.word() + remark(
        " (pid "@,
        widened_u32(h.pid),
        ")"@,
    ) + remark(" (restart in "@, widened_u64(h.backoff_ms), "ms)"@) + remark(
        " (exit code "@,
        widened_i32(h.last_exit_code),
        ")"@,
    )
}

/// The line that the supervisor logs when a unit's health changes.
pub fn transition_line(unit: &str, health: &Health) -> (r: String)
    ensures
        r@ == transition_text(unit@, *health),
{
    let mut line = text::cat4("[homeostat] ", unit, ": ", health.status.as_str());
    let ghost head = line@;
    match health.pid {
        Some(pid) => {
            let s = text::cat3(" (pid ", text::decimal_of(pid as u64).as_str(), ")");
            line.append(s.as_str());
        },
        None => {},
    }
    assert(line@ =~= head + remark(" (pid "@, widened_u32(health.pid), ")"@));
    let ghost head = line@;
    match health.backoff_ms {
        Some(ms) => {
            let s = text::cat3(" (restart in ", text::decimal_of(ms).as_str(), "ms)");
            line.append(s.as_str());
        },
        None => {},
    }
    assert(line@ =~= head + remark(" (restart in "@, widened_u64(health.backoff_ms), "ms)"@));
    let ghost head = line@;
    match health.last_exit_code {
        Some(code) => {
            let s = text::cat3(" (exit code ", scan::integer_of(code as i64).as_str(), ")");
            line.append(s.as_str());
        },
        None => {},
    }
    assert(line@ =~= head + remark(" (exit code "@, widened_i32(health.last_exit_code), ")"@));
    line
}

/// Where a unit stands.
#[derive(Debug, Clone, Copy, PartialEq, Eq, Structural)]
pub enum Phase {
    /// The process is about to be spawned.
    Launching,
    /// The process runs.
    Up { pid: Option<u32> },
    /// The next launch waits for the delay that the health tells, after an
    /// exit with this code or after a spawn that failed.
    Delayed { exited: bool, code: Option<i32> },
    /// The unit stopped for good.
    Ended,
}

/// What happens to a unit.
#[derive(Debug, Clone, Copy, PartialEq, Eq, Structural)]
pub enum Event {
    SpawnFailed { uptime_ms: u64 },
    Spawned { pid: Option<u32> },
    /// The unit's liveliness token appeared on the bus.
    Alive,
    Exited { code: Option<i32>, uptime_ms: u64 },
    /// The delay before the next launch is over.
    DelayOver,
    /// The unit is to stop; a running process has been terminated.
    Shutdown,
    /// It is time to republish.
    Refresh,
}

/// What to do with the current health.
#[derive(Debug, Clone, Copy, PartialEq, Eq, Structural)]
pub enum Telling {
    /// It changed: log and publish it.
    Announce,
    /// Publish it once more.
    Republish,
    Nothing,
}

/// The supervision of one unit.
#[derive(Debug)]
pub struct Supervision {
    pub policy: RestartPolicy,
    pub breaker: Breaker,
    pub restarts: u32,
    pub phase: Phase,
    pub health: Health,
}

pub struct SupervisionView {
    pub policy: RestartPolicy,
    pub failures: int,
    pub restarts: int,
    pub phase: Phase,
    pub health: Health,
}

impl View for Supervision {
    type V = SupervisionView;

    open spec fn view(&self) -> SupervisionView {
        SupervisionView {
            policy: self.policy,
            failures: self.breaker.failures(),
            restarts: self.restarts as int,
            phase: self.phase,
            health: self.health,
        }
    }
}

/// A health without a process.
pub open spec fn down(status: HealthStatus, restarts: int, code: Option<i32>) -> Health {
    Health {
        status,
        pid: None,
        restarts: restarts as u32,
        backoff_ms: None,
        last_exit_code: code,
    }
}

fn down_of(status: HealthStatus, restarts: u32, code: Option<i32>) -> (r: Health)
    ensures
        r == down(status, restarts as int, code),
{
    Health { status, pid: None, restarts, backoff_ms: None, last_exit_code: code }
}

/// Whether an exit under the policy is the end.
pub open spec fn done(policy: RestartPolicy, code: Option<i32>) -> bool {
    match policy {
        RestartPolicy::Never => true,
        RestartPolicy::OnFailure => code == Some(0i32),
        RestartPolicy::Always => false,
    }
}

/// After a spawn that failed, or an exit that the policy restarts from.
pub open spec fn after_failure(
    s: SupervisionView,
    exited: bool,
    code: Option<i32>,
    uptime_ms: u64,
) -> SupervisionView {
    let failures = backoff::counted(s.failures, uptime_ms);
    match backoff::decided(failures) {
        Decision::Open => SupervisionView {
            failures,
            phase: Phase::Ended,
            health: down(HealthStatus::Open, s.restarts, code),
            ..s
        },
        Decision::Restart { delay } => SupervisionView {
            failures,
            restarts: s.restarts + 1,
            phase: Phase::Delayed { exited, code },
            health: Health {
                backoff_ms: Some(delay),
                ..down(HealthStatus::Backoff, s.restarts + 1, code)
            },
            ..s
        },
    }
}

/// What an event makes of a unit. An event that its phase does not wait for
/// changes nothing.
pub open spec fn next(s: SupervisionView, e: Event) -> SupervisionView {
    match (s.phase, e) {
        (Phase::Launching, Event::SpawnFailed { uptime_ms }) => after_failure(
            s,
            false,
            None,
            uptime_ms,
        ),
        (Phase::Launching, Event::Spawned { pid }) => SupervisionView {
            phase: Phase::Up { pid },
            ..s
        },
        (Phase::Up { pid }, Event::Alive) => SupervisionView {
            health: Health { pid, ..down(HealthStatus::Running, s.restarts, None) },
            ..s
        },
        (Phase::Up { .. }, Event::Exited { code, uptime_ms }) => if done(s.policy, code) {
            SupervisionView {
                phase: Phase::Ended,
                health: down(HealthStatus::Stopped, s.restarts, code),
                ..s
            }
        } else {
            after_failure(s, true, code, uptime_ms)
        },
        (Phase::Up { .. }, Event::Shutdown) => SupervisionView {
            phase: Phase::Ended,
            health: down(HealthStatus::Stopped, s.restarts, None),
            ..s
        },
        (Phase::Delayed { .. }, Event::DelayOver) => SupervisionView {
            phase: Phase::Launching,
            health: down(HealthStatus::Starting, s.restarts, None),
            ..s
        },
        (Phase::Delayed { exited, code }, Event::Shutdown) => SupervisionView {
            phase: Phase::Ended,
            health: if exited {
                down(HealthStatus::Stopped, s.restarts, code)
            } else {
                s.health
            },
            ..s
        },
        _ => s,
    }
}

/// What is told of the health after an event.
pub open spec fn told(s: SupervisionView, e: Event) -> Telling {
    match (s.phase, e) {
        (Phase::Launching, Event::SpawnFailed { .. }) => Telling::Announce,
        (Phase::Up { .. }, Event::Alive) => Telling::Announce,
        (Phase::Up { .. }, Event::Exited { .. }) => Telling::Announce,
        (Phase::Up { .. }, Event::Shutdown) => Telling::Announce,
        (Phase::Delayed { .. }, Event::DelayOver) => Telling::Announce,
        (Phase::Delayed { exited, .. }, Event::Shutdown) => if exited {
            Telling::Announce
        } else {
            Telling::Nothing
        },
        (Phase::Up { .. }, Event::Refresh) => Telling::Republish,
        (Phase::Ended, Event::Refresh) => Telling::Republish,
        _ => Telling::Nothing,
    }
}

/// The health tells the phase: who reads the health on the bus knows whether
/// a process runs, how often it was restarted and how long the next launch
/// waits.
pub open spec fn sound(s: SupervisionView) -> bool {
    &&& s.health.restarts == s.restarts
    &&& s.restarts >= 0
    &&& s.failures >= 0
    &&& s.phase != Phase::Ended ==> s.failures < backoff::BREAKER_THRESHOLD
    &&& s.failures <= backoff::BREAKER_THRESHOLD
    &&& s.health.status == HealthStatus::Backoff <==> s.health.backoff_ms is Some
    &&& s.health.backoff_ms matches Some(ms) ==> backoff::BASE_MS <= ms <= backoff::MAX_MS
    &&& s.health.pid is Some ==> s.health.status == HealthStatus::Running
    &&& match s.phase {
        Phase::Launching => s.health.status == HealthStatus::Starting,
        Phase::Up { pid } => s.health.status == HealthStatus::Starting || s.health.status
            == HealthStatus::Running && s.health.pid == pid,
        Phase::Delayed { .. } => s.health.status == HealthStatus::Backoff,
        Phase::Ended => s.health.status != HealthStatus::Starting && s.health.status
            != HealthStatus::Running,
    }
}

proof fn lemma_sound_after_failure(
    s: SupervisionView,
    exited: bool,
    code: Option<i32>,
    uptime_ms: u64,
)
    requires
        sound(s),
        s.phase != Phase::Ended,
        s.restarts < u32::MAX,
    ensures
        sound(after_failure(s, exited, code, uptime_ms)),
{
    let failures = backoff::counted(s.failures, uptime_ms);
    backoff::law_delay_is_bounded(failures);
}

/// Every event keeps the health in step with the phase.
pub proof fn law_health_tells_the_phase(s: SupervisionView, e: Event)
    requires
        sound(s),
        s.restarts < u32::MAX,
    ensures
        sound(next(s, e)),
{
    match (s.phase, e) {
        (Phase::Launching, Event::SpawnFailed { uptime_ms }) => {
            lemma_sound_after_failure(s, false, None, uptime_ms);
        },
        (Phase::Up { .. }, Event::Exited { code, uptime_ms }) => {
            lemma_sound_after_failure(s, true, code, uptime_ms);
        },
        _ => {},
    }
}

impl Supervision {
    pub fn new(policy: RestartPolicy) -> (r: Supervision)
        ensures
            r@ == (SupervisionView {
                policy,
                failures: 0,
                restarts: 0,
                phase: Phase::Launching,
                health: down(HealthStatus::Starting, 0, None),
            }),
            sound(r@),
    {
        Supervision {
            policy,
            breaker: Breaker::new(),
            restarts: 0,
            phase: Phase::Launching,
            health: down_of(HealthStatus::Starting, 0, None),
        }
    }

    /// Takes a failed spawn, or an exit that the policy restarts from.
    fn fail(&mut self, exited: bool, code: Option<i32>, uptime_ms: u64)
        requires
            sound(old(self)@),
            old(self).restarts < u32::MAX,
            old(self).phase != Phase::Ended,
        ensures
            final(self)@ == after_failure(old(self)@, exited, code, uptime_ms),
    {
        match self.breaker.on_exit(uptime_ms) {
            Decision::Open => {
                self.phase = Phase::Ended;
                self.health = down_of(HealthStatus::Open, self.restarts, code);
            },
            Decision::Restart { delay } => {
                self.restarts = self.restarts + 1;
                self.phase = Phase::Delayed { exited, code };
                self.health = Health {
                    status: HealthStatus::Backoff,
                    pid: None,
                    restarts: self.restarts,
                    backoff_ms: Some(delay),
                    last_exit_code: code,
                };
            },
        }
    }

    /// Takes an event and says what to do with the health after it. The
    /// phase then says what the unit waits for.
    pub fn on(&mut self, event: Event) -> (r: Telling)
        requires
            sound(old(self)@),
            old(self).restarts < u32::MAX,
        ensures
            final(self)@ == next(old(self)@, event),
            r == told(old(self)@, event),
            sound(final(self)@),
    {
        proof {
            law_health_tells_the_phase(self@, event);
        }
        match (self.phase, event) {
            (Phase::Launching, Event::SpawnFailed { uptime_ms }) => {
                self.fail(false, None, uptime_ms);
                Telling::Announce
            },
            (Phase::Launching, Event::Spawned { pid }) => {
                self.phase = Phase::Up { pid };
                Telling::Nothing
            },
            (Phase::Up { pid }, Event::Alive) => {
                self.health = Health {
                    status: HealthStatus::Running,
                    pid,
                    restarts: self.restarts,
                    backoff_ms: None,
                    last_exit_code: None,
                };
                Telling::Announce
            },
            (Phase::Up { .. }, Event::Exited { code, uptime_ms }) => {
                let ended = match self.policy {
                    RestartPolicy::Never => true,
                    RestartPolicy::OnFailure => match code {
                        Some(c) => c == 0,
                        None => false,
                    },
                    RestartPolicy::Always => false,
                };
                if ended {
                    self.phase = Phase::Ended;
                    self.health = down_of(HealthStatus::Stopped, self.restarts, code);
                } else {
                    self.fail(true, code, uptime_ms);
                }
                Telling::Announce
            },
            (Phase::Up { .. }, Event::Shutdown) => {
                self.phase = Phase::Ended;
                self.health = down_of(HealthStatus::Stopped, self.restarts, None);
                Telling::Announce
            },
            (Phase::Delayed { .. }, Event::DelayOver) => {
                self.phase = Phase::Launching;
                self.health = down_of(HealthStatus::Starting, self.restarts, None);
                Telling::Announce
            },
            (Phase::Delayed { exited, code }, Event::Shutdown) => {
                self.phase = Phase::Ended;
                if exited {
                    self.health = down_of(HealthStatus::Stopped, self.restarts, code);
                    Telling::Announce
                } else {
                    Telling::Nothing
                }
            },
            (Phase::Up { .. }, Event::Refresh) => Telling::Republish,
            (Phase::Ended, Event::Refresh) => Telling::Republish,
            _ => Telling::Nothing,
        }
    }
}

/// What a run of events makes of a unit.
pub open spec fn run(s: SupervisionView, events: Seq<Event>) -> SupervisionView
    decreases events.len(),
{
    if events.len() == 0 {
        s
    } else {
        next(run(s, events.drop_last()), events.last())
    }
}

/// A unit that stopped for good stays stopped, and its last health stands:
/// nothing that happens launches it again.
pub proof fn law_an_ended_unit_stays_ended(s: SupervisionView, events: Seq<Event>)
    requires
        s.phase == Phase::Ended,
    ensures
        run(s, events) == s,
    decreases events.len(),
{
    if events.len() > 0 {
        law_an_ended_unit_stays_ended(s, events.drop_last());
    }
}

/// The uptimes that an event reports are short of a stable run.
pub open spec fn quick(e: Event) -> bool {
    match e {
        Event::SpawnFailed { uptime_ms } => uptime_ms < backoff::STABLE_MS,
        Event::Exited { uptime_ms, .. } => uptime_ms < backoff::STABLE_MS,
        _ => true,
    }
}

/// A crash loop comes to an end: a unit that never has a stable run is
/// restarted fewer times than the breaker's threshold, whatever happens.
pub proof fn law_a_crash_loop_ends(s: SupervisionView, events: Seq<Event>)
    requires
        s.phase == Phase::Launching,
        s.failures == 0,
        s.restarts == 0,
        forall|i: int| 0 <= i < events.len() ==> quick(#[trigger] events[i]),
    ensures
        run(s, events).restarts < backoff::BREAKER_THRESHOLD,
        run(s, events).phase != Phase::Ended ==> run(s, events).failures == run(
            s,
            events,
        ).restarts,
    decreases events.len(),
{
    if events.len() > 0 {
        let d = events.drop_last();
        assert forall|i: int| 0 <= i < d.len() implies quick(#[trigger] d[i]) by {
            assert(d[i] == events[i]);
        }
        law_a_crash_loop_ends(s, d);
        assert(quick(events[events.len() - 1]));
    }
}

/// A shutdown ends a unit that runs or waits to be launched.
pub proof fn law_shutdown_ends(s: SupervisionView)
    requires
        s.phase != Phase::Launching,
    ensures
        next(s, Event::Shutdown).phase == Phase::Ended,
{
}

/// The restart policy decides on an exit: `never` ends, a clean exit under
/// `on-failure` ends, and nothing else ends but an open breaker.
pub proof fn law_exits_follow_the_policy(s: SupervisionView, code: Option<i32>, uptime_ms: u64)
    requires
        s.phase is Up,
    ensures
        ({
            let after = next(s, Event::Exited { code, uptime_ms });
            let stops = s.policy == RestartPolicy::Never || s.policy == RestartPolicy::OnFailure
                && code == Some(0i32);
            &&& after.health.last_exit_code == code
            &&& stops <==> after.health.status == HealthStatus::Stopped
            &&& !stops ==> (after.health.status == HealthStatus::Open <==> backoff::counted(
                s.failures,
                uptime_ms,
            ) >= backoff::BREAKER_THRESHOLD)
            &&& after.phase == Phase::Ended <==> after.health.status != HealthStatus::Backoff
        }),
{
}

/// Once a launched unit's token is up, its health says that it runs: with
/// the pid of its process, as many restarts as there were, no delay and no
/// exit code, however often it was restarted before.
pub proof fn law_a_live_unit_is_running(s: SupervisionView, pid: Option<u32>)
    requires
        s.phase == (Phase::Up { pid }),
        0 <= s.restarts <= u32::MAX,
    ensures
        ({
            let after = next(s, Event::Alive);
            &&& after.health.status == HealthStatus::Running
            &&& after.health.pid == pid
            &&& after.health.restarts == s.restarts
            &&& after.health.backoff_ms is None
            &&& after.health.last_exit_code is None
            &&& after.phase == s.phase
            &&& after.restarts == s.restarts
            &&& after.failures == s.failures
            &&& told(s, Event::Alive) == Telling::Announce
        }),
{
}

/// Every change of the health is announced, and what is not announced
/// changed nothing of it. A refresh republishes the health of a unit that
/// runs or has ended, and of no other.
pub proof fn law_changes_are_announced(s: SupervisionView, e: Event)
    ensures
        next(s, e).health != s.health ==> told(s, e) == Telling::Announce,
        told(s, e) == Telling::Republish <==> e == Event::Refresh && (s.phase is Up || s.phase
            == Phase::Ended),
        next(s, e).policy == s.policy,
{
}

/// Restarts are counted one by one, and only when the unit goes into the
/// delay before a launch. Failures move only with a launch that failed or
/// a process that exited.
pub proof fn law_restarts_are_counted(s: SupervisionView, e: Event)
    ensures
        next(s, e).restarts == if !(s.phase is Delayed) && next(s, e).phase is Delayed {
            s.restarts + 1
        } else {
            s.restarts
        },
        !(e is SpawnFailed) && !(e is Exited) ==> next(s, e).failures == s.failures,
        next(s, e).phase is Delayed && next(s, e).phase != s.phase ==> e is SpawnFailed || e
            is Exited,
{
}

/// The walk of a unit through its phases: a launch leads up or into a
/// delay, a delay leads to the next launch, and only a unit that was
/// launched can be up. An event that the phase does not wait for leaves
/// everything as it was.
pub proof fn law_phases_follow_each_other(s: SupervisionView, e: Event)
    ensures
        next(s, e).phase is Launching && !(s.phase is Launching) <==> s.phase is Delayed && e
            == Event::DelayOver,
        next(s, e).phase is Up && !(s.phase is Up) <==> s.phase is Launching && e is Spawned,
        s.phase is Launching && e is Spawned ==> next(s, e).phase == (Phase::Up { pid: e->pid })
            && next(s, e).health == s.health,
        s.phase is Launching && !(e is Spawned) && !(e is SpawnFailed) ==> next(s, e) == s,
        s.phase is Up && !(e is Alive) && !(e is Exited) && e != Event::Shutdown ==> next(s, e)
            == s,
        s.phase is Delayed && e != Event::DelayOver && e != Event::Shutdown ==> next(s, e) == s,
        s.phase == Phase::Ended ==> next(s, e) == s,
{
}

/// After the delay the unit is starting again: no process, no delay left to
/// tell and no exit code.
pub proof fn law_a_relaunch_is_starting(s: SupervisionView)
    requires
        s.phase is Delayed,
        0 <= s.restarts <= u32::MAX,
    ensures
        ({
            let h = next(s, Event::DelayOver).health;
            &&& h.status == HealthStatus::Starting
            &&& h.pid is None
            &&& h.restarts == s.restarts
            &&& h.backoff_ms is None
            &&& h.last_exit_code is None
        }),
{
}

/// A unit that is told to stop while its process runs ends as stopped,
/// without a pid and without an exit code. One that waits after an exit
/// ends as stopped with the code of that exit; one whose spawn failed keeps
/// the health that it had, and nothing is told of it.
pub proof fn law_a_shutdown_tells_the_end(s: SupervisionView)
    requires
        s.phase is Up || s.phase is Delayed,
        0 <= s.restarts <= u32::MAX,
    ensures
        ({
            let after = next(s, Event::Shutdown);
            let quiet = s.phase is Delayed && !s.phase->exited;
            &&& after.phase == Phase::Ended
            &&& quiet ==> after.health == s.health
            &&& quiet <==> told(s, Event::Shutdown) == Telling::Nothing
            &&& !quiet ==> after.health.status == HealthStatus::Stopped && after.health.pid is None
                && after.health.restarts == s.restarts && after.health.backoff_ms is None
            &&& s.phase is Up ==> after.health.last_exit_code is None
            &&& s.phase is Delayed && !quiet ==> after.health.last_exit_code
                == s.phase->Delayed_code
        }),
{
}

/// A spawn that failed, and an exit that the policy restarts from, are
/// taken alike. Up to the fourth in a row without five seconds of uptime
/// the unit waits a tenth of a second, and twice as long each time, and is
/// launched again; the fifth opens the breaker and ends the unit. A run of
/// five seconds or more starts the count over.
pub proof fn law_failures_back_off(s: SupervisionView, code: Option<i32>, uptime_ms: u64)
    requires
        0 <= s.failures,
        0 <= s.restarts < u32::MAX,
        s.phase is Launching || s.phase is Up,
        s.phase is Up ==> s.policy == RestartPolicy::Always || s.policy == RestartPolicy::OnFailure
            && code != Some(0i32),
    ensures
        ({
            let after = if s.phase is Launching {
                next(s, Event::SpawnFailed { uptime_ms })
            } else {
                next(s, Event::Exited { code, uptime_ms })
            };
            let told_code = if s.phase is Launching {
                None
            } else {
                code
            };
            let n = if uptime_ms >= 5000 {
                1
            } else {
                s.failures + 1
            };
            &&& after.failures == n
            &&& after.health.pid is None
            &&& after.health.last_exit_code == told_code
            &&& after.health.restarts == after.restarts
            &&& n >= 5 ==> after.phase == Phase::Ended && after.health.status == HealthStatus::Open
                && after.health.backoff_ms is None && after.restarts == s.restarts
            &&& n < 5 ==> after.phase == (Phase::Delayed { exited: s.phase is Up, code: told_code })
                && after.health.status == HealthStatus::Backoff && after.restarts == s.restarts + 1
            &&& n == 1 ==> after.health.backoff_ms == Some(100u64)
            &&& n == 2 ==> after.health.backoff_ms == Some(200u64)
            &&& n == 3 ==> after.health.backoff_ms == Some(400u64)
            &&& n == 4 ==> after.health.backoff_ms == Some(800u64)
        }),
{
    backoff::law_delay_doubles(1);
    backoff::law_delay_doubles(2);
    backoff::law_delay_doubles(3);
}

} // verus!
