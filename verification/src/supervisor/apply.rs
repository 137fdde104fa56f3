//! The apply engine. The supervisor re-reads the repo, derives its own diff
//! against its in-memory world, and walks it per unit and rolling:
//! parameters first (no restarts), removals in reverse grant order,
//! creates/restarts in grant order, each awaited before the next. Failure
//! halts the walk in place.
//!
//! One apply at a time; parameter-only applies are exempt (the fast path).

use crate::bus::ApplyParam;
use crate::bus::ApplyParamView;
use crate::bus::ApplyResult;
use crate::bus::ApplyResultView;
use crate::bus::ApplyStep;
use crate::bus::ApplyStepView;
use crate::bus::HealthStatus;
use crate::converge;
use crate::error;
use crate::error::render_sorted;
use crate::grants::Grant;
use crate::names;
use crate::order;
use crate::plan;
use crate::plan::derive_tier;
use crate::plan::Diff;
use crate::plan::RepoUnit;
use crate::plan::Step;
use crate::plan::StepAction;
use crate::plan::StepView;
use crate::plan::Tier;
use crate::plan::World;
use crate::repo;
use crate::repo::House;
use crate::text;
use crate::text::cat2;
use crate::text::str_eq;
use crate::world;
use crate::CheckResult;
use vstd::prelude::*;

verus! {

broadcast use crate::text::group_views;

/// An apply that was not begun.
pub open spec fn failed(error: Seq<char>) -> ApplyResultView {
    ApplyResultView {
        ok: false,
        tier: None,
        params: Seq::empty(),
        steps: Seq::empty(),
        halted_at: None,
        not_reached: Seq::empty(),
        error: Some(error),
    }
}

/// An apply that had nothing to do.
pub open spec fn settled() -> ApplyResultView {
    ApplyResultView {
        ok: true,
        tier: None,
        params: Seq::empty(),
        steps: Seq::empty(),
        halted_at: None,
        not_reached: Seq::empty(),
        error: None,
    }
}

fn failure(error: String) -> (r: ApplyResult)
    ensures
        r@ == failed(error@),
{
    let r = ApplyResult {
        ok: false,
        tier: None,
        params: Vec::new(),
        steps: Vec::new(),
        halted_at: None,
        not_reached: Vec::new(),
        error: Some(error),
    };
    assert(r@ =~= failed(error@));
    r
}

/// Refuses to apply a repo that failed validation.
pub fn refuse_invalid(check: &CheckResult) -> (r: Option<ApplyResult>)
    ensures
        match r {
            Some(result) => check.errors@.len() > 0 && result@ == failed(
                "repo failed validation:\n"@ + text::joined(
                    order::distinct(error::error_lines(text::views(check.errors@))),
                    "\n"@,
                ),
            ),
            None => check.errors@.len() == 0,
        },
{
    if check.errors.len() == 0 {
        return None;
    }
    let lines = text::join(&render_sorted(&check.errors), "\n");
    Some(failure(cat2("repo failed validation:\n", lines.as_str())))
}

/// The answer to an apply while another one runs.
pub fn refuse_busy() -> (r: ApplyResult)
    ensures
        r@ == failed("an apply is already in progress"@),
{
    failure("an apply is already in progress".to_owned())
}

/// How long the walk waits for a launched unit, in seconds.
pub const READY_TIMEOUT_S: u64 = 60;

/// How the start of a launched unit went, or None while it is still awaited.
pub open spec fn start_outcome(status: Option<HealthStatus>, over: bool) -> Option<
    Result<(), Seq<char>>,
> {
    match status {
        Some(HealthStatus::Running) => Some(Ok(())),
        Some(HealthStatus::Open) => Some(Err("circuit breaker open"@)),
        Some(HealthStatus::Stopped) => Some(Err("stopped"@)),
        _ => if over {
            Some(Err("not running after 60s"@))
        } else {
            None
        },
    }
}

/// Decides on a launched unit by its health: `over` tells whether the time
/// the walk waits for it is over. A unit that runs is ready, one that is not
/// coming back is not waited for.
pub fn readiness(status: Option<HealthStatus>, over: bool) -> (r: Option<Result<(), String>>)
    ensures
        match r {
            Some(Ok(())) => start_outcome(status, over) == Some(Ok::<(), Seq<char>>(())),
            Some(Err(reason)) => start_outcome(status, over) == Some(
                Err::<(), Seq<char>>(reason@),
            ),
            None => start_outcome(status, over) is None,
        },
{
    match status {
        Some(HealthStatus::Running) => Some(Ok(())),
        Some(HealthStatus::Open) => Some(Err("circuit breaker open".to_owned())),
        Some(HealthStatus::Stopped) => Some(Err("stopped".to_owned())),
        _ => if over {
            Some(Err("not running after 60s".to_owned()))
        } else {
            None
        },
    }
}

/// How an apply of a valid repo begins.
pub enum Begin {
    /// There is nothing to do.
    Settled(ApplyResult),
    /// The difference to walk and its tier. With `exclusive` the walk needs
    /// the apply lock.
    Walk { diff: Diff, tier: Tier, exclusive: bool },
}

/// Begins the apply of a valid repo.
pub fn begin(check: &CheckResult, repo: &Vec<RepoUnit>, world: &World) -> (r: Begin)
    requires
        repo@.len() == check.house.units@.len(),
    ensures
        ({
            let d = plan::diff_of(check.house, text::views(check.grants@), repo@, *world);
            match r {
                Begin::Settled(result) => plan::no_change(d) && result@ == settled(),
                Begin::Walk { diff, tier, exclusive } => {
                    &&& !plan::no_change(d)
                    &&& diff@ == d
                    &&& tier == plan::tier_of(d)
                    &&& exclusive == (tier != Tier::ParameterOnly)
                },
            }
        }),
{
    let diff = plan::diff(check, repo, world);
    if diff.is_empty() {
        let result = ApplyResult {
            ok: true,
            tier: None,
            params: Vec::new(),
            steps: Vec::new(),
            halted_at: None,
            not_reached: Vec::new(),
            error: None,
        };
        assert(result@ =~= settled());
        return Begin::Settled(result);
    }
    let tier = derive_tier(&diff);
    let exclusive = match tier {
        Tier::ParameterOnly => false,
        _ => true,
    };
    Begin::Walk { diff, tier, exclusive }
}

/// A walk under way: the steps it has to take and what came of those taken.
#[derive(Debug)]
pub struct Walk {
    pub tier: Tier,
    pub params: Vec<ApplyParam>,
    pub steps: Vec<Step>,
    pub done: Vec<ApplyStep>,
    pub halted: bool,
}

/// What is reported of a step: it succeeded, or failed for a reason.
pub open spec fn reported(step: StepView, fault: Option<Seq<char>>) -> ApplyStepView {
    ApplyStepView {
        unit: step.unit,
        action: step.action.word(),
        ok: fault is None,
        error: fault,
    }
}

/// The result of a walk, given for each step that was taken why it failed, if
/// it did.
pub open spec fn result_of(
    tier: Tier,
    params: Seq<ApplyParamView>,
    walk: Seq<StepView>,
    faults: Seq<Option<Seq<char>>>,
) -> ApplyResultView {
    let halted = faults.len() > 0 && faults.last() is Some;
    ApplyResultView {
        ok: !halted,
        tier: Some(tier.word()),
        params,
        steps: Seq::new(faults.len(), |i: int| reported(walk[i], faults[i])),
        halted_at: if halted {
            Some(walk[faults.len() - 1].unit)
        } else {
            None
        },
        not_reached: if halted {
            Seq::new((walk.len() - faults.len()) as nat, |i: int| walk[faults.len() + i].unit)
        } else {
            Seq::empty()
        },
        error: None,
    }
}

impl Walk {
    /// Why each step that was taken failed, if it did.
    pub open spec fn faults(self) -> Seq<Option<Seq<char>>> {
        Seq::new(self.done@.len(), |i: int| self.done@[i]@.error)
    }

    /// The walk stops at the first step that fails.
    pub open spec fn valid(self) -> bool {
        &&& self.done@.len() <= self.steps@.len()
        &&& forall|i: int|
            0 <= i < self.done@.len() ==> (#[trigger] self.done@[i])@ == reported(
                self.steps@[i]@,
                self.faults()[i],
            )
        &&& forall|i: int| 0 <= i < self.done@.len() - 1 ==> #[trigger] self.faults()[i] is None
        &&& self.halted == (self.done@.len() > 0 && self.faults().last() is Some)
    }

    /// Whether the walk is over.
    pub open spec fn over(self) -> bool {
        self.halted || self.done@.len() == self.steps@.len()
    }

    pub fn new(tier: Tier, params: Vec<ApplyParam>, steps: Vec<Step>) -> (r: Walk)
        ensures
            r.valid(),
            r.tier == tier,
            r.params == params,
            r.steps == steps,
            r.faults().len() == 0,
    {
        Walk { tier, params, steps, done: Vec::new(), halted: false }
    }

    /// The step to take next; None where the walk is over.
    pub fn current(&self) -> (r: Option<&Step>)
        requires
            self.valid(),
        ensures
            match r {
                Some(step) => !self.over() && *step == self.steps@[self.done@.len() as int],
                None => self.over(),
            },
    {
        if self.halted || self.done.len() == self.steps.len() {
            None
        } else {
            Some(&self.steps[self.done.len()])
        }
    }

    /// Records what came of the current step.
    pub fn record(&mut self, outcome: Result<(), String>)
        requires
            old(self).valid(),
            !old(self).over(),
        ensures
            final(self).valid(),
            final(self).tier == old(self).tier,
            final(self).params == old(self).params,
            final(self).steps == old(self).steps,
            final(self).faults() == old(self).faults().push(
                match outcome {
                    Ok(_) => None,
                    Err(reason) => Some(reason@),
                },
            ),
    {
        let ghost before = *self;
        let step = &self.steps[self.done.len()];
        let unit = step.unit.clone();
        let action = step.action.as_str().to_owned();
        let (ok, error) = match outcome {
            Ok(_) => (true, None),
            Err(reason) => (false, Some(reason)),
        };
        let ghost fault = text::opt_text(error);
        self.done.push(ApplyStep { unit, action, ok, error });
        self.halted = !ok;
        proof {
            assert(self.faults() =~= before.faults().push(fault));
            assert forall|i: int| 0 <= i < self.done@.len() implies (#[trigger] self.done@[i])@
                == reported(self.steps@[i]@, self.faults()[i]) by {
                if i < before.done@.len() {
                    assert(self.done@[i] == before.done@[i]);
                    assert(self.faults()[i] == before.faults()[i]);
                }
            }
            assert forall|i: int|
                0 <= i < self.done@.len() - 1 implies #[trigger] self.faults()[i] is None by {
                assert(self.faults()[i] == before.faults()[i]);
                if i == before.done@.len() - 1 {
                    assert(before.faults().last() == before.faults()[i]);
                }
            }
        }
    }

    /// The step to take next.
    pub open spec fn step(self) -> StepView {
        self.steps@[self.done@.len() as int]@
    }

    /// The same walk with one more step taken, that failed for this reason or
    /// did not fail.
    pub open spec fn took(self, fault: Option<Seq<char>>, next: Walk) -> bool {
        &&& next.valid()
        &&& next.tier == self.tier
        &&& next.params == self.params
        &&& next.steps == self.steps
        &&& next.faults() == self.faults().push(fault)
    }

    /// The current step stopped its unit: the world forgets it.
    pub fn stopped(&mut self, world: &mut World)
        requires
            old(self).valid(),
            !old(self).over(),
            old(self).step().action == StepAction::Stop,
        ensures
            old(self).took(None, *final(self)),
            names::ascending(old(world).units@),
            world::same_but_units(*final(world), *old(world)),
            final(world).units@ == names::without(old(world).units@, old(self).step().unit),
    {
        let _ = world.units.len();
        world.forget_unit(self.steps[self.done.len()].unit.as_str());
        self.record(Ok(()));
    }

    /// The current step brought its unit up: the world knows it as the repo
    /// now describes it.
    pub fn came_up(&mut self, world: &mut World, repo: RepoUnit)
        requires
            old(self).valid(),
            !old(self).over(),
            old(self).step().action != StepAction::Stop,
        ensures
            old(self).took(None, *final(self)),
            names::ascending(old(world).units@),
            world::same_but_units(*final(world), *old(world)),
            converge::brought_up(old(self).step().unit, repo, *old(world), *final(world)),
    {
        let _ = world.units.len();
        let name = self.steps[self.done.len()].unit.clone();
        let entry = plan::world_unit_from_repo(repo);
        world.record_unit(name, entry);
        self.record(Ok(()));
    }

    /// The current step failed: the world stands as it was.
    pub fn failed(&mut self, reason: String)
        requires
            old(self).valid(),
            !old(self).over(),
        ensures
            old(self).took(Some(reason@), *final(self)),
    {
        self.record(Err(reason));
    }

    /// The result of a walk that is over.
    pub fn finish(self) -> (r: ApplyResult)
        requires
            self.valid(),
            self.over(),
        ensures
            r@ == result_of(
                self.tier,
                text::views(self.params@),
                text::views(self.steps@),
                self.faults(),
            ),
            r.ok == !self.halted,
    {
        let ghost faults = self.faults();
        let ghost walk = text::views(self.steps@);
        let mut halted_at: Option<String> = None;
        let mut not_reached: Vec<String> = Vec::new();
        let taken = self.done.len();
        if self.halted {
            halted_at = Some(self.steps[taken - 1].unit.clone());
            let mut i: usize = taken;
            while i < self.steps.len()
                invariant
                    walk == text::views(self.steps@),
                    taken <= i <= self.steps@.len(),
                    text::views(not_reached@) == Seq::new(
                        (i - taken) as nat,
                        |k: int| walk[taken + k].unit,
                    ),
                decreases self.steps@.len() - i,
            {
                assert(walk[i as int] == self.steps@[i as int]@);
                not_reached.push(self.steps[i].unit.clone());
                i = i + 1;
                assert(text::views(not_reached@) =~= Seq::new(
                    (i - taken) as nat,
                    |k: int| walk[taken + k].unit,
                ));
            }
        }
        let result = ApplyResult {
            ok: !self.halted,
            tier: Some(self.tier.as_str().to_owned()),
            params: self.params,
            steps: self.done,
            halted_at,
            not_reached,
            error: None,
        };
        proof {
            let want = result_of(self.tier, text::views(self.params@), walk, faults);
            assert(result@.steps =~= want.steps) by {
                assert forall|i: int| 0 <= i < taken implies #[trigger] text::views(self.done@)[i]
                    == reported(walk[i], faults[i]) by {
                    assert(self.done@[i]@ == reported(self.steps@[i]@, self.faults()[i]));
                }
            }
            assert(result@.not_reached =~= want.not_reached);
            assert(result@ =~= want);
        }
        result
    }
}

fn position(house: &House, name: &str) -> (r: Option<usize>)
    ensures
        match r {
            Some(i) => i < house.units@.len() && house.units@[i as int].manifest.unit.name@ == name@
                && repo::unit_named(house.units@, name@) is Some,
            None => repo::unit_named(house.units@, name@) is None,
        },
{
    for i in 0..house.units.len()
        invariant
            forall|k: int|
                0 <= k < i ==> (#[trigger] house.units@[k]).manifest.unit.name@ != name@,
    {
        if str_eq(house.units[i].manifest.unit.name.as_str(), name) {
            proof {
                converge::lemma_named(house.units@, name@);
            }
            return Some(i);
        }
    }
    proof {
        converge::lemma_named(house.units@, name@);
    }
    None
}

/// Records the manifests that a plan refreshes: their units run on, and the
/// world knows them as the repo describes them.
pub fn record_refreshes(world: &mut World, diff: &Diff, house: &House, repo: &Vec<RepoUnit>)
    requires
        repo@.len() == house.units@.len(),
    ensures
        converge::concluded(*house, repo@, diff@, *old(world), *final(world)),
        world::same_but_units(*final(world), *old(world)),
{
    let ghost d = diff@;
    let ghost mut worlds: Seq<World> = seq![*world];
    for i in 0..diff.refreshes.len()
        invariant
            d == diff@,
            repo@.len() == house.units@.len(),
            world::same_but_units(*world, *old(world)),
            worlds.len() == i + 1,
            worlds[0] == *old(world),
            worlds.last() == *world,
            forall|k: int|
                0 <= k < i ==> if repo::unit_named(
                    house.units@,
                    (#[trigger] d.refreshes[k]).name,
                ) is Some {
                    converge::recorded(*house, repo@, d.refreshes[k].name, worlds[k], worlds[k + 1])
                } else {
                    worlds[k + 1].units == worlds[k].units
                },
    {
        let name = &diff.refreshes[i].name;
        assert(d.refreshes[i as int].name == name@);
        let ghost before = *world;
        if let Some(k) = position(house, name.as_str()) {
            let unit = &repo[k];
            let read = RepoUnit {
                manifest: unit.manifest.clone(),
                files_hash: unit.files_hash.clone(),
            };
            let entry = plan::world_unit_from_repo(read);
            let own = name.clone();
            world.record_unit(own, entry);
            assert(converge::brought_up(name@, repo@[k as int], before, *world)) by {
                assert(converge::runs_as(entry, repo@[k as int]));
                assert(world.units@ == names::put(before.units@, own, entry));
            }
            assert(house.units@[k as int].manifest.unit.name@ == name@);
            assert(converge::recorded(*house, repo@, name@, before, *world));
        }
        proof {
            let longer = worlds.push(*world);
            assert forall|k: int| 0 <= k < i + 1 implies if repo::unit_named(
                house.units@,
                (#[trigger] d.refreshes[k]).name,
            ) is Some {
                converge::recorded(*house, repo@, d.refreshes[k].name, longer[k], longer[k + 1])
            } else {
                longer[k + 1].units == longer[k].units
            } by {
                if k < i {
                    assert(longer[k] == worlds[k] && longer[k + 1] == worlds[k + 1]);
                } else {
                    assert(longer[k] == before && longer[k + 1] == *world);
                }
            }
            worlds = longer;
        }
    }
    assert(converge::refreshed(*house, repo@, d, worlds));
}

/// The refreshed manifests, the grant table and the applied commit advance
/// only on a fully applied plan: after a walk that halted the world stands as
/// the steps left it, and the next plan is the remaining work.
pub fn advance(
    world: &mut World,
    result: &ApplyResult,
    diff: &Diff,
    house: &House,
    repo: &Vec<RepoUnit>,
    grants: Vec<Grant>,
    base_commit: Option<String>,
)
    requires
        repo@.len() == house.units@.len(),
    ensures
        !result.ok ==> *final(world) == *old(world),
        result.ok ==> {
            &&& final(world).label == old(world).label
            &&& final(world).live == old(world).live
            &&& converge::concluded(*house, repo@, diff@, *old(world), *final(world))
            &&& final(world).params == old(world).params
            &&& final(world).grants == grants
            &&& final(world).applied_commit == match base_commit {
                Some(c) => Some(c),
                None => old(world).applied_commit,
            }
        },
{
    if result.ok {
        record_refreshes(world, diff, house, repo);
        let ghost refreshed = *world;
        world.record_applied(grants, base_commit);
        proof {
            let worlds = choose|worlds: Seq<World>| #[trigger]
                converge::refreshed(*house, repo@, diff@, worlds) && worlds[0] == *old(world)
                    && worlds.last().units == refreshed.units;
            assert(converge::refreshed(*house, repo@, diff@, worlds) && worlds.last().units
                == world.units);
        }
    }
}

/// The units that a result tells of.
pub open spec fn accounted(r: ApplyResultView) -> Seq<Seq<char>> {
    Seq::new(r.steps.len(), |i: int| r.steps[i].unit) + r.not_reached
}

/// A result accounts for the whole walk: the steps taken and the units not
/// reached are, one after the other, the units of the walk. The walk halts in
/// place: every step but the last succeeded, and the unit it halted at is the
/// last one's.
pub proof fn law_a_result_accounts_for_the_walk(walk: Walk)
    requires
        walk.valid(),
        walk.over(),
    ensures
        ({
            let r = result_of(
                walk.tier,
                text::views(walk.params@),
                text::views(walk.steps@),
                walk.faults(),
            );
            &&& accounted(r) == Seq::new(walk.steps@.len(), |i: int| walk.steps@[i].unit@)
            &&& forall|i: int| 0 <= i < r.steps.len() - 1 ==> (#[trigger] r.steps[i]).ok
            &&& r.ok <==> r.halted_at is None
            &&& r.ok ==> r.steps.len() == walk.steps@.len() && r.not_reached.len() == 0
            &&& !r.ok ==> !r.steps.last().ok && r.halted_at == Some(r.steps.last().unit)
        }),
{
    let r = result_of(
        walk.tier,
        text::views(walk.params@),
        text::views(walk.steps@),
        walk.faults(),
    );
    assert(accounted(r) =~= Seq::new(walk.steps@.len(), |i: int| walk.steps@[i].unit@));
    assert forall|i: int| 0 <= i < r.steps.len() - 1 implies (#[trigger] r.steps[i]).ok by {
        assert(walk.faults()[i] is None);
    }
}

} // verus!
