//! What the commands decide and say.

use crate::bus;
use crate::bus::ApplyResult;
use crate::document;
use crate::error;
use crate::error::explanations;
use crate::error::render_sorted;
use crate::error::ValidationError;
use crate::json;
use crate::json::Json;
use crate::mcp;
use crate::order;
use crate::pending::PendingPlan;
use crate::plan;
use crate::plan::Diff;
use crate::scan;
use crate::text;
use crate::text::cat2;
use crate::text::cat3;
use crate::text::cat7;
use crate::text::str_eq;
use vstd::prelude::*;

verus! {

broadcast use crate::text::group_views;

/// The endpoint in force: the flag where it is given, else the environment's;
/// an empty one is none.
pub open spec fn endpoint_of(flag: Option<Seq<char>>, env: Option<Seq<char>>) -> Option<Seq<char>> {
    let chosen = if flag is Some {
        flag
    } else {
        env
    };
    match chosen {
        Some(e) => if e.len() > 0 {
            Some(e)
        } else {
            None
        },
        None => None,
    }
}

/// The endpoint from --bus, falling back to HOMEOSTAT_BUS.
pub fn endpoint(flag: Option<String>, env: Option<String>) -> (r: Option<String>)
    ensures
        text::opt_text(r) == endpoint_of(text::opt_text(flag), text::opt_text(env)),
{
    let chosen = match flag {
        Some(e) => Some(e),
        None => env,
    };
    match chosen {
        Some(e) => if e.as_str().unicode_len() > 0 {
            Some(e)
        } else {
            None
        },
        None => None,
    }
}

/// Each of the first `n` lines with its newline.
pub open spec fn lines_text(lines: Seq<Seq<char>>, n: nat) -> Seq<char> {
    text::each(n, |i: int| lines[i] + "\n"@)
}

fn lines_of(lines: &Vec<String>) -> (r: String)
    ensures
        r@ == lines_text(text::views(lines@), lines@.len()),
{
    let mut out = String::new();
    for i in 0..lines.len()
        invariant
            out@ == lines_text(text::views(lines@), i as nat),
    {
        assert(text::views(lines@)[i as int] == lines@[i as int]@);
        let line = cat2(lines[i].as_str(), "\n");
        out.append(line.as_str());
    }
    out
}

/// The paragraphs that explain the codes of the failures.
pub open spec fn paragraphs_of(errors: Seq<error::ErrorView>) -> Seq<Seq<char>> {
    Seq::new(error::codes_of(errors).len(), |i: int| error::paragraph(error::codes_of(errors)[i]))
}

/// What is said of a repo that failed validation: every error, the rule
/// behind each code, and the count.
pub open spec fn refused_text(errors: Seq<error::ErrorView>, verb: Seq<char>) -> Seq<char> {
    let lines = order::distinct(error::error_lines(errors));
    lines_text(lines, lines.len()) + "\n"@ + lines_text(
        paragraphs_of(errors),
        paragraphs_of(errors).len(),
    ) + "\n"@ + verb + " refused: "@ + text::decimal(lines.len()) + " error(s)\n"@
}

/// The refusal of a repo that failed validation; None where it passed.
pub fn refusal(errors: &Vec<ValidationError>, verb: &str) -> (r: Option<String>)
    ensures
        match r {
            Some(t) => errors@.len() > 0 && t@ == refused_text(text::views(errors@), verb@),
            None => errors@.len() == 0,
        },
{
    if errors.len() == 0 {
        return None;
    }
    let lines = render_sorted(errors);
    let rules = explanations(errors);
    assert(text::views(rules@) =~= paragraphs_of(text::views(errors@)));
    Some(
        cat7(
            lines_of(&lines).as_str(),
            "\n",
            lines_of(&rules).as_str(),
            "\n",
            verb,
            " refused: ",
            cat2(text::decimal_of(lines.len() as u64).as_str(), " error(s)\n").as_str(),
        ),
    )
}

/// What the `explain` command prints: a paragraph, all of them without an
/// argument, or a complaint.
pub fn explain(code: Option<&str>) -> (r: Result<String, String>)
    ensures
        mcp::outcome(r) == match code {
            Some(c) => match error::explanation(c@) {
                Some(text) => Ok(c@ + ": "@ + text + "\n"@),
                None => Err(
                    "unknown error code \""@ + c@ + "\"; `homeostat explain` lists them"@,
                ),
            },
            None => Ok(
                text::each(
                    mcp::all_paragraphs().len(),
                    |i: int| mcp::all_paragraphs()[i] + "\n\n"@,
                ),
            ),
        },
{
    match code {
        Some(c) => match error::explain(c) {
            Some(text) => Ok(text::cat4(c, ": ", text, "\n")),
            None => Err(
                cat3("unknown error code \"", c, "\"; `homeostat explain` lists them"),
            ),
        },
        None => {
            let all = mcp::paragraphs();
            let mut out = String::new();
            for i in 0..all.len()
                invariant
                    text::views(all@) == mcp::all_paragraphs(),
                    out@ == text::each(
                        i as nat,
                        |i: int| mcp::all_paragraphs()[i] + "\n\n"@,
                    ),
            {
                assert(text::views(all@)[i as int] == all@[i as int]@);
                let line = cat2(all[i].as_str(), "\n\n");
                out.append(line.as_str());
            }
            Ok(out)
        },
    }
}

/// Why a plan is not saved, if it is not: there is nothing to save, or no
/// commit to plan against.
pub open spec fn save_refused(
    d: plan::DiffView,
    base_commit: Option<Seq<char>>,
    path: Seq<char>,
) -> Option<Seq<char>> {
    if plan::no_change(d) {
        Some("nothing to save: the world matches the repo"@)
    } else if base_commit is None {
        Some("plan --save needs a base commit: "@ + path + " is not a git repository root"@)
    } else {
        None
    }
}

/// Why a plan is not saved, if it is not.
pub fn save_refusal(diff: &Diff, base_commit: &Option<String>, path: &str) -> (r: Option<String>)
    ensures
        text::opt_text(r) == save_refused(diff@, text::opt_text(*base_commit), path@),
{
    if diff.is_empty() {
        return Some("nothing to save: the world matches the repo".to_owned());
    }
    match base_commit {
        Some(_) => None,
        None => Some(
            cat3("plan --save needs a base commit: ", path, " is not a git repository root"),
        ),
    }
}

/// Why a pending plan is not applied, if it is not: it auto-invalidates when
/// the repo moves past its base commit.
pub open spec fn stale(
    id: Seq<char>,
    base_commit: Seq<char>,
    head: Option<Seq<char>>,
    path: Seq<char>,
) -> Option<Seq<char>> {
    match head {
        None => Some(
            "apply --plan refused: "@ + path
                + " is not a git repository root, so the plan's base commit cannot be checked"@,
        ),
        Some(h) => if base_commit != h {
            Some(
                "apply refused: pending plan "@ + id + " is stale (base commit "@ + base_commit
                    + " but HEAD is "@ + h + ")"@,
            )
        } else {
            None
        },
    }
}

/// Why a pending plan is not applied, if it is not.
pub fn pending_refusal(pending: &PendingPlan, head: &Option<String>, path: &str) -> (r: Option<
    String,
>)
    ensures
        text::opt_text(r) == stale(
            pending.id@,
            pending.base_commit@,
            text::opt_text(*head),
            path@,
        ),
{
    match head {
        None => Some(
            cat3(
                "apply --plan refused: ",
                path,
                " is not a git repository root, so the plan's base commit cannot be checked",
            ),
        ),
        Some(h) => if !str_eq(pending.base_commit.as_str(), h.as_str()) {
            Some(
                cat7(
                    "apply refused: pending plan ",
                    pending.id.as_str(),
                    " is stale (base commit ",
                    pending.base_commit.as_str(),
                    " but HEAD is ",
                    h.as_str(),
                    ")",
                ),
            )
        } else {
            None
        },
    }
}

/// A pending plan is applied exactly while the repo stands at its base
/// commit.
pub proof fn law_a_pending_plan_holds_for_its_commit_only(
    id: Seq<char>,
    base_commit: Seq<char>,
    head: Option<Seq<char>>,
    path: Seq<char>,
)
    ensures
        stale(id, base_commit, head, path) is None <==> head == Some(base_commit),
{
}

/// A parameter that an apply wrote.
pub open spec fn param_line(p: bus::ApplyParamView) -> Seq<char> {
    "  "@ + p.unit + "."@ + p.param + " = "@ + json::json_text(p.value)
}

/// How a step of an apply went.
pub open spec fn step_end(s: bus::ApplyStepView) -> Seq<char> {
    match s.error {
        Some(e) => e,
        None => if s.ok {
            "ok"@
        } else {
            "failed"@
        },
    }
}

/// A step that an apply attempted.
pub open spec fn step_line(s: bus::ApplyStepView) -> Seq<char> {
    "  "@ + s.action + " "@ + s.unit + ": "@ + step_end(s)
}

/// What an apply did: its parameters, then its steps, a line each.
pub open spec fn detail_text(r: bus::ApplyResultView) -> Seq<char> {
    text::each(r.params.len(), |i: int| param_line(r.params[i]) + "\n"@) + text::each(
        r.steps.len(),
        |i: int| step_line(r.steps[i]) + "\n"@,
    )
}

/// Where an apply halted and what it never reached.
pub open spec fn halt_text(r: bus::ApplyResultView) -> Seq<char> {
    match r.halted_at {
        None => "apply failed"@,
        Some(unit) => if r.not_reached.len() == 0 {
            "apply halted at "@ + unit
        } else {
            "apply halted at "@ + unit + "; not reached: "@ + text::joined(r.not_reached, ", "@)
        },
    }
}

/// What is said of an apply: what goes to the output, and what goes to the
/// error output of one that did not succeed. An apply succeeded where its
/// result says so and came as a reply.
pub open spec fn outcome_of(r: bus::ApplyResultView, replied_ok: bool) -> (
    Seq<char>,
    Option<Seq<char>>,
) {
    match r.error {
        Some(e) => (""@, Some("apply refused: "@ + e)),
        None => if r.ok && replied_ok {
            (detail_text(r) + "Applied.\n"@, None)
        } else {
            (detail_text(r), Some(halt_text(r)))
        },
    }
}

impl ApplyResult {
    fn details(&self) -> (r: String)
        ensures
            r@ == detail_text(self@),
    {
        let mut params = String::new();
        for i in 0..self.params.len()
            invariant
                params@ == text::each(i as nat, |i: int| param_line(self@.params[i]) + "\n"@),
        {
            let p = &self.params[i];
            assert(self@.params[i as int] == p@);
            let value = p.value.to_string();
            let line = cat7("  ", p.unit.as_str(), ".", p.param.as_str(), " = ", value.as_str(), "\n");
            params.append(line.as_str());
        }
        let mut steps = String::new();
        for i in 0..self.steps.len()
            invariant
                steps@ == text::each(i as nat, |i: int| step_line(self@.steps[i]) + "\n"@),
        {
            let s = &self.steps[i];
            assert(self@.steps[i as int] == s@);
            let end = match &s.error {
                Some(e) => e.as_str(),
                None => if s.ok {
                    "ok"
                } else {
                    "failed"
                },
            };
            let line = cat7("  ", s.action.as_str(), " ", s.unit.as_str(), ": ", end, "\n");
            steps.append(line.as_str());
        }
        cat2(params.as_str(), steps.as_str())
    }

    fn halt_summary(&self) -> (r: String)
        ensures
            r@ == halt_text(self@),
    {
        match &self.halted_at {
            None => "apply failed".to_owned(),
            Some(unit) => if self.not_reached.len() == 0 {
                cat2("apply halted at ", unit.as_str())
            } else {
                let rest = text::join(&self.not_reached, ", ");
                text::cat4("apply halted at ", unit.as_str(), "; not reached: ", rest.as_str())
            },
        }
    }

    /// What is said of the apply: what goes to the output, and what goes to
    /// the error output of one that did not succeed.
    pub fn outcome(&self, replied_ok: bool) -> (r: (String, Option<String>))
        ensures
            (r.0@, text::opt_text(r.1)) == outcome_of(self@, replied_ok),
    {
        match &self.error {
            Some(e) => {
                proof {
                    reveal_strlit("");
                }
                (String::new(), Some(cat2("apply refused: ", e.as_str())))
            },
            None => if self.ok && replied_ok {
                (cat2(self.details().as_str(), "Applied.\n"), None)
            } else {
                (self.details(), Some(self.halt_summary()))
            },
        }
    }
}

/// A command key as the state key of the same series.
pub open spec fn state_twin(key: Seq<char>) -> Seq<char> {
    match scan::found_from(key, "home/cmd/"@, 0) {
        Some(i) => key.take(i) + "home/state/"@ + key.skip(i + 9),
        None => key,
    }
}

/// The state that mirrors a command: the envelope's value under the key's
/// twin. Envelope-less commands are dropped, like any real adapter drops
/// invalid commands.
pub fn reflection(key: &str, payload: &[u8]) -> (r: Option<(String, String)>)
    ensures
        match (json::json_document(payload@), r) {
            (Ok(envelope), Some((k, v))) => document::member(envelope, "value"@) matches Some(value)
                && k@ == state_twin(key@) && v@ == json::json_text(value),
            (Ok(envelope), None) => document::member(envelope, "value"@) is None,
            (Err(_), r) => r is None,
        },
{
    let envelope = match Json::parse(payload) {
        Ok(envelope) => envelope,
        Err(_) => return None,
    };
    match envelope.get("value") {
        Some(value) => {
            proof {
                reveal_strlit("home/cmd/");
            }
            let n = key.unicode_len();
            let twin = match scan::find(key, "home/cmd/") {
                Some(i) => {
                    assert(key@.subrange(0, i as int) =~= key@.take(i as int));
                    assert(key@.subrange(i + 9, n as int) =~= key@.skip(i + 9));
                    cat3(
                        text::cut(key, 0, i).as_str(),
                        "home/state/",
                        text::cut(key, i + 9, n).as_str(),
                    )
                },
                None => key.to_owned(),
            };
            Some((twin, value.to_string()))
        },
        None => None,
    }
}

} // verus!
