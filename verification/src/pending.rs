//! Pending plans as files: `plans/pending/{id}.plan` — TOML carrying the
//! rendered plan text plus what apply needs to enforce staleness. Readable
//! on a phone as-is; invalid once the repo moves past the base commit.

use crate::text;
use vstd::prelude::*;

verus! {

broadcast use crate::text::group_views;

/// Whether a year of the Gregorian calendar has a 29th of February.
pub open spec fn leap(y: int) -> bool {
    y % 4 == 0 && (y % 100 != 0 || y % 400 == 0)
}

/// How many leap years there are before `y`, counted from year 1.
pub open spec fn leaps_before(y: int) -> int {
    (y - 1) / 4 - (y - 1) / 100 + (y - 1) / 400
}

/// Days from 1970-01-01 to the first of January of `y`.
pub open spec fn new_year(y: int) -> int {
    365 * (y - 1970) + leaps_before(y) - leaps_before(1970)
}

/// Days from the first of January to the first of the month.
pub open spec fn before_month(y: int, m: int) -> int {
    let l: int = if leap(y) {
        1
    } else {
        0
    };
    if m <= 1 {
        0
    } else if m == 2 {
        31
    } else if m == 3 {
        59 + l
    } else if m == 4 {
        90 + l
    } else if m == 5 {
        120 + l
    } else if m == 6 {
        151 + l
    } else if m == 7 {
        181 + l
    } else if m == 8 {
        212 + l
    } else if m == 9 {
        243 + l
    } else if m == 10 {
        273 + l
    } else if m == 11 {
        304 + l
    } else if m == 12 {
        334 + l
    } else {
        365 + l
    }
}

/// A date of the calendar.
pub open spec fn valid_date(y: int, m: int, d: int) -> bool {
    1 <= m <= 12 && 1 <= d <= before_month(y, m + 1) - before_month(y, m)
}

/// Days from 1970-01-01 to a date.
pub open spec fn day_number(y: int, m: int, d: int) -> int {
    new_year(y) + before_month(y, m) + d - 1
}

/// A year is followed by the next one after its 365 or 366 days.
pub proof fn law_years_follow(y: int)
    ensures
        new_year(y + 1) == new_year(y) + if leap(y) {
            366int
        } else {
            365
        },
        new_year(1970) == 0,
{
}

proof fn lemma_year_of_era(doe: int, yoe: int)
    requires
        0 <= doe < 146_097,
        yoe == (doe - doe / 1460 + doe / 36_524 - doe / 146_096) / 365,
    ensures
        0 <= yoe < 400,
        0 <= doe - (365 * yoe + yoe / 4 - yoe / 100) <= 365,
        doe - (365 * yoe + yoe / 4 - yoe / 100) == 365 ==> leap(yoe + 1),
{
}

proof fn lemma_first_of_march(era: int, yoe: int)
    requires
        0 <= yoe < 400,
    ensures
        ({
            let y = yoe + era * 400;
            &&& day_number(y, 3, 1) == era * 146_097 + 365 * yoe + yoe / 4 - yoe / 100 - 719_468
            &&& leap(y + 1) == leap(yoe + 1)
            &&& new_year(y + 1) == day_number(y, 3, 1) + 306
        }),
{
    let y = yoe + era * 400;
    law_years_follow(y);
    assert(y / 4 == yoe / 4 + era * 100);
    assert(y / 100 == yoe / 100 + era * 4);
    assert(y / 400 == era);
    assert(y % 4 == yoe % 4 && y % 100 == yoe % 100 && y % 400 == yoe % 400);
    assert((y + 1) % 4 == (yoe + 1) % 4 && (y + 1) % 100 == (yoe + 1) % 100 && (y + 1) % 400 == (
    yoe + 1) % 400);
    assert((y - 1) / 4 == y / 4 - if y % 4 == 0 {
        1int
    } else {
        0
    });
    assert((y - 1) / 100 == y / 100 - if y % 100 == 0 {
        1int
    } else {
        0
    });
    assert((y - 1) / 400 == y / 400 - if y % 400 == 0 {
        1int
    } else {
        0
    });
}

/// The month of a year that begins in March, counted from 0, and the day.
proof fn lemma_month(doy: int, mp: int)
    requires
        0 <= doy <= 365,
        mp == (5 * doy + 2) / 153,
    ensures
        0 <= mp <= 11,
        (153 * mp + 2) / 5 <= doy,
        mp < 11 ==> doy < (153 * (mp + 1) + 2) / 5,
{
}

proof fn lemma_date(era: int, yoe: int, doy: int, mp: int, y: int, m: int, d: int)
    requires
        0 <= yoe < 400,
        0 <= doy <= 365,
        doy == 365 ==> leap(yoe + 1),
        mp == (5 * doy + 2) / 153,
        y == yoe + era * 400 + if mp < 10 {
            0int
        } else {
            1
        },
        m == if mp < 10 {
            mp + 3
        } else {
            mp - 9
        },
        d == doy - (153 * mp + 2) / 5 + 1,
    ensures
        valid_date(y, m, d),
        day_number(y, m, d) == era * 146_097 + 365 * yoe + yoe / 4 - yoe / 100 - 719_468 + doy,
{
    lemma_first_of_march(era, yoe);
    lemma_month(doy, mp);
}

/// Two dates with the same number are the same date.
pub proof fn law_dates_are_numbered_once(y: int, m: int, d: int, y2: int, m2: int, d2: int)
    requires
        valid_date(y, m, d),
        valid_date(y2, m2, d2),
        day_number(y, m, d) == day_number(y2, m2, d2),
    ensures
        y == y2,
        m == m2,
        d == d2,
{
    if y < y2 {
        lemma_years_ascend(y, y2);
    } else if y2 < y {
        lemma_years_ascend(y2, y);
    }
}

proof fn lemma_years_ascend(y: int, y2: int)
    requires
        y < y2,
    ensures
        new_year(y + 1) <= new_year(y2),
        forall|m: int, d: int| valid_date(y, m, d) ==> #[trigger] day_number(y, m, d) < new_year(y2),
        forall|m: int, d: int|
            valid_date(y2, m, d) ==> #[trigger] day_number(y2, m, d) >= new_year(y2),
    decreases y2 - y,
{
    law_years_follow(y);
    if y + 1 < y2 {
        lemma_years_ascend(y + 1, y2);
        law_years_follow(y + 1);
    }
}

/// Days since 1970-01-01 to (year, month, day).
pub fn civil_from_days(z: i64) -> (r: (i64, u32, u32))
    requires
        i64::MIN + 146_096 <= z + 719_468 <= i64::MAX,
    ensures
        valid_date(r.0 as int, r.1 as int, r.2 as int),
        day_number(r.0 as int, r.1 as int, r.2 as int) == z,
{
    let w = z + 719_468;
    let era = if w >= 0 {
        w / 146_097
    } else {
        -((146_096 - w) / 146_097)
    };
    assert(0 <= w - era * 146_097 < 146_097);
    let doe = w - era * 146_097;
    let yoe = (doe - doe / 1460 + doe / 36_524 - doe / 146_096) / 365;
    proof {
        lemma_year_of_era(doe as int, yoe as int);
    }
    assert(-70_000_000_000_000 < era < 70_000_000_000_000);
    let y = yoe + era * 400;
    let doy = doe - (365 * yoe + yoe / 4 - yoe / 100);
    let mp = (5 * doy + 2) / 153;
    proof {
        lemma_month(doy as int, mp as int);
    }
    let d = (doy - (153 * mp + 2) / 5 + 1) as u32;
    let m = (if mp < 10 {
        mp + 3
    } else {
        mp - 9
    }) as u32;
    let year = if m <= 2 {
        y + 1
    } else {
        y
    };
    proof {
        lemma_date(era as int, yoe as int, doy as int, mp as int, year as int, m as int, d as int);
    }
    (year, m, d)
}

/// A saved plan as its file holds it.
#[derive(Debug, PartialEq, Eq)]
pub struct PendingPlan {
    pub schema: u32,
    pub id: String,
    pub actor: String,
    pub created: String,
    pub base_commit: String,
    pub tier: String,
    pub plan: String,
}

/// `n` zeros.
pub open spec fn zeros(n: nat) -> Seq<char> {
    Seq::new(n, |i: int| '0')
}

/// A year with at least four digits.
pub open spec fn four_digits(n: nat) -> Seq<char> {
    if text::decimal(n).len() < 4 {
        zeros((4 - text::decimal(n).len()) as nat) + text::decimal(n)
    } else {
        text::decimal(n)
    }
}

fn four_digits_of(n: u64) -> (r: String)
    ensures
        r@ == four_digits(n as nat),
{
    let d = text::decimal_of(n);
    let len = d.as_str().unicode_len();
    let mut out = String::new();
    let mut i: usize = len;
    let ghost missing: nat = if len < 4 {
        (4 - len) as nat
    } else {
        0
    };
    assert(out@ =~= zeros(0));
    while i < 4
        invariant
            len <= i,
            len < 4 ==> i <= 4 && out@ == zeros((i - len) as nat),
            len >= 4 ==> out@.len() == 0,
        decreases 4 - i,
    {
        text::append_digit(&mut out, 0);
        i = i + 1;
        assert(out@ =~= zeros((i - len) as nat));
    }
    out.append(d.as_str());
    assert(len >= 4 ==> out@ =~= d@);
    out
}

/// A moment's date and time of day, written with these separators.
pub open spec fn stamp(
    y: nat,
    m: nat,
    d: nat,
    second_of_day: nat,
    dash: Seq<char>,
    colon: Seq<char>,
) -> Seq<char> {
    four_digits(y) + dash + text::two_digits(m) + dash + text::two_digits(d) + "T"@
        + text::two_digits(second_of_day / 3600) + colon + text::two_digits(
        (second_of_day % 3600) / 60,
    ) + colon + text::two_digits(second_of_day % 60) + "Z"@
}

/// `s` is the UTC time `secs` seconds after 1970 began.
pub open spec fn is_stamp(s: Seq<char>, secs: int, dash: Seq<char>, colon: Seq<char>) -> bool {
    exists|y: int, m: int, d: int|
        {
            &&& #[trigger] valid_date(y, m, d)
            &&& y >= 0
            &&& day_number(y, m, d) == secs / 86_400
            &&& s == stamp(
                y as nat,
                m as nat,
                d as nat,
                (secs % 86_400) as nat,
                dash,
                colon,
            )
        }
}

fn stamp_of(y: u64, m: u64, d: u64, second_of_day: u64, dash: &str, colon: &str) -> (r: String)
    ensures
        r@ == stamp(y as nat, m as nat, d as nat, second_of_day as nat, dash@, colon@),
{
    let mut s = four_digits_of(y);
    s.append(dash);
    s.append(text::two_digits_of(m).as_str());
    s.append(dash);
    s.append(text::two_digits_of(d).as_str());
    s.append("T");
    s.append(text::two_digits_of(second_of_day / 3600).as_str());
    s.append(colon);
    s.append(text::two_digits_of((second_of_day % 3600) / 60).as_str());
    s.append(colon);
    s.append(text::two_digits_of(second_of_day % 60).as_str());
    s.append("Z");
    s
}

/// UTC time as (RFC3339, compact id form), from the seconds since 1970 began.
/// Whole-second precision.
pub fn utc(secs: u64) -> (r: (String, String))
    ensures
        is_stamp(r.0@, secs as int, "-"@, ":"@),
        is_stamp(r.1@, secs as int, ""@, ""@),
{
    let days = secs / 86_400;
    let rem = secs % 86_400;
    let (year, month, day) = civil_from_days(days as i64);
    proof {
        lemma_since_1970(year as int, month as int, day as int);
    }
    let y = year as u64;
    let r = (
        stamp_of(y, month as u64, day as u64, rem, "-", ":"),
        stamp_of(y, month as u64, day as u64, rem, "", ""),
    );
    assert(valid_date(year as int, month as int, day as int));
    r
}

proof fn lemma_since_1970(y: int, m: int, d: int)
    requires
        valid_date(y, m, d),
        day_number(y, m, d) >= 0,
    ensures
        y >= 1970,
{
    if y < 1970 {
        lemma_years_ascend(y, 1970);
        law_years_follow(1970);
    }
}

/// A plan file: where it goes, relative to the house root, and what it holds.
#[derive(Debug, PartialEq, Eq)]
pub struct PlanFile {
    pub path: String,
    pub content: String,
}

/// A text that ends its last line.
pub open spec fn ended(s: Seq<char>) -> Seq<char> {
    if s.len() > 0 && s.last() == '\n' {
        s
    } else {
        s + "\n"@
    }
}

/// What a plan file holds.
pub open spec fn plan_document(
    id: Seq<char>,
    actor: Seq<char>,
    created: Seq<char>,
    base_commit: Seq<char>,
    tier: Seq<char>,
    plan: Seq<char>,
) -> Seq<char> {
    "schema = 1\nid = \""@ + id + "\"\nactor = \""@ + actor + "\"\ncreated = \""@ + created
        + "\"\nbase_commit = \""@ + base_commit + "\"\ntier = \""@ + tier
        + "\"\nplan = '''\n"@ + ended(plan) + "'''\n"@
}

/// Whether a file is the one that a plan is saved in at this moment.
pub open spec fn saves(
    file: PlanFile,
    plan_text: Seq<char>,
    tier: Seq<char>,
    actor: Seq<char>,
    base_commit: Seq<char>,
    secs: int,
) -> bool {
    exists|created: Seq<char>, compact: Seq<char>|
        {
            &&& #[trigger] is_stamp(created, secs, "-"@, ":"@)
            &&& #[trigger] is_stamp(compact, secs, ""@, ""@)
            &&& file.path@ == "plans/pending/"@ + (compact + "-"@ + tier) + ".plan"@
            &&& file.content@ == plan_document(
                compact + "-"@ + tier,
                actor,
                created,
                base_commit,
                tier,
                plan_text,
            )
        }
}

/// The file that a plan is saved in, `secs` seconds after 1970 began. Its id
/// is the compact time and the tier.
pub fn save(plan_text: &str, tier: &str, actor: &str, base_commit: &str, secs: u64) -> (r: PlanFile)
    ensures
        saves(r, plan_text@, tier@, actor@, base_commit@, secs as int),
{
    let (created, compact) = utc(secs);
    let id = text::cat3(compact.as_str(), "-", tier);
    let mut plan = plan_text.to_owned();
    let n = plan_text.unicode_len();
    if n == 0 || plan_text.get_char(n - 1) != '\n' {
        plan.append("\n");
    }
    let mut content = text::cat7(
        "schema = 1\nid = \"",
        id.as_str(),
        "\"\nactor = \"",
        actor,
        "\"\ncreated = \"",
        created.as_str(),
        "\"\nbase_commit = \"",
    );
    content.append(base_commit);
    content.append("\"\ntier = \"");
    content.append(tier);
    content.append("\"\nplan = '''\n");
    content.append(plan.as_str());
    content.append("'''\n");
    let path = text::cat3("plans/pending/", id.as_str(), ".plan");
    let r = PlanFile { path, content };
    assert(is_stamp(created@, secs as int, "-"@, ":"@) && is_stamp(
        compact@,
        secs as int,
        ""@,
        ""@,
    ));
    r
}

} // verus!
