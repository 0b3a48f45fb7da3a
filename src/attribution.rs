//! Spreading each session's overtime over its sources and summing it per day.
//!
//! A session's overtime on a date is split among its sources in proportion to
//! their event counts. Event counts stand in for time spent, which the events
//! do not record: the split is a weighting, not an exact measure.

use vstd::arithmetic::div_mod::{lemma_div_by_multiple, lemma_div_is_ordered};
use vstd::arithmetic::mul::lemma_mul_inequality;
use vstd::prelude::*;
use vstd::string::StringExecFns;

use crate::assoc::{
    assoc, keys_unique, lemma_assoc_has, lemma_assoc_push, lemma_assoc_update, lemma_index_of_unique,
    lemma_upsert_unique, plus, upsert,
};
use crate::calendar::{is_weekend, is_weekend_day, CalDate};
use crate::overtime::{slice_views, DaySlice};
use crate::sessions::{names_unique, ProjectCount, Session};

verus! {

/// Source label of background events, which belong to no project.
pub const BACKGROUND_LABEL: &'static str = "transcripts";

/// Project that takes the overtime of a session with background events only.
pub const UNKNOWN_PROJECT: &'static str = "unknown";

/// Microseconds in a second.
pub const MICROS_PER_SECOND: i64 = 1_000_000;

/// Microseconds in a day: more than one session's overtime on one date.
pub const DAY_MICROS: i64 = 86_400_000_000;

/// Most day slices that one pass sums, so that every total fits in `i64`.
pub const MAX_SLICES: usize = 100_000_000;

/// Overtime of one date, in microseconds.
pub struct DayTotal {
    pub date: CalDate,
    pub micros: i64,
}

/// Overtime of one project on one date, in microseconds at the weekday rate
/// and at the weekend rate.
pub struct ProjectHours {
    pub date: CalDate,
    pub name: String,
    pub weekday_micros: i64,
    pub weekend_micros: i64,
}

/// Overtime per date and per project and date.
pub struct TodayData {
    pub hours: Vec<DayTotal>,
    pub projects: Vec<ProjectHours>,
}

/// Totals read back from the ledger have the same shape as fresh ones.
pub type DailySummaryData = TodayData;

pub struct TodayView {
    pub hours: Map<int, int>,
    pub projects: Map<(int, Seq<char>), (int, int)>,
}

pub open spec fn hours_pairs(s: Seq<DayTotal>) -> Seq<(int, int)> {
    s.map_values(|x: DayTotal| (x.date.ordinal as int, x.micros as int))
}

pub open spec fn project_pairs(s: Seq<ProjectHours>) -> Seq<((int, Seq<char>), (int, int))> {
    s.map_values(
        |x: ProjectHours|
            ((x.date.ordinal as int, x.name@), (x.weekday_micros as int, x.weekend_micros as int)),
    )
}

impl View for TodayData {
    type V = TodayView;

    open spec fn view(&self) -> TodayView {
        TodayView { hours: assoc(hours_pairs(self.hours@)), projects: assoc(project_pairs(self.projects@)) }
    }
}

impl TodayData {
    pub open spec fn wf(&self) -> bool {
        &&& keys_unique(hours_pairs(self.hours@))
        &&& keys_unique(project_pairs(self.projects@))
        &&& forall|k: int| 0 <= k < self.hours@.len() ==> (#[trigger] self.hours@[k]).date.wf()
        &&& forall|k: int| 0 <= k < self.projects@.len() ==> (#[trigger] self.projects@[k]).date.wf()
    }
}

pub open spec fn empty_today() -> TodayView {
    TodayView { hours: Map::empty(), projects: Map::empty() }
}

/// Sum of the event counts of the first `n` entries, background events left out.
pub open spec fn real_total(c: Seq<ProjectCount>, n: int) -> int
    decreases n,
{
    if n <= 0 {
        0
    } else {
        real_total(c, n - 1) + if c[n - 1].name@ == BACKGROUND_LABEL@ {
            0
        } else {
            c[n - 1].count as int
        }
    }
}

/// Adds `a` microseconds to a project's weekday or weekend amount.
pub open spec fn add_share(
    p: Map<(int, Seq<char>), (int, int)>,
    key: (int, Seq<char>),
    a: int,
    weekend: bool,
) -> Map<(int, Seq<char>), (int, int)> {
    let cur = if p.contains_key(key) { p[key] } else { (0, 0) };
    p.insert(key, if weekend { (cur.0, cur.1 + a) } else { (cur.0 + a, cur.1) })
}

/// A source's part of `micros`: in proportion to its events, rounded down.
pub open spec fn share(micros: int, count: int, total: int) -> int {
    micros * count / total
}

/// Gives each of the first `n` non-background sources its part of `micros` on `date`.
pub open spec fn add_shares(
    p: Map<(int, Seq<char>), (int, int)>,
    date: int,
    c: Seq<ProjectCount>,
    n: int,
    micros: int,
    total: int,
    weekend: bool,
) -> Map<(int, Seq<char>), (int, int)>
    decreases n,
{
    if n <= 0 {
        p
    } else {
        let q = add_shares(p, date, c, n - 1, micros, total, weekend);
        if c[n - 1].name@ == BACKGROUND_LABEL@ {
            q
        } else {
            add_share(q, (date, c[n - 1].name@), share(micros, c[n - 1].count as int, total), weekend)
        }
    }
}

/// Adds one date's overtime of a session with counts `c`: to the day, and to
/// its projects (all of it to the unknown project when no event is a project's).
pub open spec fn add_slice(t: TodayView, c: Seq<ProjectCount>, date: int, secs: int) -> TodayView {
    let micros = secs * MICROS_PER_SECOND;
    let total = real_total(c, c.len() as int);
    let weekend = is_weekend_day(date);
    TodayView {
        hours: plus(t.hours, date, micros),
        projects: if total == 0 {
            add_share(t.projects, (date, UNKNOWN_PROJECT@), micros, weekend)
        } else {
            add_shares(t.projects, date, c, c.len() as int, micros, total, weekend)
        },
    }
}

/// A slice counts when it holds overtime and passes the date filter.
pub open spec fn keep_slice(date: int, secs: int, filter: Option<int>) -> bool {
    secs > 0 && (filter is None || filter == Some(date))
}

/// Adds the first `m` slices of a session with counts `c`.
pub open spec fn add_session(
    t: TodayView,
    c: Seq<ProjectCount>,
    sl: Seq<(int, int)>,
    m: int,
    filter: Option<int>,
) -> TodayView
    decreases m,
{
    if m <= 0 {
        t
    } else {
        let u = add_session(t, c, sl, m - 1, filter);
        if keep_slice(sl[m - 1].0, sl[m - 1].1, filter) {
            add_slice(u, c, sl[m - 1].0, sl[m - 1].1)
        } else {
            u
        }
    }
}

/// Overtime per day and per project of the first `n` sessions, each with its slices.
pub open spec fn attribute(
    ss: Seq<Session>,
    sls: Seq<Seq<(int, int)>>,
    n: int,
    filter: Option<int>,
) -> TodayView
    decreases n,
{
    if n <= 0 {
        empty_today()
    } else {
        add_session(
            attribute(ss, sls, n - 1, filter),
            ss[n - 1].project_counts@,
            sls[n - 1],
            sls[n - 1].len() as int,
            filter,
        )
    }
}

pub open spec fn filter_view(f: Option<CalDate>) -> Option<int> {
    match f {
        Some(d) => Some(d.ordinal as int),
        None => None,
    }
}

pub open spec fn slice_lists(s: Seq<Vec<DaySlice>>) -> Seq<Seq<(int, int)>> {
    s.map_values(|v: Vec<DaySlice>| slice_views(v@))
}

/// Number of slices in the first `n` lists.
pub open spec fn slice_count(s: Seq<Vec<DaySlice>>, n: int) -> int
    decreases n,
{
    if n <= 0 {
        0
    } else {
        slice_count(s, n - 1) + s[n - 1]@.len()
    }
}

pub open spec fn bounded_hours(m: Map<int, int>, b: int) -> bool {
    forall|k: int| #[trigger] m.contains_key(k) ==> 0 <= m[k] <= b
}

pub open spec fn bounded_projects(m: Map<(int, Seq<char>), (int, int)>, b: int) -> bool {
    forall|k: (int, Seq<char>)| #[trigger] m.contains_key(k) ==> 0 <= m[k].0 <= b && 0 <= m[k].1 <= b
}

fn add_hours(hours: &mut Vec<DayTotal>, date: CalDate, a: i64)
    requires
        keys_unique(hours_pairs(old(hours)@)),
        a >= 0,
        (if assoc(hours_pairs(old(hours)@)).contains_key(date.ordinal as int) {
            assoc(hours_pairs(old(hours)@))[date.ordinal as int]
        } else {
            0
        }) + a <= i64::MAX,
        forall|k: int| 0 <= k < old(hours)@.len() ==> (#[trigger] old(hours)@[k]).date.wf(),
        date.wf(),
    ensures
        keys_unique(hours_pairs(final(hours)@)),
        assoc(hours_pairs(final(hours)@)) == plus(assoc(hours_pairs(old(hours)@)), date.ordinal as int, a as int),
        forall|k: int| 0 <= k < final(hours)@.len() ==> (#[trigger] final(hours)@[k]).date.wf(),
{
    let ghost s = hours_pairs(hours@);
    proof {
        lemma_assoc_has(s, date.ordinal as int);
    }
    let mut j: usize = 0;
    while j < hours.len()
        invariant
            hours@ == old(hours)@,
            s == hours_pairs(hours@),
            keys_unique(s),
            a >= 0,
            date.wf(),
            forall|k: int| 0 <= k < hours@.len() ==> (#[trigger] hours@[k]).date.wf(),
            (if assoc(s).contains_key(date.ordinal as int) {
                assoc(s)[date.ordinal as int]
            } else {
                0
            }) + a <= i64::MAX,
            j <= hours@.len(),
            forall|i: int| 0 <= i < j ==> hours@[i].date.ordinal != date.ordinal,
        decreases hours.len() - j,
    {
        if hours[j].date.ordinal == date.ordinal {
            proof {
                lemma_assoc_has(s, date.ordinal as int);
                assert(s[j as int] == (hours@[j as int].date.ordinal as int, hours@[j as int].micros as int));
                assert(s[j as int].0 == date.ordinal as int);
            }
            let v = hours[j].micros + a;
            proof {
                lemma_assoc_update(s, j as int, v as int);
            }
            hours.set(j, DayTotal { date, micros: v });
            assert(hours_pairs(hours@) =~= s.update(j as int, (s[j as int].0, v as int)));
            return;
        }
        j = j + 1;
    }
    proof {
        lemma_assoc_push(s, date.ordinal as int, a as int);
    }
    hours.push(DayTotal { date, micros: a });
    assert(hours_pairs(hours@) =~= s.push((date.ordinal as int, a as int)));
}

fn add_project(projects: &mut Vec<ProjectHours>, date: CalDate, name: &String, a: i64, weekend: bool)
    requires
        keys_unique(project_pairs(old(projects)@)),
        a >= 0,
        ({
            let m = assoc(project_pairs(old(projects)@));
            let k = (date.ordinal as int, name@);
            m.contains_key(k) ==> m[k].0 + a <= i64::MAX && m[k].1 + a <= i64::MAX
        }),
        forall|k: int| 0 <= k < old(projects)@.len() ==> (#[trigger] old(projects)@[k]).date.wf(),
        date.wf(),
    ensures
        keys_unique(project_pairs(final(projects)@)),
        assoc(project_pairs(final(projects)@)) == add_share(
            assoc(project_pairs(old(projects)@)),
            (date.ordinal as int, name@),
            a as int,
            weekend,
        ),
        forall|k: int| 0 <= k < final(projects)@.len() ==> (#[trigger] final(projects)@[k]).date.wf(),
{
    let ghost s = project_pairs(projects@);
    let ghost key = (date.ordinal as int, name@);
    proof {
        lemma_assoc_has(s, key);
    }
    let mut j: usize = 0;
    while j < projects.len()
        invariant
            projects@ == old(projects)@,
            s == project_pairs(projects@),
            keys_unique(s),
            key == (date.ordinal as int, name@),
            a >= 0,
            date.wf(),
            forall|k: int| 0 <= k < projects@.len() ==> (#[trigger] projects@[k]).date.wf(),
            assoc(s).contains_key(key) ==> assoc(s)[key].0 + a <= i64::MAX && assoc(s)[key].1 + a <= i64::MAX,
            j <= projects@.len(),
            forall|i: int| 0 <= i < j ==> s[i].0 != key,
        decreases projects.len() - j,
    {
        if projects[j].date.ordinal == date.ordinal && projects[j].name == *name {
            assert(s[j as int] == ((projects@[j as int].date.ordinal as int, projects@[j as int].name@), (projects@[j as int].weekday_micros as int, projects@[j as int].weekend_micros as int)));
            assert(s[j as int].0 == key);
            proof {
                lemma_assoc_has(s, key);
            }
            let wd = if weekend { projects[j].weekday_micros } else { projects[j].weekday_micros + a };
            let we = if weekend { projects[j].weekend_micros + a } else { projects[j].weekend_micros };
            proof {
                lemma_assoc_update(s, j as int, (wd as int, we as int));
            }
            projects.set(j, ProjectHours { date, name: name.clone(), weekday_micros: wd, weekend_micros: we });
            assert(project_pairs(projects@) =~= s.update(j as int, (key, (wd as int, we as int))));
            return;
        }
        assert(s[j as int] == ((projects@[j as int].date.ordinal as int, projects@[j as int].name@), (projects@[j as int].weekday_micros as int, projects@[j as int].weekend_micros as int)));
        assert(s[j as int].0 != key);
        j = j + 1;
    }
    let wd = if weekend { 0 } else { a };
    let we = if weekend { a } else { 0 };
    proof {
        lemma_assoc_push(s, key, (wd as int, we as int));
    }
    projects.push(ProjectHours { date, name: name.clone(), weekday_micros: wd, weekend_micros: we });
    assert(project_pairs(projects@) =~= s.push((key, (wd as int, we as int))));
}

proof fn lemma_count_within_total(c: Seq<ProjectCount>, n: int, i: int)
    requires
        0 <= i < n <= c.len(),
        c[i].name@ != BACKGROUND_LABEL@,
    ensures
        c[i].count <= real_total(c, n),
    decreases n,
{
    if i < n - 1 {
        lemma_count_within_total(c, n - 1, i);
    }
    lemma_real_total_nonneg(c, n - 1);
}

proof fn lemma_real_total_nonneg(c: Seq<ProjectCount>, n: int)
    ensures
        real_total(c, n) >= 0,
    decreases n,
{
    if n > 0 {
        lemma_real_total_nonneg(c, n - 1);
    }
}

/// Events of the session that belong to a project.
fn real_event_total(counts: &Vec<ProjectCount>) -> (r: u128)
    ensures
        r == real_total(counts@, counts@.len() as int),
{
    let background = String::from_str(BACKGROUND_LABEL);
    let mut total: u128 = 0;
    let mut k: usize = 0;
    while k < counts.len()
        invariant
            k <= counts@.len(),
            background@ == BACKGROUND_LABEL@,
            total == real_total(counts@, k as int),
            total <= k * (usize::MAX as int),
        decreases counts.len() - k,
    {
        if !(counts[k].name == background) {
            assert(total + counts@[k as int].count <= (k + 1) * (usize::MAX as int)) by (nonlinear_arith)
                requires
                    total <= k * (usize::MAX as int),
                    counts@[k as int].count <= usize::MAX;
            total = total + counts[k].count as u128;
        }
        k = k + 1;
    }
    total
}

/// Gives each project of a session its part of `micros` on `date`.
fn distribute(
    projects: &mut Vec<ProjectHours>,
    date: CalDate,
    counts: &Vec<ProjectCount>,
    micros: i64,
    total: u128,
    weekend: bool,
    Ghost(b): Ghost<int>,
)
    requires
        keys_unique(project_pairs(old(projects)@)),
        forall|k: int| 0 <= k < old(projects)@.len() ==> (#[trigger] old(projects)@[k]).date.wf(),
        date.wf(),
        names_unique(counts@),
        total == real_total(counts@, counts@.len() as int),
        total > 0,
        0 <= micros <= DAY_MICROS,
        0 <= b,
        b + DAY_MICROS <= i64::MAX,
        bounded_projects(assoc(project_pairs(old(projects)@)), b),
    ensures
        keys_unique(project_pairs(final(projects)@)),
        forall|k: int| 0 <= k < final(projects)@.len() ==> (#[trigger] final(projects)@[k]).date.wf(),
        assoc(project_pairs(final(projects)@)) == add_shares(
            assoc(project_pairs(old(projects)@)),
            date.ordinal as int,
            counts@,
            counts@.len() as int,
            micros as int,
            total as int,
            weekend,
        ),
        bounded_projects(assoc(project_pairs(final(projects)@)), b + micros),
{
    let background = String::from_str(BACKGROUND_LABEL);
    let ghost p0 = assoc(project_pairs(projects@));
    let ghost d = date.ordinal as int;
    let mut k: usize = 0;
    while k < counts.len()
        invariant
            k <= counts@.len(),
            background@ == BACKGROUND_LABEL@,
            date.wf(),
            d == date.ordinal as int,
            names_unique(counts@),
            total == real_total(counts@, counts@.len() as int),
            total > 0,
            0 <= micros <= DAY_MICROS,
            0 <= b,
            b + DAY_MICROS <= i64::MAX,
            keys_unique(project_pairs(projects@)),
            forall|i: int| 0 <= i < projects@.len() ==> (#[trigger] projects@[i]).date.wf(),
            assoc(project_pairs(projects@)) == add_shares(p0, d, counts@, k as int, micros as int, total as int, weekend),
            forall|key: (int, Seq<char>)| #[trigger] assoc(project_pairs(projects@)).contains_key(key) ==> {
                let v = assoc(project_pairs(projects@))[key];
                let lim = b + if key.0 == d && exists|i: int| 0 <= i < k && counts@[i].name@ == key.1 {
                    micros as int
                } else {
                    0
                };
                0 <= v.0 <= lim && 0 <= v.1 <= lim
            },
        decreases counts.len() - k,
    {
        let ghost before = assoc(project_pairs(projects@));
        let ghost name_k = counts@[k as int].name@;
        if !(counts[k].name == background) {
            let count = counts[k].count;
            proof {
                lemma_count_within_total(counts@, counts@.len() as int, k as int);
                lemma_mul_inequality(count as int, total as int, micros as int);
                lemma_div_is_ordered(count * micros, total * micros, total as int);
                lemma_div_by_multiple(micros as int, total as int);
                assert(count * micros <= usize::MAX * DAY_MICROS) by (nonlinear_arith)
                    requires count <= usize::MAX, 0 <= micros <= DAY_MICROS;
                assert(micros * count == count * micros) by (nonlinear_arith);
                assert(total * micros == micros * total) by (nonlinear_arith);
                if before.contains_key((d, name_k)) {
                    assert(!exists|i: int| 0 <= i < k && counts@[i].name@ == name_k);
                }
            }
            let part = ((micros as u128) * (count as u128) / total) as i64;
            add_project(projects, date, &counts[k].name, part, weekend);
            proof {
                let after = assoc(project_pairs(projects@));
                assert forall|key: (int, Seq<char>)| #[trigger] after.contains_key(key) implies {
                    let v = after[key];
                    let lim = b + if key.0 == d && exists|i: int| 0 <= i < k + 1 && counts@[i].name@ == key.1 {
                        micros as int
                    } else {
                        0
                    };
                    0 <= v.0 <= lim && 0 <= v.1 <= lim
                } by {
                    if key != (d, name_k) {
                        assert(before.contains_key(key));
                        if key.0 == d && exists|i: int| 0 <= i < k && counts@[i].name@ == key.1 {
                            let i = choose|i: int| 0 <= i < k && counts@[i].name@ == key.1;
                            assert(0 <= i < k + 1 && counts@[i].name@ == key.1);
                        }
                    } else {
                        assert(0 <= k < k + 1 && counts@[k as int].name@ == key.1);
                    }
                }
            }
        } else {
            proof {
                let after = assoc(project_pairs(projects@));
                assert forall|key: (int, Seq<char>)| #[trigger] after.contains_key(key) implies {
                    let v = after[key];
                    let lim = b + if key.0 == d && exists|i: int| 0 <= i < k + 1 && counts@[i].name@ == key.1 {
                        micros as int
                    } else {
                        0
                    };
                    0 <= v.0 <= lim && 0 <= v.1 <= lim
                } by {
                    if key.0 == d && exists|i: int| 0 <= i < k && counts@[i].name@ == key.1 {
                        let i = choose|i: int| 0 <= i < k && counts@[i].name@ == key.1;
                        assert(0 <= i < k + 1 && counts@[i].name@ == key.1);
                    }
                }
            }
        }
        k = k + 1;
    }
}

/// Overtime per day, and per project and day, of sessions whose overtime per
/// date is given (`slices[i]` belongs to `sessions[i]`). With a date filter only
/// that date is counted.
pub fn attribute_overtime(
    sessions: &Vec<Session>,
    slices: &Vec<Vec<DaySlice>>,
    date_filter: Option<CalDate>,
) -> (r: TodayData)
    requires
        sessions@.len() == slices@.len(),
        forall|i: int| 0 <= i < sessions@.len() ==> names_unique(#[trigger] sessions@[i].project_counts@),
        forall|i: int, j: int| 0 <= i < slices@.len() && 0 <= j < slices@[i]@.len() ==> (#[trigger] slices@[i]@[j]).date.wf()
            && slices@[i]@[j].seconds < 86400,
        slice_count(slices@, slices@.len() as int) <= MAX_SLICES,
    ensures
        r.wf(),
        r@ == attribute(sessions@, slice_lists(slices@), sessions@.len() as int, filter_view(date_filter)),
{
    let unknown = String::from_str(UNKNOWN_PROJECT);
    let ghost filter = filter_view(date_filter);
    let ghost sls = slice_lists(slices@);
    let mut hours: Vec<DayTotal> = Vec::new();
    let mut projects: Vec<ProjectHours> = Vec::new();
    let mut i: usize = 0;
    proof {
        assert(assoc(hours_pairs(hours@)) =~= Map::empty());
        assert(assoc(project_pairs(projects@)) =~= Map::empty());
    }
    while i < sessions.len()
        invariant
            sessions@.len() == slices@.len(),
            forall|i: int| 0 <= i < sessions@.len() ==> names_unique(#[trigger] sessions@[i].project_counts@),
            forall|i: int, j: int| 0 <= i < slices@.len() && 0 <= j < slices@[i]@.len() ==> (#[trigger] slices@[i]@[j]).date.wf()
                && slices@[i]@[j].seconds < 86400,
            slice_count(slices@, slices@.len() as int) <= MAX_SLICES,
            unknown@ == UNKNOWN_PROJECT@,
            filter == filter_view(date_filter),
            sls == slice_lists(slices@),
            i <= sessions@.len(),
            keys_unique(hours_pairs(hours@)),
            keys_unique(project_pairs(projects@)),
            forall|k: int| 0 <= k < hours@.len() ==> (#[trigger] hours@[k]).date.wf(),
            forall|k: int| 0 <= k < projects@.len() ==> (#[trigger] projects@[k]).date.wf(),
            (TodayView { hours: assoc(hours_pairs(hours@)), projects: assoc(project_pairs(projects@)) }) == attribute(sessions@, sls, i as int, filter),
            bounded_hours(assoc(hours_pairs(hours@)), slice_count(slices@, i as int) * DAY_MICROS),
            bounded_projects(assoc(project_pairs(projects@)), slice_count(slices@, i as int) * DAY_MICROS),
        decreases sessions.len() - i,
    {
        proof {
            lemma_slice_count_mono(slices@, i as int + 1, slices@.len() as int);
            lemma_slice_count_mono(slices@, 0, i as int);
        }
        let counts = &sessions[i].project_counts;
        let total = real_event_total(counts);
        let sl = &slices[i];
        let ghost base = attribute(sessions@, sls, i as int, filter);
        let ghost done = slice_count(slices@, i as int);
        assert(sls[i as int] == slice_views(sl@));
        let mut j: usize = 0;
        while j < sl.len()
            invariant
                forall|i: int| 0 <= i < sessions@.len() ==> names_unique(#[trigger] sessions@[i].project_counts@),
                0 <= i < sessions@.len(),
                counts == sessions@[i as int].project_counts,
                total == real_total(counts@, counts@.len() as int),
                sl == slices@[i as int],
                forall|j: int| 0 <= j < sl@.len() ==> (#[trigger] sl@[j]).date.wf() && sl@[j].seconds < 86400,
                done == slice_count(slices@, i as int),
                0 <= done,
                done + sl@.len() <= MAX_SLICES,
                unknown@ == UNKNOWN_PROJECT@,
                filter == filter_view(date_filter),
                j <= sl@.len(),
                keys_unique(hours_pairs(hours@)),
                keys_unique(project_pairs(projects@)),
                forall|k: int| 0 <= k < hours@.len() ==> (#[trigger] hours@[k]).date.wf(),
                forall|k: int| 0 <= k < projects@.len() ==> (#[trigger] projects@[k]).date.wf(),
                (TodayView { hours: assoc(hours_pairs(hours@)), projects: assoc(project_pairs(projects@)) }) == add_session(base, counts@, slice_views(sl@), j as int, filter),
                bounded_hours(assoc(hours_pairs(hours@)), (done + j) * DAY_MICROS),
                bounded_projects(assoc(project_pairs(projects@)), (done + j) * DAY_MICROS),
            decreases sl.len() - j,
        {
            let slice = &sl[j];
            let date = slice.date;
            let keep = slice.seconds > 0 && match date_filter {
                None => true,
                Some(f) => f.ordinal == date.ordinal,
            };
            let ghost b = (done + j) * DAY_MICROS;
            assert(slice_views(sl@)[j as int] == (date.ordinal as int, slice.seconds as int));
            assert(0 <= done);
            assert(b + DAY_MICROS <= MAX_SLICES * DAY_MICROS) by (nonlinear_arith)
                requires b == (done + j) * DAY_MICROS, done + j + 1 <= MAX_SLICES;
            if keep {
                let micros = (slice.seconds as i64) * MICROS_PER_SECOND;
                assert(0 <= micros <= DAY_MICROS);
                add_hours(&mut hours, date, micros);
                let weekend = is_weekend(date);
                let ghost pbefore = assoc(project_pairs(projects@));
                if total == 0 {
                    add_project(&mut projects, date, &unknown, micros, weekend);
                    proof {
                        let after = assoc(project_pairs(projects@));
                        assert forall|key: (int, Seq<char>)| #[trigger] after.contains_key(key) implies 0 <= after[key].0 <= b + DAY_MICROS && 0 <= after[key].1 <= b + DAY_MICROS by {
                            if key != (date.ordinal as int, unknown@) {
                                assert(pbefore.contains_key(key));
                            } else if pbefore.contains_key(key) {
                                assert(0 <= pbefore[key].0 <= b && 0 <= pbefore[key].1 <= b);
                            }
                        }
                    }
                } else {
                    distribute(&mut projects, date, counts, micros, total, weekend, Ghost(b));
                }
            }
            proof {
                let hm = assoc(hours_pairs(hours@));
                let pm = assoc(project_pairs(projects@));
                assert((done + j + 1) * DAY_MICROS == b + DAY_MICROS);
                assert forall|k: int| #[trigger] hm.contains_key(k) implies 0 <= hm[k] <= b + DAY_MICROS by {
                }
                assert(bounded_projects(pm, b + DAY_MICROS));
            }
            j = j + 1;
        }
        i = i + 1;
    }
    TodayData { hours, projects }
}


/// Sets the overtime of a date, replacing what it had.
pub(crate) fn set_hours(hours: &mut Vec<DayTotal>, date: CalDate, v: i64)
    requires
        keys_unique(hours_pairs(old(hours)@)),
        forall|k: int| 0 <= k < old(hours)@.len() ==> (#[trigger] old(hours)@[k]).date.wf(),
        date.wf(),
    ensures
        keys_unique(hours_pairs(final(hours)@)),
        hours_pairs(final(hours)@) == upsert(hours_pairs(old(hours)@), date.ordinal as int, v as int),
        forall|k: int| 0 <= k < final(hours)@.len() ==> (#[trigger] final(hours)@[k]).date.wf(),
{
    let ghost s = hours_pairs(hours@);
    proof {
        lemma_upsert_unique(s, date.ordinal as int, v as int);
    }
    let mut j: usize = 0;
    while j < hours.len()
        invariant
            hours@ == old(hours)@,
            s == hours_pairs(hours@),
            keys_unique(s),
            date.wf(),
            forall|k: int| 0 <= k < hours@.len() ==> (#[trigger] hours@[k]).date.wf(),
            j <= hours@.len(),
            forall|i: int| 0 <= i < j ==> s[i].0 != date.ordinal as int,
        decreases hours.len() - j,
    {
        assert(s[j as int] == (hours@[j as int].date.ordinal as int, hours@[j as int].micros as int));
        if hours[j].date.ordinal == date.ordinal {
            proof {
                lemma_index_of_unique(s, date.ordinal as int, j as int);
                assert(upsert(s, date.ordinal as int, v as int) == s.update(j as int, (date.ordinal as int, v as int)));
            }
            hours.set(j, DayTotal { date, micros: v });
            assert(hours_pairs(hours@) =~= s.update(j as int, (date.ordinal as int, v as int)));
            return;
        }
        j = j + 1;
    }
    hours.push(DayTotal { date, micros: v });
    assert(hours_pairs(hours@) =~= s.push((date.ordinal as int, v as int)));
}

/// Sets the amounts of a project on a date, replacing what it had.
pub(crate) fn set_project(projects: &mut Vec<ProjectHours>, date: CalDate, name: &String, wd: i64, we: i64)
    requires
        keys_unique(project_pairs(old(projects)@)),
        forall|k: int| 0 <= k < old(projects)@.len() ==> (#[trigger] old(projects)@[k]).date.wf(),
        date.wf(),
    ensures
        keys_unique(project_pairs(final(projects)@)),
        project_pairs(final(projects)@) == upsert(
            project_pairs(old(projects)@),
            (date.ordinal as int, name@),
            (wd as int, we as int),
        ),
        forall|k: int| 0 <= k < final(projects)@.len() ==> (#[trigger] final(projects)@[k]).date.wf(),
{
    let ghost s = project_pairs(projects@);
    let ghost key = (date.ordinal as int, name@);
    let ghost val = (wd as int, we as int);
    proof {
        lemma_upsert_unique(s, key, val);
    }
    let mut j: usize = 0;
    while j < projects.len()
        invariant
            projects@ == old(projects)@,
            s == project_pairs(projects@),
            keys_unique(s),
            key == (date.ordinal as int, name@),
            val == (wd as int, we as int),
            date.wf(),
            forall|k: int| 0 <= k < projects@.len() ==> (#[trigger] projects@[k]).date.wf(),
            j <= projects@.len(),
            forall|i: int| 0 <= i < j ==> s[i].0 != key,
        decreases projects.len() - j,
    {
        assert(s[j as int] == ((projects@[j as int].date.ordinal as int, projects@[j as int].name@), (projects@[j as int].weekday_micros as int, projects@[j as int].weekend_micros as int)));
        if projects[j].date.ordinal == date.ordinal && projects[j].name == *name {
            proof {
                lemma_index_of_unique(s, key, j as int);
                assert(upsert(s, key, val) == s.update(j as int, (key, val)));
            }
            projects.set(j, ProjectHours { date, name: name.clone(), weekday_micros: wd, weekend_micros: we });
            assert(project_pairs(projects@) =~= s.update(j as int, (key, val)));
            return;
        }
        j = j + 1;
    }
    projects.push(ProjectHours { date, name: name.clone(), weekday_micros: wd, weekend_micros: we });
    assert(project_pairs(projects@) =~= s.push((key, val)));
}

proof fn lemma_slice_count_mono(s: Seq<Vec<DaySlice>>, a: int, b: int)
    requires
        0 <= a <= b,
    ensures
        slice_count(s, a) <= slice_count(s, b),
    decreases b - a,
{
    if a < b {
        lemma_slice_count_mono(s, a, b - 1);
    }
}

} // verus!
