//! The persistent ledger of finalized days and month totals, and how fresh
//! day totals are merged into it.

use vstd::prelude::*;
use vstd::string::StringExecFns;

use crate::assoc::{
    has_key, keys_unique, lemma_index_of_unique, lemma_upsert_unique, lookup, upsert,
};
use crate::attribution::{
    hours_pairs, project_pairs, set_hours, set_project, DailySummaryData, DayTotal, ProjectHours,
    TodayData,
};
use crate::calendar::{get_shift_type, shift_name, shift_name_text, shift_of, ymd_of_ordinal, CalDate};
use crate::format::{format_hm, hm_text};

verus! {

/// Version of the ledger layout that this library writes.
pub const LEDGER_VERSION: u32 = 2;

/// A project's part of a finalized day, in microseconds at each rate.
pub struct ProjectHoursEntry {
    pub name: String,
    pub weekday_micros: i64,
    pub weekend_micros: i64,
}

impl View for ProjectHoursEntry {
    type V = (Seq<char>, (int, int));

    open spec fn view(&self) -> (Seq<char>, (int, int)) {
        (self.name@, (self.weekday_micros as int, self.weekend_micros as int))
    }
}

/// A ledger record of one day.
pub struct DayEntry {
    pub micros: i64,
    pub formatted: String,
    pub shift: String,
    pub processed: bool,
    pub projects: Option<Vec<ProjectHoursEntry>>,
}

pub struct DayEntryView {
    pub micros: int,
    pub formatted: Seq<char>,
    pub shift: Seq<char>,
    pub processed: bool,
    pub projects: Option<Seq<(Seq<char>, (int, int))>>,
}

pub open spec fn entry_views(s: Seq<ProjectHoursEntry>) -> Seq<(Seq<char>, (int, int))> {
    s.map_values(|e: ProjectHoursEntry| e@)
}

impl View for DayEntry {
    type V = DayEntryView;

    open spec fn view(&self) -> DayEntryView {
        DayEntryView {
            micros: self.micros as int,
            formatted: self.formatted@,
            shift: self.shift@,
            processed: self.processed,
            projects: match self.projects {
                Some(v) => Some(entry_views(v@)),
                None => None,
            },
        }
    }
}

/// A day of the ledger with its date.
pub struct LedgerDay {
    pub date: CalDate,
    pub entry: DayEntry,
}

/// The total of one month.
pub struct MonthEntry {
    pub year: i32,
    pub month: u32,
    pub total_micros: i128,
    pub formatted: String,
}

/// The ledger: finalized days and month totals.
pub struct DailySummaryFile {
    pub version: u32,
    pub days: Vec<LedgerDay>,
    pub months: Vec<MonthEntry>,
}

pub struct LedgerView {
    pub version: int,
    pub days: Seq<(int, DayEntryView)>,
    pub months: Seq<((int, int), (int, Seq<char>))>,
}

pub open spec fn day_pairs(s: Seq<LedgerDay>) -> Seq<(int, DayEntryView)> {
    s.map_values(|x: LedgerDay| (x.date.ordinal as int, x.entry@))
}

pub open spec fn month_pairs(s: Seq<MonthEntry>) -> Seq<((int, int), (int, Seq<char>))> {
    s.map_values(
        |x: MonthEntry| ((x.year as int, x.month as int), (x.total_micros as int, x.formatted@)),
    )
}

impl View for DailySummaryFile {
    type V = LedgerView;

    open spec fn view(&self) -> LedgerView {
        LedgerView {
            version: self.version as int,
            days: day_pairs(self.days@),
            months: month_pairs(self.months@),
        }
    }
}

impl DailySummaryFile {
    /// Dates and months are each recorded once, and every date is representable.
    pub open spec fn wf(&self) -> bool {
        &&& keys_unique(day_pairs(self.days@))
        &&& keys_unique(month_pairs(self.months@))
        &&& forall|k: int| 0 <= k < self.days@.len() ==> (#[trigger] self.days@[k]).date.wf()
    }

    /// An empty ledger of the current version.
    pub fn new() -> (r: DailySummaryFile)
        ensures
            r.wf(),
            r@ == empty_ledger(),
    {
        let r = DailySummaryFile { version: LEDGER_VERSION, days: Vec::new(), months: Vec::new() };
        assert(r@.days =~= Seq::empty());
        assert(r@.months =~= Seq::empty());
        r
    }
}

pub open spec fn empty_ledger() -> LedgerView {
    LedgerView { version: LEDGER_VERSION as int, days: Seq::empty(), months: Seq::empty() }
}

/// The projects of date `d` among the first `n` fresh project rows, in order.
pub open spec fn day_projects(p: Seq<ProjectHours>, d: int, n: int) -> Seq<(Seq<char>, (int, int))>
    decreases n,
{
    if n <= 0 {
        seq![]
    } else {
        let q = day_projects(p, d, n - 1);
        if p[n - 1].date.ordinal == d {
            q.push((p[n - 1].name@, (p[n - 1].weekday_micros as int, p[n - 1].weekend_micros as int)))
        } else {
            q
        }
    }
}

/// The finalized record of a freshly computed day.
pub open spec fn fresh_entry(d: int, micros: int, p: Seq<ProjectHours>) -> DayEntryView {
    let dp = day_projects(p, d, p.len() as int);
    DayEntryView {
        micros,
        formatted: hm_text(micros),
        shift: shift_name_text(shift_of(d)),
        processed: true,
        projects: if dp.len() > 0 { Some(dp) } else { None },
    }
}

/// A day may be written when it has no record, or its record is not
/// finalized, or its hours are exactly zero.
pub open spec fn should_update(days: Seq<(int, DayEntryView)>, d: int) -> bool {
    !has_key(days, d) || !lookup(days, d).processed || lookup(days, d).micros == 0
}

/// Whether the `n`-th fresh day is written over `days`.
pub open spec fn writes(days: Seq<(int, DayEntryView)>, fh: Seq<(int, int)>, today: int, n: int) -> bool {
    fh[n].0 != today && should_update(days, fh[n].0)
}

/// The days after merging the first `n` fresh days; today is never written.
pub open spec fn merge_days(
    days: Seq<(int, DayEntryView)>,
    fh: Seq<(int, int)>,
    fp: Seq<ProjectHours>,
    today: int,
    n: int,
) -> Seq<(int, DayEntryView)>
    decreases n,
{
    if n <= 0 {
        days
    } else {
        let m = merge_days(days, fh, fp, today, n - 1);
        if writes(m, fh, today, n - 1) {
            upsert(m, fh[n - 1].0, fresh_entry(fh[n - 1].0, fh[n - 1].1, fp))
        } else {
            m
        }
    }
}

/// How many of the first `n` fresh days the merge writes.
pub open spec fn merge_count(
    days: Seq<(int, DayEntryView)>,
    fh: Seq<(int, int)>,
    fp: Seq<ProjectHours>,
    today: int,
    n: int,
) -> int
    decreases n,
{
    if n <= 0 {
        0
    } else {
        merge_count(days, fh, fp, today, n - 1) + if writes(
            merge_days(days, fh, fp, today, n - 1),
            fh,
            today,
            n - 1,
        ) {
            1int
        } else {
            0
        }
    }
}

/// Year and month of a day number.
pub open spec fn month_of(d: int) -> (int, int) {
    (ymd_of_ordinal(d).0, ymd_of_ordinal(d).1)
}

/// Sum of the hours of the first `n` days that fall in month `k`.
pub open spec fn month_total(days: Seq<(int, DayEntryView)>, k: (int, int), n: int) -> int
    decreases n,
{
    if n <= 0 {
        0
    } else {
        month_total(days, k, n - 1) + if month_of(days[n - 1].0) == k {
            days[n - 1].1.micros
        } else {
            0
        }
    }
}

pub open spec fn month_value(days: Seq<(int, DayEntryView)>, k: (int, int)) -> (int, Seq<char>) {
    let t = month_total(days, k, days.len() as int);
    (t, hm_text(t))
}

/// Month records after recomputing the months of the first `n` days from all days.
pub open spec fn recompute_months(
    months: Seq<((int, int), (int, Seq<char>))>,
    days: Seq<(int, DayEntryView)>,
    n: int,
) -> Seq<((int, int), (int, Seq<char>))>
    decreases n,
{
    if n <= 0 {
        months
    } else {
        let k = month_of(days[n - 1].0);
        upsert(recompute_months(months, days, n - 1), k, month_value(days, k))
    }
}

/// The ledger after merging fresh day totals `fh` (with project rows `fp`):
/// days written by the policy, then every month of the ledger's days recomputed.
pub open spec fn merged(l: LedgerView, fh: Seq<(int, int)>, fp: Seq<ProjectHours>, today: int) -> LedgerView {
    let days = merge_days(l.days, fh, fp, today, fh.len() as int);
    LedgerView {
        version: LEDGER_VERSION as int,
        days,
        months: recompute_months(l.months, days, days.len() as int),
    }
}

fn find_day(days: &Vec<LedgerDay>, d: i32) -> (r: Option<usize>)
    requires
        keys_unique(day_pairs(days@)),
    ensures
        r is None <==> !has_key(day_pairs(days@), d as int),
        r matches Some(j) ==> j < days@.len() && day_pairs(days@).len() == days@.len() && index_of_is(day_pairs(days@), d as int, j as int),
{
    let ghost s = day_pairs(days@);
    let mut j: usize = 0;
    while j < days.len()
        invariant
            s == day_pairs(days@),
            keys_unique(s),
            j <= days@.len(),
            forall|i: int| 0 <= i < j ==> s[i].0 != d,
        decreases days.len() - j,
    {
        if days[j].date.ordinal == d {
            proof {
                lemma_index_of_unique(s, d as int, j as int);
            }
            return Some(j);
        }
        j = j + 1;
    }
    None
}

pub open spec fn index_of_is<V>(s: Seq<(int, V)>, k: int, j: int) -> bool {
    0 <= j < s.len() && s[j].0 == k && has_key(s, k) && crate::assoc::index_of(s, k) == j
}

fn fresh_day_entry(date: CalDate, micros: i64, fp: &Vec<ProjectHours>) -> (r: DayEntry)
    requires
        date.wf(),
    ensures
        r@ == fresh_entry(date.ordinal as int, micros as int, fp@),
{
    let mut list: Vec<ProjectHoursEntry> = Vec::new();
    let mut i: usize = 0;
    while i < fp.len()
        invariant
            i <= fp@.len(),
            entry_views(list@) == day_projects(fp@, date.ordinal as int, i as int),
        decreases fp.len() - i,
    {
        let ghost prev = list@;
        if fp[i].date.ordinal == date.ordinal {
            list.push(
                ProjectHoursEntry {
                    name: fp[i].name.clone(),
                    weekday_micros: fp[i].weekday_micros,
                    weekend_micros: fp[i].weekend_micros,
                },
            );
            assert(entry_views(list@) =~= entry_views(prev).push(
                (fp@[i as int].name@, (fp@[i as int].weekday_micros as int, fp@[i as int].weekend_micros as int)),
            ));
        }
        i = i + 1;
    }
    let projects = if list.len() > 0 { Some(list) } else { None };
    DayEntry {
        micros,
        formatted: format_hm(micros as i128),
        shift: String::from_str(shift_name(get_shift_type(date))),
        processed: true,
        projects,
    }
}

fn upsert_day(days: &mut Vec<LedgerDay>, date: CalDate, entry: DayEntry)
    requires
        keys_unique(day_pairs(old(days)@)),
        forall|k: int| 0 <= k < old(days)@.len() ==> (#[trigger] old(days)@[k]).date.wf(),
        date.wf(),
    ensures
        keys_unique(day_pairs(final(days)@)),
        forall|k: int| 0 <= k < final(days)@.len() ==> (#[trigger] final(days)@[k]).date.wf(),
        day_pairs(final(days)@) == upsert(day_pairs(old(days)@), date.ordinal as int, entry@),
{
    let ghost s = day_pairs(days@);
    let ghost v = entry@;
    proof {
        lemma_upsert_unique(s, date.ordinal as int, v);
    }
    match find_day(days, date.ordinal) {
        Some(j) => {
            days.set(j, LedgerDay { date, entry });
            assert(day_pairs(days@) =~= s.update(j as int, (date.ordinal as int, v)));
        },
        None => {
            days.push(LedgerDay { date, entry });
            assert(day_pairs(days@) =~= s.push((date.ordinal as int, v)));
        },
    }
}

/// Sum of the hours of the ledger's days in one month.
fn sum_month(days: &Vec<LedgerDay>, year: i32, month: u32) -> (r: i128)
    requires
        forall|k: int| 0 <= k < days@.len() ==> (#[trigger] days@[k]).date.wf(),
    ensures
        r == month_total(day_pairs(days@), (year as int, month as int), days@.len() as int),
{
    let ghost s = day_pairs(days@);
    let mut total: i128 = 0;
    let mut i: usize = 0;
    while i < days.len()
        invariant
            s == day_pairs(days@),
            forall|k: int| 0 <= k < days@.len() ==> (#[trigger] days@[k]).date.wf(),
            i <= days@.len(),
            total == month_total(s, (year as int, month as int), i as int),
            -(i * 0x8000_0000_0000_0000) <= total <= i * 0x8000_0000_0000_0000,
        decreases days.len() - i,
    {
        let (y, m, _d) = days[i].date.ymd();
        assert(s[i as int].0 == days@[i as int].date.ordinal);
        if y == year && m == month {
            let v = days[i].entry.micros;
            assert(-(i * 0x8000_0000_0000_0000) - 0x8000_0000_0000_0000 >= -((i + 1) * 0x8000_0000_0000_0000)) by (nonlinear_arith);
            assert((i + 1) * 0x8000_0000_0000_0000 <= 0x8000_0000_0000_0000 * 0x1_0000_0000_0000_0000) by (nonlinear_arith)
                requires i + 1 <= usize::MAX;
            total = total + v as i128;
        }
        i = i + 1;
    }
    total
}

fn upsert_month(months: &mut Vec<MonthEntry>, year: i32, month: u32, total: i128)
    requires
        keys_unique(month_pairs(old(months)@)),
    ensures
        keys_unique(month_pairs(final(months)@)),
        month_pairs(final(months)@) == upsert(
            month_pairs(old(months)@),
            (year as int, month as int),
            (total as int, hm_text(total as int)),
        ),
{
    let ghost s = month_pairs(months@);
    let ghost k = (year as int, month as int);
    let formatted = format_hm(total);
    let ghost v = (total as int, formatted@);
    proof {
        lemma_upsert_unique(s, k, v);
    }
    let mut j: usize = 0;
    while j < months.len()
        invariant
            s == month_pairs(months@),
            months@ == old(months)@,
            keys_unique(s),
            k == (year as int, month as int),
            v == (total as int, formatted@),
            formatted@ == hm_text(total as int),
            j <= months@.len(),
            forall|i: int| 0 <= i < j ==> s[i].0 != k,
        decreases months.len() - j,
    {
        assert(s[j as int] == ((months@[j as int].year as int, months@[j as int].month as int), (months@[j as int].total_micros as int, months@[j as int].formatted@)));
        if months[j].year == year && months[j].month == month {
            proof {
                lemma_index_of_unique(s, k, j as int);
                assert(upsert(s, k, v) == s.update(j as int, (k, v)));
            }
            months.set(j, MonthEntry { year, month, total_micros: total, formatted });
            assert(month_pairs(months@) =~= s.update(j as int, (k, v)));
            return;
        }
        assert(s[j as int].0 != k);
        j = j + 1;
    }
    months.push(MonthEntry { year, month, total_micros: total, formatted });
    assert(month_pairs(months@) =~= s.push((k, v)));
}

/// Recomputes the month of every day from all the ledger's days.
fn recompute_all_months(months: &mut Vec<MonthEntry>, days: &Vec<LedgerDay>)
    requires
        keys_unique(month_pairs(old(months)@)),
        forall|k: int| 0 <= k < days@.len() ==> (#[trigger] days@[k]).date.wf(),
    ensures
        keys_unique(month_pairs(final(months)@)),
        month_pairs(final(months)@) == recompute_months(
            month_pairs(old(months)@),
            day_pairs(days@),
            days@.len() as int,
        ),
{
    let ghost s = day_pairs(days@);
    let mut i: usize = 0;
    while i < days.len()
        invariant
            s == day_pairs(days@),
            forall|k: int| 0 <= k < days@.len() ==> (#[trigger] days@[k]).date.wf(),
            i <= days@.len(),
            keys_unique(month_pairs(months@)),
            month_pairs(months@) == recompute_months(month_pairs(old(months)@), s, i as int),
        decreases days.len() - i,
    {
        let (y, m, _d) = days[i].date.ymd();
        assert(s[i as int].0 == days@[i as int].date.ordinal);
        let total = sum_month(days, y, m);
        upsert_month(months, y, m, total);
        i = i + 1;
    }
}

/// Merges fresh day totals into the ledger. Today is skipped: it is still
/// accumulating. Another date is written only when it has no record, its
/// record is not finalized, or its hours are exactly zero; what is written is
/// finalized. Every month of the ledger's days is then recomputed in full.
/// Also returns how many days were written.
pub fn archive_overtime(summary: DailySummaryFile, fresh: &TodayData, today: CalDate) -> (r: (
    DailySummaryFile,
    usize,
))
    requires
        summary.wf(),
        fresh.wf(),
    ensures
        r.0.wf(),
        r.0@ == merged(summary@, hours_pairs(fresh.hours@), fresh.projects@, today.ordinal as int),
        r.1 == merge_count(
            summary@.days,
            hours_pairs(fresh.hours@),
            fresh.projects@,
            today.ordinal as int,
            fresh.hours@.len() as int,
        ),
{
    let DailySummaryFile { version: _, mut days, mut months } = summary;
    let ghost days0 = day_pairs(days@);
    let ghost fh = hours_pairs(fresh.hours@);
    let ghost fp = fresh.projects@;
    let ghost t = today.ordinal as int;
    let mut updated: usize = 0;
    let mut i: usize = 0;
    while i < fresh.hours.len()
        invariant
            fresh.wf(),
            fh == hours_pairs(fresh.hours@),
            fp == fresh.projects@,
            t == today.ordinal as int,
            i <= fresh.hours@.len(),
            keys_unique(day_pairs(days@)),
            forall|k: int| 0 <= k < days@.len() ==> (#[trigger] days@[k]).date.wf(),
            day_pairs(days@) == merge_days(days0, fh, fp, t, i as int),
            updated == merge_count(days0, fh, fp, t, i as int),
            updated <= i,
        decreases fresh.hours.len() - i,
    {
        let date = fresh.hours[i].date;
        let micros = fresh.hours[i].micros;
        assert(fh[i as int] == (date.ordinal as int, micros as int));
        if date.ordinal != today.ordinal {
            let ghost s = day_pairs(days@);
            let write = match find_day(&days, date.ordinal) {
                None => true,
                Some(j) => !days[j].entry.processed || days[j].entry.micros == 0,
            };
            assert(write == should_update(s, date.ordinal as int));
            if write {
                let entry = fresh_day_entry(date, micros, &fresh.projects);
                upsert_day(&mut days, date, entry);
                updated = updated + 1;
            }
        }
        i = i + 1;
    }
    recompute_all_months(&mut months, &days);
    (DailySummaryFile { version: LEDGER_VERSION, days, months }, updated)
}

/// A new ledger that holds exactly the fresh days (but today) and their months,
/// for a full resynchronisation.
pub fn archive_overtime_full(fresh: &TodayData, today: CalDate) -> (r: DailySummaryFile)
    requires
        fresh.wf(),
    ensures
        r.wf(),
        r@ == merged(empty_ledger(), hours_pairs(fresh.hours@), fresh.projects@, today.ordinal as int),
{
    archive_overtime(DailySummaryFile::new(), fresh, today).0
}


/// The day totals that the first `n` ledger days give: days with positive hours.
pub open spec fn summary_hours(days: Seq<(int, DayEntryView)>, n: int) -> Seq<(int, int)>
    decreases n,
{
    if n <= 0 {
        seq![]
    } else {
        let h = summary_hours(days, n - 1);
        if days[n - 1].1.micros > 0 {
            upsert(h, days[n - 1].0, days[n - 1].1.micros)
        } else {
            h
        }
    }
}

/// Adds the first `m` project amounts of a ledger day on date `d`.
pub open spec fn add_rows(
    p: Seq<((int, Seq<char>), (int, int))>,
    d: int,
    list: Seq<(Seq<char>, (int, int))>,
    m: int,
) -> Seq<((int, Seq<char>), (int, int))>
    decreases m,
{
    if m <= 0 {
        p
    } else {
        upsert(add_rows(p, d, list, m - 1), (d, list[m - 1].0), list[m - 1].1)
    }
}

/// The project rows that the first `n` ledger days give.
pub open spec fn summary_projects(days: Seq<(int, DayEntryView)>, n: int) -> Seq<
    ((int, Seq<char>), (int, int)),
>
    decreases n,
{
    if n <= 0 {
        seq![]
    } else {
        let p = summary_projects(days, n - 1);
        match days[n - 1].1.projects {
            Some(list) => add_rows(p, days[n - 1].0, list, list.len() as int),
            None => p,
        }
    }
}

/// The finalized days of the ledger as day totals and project rows: the days
/// with positive hours, and the projects of every day that lists some.
pub fn load_daily_summary_full(summary: &DailySummaryFile) -> (r: DailySummaryData)
    requires
        summary.wf(),
    ensures
        r.wf(),
        hours_pairs(r.hours@) == summary_hours(summary@.days, summary@.days.len() as int),
        project_pairs(r.projects@) == summary_projects(summary@.days, summary@.days.len() as int),
{
    let ghost days = summary@.days;
    let mut hours: Vec<DayTotal> = Vec::new();
    let mut projects: Vec<ProjectHours> = Vec::new();
    let mut i: usize = 0;
    assert(hours_pairs(hours@) =~= seq![]);
    assert(project_pairs(projects@) =~= seq![]);
    while i < summary.days.len()
        invariant
            summary.wf(),
            days == summary@.days,
            i <= summary.days@.len(),
            keys_unique(hours_pairs(hours@)),
            keys_unique(project_pairs(projects@)),
            forall|k: int| 0 <= k < hours@.len() ==> (#[trigger] hours@[k]).date.wf(),
            forall|k: int| 0 <= k < projects@.len() ==> (#[trigger] projects@[k]).date.wf(),
            hours_pairs(hours@) == summary_hours(days, i as int),
            project_pairs(projects@) == summary_projects(days, i as int),
        decreases summary.days.len() - i,
    {
        let day = &summary.days[i];
        let date = day.date;
        assert(days[i as int] == (date.ordinal as int, day.entry@));
        assert(date.wf());
        if day.entry.micros > 0 {
            set_hours(&mut hours, date, day.entry.micros);
        }
        match &day.entry.projects {
            None => {},
            Some(list) => {
                let ghost base = project_pairs(projects@);
                let mut k: usize = 0;
                while k < list.len()
                    invariant
                        date.wf(),
                        k <= list@.len(),
                        keys_unique(project_pairs(projects@)),
                        forall|t: int| 0 <= t < projects@.len() ==> (#[trigger] projects@[t]).date.wf(),
                        project_pairs(projects@) == add_rows(base, date.ordinal as int, entry_views(list@), k as int),
                    decreases list.len() - k,
                {
                    let e = &list[k];
                    assert(entry_views(list@)[k as int] == (e.name@, (e.weekday_micros as int, e.weekend_micros as int)));
                    set_project(&mut projects, date, &e.name, e.weekday_micros, e.weekend_micros);
                    k = k + 1;
                }
            },
        }
        i = i + 1;
    }
    TodayData { hours, projects }
}

proof fn lemma_merge_days_written(
    days: Seq<(int, DayEntryView)>,
    fh: Seq<(int, int)>,
    fp: Seq<ProjectHours>,
    today: int,
    n: int,
)
    requires
        keys_unique(days),
        keys_unique(fh),
        0 <= n <= fh.len(),
    ensures
        keys_unique(merge_days(days, fh, fp, today, n)),
        forall|i: int|
            0 <= i < n && fh[i].0 != today ==> {
                let m = merge_days(days, fh, fp, today, n);
                &&& has_key(m, fh[i].0)
                &&& (lookup(m, fh[i].0) == fresh_entry(fh[i].0, fh[i].1, fp) || (lookup(m, fh[i].0).processed
                    && lookup(m, fh[i].0).micros != 0))
            },
    decreases n,
{
    if n > 0 {
        lemma_merge_days_written(days, fh, fp, today, n - 1);
        let m0 = merge_days(days, fh, fp, today, n - 1);
        let d = fh[n - 1].0;
        let v = fresh_entry(d, fh[n - 1].1, fp);
        lemma_upsert_unique(m0, d, v);
        let m = merge_days(days, fh, fp, today, n);
        assert forall|i: int|
            0 <= i < n && fh[i].0 != today implies {
                &&& has_key(m, fh[i].0)
                &&& (lookup(m, fh[i].0) == fresh_entry(fh[i].0, fh[i].1, fp) || (lookup(m, fh[i].0).processed
                    && lookup(m, fh[i].0).micros != 0))
            } by {
            if i < n - 1 {
                assert(fh[i].0 != d);
            }
        }
    }
}

proof fn lemma_merge_days_fixed(
    a: Seq<(int, DayEntryView)>,
    fh: Seq<(int, int)>,
    fp: Seq<ProjectHours>,
    today: int,
    n: int,
)
    requires
        keys_unique(a),
        0 <= n <= fh.len(),
        forall|i: int|
            0 <= i < fh.len() && fh[i].0 != today ==> {
                &&& has_key(a, fh[i].0)
                &&& (lookup(a, fh[i].0) == fresh_entry(fh[i].0, fh[i].1, fp) || (lookup(a, fh[i].0).processed
                    && lookup(a, fh[i].0).micros != 0))
            },
    ensures
        merge_days(a, fh, fp, today, n) == a,
    decreases n,
{
    if n > 0 {
        lemma_merge_days_fixed(a, fh, fp, today, n - 1);
        let d = fh[n - 1].0;
        if writes(a, fh, today, n - 1) {
            crate::assoc::lemma_upsert_same(a, d, fresh_entry(d, fh[n - 1].1, fp));
        }
    }
}

proof fn lemma_recompute_months_set(
    months: Seq<((int, int), (int, Seq<char>))>,
    days: Seq<(int, DayEntryView)>,
    n: int,
)
    requires
        keys_unique(months),
        0 <= n <= days.len(),
    ensures
        keys_unique(recompute_months(months, days, n)),
        forall|i: int|
            0 <= i < n ==> {
                let r = recompute_months(months, days, n);
                &&& has_key(r, month_of(#[trigger] days[i].0))
                &&& lookup(r, month_of(days[i].0)) == month_value(days, month_of(days[i].0))
            },
    decreases n,
{
    if n > 0 {
        lemma_recompute_months_set(months, days, n - 1);
        let r0 = recompute_months(months, days, n - 1);
        let k = month_of(days[n - 1].0);
        lemma_upsert_unique(r0, k, month_value(days, k));
    }
}

proof fn lemma_recompute_months_fixed(
    months: Seq<((int, int), (int, Seq<char>))>,
    days: Seq<(int, DayEntryView)>,
    n: int,
)
    requires
        keys_unique(months),
        0 <= n <= days.len(),
        forall|i: int|
            0 <= i < days.len() ==> {
                &&& has_key(months, month_of(#[trigger] days[i].0))
                &&& lookup(months, month_of(days[i].0)) == month_value(days, month_of(days[i].0))
            },
    ensures
        recompute_months(months, days, n) == months,
    decreases n,
{
    if n > 0 {
        lemma_recompute_months_fixed(months, days, n - 1);
        let k = month_of(days[n - 1].0);
        crate::assoc::lemma_upsert_same(months, k, month_value(days, k));
    }
}

/// Merging the same fresh day totals a second time changes nothing: a day the
/// first merge wrote is finalized with the same values, and one it left alone
/// is finalized with non-zero hours, which the policy keeps.
pub proof fn lemma_merge_idempotent(
    l: LedgerView,
    fh: Seq<(int, int)>,
    fp: Seq<ProjectHours>,
    today: int,
)
    requires
        keys_unique(l.days),
        keys_unique(l.months),
        keys_unique(fh),
    ensures
        merged(merged(l, fh, fp, today), fh, fp, today) == merged(l, fh, fp, today),
{
    let once = merged(l, fh, fp, today);
    lemma_merge_days_written(l.days, fh, fp, today, fh.len() as int);
    lemma_merge_days_fixed(once.days, fh, fp, today, fh.len() as int);
    lemma_recompute_months_set(l.months, once.days, once.days.len() as int);
    lemma_recompute_months_fixed(once.months, once.days, once.days.len() as int);
}

} // verus!
