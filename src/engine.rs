//! One batch pass: events to sessions, sessions to overtime per date, and
//! overtime to day and project totals.

use vstd::prelude::*;

use crate::assoc::{has_key, keys_unique, upsert};
use crate::attribution::{
    attribute, attribute_overtime, filter_view, hours_pairs, project_pairs, set_hours, slice_count,
    slice_lists, ProjectHours, TodayData, MAX_SLICES,
};
use crate::calendar::CalDate;
use crate::reorder::{sort_records, sorted_by_time};
use crate::overtime::{calculate_session_overtime, local_of, slice_views, slices_of, to_local, DaySlice};
use crate::sessions::{
    build_sessions_from_records, events_view, names_unique, session_views, sessions_of, valid_instant,
    Session, SessionView, TimestampRecord,
};

verus! {

/// The overtime slices of each session, in local time.
pub open spec fn session_slices(ss: Seq<Session>) -> Seq<Seq<(int, int)>> {
    ss.map_values(
        |s: Session| slices_of(local_of(s.start_time as int), local_of(s.end_time as int)),
    )
}

/// Number of slices in the first `n` lists.
pub open spec fn list_count(sls: Seq<Seq<(int, int)>>, n: int) -> int
    decreases n,
{
    if n <= 0 {
        0
    } else {
        list_count(sls, n - 1) + sls[n - 1].len()
    }
}

proof fn lemma_list_count_mono(sls: Seq<Seq<(int, int)>>, a: int, b: int)
    requires
        0 <= a <= b,
    ensures
        list_count(sls, a) <= list_count(sls, b),
    decreases b - a,
{
    if a < b {
        lemma_list_count_mono(sls, a, b - 1);
    }
}

proof fn lemma_slice_count_is_list_count(s: Seq<Vec<DaySlice>>, n: int)
    requires
        0 <= n <= s.len(),
    ensures
        slice_count(s, n) == list_count(slice_lists(s), n),
    decreases n,
{
    if n > 0 {
        lemma_slice_count_is_list_count(s, n - 1);
        assert(slice_lists(s)[n - 1] == slice_views(s[n - 1]@));
    }
}

/// Overtime per day and per project of the sessions that the events of every
/// source make, once merged and put in time order. With a date filter only
/// that date is counted. `None` when the sessions touch more than `MAX_SLICES`
/// dates in all, too many for the totals to be kept exactly.
pub fn load_overtime_from_records(records: Vec<TimestampRecord>, date_filter: Option<CalDate>) -> (r:
    Option<TodayData>)
    requires
        forall|i: int| 0 <= i < records@.len() ==> valid_instant(#[trigger] records@[i].timestamp as int),
    ensures
        exists|e: Seq<(int, Seq<char>)>, ss: Seq<Session>|
            {
                &&& sorted_by_time(e)
                &&& e.to_multiset() == events_view(records@).to_multiset()
                &&& session_views(ss) == sessions_of(e)
                &&& (r is None <==> list_count(session_slices(ss), ss.len() as int) > MAX_SLICES)
                &&& (r matches Some(t) ==> t.wf() && t@ == attribute(
                    ss,
                    session_slices(ss),
                    ss.len() as int,
                    filter_view(date_filter),
                ))
            },
{
    let ghost input = events_view(records@);
    let mut sorted = records;
    sort_records(&mut sorted);
    let ghost e = events_view(sorted@);
    let sessions = build_sessions_from_records(&sorted);
    let ghost ss = sessions@;
    let mut slices: Vec<Vec<DaySlice>> = Vec::new();
    let mut count: usize = 0;
    let mut i: usize = 0;
    while i < sessions.len()
        invariant
            ss == sessions@,
            sorted_by_time(e),
            e.to_multiset() == input.to_multiset(),
            input == events_view(records@),
            session_views(ss) == sessions_of(e),
            forall|k: int| 0 <= k < sessions@.len() ==> (#[trigger] sessions@[k]).wf(),
            i <= sessions@.len(),
            slices@.len() == i,
            slice_lists(slices@) == session_slices(ss).take(i as int),
            count == list_count(session_slices(ss), i as int),
            count <= MAX_SLICES,
            forall|a: int, b: int| 0 <= a < slices@.len() && 0 <= b < slices@[a]@.len() ==> (#[trigger] slices@[a]@[b]).date.wf()
                && slices@[a]@[b].seconds < 86400,
        decreases sessions.len() - i,
    {
        let sl = calculate_session_overtime(&sessions[i]);
        proof {
            assert(session_slices(ss)[i as int] == slice_views(sl@));
        }
        if sl.len() > MAX_SLICES - count {
            proof {
                lemma_list_count_mono(session_slices(ss), i as int + 1, ss.len() as int);
                assert(slice_views(sl@).len() == sl@.len());
                assert(list_count(session_slices(ss), ss.len() as int) > MAX_SLICES);
                assert(session_views(ss) == sessions_of(e));
                assert(sorted_by_time(e));
                assert(e.to_multiset() == input.to_multiset());
            }
            return None;
        }
        count = count + sl.len();
        let ghost prev = slices@;
        slices.push(sl);
        proof {
            assert(slice_lists(slices@) =~= session_slices(ss).take(i as int + 1));
        }
        i = i + 1;
    }
    proof {
        assert(session_slices(ss).take(i as int) =~= session_slices(ss));
        lemma_slice_count_is_list_count(slices@, slices@.len() as int);
        assert(list_count(slice_lists(slices@), i as int) == list_count(session_slices(ss), i as int)) by {
            lemma_list_count_congruent(slice_lists(slices@), session_slices(ss), i as int);
        }
        assert forall|k: int| 0 <= k < sessions@.len() implies names_unique(#[trigger] sessions@[k].project_counts@) by {
            assert(sessions@[k].wf());
        }
    }
    Some(attribute_overtime(&sessions, &slices, date_filter))
}

proof fn lemma_list_count_congruent(a: Seq<Seq<(int, int)>>, b: Seq<Seq<(int, int)>>, n: int)
    requires
        a == b,
    ensures
        list_count(a, n) == list_count(b, n),
{
}

/// The session touches local date `d`: it lies between the local dates of its start and end.
pub open spec fn touches_date(s: SessionView, d: int) -> bool {
    local_of(s.start).date.ordinal <= d <= local_of(s.end).date.ordinal
}

/// The sessions among the first `n` that touch local date `d`, in order.
pub open spec fn touching(sv: Seq<SessionView>, n: int, d: int) -> Seq<SessionView>
    decreases n,
{
    if n <= 0 {
        seq![]
    } else if touches_date(sv[n - 1], d) {
        touching(sv, n - 1, d).push(sv[n - 1])
    } else {
        touching(sv, n - 1, d)
    }
}

/// The sessions that the events make, once in time order, and that touch a
/// given local date, in order.
pub fn load_sessions_for_date(records: Vec<TimestampRecord>, date: CalDate) -> (r: Vec<Session>)
    requires
        forall|i: int| 0 <= i < records@.len() ==> valid_instant(#[trigger] records@[i].timestamp as int),
    ensures
        exists|e: Seq<(int, Seq<char>)>|
            {
                &&& sorted_by_time(e)
                &&& e.to_multiset() == events_view(records@).to_multiset()
                &&& session_views(r@) == touching(sessions_of(e), sessions_of(e).len() as int, date.ordinal as int)
            },
        forall|k: int| 0 <= k < r@.len() ==> (#[trigger] r@[k]).wf(),
{
    let mut records = records;
    sort_records(&mut records);
    let ghost e = events_view(records@);
    let mut sessions = build_sessions_from_records(&records);
    let ghost sv = session_views(sessions@);
    let ghost orig = sessions@;
    let n = sessions.len();
    let mut kept: Vec<Session> = Vec::new();
    let mut i: usize = 0;
    while i < n
        invariant
            n == sessions@.len() + i,
            sv.len() == n,
            sv == session_views(orig),
            orig.len() == n,
            forall|k: int| 0 <= k < orig.len() ==> (#[trigger] orig[k]).wf(),
            sessions@ == orig.subrange(i as int, n as int),
            forall|k: int| 0 <= k < kept@.len() ==> (#[trigger] kept@[k]).wf(),
            i <= n,
            session_views(kept@) == touching(sv, i as int, date.ordinal as int),
        decreases n - i,
    {
        let s = sessions.remove(0);
        assert(s == orig[i as int]);
        assert(sessions@ =~= orig.subrange(i as int + 1, n as int));
        assert(s@ == sv[i as int]);
        let start_local = to_local(s.start_time);
        let end_local = to_local(s.end_time);
        let ghost prev = kept@;
        if start_local.date.ordinal <= date.ordinal && date.ordinal <= end_local.date.ordinal {
            kept.push(s);
            assert(session_views(kept@) =~= session_views(prev).push(sv[i as int]));
        }
        i = i + 1;
    }
    kept
}

/// Day totals after laying the first `n` recent totals over `h`: a recent
/// total is taken for today, and for a date that has no total yet.
pub open spec fn overlay_hours(h: Seq<(int, int)>, recent: Seq<(int, int)>, today: int, n: int) -> Seq<
    (int, int),
>
    decreases n,
{
    if n <= 0 {
        h
    } else {
        let m = overlay_hours(h, recent, today, n - 1);
        let d = recent[n - 1].0;
        if d == today || !has_key(m, d) {
            upsert(m, d, recent[n - 1].1)
        } else {
            m
        }
    }
}

pub open spec fn has_rows(p: Seq<((int, Seq<char>), (int, int))>, d: int) -> bool {
    exists|i: int| 0 <= i < p.len() && p[i].0.0 == d
}

/// The recent project rows of date `d` replace the older ones: for today, and
/// for a date without older rows.
pub open spec fn takes_recent(
    base: Seq<((int, Seq<char>), (int, int))>,
    recent: Seq<((int, Seq<char>), (int, int))>,
    today: int,
    d: int,
) -> bool {
    has_rows(recent, d) && (d == today || !has_rows(base, d))
}

/// The first `n` rows of `p` whose date takes recent rows (`which`) or does not.
pub open spec fn rows_where(
    p: Seq<((int, Seq<char>), (int, int))>,
    base: Seq<((int, Seq<char>), (int, int))>,
    recent: Seq<((int, Seq<char>), (int, int))>,
    today: int,
    which: bool,
    n: int,
) -> Seq<((int, Seq<char>), (int, int))>
    decreases n,
{
    if n <= 0 {
        seq![]
    } else if takes_recent(base, recent, today, p[n - 1].0.0) == which {
        rows_where(p, base, recent, today, which, n - 1).push(p[n - 1])
    } else {
        rows_where(p, base, recent, today, which, n - 1)
    }
}

/// Project rows after the overlay: older rows of the dates that keep them,
/// then recent rows of the dates that take them.
pub open spec fn overlay_projects(
    base: Seq<((int, Seq<char>), (int, int))>,
    recent: Seq<((int, Seq<char>), (int, int))>,
    today: int,
) -> Seq<((int, Seq<char>), (int, int))> {
    rows_where(base, base, recent, today, false, base.len() as int) + rows_where(
        recent,
        base,
        recent,
        today,
        true,
        recent.len() as int,
    )
}

fn rows_on(p: &Vec<ProjectHours>, d: i32) -> (r: bool)
    ensures
        r == has_rows(project_pairs(p@), d as int),
{
    let ghost s = project_pairs(p@);
    let mut i: usize = 0;
    while i < p.len()
        invariant
            s == project_pairs(p@),
            i <= p@.len(),
            forall|j: int| 0 <= j < i ==> s[j].0.0 != d,
        decreases p.len() - i,
    {
        assert(s[i as int].0.0 == p@[i as int].date.ordinal);
        if p[i].date.ordinal == d {
            return true;
        }
        i = i + 1;
    }
    false
}

/// Lays freshly computed totals over those read from the ledger: today's
/// recent values always win; for other dates recent values only fill gaps.
/// Project rows go by date, all of a date's rows together.
pub fn overlay_recent(base: TodayData, recent: &TodayData, today: CalDate) -> (r: TodayData)
    requires
        base.wf(),
        recent.wf(),
    ensures
        r.wf(),
        hours_pairs(r.hours@) == overlay_hours(
            hours_pairs(base.hours@),
            hours_pairs(recent.hours@),
            today.ordinal as int,
            recent.hours@.len() as int,
        ),
        project_pairs(r.projects@) == overlay_projects(
            project_pairs(base.projects@),
            project_pairs(recent.projects@),
            today.ordinal as int,
        ),
{
    let ghost bp = project_pairs(base.projects@);
    let ghost rp = project_pairs(recent.projects@);
    let ghost t = today.ordinal as int;
    let ghost rh = hours_pairs(recent.hours@);
    let TodayData { hours: mut hours, projects: base_projects } = base;
    let ghost h0 = hours_pairs(hours@);
    let mut i: usize = 0;
    while i < recent.hours.len()
        invariant
            recent.wf(),
            rh == hours_pairs(recent.hours@),
            t == today.ordinal as int,
            i <= recent.hours@.len(),
            keys_unique(hours_pairs(hours@)),
            forall|k: int| 0 <= k < hours@.len() ==> (#[trigger] hours@[k]).date.wf(),
            hours_pairs(hours@) == overlay_hours(h0, rh, t, i as int),
        decreases recent.hours.len() - i,
    {
        let row = &recent.hours[i];
        assert(rh[i as int] == (row.date.ordinal as int, row.micros as int));
        let present = has_date(&hours, row.date.ordinal);
        if row.date.ordinal == today.ordinal || !present {
            set_hours(&mut hours, row.date, row.micros);
        }
        i = i + 1;
    }
    let mut projects: Vec<ProjectHours> = Vec::new();
    let mut j: usize = 0;
    assert(project_pairs(projects@) =~= seq![]);
    while j < base_projects.len()
        invariant
            bp == project_pairs(base_projects@),
            rp == project_pairs(recent.projects@),
            keys_unique(bp),
            t == today.ordinal as int,
            forall|k: int| 0 <= k < base_projects@.len() ==> (#[trigger] base_projects@[k]).date.wf(),
            j <= base_projects@.len(),
            project_pairs(projects@) == rows_where(bp, bp, rp, t, false, j as int),
            forall|k: int| 0 <= k < projects@.len() ==> (#[trigger] projects@[k]).date.wf(),
            keys_unique(project_pairs(projects@)),
            forall|k: int| 0 <= k < projects@.len() ==> exists|m: int| 0 <= m < j && #[trigger] project_pairs(projects@)[k] == bp[m],
            forall|a: int| 0 <= a < projects@.len() ==> !takes_recent(bp, rp, t, #[trigger] project_pairs(projects@)[a].0.0),
        decreases base_projects.len() - j,
    {
        let row = &base_projects[j];
        let d = row.date.ordinal;
        assert(bp[j as int].0.0 == d);
        let recent_rows = rows_on(&recent.projects, d);
        let older_rows = rows_on(&base_projects, d);
        assert(has_rows(bp, d as int)) by {
            assert(0 <= j < bp.len() && bp[j as int].0.0 == d);
        }
        let ghost prev = project_pairs(projects@);
        if !(recent_rows && (d == today.ordinal || !older_rows)) {
            let copy = ProjectHours {
                date: row.date,
                name: row.name.clone(),
                weekday_micros: row.weekday_micros,
                weekend_micros: row.weekend_micros,
            };
            projects.push(copy);
            assert(project_pairs(projects@) =~= prev.push(bp[j as int]));
            assert forall|a: int, b: int| 0 <= a < b < project_pairs(projects@).len() implies project_pairs(projects@)[a].0 != project_pairs(projects@)[b].0 by {
                if b == prev.len() {
                    let m = choose|m: int| 0 <= m < j && #[trigger] prev[a] == bp[m];
                    assert(bp[m].0 != bp[j as int].0);
                } else {
                    assert(prev[a].0 != prev[b].0);
                }
            }
            assert forall|k: int| 0 <= k < projects@.len() implies exists|m: int| 0 <= m < j + 1 && #[trigger] project_pairs(projects@)[k] == bp[m] by {
                if k < prev.len() {
                    let m = choose|m: int| 0 <= m < j && #[trigger] prev[k] == bp[m];
                    assert(project_pairs(projects@)[k] == bp[m]);
                } else {
                    assert(project_pairs(projects@)[k] == bp[j as int]);
                }
            }
        } else {
            assert forall|k: int| 0 <= k < projects@.len() implies exists|m: int| 0 <= m < j + 1 && #[trigger] project_pairs(projects@)[k] == bp[m] by {
                let m = choose|m: int| 0 <= m < j && #[trigger] prev[k] == bp[m];
                assert(project_pairs(projects@)[k] == bp[m]);
            }
        }
        j = j + 1;
    }
    let ghost first_part = project_pairs(projects@);
    let mut k: usize = 0;
    while k < recent.projects.len()
        invariant
            bp == project_pairs(base_projects@),
            rp == project_pairs(recent.projects@),
            recent.wf(),
            keys_unique(bp),
            t == today.ordinal as int,
            k <= recent.projects@.len(),
            first_part == rows_where(bp, bp, rp, t, false, bp.len() as int),
            forall|a: int| 0 <= a < first_part.len() ==> !takes_recent(bp, rp, t, #[trigger] first_part[a].0.0),
            project_pairs(projects@) == first_part + rows_where(rp, bp, rp, t, true, k as int),
            forall|a: int| 0 <= a < projects@.len() ==> (#[trigger] projects@[a]).date.wf(),
            keys_unique(project_pairs(projects@)),
            forall|a: int| first_part.len() <= a < projects@.len() ==> exists|m: int| 0 <= m < k && #[trigger] project_pairs(projects@)[a] == rp[m],
            forall|a: int| first_part.len() <= a < projects@.len() ==> takes_recent(bp, rp, t, #[trigger] project_pairs(projects@)[a].0.0),
            first_part.len() <= projects@.len(),
        decreases recent.projects.len() - k,
    {
        let row = &recent.projects[k];
        let d = row.date.ordinal;
        assert(rp[k as int].0.0 == d);
        assert(has_rows(rp, d as int)) by {
            assert(0 <= k < rp.len() && rp[k as int].0.0 == d);
        }
        let older_rows = rows_on(&base_projects, d);
        let ghost prev = project_pairs(projects@);
        if d == today.ordinal || !older_rows {
            let copy = ProjectHours {
                date: row.date,
                name: row.name.clone(),
                weekday_micros: row.weekday_micros,
                weekend_micros: row.weekend_micros,
            };
            projects.push(copy);
            assert(project_pairs(projects@) =~= prev.push(rp[k as int]));
            assert(first_part + rows_where(rp, bp, rp, t, true, k + 1) =~= (first_part + rows_where(rp, bp, rp, t, true, k as int)).push(rp[k as int]));
            assert forall|a: int, b: int| 0 <= a < b < project_pairs(projects@).len() implies project_pairs(projects@)[a].0 != project_pairs(projects@)[b].0 by {
                if b == prev.len() {
                    if a < first_part.len() {
                        assert(prev[a] == first_part[a]);
                        assert(!takes_recent(bp, rp, t, first_part[a].0.0));
                    } else {
                        let m = choose|m: int| 0 <= m < k && #[trigger] prev[a] == rp[m];
                        assert(rp[m].0 != rp[k as int].0);
                    }
                } else {
                    assert(prev[a].0 != prev[b].0);
                }
            }
            assert forall|a: int| first_part.len() <= a < projects@.len() implies exists|m: int| 0 <= m < k + 1 && #[trigger] project_pairs(projects@)[a] == rp[m] by {
                if a < prev.len() {
                    let m = choose|m: int| 0 <= m < k && #[trigger] prev[a] == rp[m];
                    assert(project_pairs(projects@)[a] == rp[m]);
                } else {
                    assert(project_pairs(projects@)[a] == rp[k as int]);
                }
            }
            assert forall|a: int| first_part.len() <= a < projects@.len() implies takes_recent(bp, rp, t, #[trigger] project_pairs(projects@)[a].0.0) by {
                if a < prev.len() {
                    assert(project_pairs(projects@)[a] == prev[a]);
                }
            }
        } else {
            assert forall|a: int| first_part.len() <= a < projects@.len() implies exists|m: int| 0 <= m < k + 1 && #[trigger] project_pairs(projects@)[a] == rp[m] by {
                let m = choose|m: int| 0 <= m < k && #[trigger] prev[a] == rp[m];
                assert(project_pairs(projects@)[a] == rp[m]);
            }
        }
        k = k + 1;
    }
    TodayData { hours, projects }
}

fn has_date(hours: &Vec<crate::attribution::DayTotal>, d: i32) -> (r: bool)
    ensures
        r == has_key(hours_pairs(hours@), d as int),
{
    let ghost s = hours_pairs(hours@);
    let mut i: usize = 0;
    while i < hours.len()
        invariant
            s == hours_pairs(hours@),
            i <= hours@.len(),
            forall|j: int| 0 <= j < i ==> s[j].0 != d,
        decreases hours.len() - i,
    {
        assert(s[i as int].0 == hours@[i as int].date.ordinal);
        if hours[i].date.ordinal == d {
            assert(0 <= i < s.len() && s[i as int].0 == d as int);
            return true;
        }
        i = i + 1;
    }
    false
}

} // verus!
