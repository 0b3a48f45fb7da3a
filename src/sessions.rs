//! Reconstruction of work sessions from a merged, time-ordered event stream.
//!
//! A session is a maximal run of events in which no two consecutive events are
//! more than `SESSION_GAP_SECONDS` apart; runs shorter than
//! `MIN_SESSION_SECONDS` are dropped.

use vstd::prelude::*;

verus! {

/// Largest silence, in seconds, that still keeps two events in one session.
pub const SESSION_GAP_SECONDS: i64 = 1800;

/// Shortest session, in seconds, that is kept.
pub const MIN_SESSION_SECONDS: i64 = 300;

/// Bound on the magnitude of an instant, in seconds from the Unix epoch; well
/// inside the range of dates that chrono represents.
pub const MAX_INSTANT: i64 = 8_000_000_000_000;

pub open spec fn valid_instant(t: int) -> bool {
    -MAX_INSTANT <= t <= MAX_INSTANT
}

/// One activity event: a UTC instant in seconds from the Unix epoch, and the
/// label of the source that recorded it.
#[derive(Clone, Debug)]
pub struct TimestampRecord {
    pub timestamp: i64,
    pub project: String,
}

impl View for TimestampRecord {
    type V = (int, Seq<char>);

    open spec fn view(&self) -> (int, Seq<char>) {
        (self.timestamp as int, self.project@)
    }
}

/// How many events of one source a session holds.
pub struct ProjectCount {
    pub name: String,
    pub count: usize,
}

/// A reconstructed session: its first and last instant, and the number of
/// events of each source.
pub struct Session {
    pub project_counts: Vec<ProjectCount>,
    pub start_time: i64,
    pub end_time: i64,
    pub duration_seconds: i64,
}

/// What a session stands for.
pub struct SessionView {
    pub start: int,
    pub end: int,
    pub counts: Map<Seq<char>, nat>,
}

/// The counts of a list with distinct names, as a map from name to count.
pub open spec fn counts_map(s: Seq<ProjectCount>) -> Map<Seq<char>, nat>
    decreases s.len(),
{
    if s.len() == 0 {
        Map::empty()
    } else {
        counts_map(s.drop_last()).insert(s.last().name@, s.last().count as nat)
    }
}

pub open spec fn names_unique(s: Seq<ProjectCount>) -> bool {
    forall|i: int, j: int| 0 <= i < j < s.len() ==> s[i].name@ != s[j].name@
}

impl View for Session {
    type V = SessionView;

    open spec fn view(&self) -> SessionView {
        SessionView {
            start: self.start_time as int,
            end: self.end_time as int,
            counts: counts_map(self.project_counts@),
        }
    }
}

impl Session {
    pub open spec fn wf(&self) -> bool {
        &&& valid_instant(self.start_time as int)
        &&& valid_instant(self.end_time as int)
        &&& self.duration_seconds == self.end_time - self.start_time
        &&& names_unique(self.project_counts@)
    }
}

pub open spec fn events_view(s: Seq<TimestampRecord>) -> Seq<(int, Seq<char>)> {
    s.map_values(|r: TimestampRecord| r@)
}

pub open spec fn session_views(s: Seq<Session>) -> Seq<SessionView> {
    s.map_values(|x: Session| x@)
}

/// One more event of a source.
pub open spec fn bump(m: Map<Seq<char>, nat>, label: Seq<char>) -> Map<Seq<char>, nat> {
    m.insert(label, if m.contains_key(label) { m[label] + 1 } else { 1 })
}

/// Events per source among the events with index in `[a, b)`.
pub open spec fn label_counts(e: Seq<(int, Seq<char>)>, a: int, b: int) -> Map<Seq<char>, nat>
    decreases b - a,
{
    if b <= a {
        Map::empty()
    } else {
        bump(label_counts(e, a, b - 1), e[b - 1].1)
    }
}

/// The run of events with index in `[a, b]`, kept as a session when it lasts long enough.
pub open spec fn close_run(e: Seq<(int, Seq<char>)>, a: int, b: int) -> Seq<SessionView> {
    if e[b].0 - e[a].0 >= MIN_SESSION_SECONDS {
        seq![SessionView { start: e[a].0, end: e[b].0, counts: label_counts(e, a, b + 1) }]
    } else {
        seq![]
    }
}

/// The sessions from an open run that starts at index `a`, with event `i` next.
pub open spec fn scan(e: Seq<(int, Seq<char>)>, a: int, i: int) -> Seq<SessionView>
    decreases e.len() - i,
{
    if i >= e.len() {
        close_run(e, a, i - 1)
    } else if e[i].0 - e[i - 1].0 > SESSION_GAP_SECONDS {
        close_run(e, a, i - 1) + scan(e, i, i + 1)
    } else {
        scan(e, a, i + 1)
    }
}

/// The sessions that a sequence of events makes.
pub open spec fn sessions_of(e: Seq<(int, Seq<char>)>) -> Seq<SessionView> {
    if e.len() == 0 {
        seq![]
    } else {
        scan(e, 0, 1)
    }
}

proof fn lemma_counts_map_has(s: Seq<ProjectCount>, k: Seq<char>)
    requires
        names_unique(s),
    ensures
        counts_map(s).contains_key(k) <==> exists|i: int| 0 <= i < s.len() && s[i].name@ == k,
        forall|i: int| 0 <= i < s.len() && s[i].name@ == k ==> counts_map(s)[k] == s[i].count,
    decreases s.len(),
{
    if s.len() > 0 {
        let t = s.drop_last();
        assert(names_unique(t));
        lemma_counts_map_has(t, k);
        if counts_map(s).contains_key(k) && k != s.last().name@ {
            let i = choose|i: int| 0 <= i < t.len() && t[i].name@ == k;
            assert(s[i] == t[i]);
        }
        if exists|i: int| 0 <= i < s.len() && s[i].name@ == k {
            let i = choose|i: int| 0 <= i < s.len() && s[i].name@ == k;
            if i < s.len() - 1 {
                assert(s[i] == t[i]);
            }
        }
        assert forall|i: int| 0 <= i < s.len() && s[i].name@ == k implies counts_map(s)[k]
            == s[i].count by {
            if i < s.len() - 1 {
                assert(s[i] == t[i]);
            }
        }
    }
}

proof fn lemma_counts_map_update(s: Seq<ProjectCount>, j: int, c: ProjectCount)
    requires
        names_unique(s),
        0 <= j < s.len(),
        c.name@ == s[j].name@,
    ensures
        counts_map(s.update(j, c)) == counts_map(s).insert(c.name@, c.count as nat),
        names_unique(s.update(j, c)),
    decreases s.len(),
{
    let u = s.update(j, c);
    if j == s.len() - 1 {
        assert(u.drop_last() =~= s.drop_last());
        assert(counts_map(s).insert(c.name@, c.count as nat) =~= counts_map(
            s.drop_last(),
        ).insert(c.name@, c.count as nat));
    } else {
        let t = s.drop_last();
        assert(names_unique(t));
        lemma_counts_map_update(t, j, c);
        assert(u.drop_last() =~= t.update(j, c));
        assert(s.last().name@ != c.name@);
        assert(counts_map(u) =~= counts_map(s).insert(c.name@, c.count as nat));
    }
}

/// Counts one more event of `label`.
fn add_label(counts: &mut Vec<ProjectCount>, label: &String)
    requires
        names_unique(old(counts)@),
        counts_map(old(counts)@).contains_key(label@) ==> counts_map(old(counts)@)[label@]
            < usize::MAX,
    ensures
        names_unique(final(counts)@),
        counts_map(final(counts)@) == bump(counts_map(old(counts)@), label@),
{
    proof {
        lemma_counts_map_has(counts@, label@);
    }
    let mut j: usize = 0;
    while j < counts.len()
        invariant
            j <= counts.len(),
            counts@ == old(counts)@,
            names_unique(counts@),
            counts_map(counts@).contains_key(label@) ==> counts_map(counts@)[label@] < usize::MAX,
            forall|i: int| 0 <= i < counts@.len() && counts@[i].name@ == label@ ==> counts_map(counts@)[label@] == counts@[i].count,
            forall|i: int| 0 <= i < counts@.len() && counts@[i].name@ == label@ ==> counts_map(counts@).contains_key(label@),
            forall|i: int| 0 <= i < j ==> counts@[i].name@ != label@,
        decreases counts.len() - j,
    {
        if counts[j].name == *label {
            let c = ProjectCount { name: label.clone(), count: counts[j].count + 1 };
            proof {
                lemma_counts_map_update(counts@, j as int, c);
            }
            counts.set(j, c);
            proof {
                assert(bump(counts_map(old(counts)@), label@) =~= counts_map(old(counts)@).insert(c.name@, c.count as nat));
            }
            return;
        }
        j = j + 1;
    }
    let ghost before = counts@;
    counts.push(ProjectCount { name: label.clone(), count: 1 });
    assert(counts@.drop_last() =~= before);
}

/// Groups events into sessions. The events are expected in time order (merge
/// every source before sorting); a new session starts wherever the silence
/// after the previous event exceeds the gap, and a session shorter than the
/// minimum is dropped.
pub fn build_sessions_from_records(records: &Vec<TimestampRecord>) -> (r: Vec<Session>)
    requires
        forall|i: int| 0 <= i < records@.len() ==> valid_instant(#[trigger] records@[i].timestamp as int),
    ensures
        session_views(r@) == sessions_of(events_view(records@)),
        forall|k: int| 0 <= k < r@.len() ==> (#[trigger] r@[k]).wf(),
{
    let ghost e = events_view(records@);
    let mut sessions: Vec<Session> = Vec::new();
    let n = records.len();
    if n == 0 {
        assert(session_views(sessions@) =~= seq![]);
        return sessions;
    }
    let mut session_start = records[0].timestamp;
    let mut session_end = records[0].timestamp;
    let mut session_projects: Vec<ProjectCount> = Vec::new();
    add_label(&mut session_projects, &records[0].project);
    proof {
        assert(label_counts(e, 0, 0) =~= Map::empty());
        assert(session_views(sessions@) + scan(e, 0, 1) =~= sessions_of(e));
    }
    let ghost mut a: int = 0;
    let mut i: usize = 1;
    while i < n
        invariant
            e == events_view(records@),
            n == records@.len(),
            forall|k: int| 0 <= k < records@.len() ==> valid_instant(#[trigger] records@[k].timestamp as int),
            1 <= i <= n,
            0 <= a < i,
            session_start == e[a].0,
            session_end == e[i - 1].0,
            names_unique(session_projects@),
            counts_map(session_projects@) == label_counts(e, a, i as int),
            forall|l: Seq<char>| #[trigger] label_counts(e, a, i as int).contains_key(l) ==> label_counts(e, a, i as int)[l] <= i - a,
            session_views(sessions@) + scan(e, a, i as int) == sessions_of(e),
            forall|k: int| 0 <= k < sessions@.len() ==> (#[trigger] sessions@[k]).wf(),
        decreases n - i,
    {
        let ts = records[i].timestamp;
        assert(e[i as int].0 == ts);
        if ts - session_end > SESSION_GAP_SECONDS {
            let duration = session_end - session_start;
            let ghost prev = sessions@;
            if duration >= MIN_SESSION_SECONDS {
                let s = Session {
                    project_counts: session_projects,
                    start_time: session_start,
                    end_time: session_end,
                    duration_seconds: duration,
                };
                sessions.push(s);
                assert(session_views(sessions@) =~= session_views(prev) + close_run(e, a, i - 1));
            } else {
                assert(session_views(sessions@) =~= session_views(prev) + close_run(e, a, i - 1));
            }
            session_projects = Vec::new();
            session_start = ts;
            proof {
                a = i as int;
                assert(label_counts(e, a, a) =~= Map::empty());
            }
        }
        session_end = ts;
        proof {
            assert(label_counts(e, a, i as int + 1) == bump(label_counts(e, a, i as int), e[i as int].1));
        }
        add_label(&mut session_projects, &records[i].project);
        i = i + 1;
        proof {
            assert forall|l: Seq<char>| #[trigger] label_counts(e, a, i as int).contains_key(l) implies label_counts(e, a, i as int)[l] <= i - a by {
                if label_counts(e, a, i - 1).contains_key(l) {
                    assert(label_counts(e, a, i - 1)[l] <= i - 1 - a);
                }
            }
        }
    }
    let duration = session_end - session_start;
    if duration >= MIN_SESSION_SECONDS {
        let ghost prev = sessions@;
        sessions.push(
            Session {
                project_counts: session_projects,
                start_time: session_start,
                end_time: session_end,
                duration_seconds: duration,
            },
        );
        assert(session_views(sessions@) =~= session_views(prev) + close_run(e, a, n - 1));
    } else {
        assert(session_views(sessions@) =~= session_views(sessions@) + close_run(e, a, n - 1));
    }
    sessions
}

} // verus!
