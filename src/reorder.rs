//! Reconstruction depends only on the set of events, not on how the sources
//! were interleaved before sorting.

use vstd::multiset::{group_multiset_axioms, lemma_insert_len, lemma_multiset_empty_len, Multiset};
use vstd::prelude::*;
use vstd::seq_lib::to_multiset_build;

use crate::sessions::{
    events_view, label_counts, scan, sessions_of, valid_instant, TimestampRecord,
    SESSION_GAP_SECONDS,
};

verus! {

/// Events in non-decreasing time order.
pub open spec fn sorted_by_time(e: Seq<(int, Seq<char>)>) -> bool {
    forall|i: int, j: int| 0 <= i <= j < e.len() ==> e[i].0 <= e[j].0
}

/// Relies on std's `slice::sort_by_key`: the records are permuted into
/// non-decreasing order of their timestamp (stably).
#[verifier::external_body]
fn sort_by_timestamp(records: &mut Vec<TimestampRecord>)
    ensures
        sorted_by_time(events_view(final(records)@)),
        events_view(final(records)@).to_multiset() == events_view(old(records)@).to_multiset(),
{
    records.sort_by_key(|r| r.timestamp);
}

/// Puts records into time order; the sorted records are the same events.
pub fn sort_records(records: &mut Vec<TimestampRecord>)
    requires
        forall|i: int| 0 <= i < old(records)@.len() ==> valid_instant(#[trigger] old(records)@[i].timestamp as int),
    ensures
        sorted_by_time(events_view(final(records)@)),
        events_view(final(records)@).to_multiset() == events_view(old(records)@).to_multiset(),
        forall|i: int| 0 <= i < final(records)@.len() ==> valid_instant(#[trigger] final(records)@[i].timestamp as int),
{
    let ghost before = events_view(records@);
    sort_by_timestamp(records);
    proof {
        let after = events_view(records@);
        before.to_multiset_ensures();
        after.to_multiset_ensures();
        assert forall|i: int| 0 <= i < records@.len() implies valid_instant(#[trigger] records@[i].timestamp as int) by {
            assert(after[i] == records@[i]@);
            assert(after.contains(after[i]));
            assert(after.to_multiset().count(after[i]) > 0);
            assert(before.to_multiset().count(after[i]) > 0);
            assert(before.contains(after[i]));
            let j = choose|j: int| 0 <= j < before.len() && before[j] == after[i];
            assert(before[j] == old(records)@[j]@);
        }
    }
}

/// Number of the first `n` events that satisfy `p`.
pub open spec fn count_where(e: Seq<(int, Seq<char>)>, p: spec_fn((int, Seq<char>)) -> bool, n: int) -> int
    decreases n,
{
    if n <= 0 {
        0
    } else {
        count_where(e, p, n - 1) + if p(e[n - 1]) { 1int } else { 0 }
    }
}

/// Number of events with index in `[x, m)` from source `l`.
pub open spec fn label_run(e: Seq<(int, Seq<char>)>, l: Seq<char>, x: int, m: int) -> int
    decreases m - x,
{
    if m <= x {
        0
    } else {
        label_run(e, l, x, m - 1) + if e[m - 1].1 == l { 1int } else { 0 }
    }
}

proof fn lemma_count_is_multiset(e: Seq<(int, Seq<char>)>, p: spec_fn((int, Seq<char>)) -> bool)
    ensures
        count_where(e, p, e.len() as int) == e.to_multiset().filter(p).len(),
    decreases e.len(),
{
    broadcast use group_multiset_axioms;

    if e.len() == 0 {
        e.to_multiset_ensures();
        lemma_multiset_empty_len(e.to_multiset());
        assert(e.to_multiset().filter(p) =~= Multiset::empty());
    } else {
        let f = e.drop_last();
        let x = e.last();
        lemma_count_is_multiset(f, p);
        assert(f.push(x) == e);
        to_multiset_build(f, x);
        let m = f.to_multiset();
        assert(count_where(e, p, f.len() as int) == count_where(f, p, f.len() as int)) by {
            lemma_count_prefix_same(e, f, p, f.len() as int);
        }
        if p(x) {
            assert(m.insert(x).filter(p) =~= m.filter(p).insert(x));
            lemma_insert_len(m.filter(p), x);
        } else {
            assert(m.insert(x).filter(p) =~= m.filter(p));
        }
    }
}

proof fn lemma_count_prefix_same(
    e: Seq<(int, Seq<char>)>,
    f: Seq<(int, Seq<char>)>,
    p: spec_fn((int, Seq<char>)) -> bool,
    n: int,
)
    requires
        0 <= n <= f.len(),
        n <= e.len(),
        forall|i: int| 0 <= i < n ==> e[i] == f[i],
    ensures
        count_where(e, p, n) == count_where(f, p, n),
    decreases n,
{
    if n > 0 {
        lemma_count_prefix_same(e, f, p, n - 1);
    }
}

proof fn lemma_count_bounds(e: Seq<(int, Seq<char>)>, p: spec_fn((int, Seq<char>)) -> bool, m: int, n: int)
    requires
        0 <= m <= n,
    ensures
        count_where(e, p, m) <= count_where(e, p, n) <= count_where(e, p, m) + (n - m),
        (forall|j: int| m <= j < n ==> !p(e[j])) ==> count_where(e, p, n) == count_where(e, p, m),
        (forall|j: int| m <= j < n ==> p(e[j])) ==> count_where(e, p, n) == count_where(e, p, m) + (n - m),
    decreases n - m,
{
    if m < n {
        lemma_count_bounds(e, p, m, n - 1);
    }
}

/// Two sorted arrangements of the same events agree on every timestamp.
proof fn lemma_same_times(a: Seq<(int, Seq<char>)>, b: Seq<(int, Seq<char>)>, i: int)
    requires
        a.to_multiset() == b.to_multiset(),
        sorted_by_time(a),
        sorted_by_time(b),
        a.len() == b.len(),
        0 <= i < a.len(),
    ensures
        a[i].0 == b[i].0,
{
    if a[i].0 != b[i].0 {
        let (s, t) = if a[i].0 < b[i].0 { (a, b) } else { (b, a) };
        let v = s[i].0;
        let p = |x: (int, Seq<char>)| x.0 <= v;
        lemma_count_is_multiset(a, p);
        lemma_count_is_multiset(b, p);
        let n = s.len() as int;
        lemma_count_bounds(s, p, 0, i + 1);
        lemma_count_bounds(s, p, i + 1, n);
        lemma_count_bounds(t, p, 0, i);
        lemma_count_bounds(t, p, i, n);
        assert(forall|j: int| 0 <= j < i + 1 ==> p(s[j]));
        assert(forall|j: int| i <= j < n ==> !p(t[j])) by {
            assert forall|j: int| i <= j < n implies !p(t[j]) by {
                assert(t[i].0 <= t[j].0);
            }
        }
    }
}

/// Events from source `l` with a time in `[lo, hi]`.
pub open spec fn in_window(l: Seq<char>, lo: int, hi: int) -> spec_fn((int, Seq<char>)) -> bool {
    |v: (int, Seq<char>)| v.1 == l && lo <= v.0 <= hi
}

proof fn lemma_label_run_is_count(e: Seq<(int, Seq<char>)>, l: Seq<char>, x: int, y: int, m: int)
    requires
        sorted_by_time(e),
        0 <= x <= m <= y + 1 <= e.len(),
    ensures
        label_run(e, l, x, m) == count_where(e, in_window(l, e[x].0, e[y].0), m) - count_where(
            e,
            in_window(l, e[x].0, e[y].0),
            x,
        ),
    decreases m - x,
{
    if m > x {
        lemma_label_run_is_count(e, l, x, y, m - 1);
        assert(e[x].0 <= e[m - 1].0 <= e[y].0);
    }
}

proof fn lemma_label_counts_is_run(e: Seq<(int, Seq<char>)>, x: int, m: int, l: Seq<char>)
    requires
        0 <= x <= m <= e.len(),
    ensures
        label_counts(e, x, m).contains_key(l) <==> label_run(e, l, x, m) > 0,
        label_counts(e, x, m).contains_key(l) ==> label_counts(e, x, m)[l] == label_run(e, l, x, m),
        label_run(e, l, x, m) >= 0,
    decreases m - x,
{
    if m > x {
        lemma_label_counts_is_run(e, x, m - 1, l);
    }
}

/// A closed run that starts and ends at gaps holds the same events in both arrangements.
proof fn lemma_same_run_counts(a: Seq<(int, Seq<char>)>, b: Seq<(int, Seq<char>)>, x: int, y: int)
    requires
        a.to_multiset() == b.to_multiset(),
        sorted_by_time(a),
        sorted_by_time(b),
        a.len() == b.len(),
        forall|i: int| 0 <= i < a.len() ==> a[i].0 == b[i].0,
        0 <= x <= y < a.len(),
        x == 0 || a[x].0 - a[x - 1].0 > SESSION_GAP_SECONDS,
        y == a.len() - 1 || a[y + 1].0 - a[y].0 > SESSION_GAP_SECONDS,
    ensures
        label_counts(a, x, y + 1) == label_counts(b, x, y + 1),
{
    let n = a.len() as int;
    assert forall|l: Seq<char>|
        #[trigger] label_counts(a, x, y + 1).contains_key(l) == label_counts(b, x, y + 1).contains_key(l)
        && (label_counts(a, x, y + 1).contains_key(l) ==> label_counts(a, x, y + 1)[l] == label_counts(b, x, y + 1)[l]) by {
        assert(a[x].0 == b[x].0 && a[y].0 == b[y].0);
        let p = in_window(l, a[x].0, a[y].0);
        lemma_count_is_multiset(a, p);
        lemma_count_is_multiset(b, p);
        lemma_label_run_is_count(a, l, x, y, y + 1);
        lemma_label_run_is_count(b, l, x, y, y + 1);
        lemma_count_bounds(a, p, 0, x);
        lemma_count_bounds(b, p, 0, x);
        lemma_count_bounds(a, p, y + 1, n);
        lemma_count_bounds(b, p, y + 1, n);
        assert forall|j: int| 0 <= j < x implies !p(a[j]) && !p(b[j]) by {
            assert(a[j].0 <= a[x - 1].0);
            assert(b[j].0 <= b[x - 1].0);
            assert(a[x - 1].0 == b[x - 1].0);
        }
        assert forall|j: int| y + 1 <= j < n implies !p(a[j]) && !p(b[j]) by {
            assert(a[y + 1].0 <= a[j].0);
            assert(b[y + 1].0 <= b[j].0);
            assert(a[y + 1].0 == b[y + 1].0);
        }
        lemma_label_counts_is_run(a, x, y + 1, l);
        lemma_label_counts_is_run(b, x, y + 1, l);
    }
    assert(label_counts(a, x, y + 1) =~= label_counts(b, x, y + 1));
}

proof fn lemma_same_scan(a: Seq<(int, Seq<char>)>, b: Seq<(int, Seq<char>)>, s: int, i: int)
    requires
        a.to_multiset() == b.to_multiset(),
        sorted_by_time(a),
        sorted_by_time(b),
        a.len() == b.len(),
        forall|k: int| 0 <= k < a.len() ==> a[k].0 == b[k].0,
        0 <= s < i <= a.len(),
        s == 0 || a[s].0 - a[s - 1].0 > SESSION_GAP_SECONDS,
    ensures
        scan(a, s, i) == scan(b, s, i),
    decreases a.len() - i,
{
    if i >= a.len() {
        lemma_same_run_counts(a, b, s, i - 1);
    } else if a[i].0 - a[i - 1].0 > SESSION_GAP_SECONDS {
        lemma_same_run_counts(a, b, s, i - 1);
        lemma_same_scan(a, b, i, i + 1);
    } else {
        lemma_same_scan(a, b, s, i + 1);
    }
}

/// Reconstruction is insensitive to how the events arrived: any two
/// time-sorted arrangements of the same events give the same sessions.
pub proof fn lemma_sessions_order_insensitive(a: Seq<(int, Seq<char>)>, b: Seq<(int, Seq<char>)>)
    requires
        a.to_multiset() == b.to_multiset(),
        sorted_by_time(a),
        sorted_by_time(b),
    ensures
        sessions_of(a) == sessions_of(b),
{
    a.to_multiset_ensures();
    b.to_multiset_ensures();
    assert forall|k: int| 0 <= k < a.len() implies a[k].0 == b[k].0 by {
        lemma_same_times(a, b, k);
    }
    if a.len() > 0 {
        lemma_same_scan(a, b, 0, 1);
    }
}

} // verus!
