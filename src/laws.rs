use vstd::prelude::*;
use crate::model::{
    count_between, density, events_in, improves, is_candidate, is_densest_start,
    is_densest_window, is_extreme_indices, is_extreme_start, is_participant_window, is_sorted,
    lemma_density_is_run, messages_sorted, reach_count, window_last, window_matched, Message,
};

verus! {

/// Finds where the window anchored at `lo` ends: every event in `[lo, e)` is
/// inside it and event `e`, if any, is not.
proof fn lemma_run_end(ts: Seq<u64>, lo: int, w: int, j: int) -> (e: int)
    requires
        is_sorted(ts),
        0 <= lo <= j <= ts.len(),
        forall|k: int| lo <= k < j ==> ts[k] - ts[lo] <= w,
    ensures
        j <= e <= ts.len(),
        forall|k: int| lo <= k < e ==> ts[k] - ts[lo] <= w,
        e < ts.len() ==> ts[e] - ts[lo] > w,
        density(ts, lo, w) == e - lo,
    decreases ts.len() - j,
{
    if j == ts.len() || ts[j] - ts[lo] > w {
        lemma_density_is_run(ts, lo, j, w);
        j
    } else {
        lemma_run_end(ts, lo, w, j + 1)
    }
}

/// Events in `[a, c)` that all fall outside the range add nothing.
proof fn lemma_count_between_out(ts: Seq<u64>, lo_ms: int, hi_ms: int, a: int, c: int)
    requires
        0 <= a <= c <= ts.len(),
        forall|k: int| a <= k < c ==> !(lo_ms <= #[trigger] ts[k] <= hi_ms),
    ensures
        count_between(ts, lo_ms, hi_ms, c) == count_between(ts, lo_ms, hi_ms, a),
    decreases c - a,
{
    if c > a {
        lemma_count_between_out(ts, lo_ms, hi_ms, a, c - 1);
    }
}

/// Events in `[a, c)` that all fall inside the range add one each.
proof fn lemma_count_between_in(ts: Seq<u64>, lo_ms: int, hi_ms: int, a: int, c: int)
    requires
        0 <= a <= c <= ts.len(),
        forall|k: int| a <= k < c ==> lo_ms <= #[trigger] ts[k] <= hi_ms,
    ensures
        count_between(ts, lo_ms, hi_ms, c) == count_between(ts, lo_ms, hi_ms, a) + (c - a),
    decreases c - a,
{
    if c > a {
        lemma_count_between_in(ts, lo_ms, hi_ms, a, c - 1);
    }
}

/// The window that the global scanner returns holds exactly as many events
/// as its start's density.
proof fn lemma_densest_window_count(ts: Seq<u64>, w: int, b: int)
    requires
        is_sorted(ts),
        w >= 0,
        is_densest_start(ts, w, b),
    ensures
        density(ts, b, w) >= 1,
        events_in(ts, (ts[b], ts[b + density(ts, b, w) - 1])) == density(ts, b, w),
{
    let n = ts.len() as int;
    let e = lemma_run_end(ts, b, w, b);
    assert(ts[b] - ts[b] <= w);
    assert(e > b);
    let lo_ms = ts[b] as int;
    let hi_ms = ts[e - 1] as int;
    // No earlier event shares the start's timestamp: it would reach as far
    // and so hold more events.
    assert forall|k: int| 0 <= k < b implies !(lo_ms <= #[trigger] ts[k] <= hi_ms) by {
        if ts[k] >= ts[b] {
            assert(ts[k] <= ts[b]);
            assert forall|j: int| k <= j < e implies ts[j] - ts[k] <= w by {
                assert(ts[k] <= ts[j]);
                if j < b {
                    assert(ts[j] <= ts[b]);
                }
            }
            if e < n {
                assert(ts[e] - ts[k] > w);
            }
            lemma_density_is_run(ts, k, e, w);
        }
    }
    lemma_count_between_out(ts, lo_ms, hi_ms, 0, b);
    assert forall|k: int| b <= k < e implies lo_ms <= #[trigger] ts[k] <= hi_ms by {
        assert(ts[b] <= ts[k]);
        assert(ts[k] <= ts[e - 1]);
    }
    lemma_count_between_in(ts, lo_ms, hi_ms, b, e);
    assert forall|k: int| e <= k < n implies !(lo_ms <= #[trigger] ts[k] <= hi_ms) by {
        assert(ts[e] <= ts[k]);
    }
    lemma_count_between_out(ts, lo_ms, hi_ms, e, n);
}

/// Maximality: no window of the span anchored at any event holds more events
/// than the window the global scanner returns.
pub proof fn lemma_densest_window_is_maximal(ts: Seq<u64>, w: int, r: (u64, u64), k: int)
    requires
        is_sorted(ts),
        w >= 0,
        ts.len() > 1,
        is_densest_window(ts, w, r),
        0 <= k < ts.len(),
    ensures
        density(ts, k, w) <= events_in(ts, r),
{
    let b = choose|b: int|
        #[trigger] is_densest_start(ts, w, b) && r == (ts[b], ts[b + density(ts, b, w) - 1]);
    lemma_densest_window_count(ts, w, b);
}

/// A wider span counts at least the events a narrower one does.
proof fn lemma_reach_count_widens(ts: Seq<u64>, lo: int, hi: int, w1: int, w2: int)
    requires
        w1 <= w2,
    ensures
        reach_count(ts, lo, hi, w1) <= reach_count(ts, lo, hi, w2),
    decreases hi - lo,
{
    if hi > lo {
        lemma_reach_count_widens(ts, lo, hi - 1, w1, w2);
    }
}

/// Monotonicity: widening the span never lowers the number of events in the
/// densest window found.
pub proof fn lemma_densest_window_widens(
    ts: Seq<u64>,
    w1: int,
    w2: int,
    r1: (u64, u64),
    r2: (u64, u64),
)
    requires
        is_sorted(ts),
        0 <= w1 <= w2,
        ts.len() > 1,
        is_densest_window(ts, w1, r1),
        is_densest_window(ts, w2, r2),
    ensures
        events_in(ts, r1) <= events_in(ts, r2),
{
    let b1 = choose|b: int|
        #[trigger] is_densest_start(ts, w1, b) && r1 == (ts[b], ts[b + density(ts, b, w1) - 1]);
    let b2 = choose|b: int|
        #[trigger] is_densest_start(ts, w2, b) && r2 == (ts[b], ts[b + density(ts, b, w2) - 1]);
    lemma_densest_window_count(ts, w1, b1);
    lemma_densest_window_count(ts, w2, b2);
    lemma_reach_count_widens(ts, b1, ts.len() as int, w1, w2);
    assert(density(ts, b1, w2) <= density(ts, b2, w2));
}

/// Determinism of the global scanner: its contract admits one result only,
/// so two calls on the same inputs agree.
pub proof fn lemma_densest_window_deterministic(
    ts: Seq<u64>,
    w: int,
    r1: (u64, u64),
    r2: (u64, u64),
)
    requires
        is_densest_window(ts, w, r1),
        is_densest_window(ts, w, r2),
    ensures
        r1 == r2,
{
    if ts.len() > 1 {
        let b1 = choose|b: int|
            #[trigger] is_densest_start(ts, w, b) && r1 == (ts[b], ts[b + density(ts, b, w) - 1]);
        let b2 = choose|b: int|
            #[trigger] is_densest_start(ts, w, b) && r2 == (ts[b], ts[b + density(ts, b, w) - 1]);
        if b1 < b2 {
            assert(density(ts, b1, w) < density(ts, b2, w));
        } else if b2 < b1 {
            assert(density(ts, b2, w) < density(ts, b1, w));
        }
    }
}

/// At most one candidate is the first extreme one.
proof fn lemma_extreme_start_unique(
    m: Seq<Message>,
    w: int,
    p: Seq<char>,
    find_max: bool,
    b1: int,
    b2: int,
)
    requires
        is_extreme_start(m, w, p, find_max, b1),
        is_extreme_start(m, w, p, find_max, b2),
    ensures
        b1 == b2,
{
    if b1 < b2 {
        assert(is_candidate(m, w, b2));
        assert(improves(find_max, window_matched(m, b2, w, p), window_matched(m, b1, w, p)));
    } else if b2 < b1 {
        assert(is_candidate(m, w, b1));
        assert(improves(find_max, window_matched(m, b1, w, p), window_matched(m, b2, w, p)));
    }
}

/// The participant scanner's indices are fixed by its inputs.
proof fn lemma_extreme_indices_unique(
    m: Seq<Message>,
    w: int,
    p: Seq<char>,
    find_max: bool,
    ix1: (usize, usize),
    ix2: (usize, usize),
)
    requires
        is_extreme_indices(m, w, p, find_max, ix1),
        is_extreme_indices(m, w, p, find_max, ix2),
    ensures
        ix1 == ix2,
{
    if exists|b: int| #[trigger] is_extreme_start(m, w, p, find_max, b) {
        let b1 = choose|b: int|
            #[trigger] is_extreme_start(m, w, p, find_max, b) && ix1.0 == b && ix1.1 == window_last(
                m,
                b,
                w,
            );
        let b2 = choose|b: int|
            #[trigger] is_extreme_start(m, w, p, find_max, b) && ix2.0 == b && ix2.1 == window_last(
                m,
                b,
                w,
            );
        lemma_extreme_start_unique(m, w, p, find_max, b1, b2);
    }
}

/// Determinism of the participant scanner: its contract admits one result
/// only, so two calls on the same inputs agree.
pub proof fn lemma_participant_window_deterministic(
    m: Seq<Message>,
    w: int,
    p: Seq<char>,
    find_max: bool,
    r1: (u64, u64),
    r2: (u64, u64),
)
    requires
        is_participant_window(m, w, p, find_max, r1),
        is_participant_window(m, w, p, find_max, r2),
    ensures
        r1 == r2,
{
    if m.len() > 1 {
        let ix1 = choose|ix: (usize, usize)|
            #[trigger] is_extreme_indices(m, w, p, find_max, ix) && ix.0 < m.len() && ix.1
                < m.len() && r1 == (m[ix.0 as int].timestamp_ms, m[ix.1 as int].timestamp_ms);
        let ix2 = choose|ix: (usize, usize)|
            #[trigger] is_extreme_indices(m, w, p, find_max, ix) && ix.0 < m.len() && ix.1
                < m.len() && r2 == (m[ix.0 as int].timestamp_ms, m[ix.1 as int].timestamp_ms);
        lemma_extreme_indices_unique(m, w, p, find_max, ix1, ix2);
    }
}

/// The minimum stops at the first window without a message of the
/// participant: the first candidate whose matched count is zero is the one
/// reported, and no count can undercut it.
pub proof fn lemma_minimum_stops_at_first_zero(
    m: Seq<Message>,
    w: int,
    p: Seq<char>,
    r: (u64, u64),
    z: int,
)
    requires
        messages_sorted(m),
        m.len() > 1,
        is_participant_window(m, w, p, false, r),
        is_candidate(m, w, z),
        window_matched(m, z, w, p) == 0,
        forall|k: int| 0 <= k < z ==> #[trigger] window_matched(m, k, w, p) > 0,
    ensures
        0 <= window_last(m, z, w) < m.len(),
        r == (m[z].timestamp_ms, m[window_last(m, z, w)].timestamp_ms),
        forall|k: int|
            #[trigger] is_candidate(m, w, k) ==> window_matched(m, z, w, p) <= window_matched(
                m,
                k,
                w,
                p,
            ),
{
    assert(is_extreme_start(m, w, p, false, z));
    let ix = choose|ix: (usize, usize)|
        #[trigger] is_extreme_indices(m, w, p, false, ix) && ix.0 < m.len() && ix.1 < m.len()
            && r == (m[ix.0 as int].timestamp_ms, m[ix.1 as int].timestamp_ms);
    let b = choose|b: int|
        #[trigger] is_extreme_start(m, w, p, false, b) && ix.0 == b && ix.1 == window_last(m, b, w);
    lemma_extreme_start_unique(m, w, p, false, b, z);
}

} // verus!
