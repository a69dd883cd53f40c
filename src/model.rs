use vstd::prelude::*;

verus! {

/// Milliseconds in one day.
pub const MS_PER_DAY: u64 = 86_400_000;

/// One event of the stream: when it happened and who it belongs to.
pub struct Message {
    pub timestamp_ms: u64,
    pub sender_name: String,
}

/// The timestamps are non-decreasing.
pub open spec fn is_sorted(ts: Seq<u64>) -> bool {
    forall|a: int, b: int| 0 <= a <= b < ts.len() ==> ts[a] <= ts[b]
}

/// Number of indices `k` in `[lo, hi)` whose timestamp lies at most `w`
/// milliseconds after the timestamp of event `lo`.
pub open spec fn reach_count(ts: Seq<u64>, lo: int, hi: int, w: int) -> nat
    decreases hi - lo,
{
    if hi <= lo {
        0
    } else {
        reach_count(ts, lo, hi - 1, w) + if ts[hi - 1] - ts[lo] <= w {
            1nat
        } else {
            0nat
        }
    }
}

/// Number of events in the closed window `[ts[lo], ts[lo] + w]`, counted from
/// event `lo` onwards.
pub open spec fn density(ts: Seq<u64>, lo: int, w: int) -> nat {
    reach_count(ts, lo, ts.len() as int, w)
}

/// `b` is the first start index whose window holds the most events.
pub open spec fn is_densest_start(ts: Seq<u64>, w: int, b: int) -> bool {
    &&& 0 <= b < ts.len()
    &&& forall|k: int| 0 <= k < ts.len() ==> #[trigger] density(ts, k, w) <= density(ts, b, w)
    &&& forall|k: int| 0 <= k < b ==> #[trigger] density(ts, k, w) < density(ts, b, w)
}

/// The result owed by the global scanner: `(0, 0)` for at most one event,
/// otherwise the timestamps of the first and last events of the first
/// densest window.
pub open spec fn is_densest_window(ts: Seq<u64>, w: int, r: (u64, u64)) -> bool {
    if ts.len() <= 1 {
        r == (0u64, 0u64)
    } else {
        exists|b: int|
            #[trigger] is_densest_start(ts, w, b) && r == (ts[b], ts[b + density(ts, b, w) - 1])
    }
}

/// Within the first `hi` indices, a run of events inside the window gives a
/// count equal to its length.
pub proof fn lemma_reach_count_run(ts: Seq<u64>, lo: int, hi: int, w: int)
    requires
        0 <= lo <= hi <= ts.len(),
        forall|k: int| lo <= k < hi ==> ts[k] - ts[lo] <= w,
    ensures
        reach_count(ts, lo, hi, w) == hi - lo,
    decreases hi - lo,
{
    if hi > lo {
        lemma_reach_count_run(ts, lo, hi - 1, w);
    }
}

/// Past the first event outside the window, nothing more is counted.
pub proof fn lemma_reach_count_stops(ts: Seq<u64>, lo: int, e: int, hi: int, w: int)
    requires
        is_sorted(ts),
        0 <= lo <= e <= hi <= ts.len(),
        e < ts.len() ==> ts[e] - ts[lo] > w,
    ensures
        reach_count(ts, lo, hi, w) == reach_count(ts, lo, e, w),
    decreases hi - e,
{
    if hi > e {
        lemma_reach_count_stops(ts, lo, e, hi - 1, w);
        assert(ts[e] <= ts[hi - 1]);
    }
}

/// The density of `lo` is the length of the run of events inside its window.
pub proof fn lemma_density_is_run(ts: Seq<u64>, lo: int, e: int, w: int)
    requires
        is_sorted(ts),
        0 <= lo <= e <= ts.len(),
        forall|k: int| lo <= k < e ==> ts[k] - ts[lo] <= w,
        e < ts.len() ==> ts[e] - ts[lo] > w,
    ensures
        density(ts, lo, w) == e - lo,
{
    lemma_reach_count_run(ts, lo, e, w);
    lemma_reach_count_stops(ts, lo, e, ts.len() as int, w);
}

/// The messages are in non-decreasing order of timestamp.
pub open spec fn messages_sorted(m: Seq<Message>) -> bool {
    forall|a: int, b: int| 0 <= a <= b < m.len() ==> m[a].timestamp_ms <= m[b].timestamp_ms
}

/// Message `k` lies in the half-open window `[t, t + w)` where `t` is the
/// timestamp of message `i`.
pub open spec fn in_span(m: Seq<Message>, i: int, k: int, w: int) -> bool {
    m[k].timestamp_ms - m[i].timestamp_ms < w
}

/// Number of messages among indices `[i, hi)` inside the window anchored at `i`.
pub open spec fn span_total(m: Seq<Message>, i: int, hi: int, w: int) -> nat
    decreases hi - i,
{
    if hi <= i {
        0
    } else {
        span_total(m, i, hi - 1, w) + if in_span(m, i, hi - 1, w) {
            1nat
        } else {
            0nat
        }
    }
}

/// Number of messages of participant `p` among indices `[i, hi)` inside the
/// window anchored at `i`.
pub open spec fn span_matched(m: Seq<Message>, i: int, hi: int, w: int, p: Seq<char>) -> nat
    decreases hi - i,
{
    if hi <= i {
        0
    } else {
        span_matched(m, i, hi - 1, w, p) + if in_span(m, i, hi - 1, w) && m[hi
            - 1].sender_name@ == p {
            1nat
        } else {
            0nat
        }
    }
}

/// All messages in the window anchored at `i`, whoever sent them.
pub open spec fn window_total(m: Seq<Message>, i: int, w: int) -> nat {
    span_total(m, i, m.len() as int, w)
}

/// The messages of participant `p` in the window anchored at `i`.
pub open spec fn window_matched(m: Seq<Message>, i: int, w: int, p: Seq<char>) -> nat {
    span_matched(m, i, m.len() as int, w, p)
}

/// Index of the last message in the window anchored at `i`; `i` itself when
/// the window is empty (a span of zero).
pub open spec fn window_last(m: Seq<Message>, i: int, w: int) -> int {
    if window_total(m, i, w) == 0 {
        i
    } else {
        i + window_total(m, i, w) - 1
    }
}

/// Message `i` may start a window: the span fits before the last timestamp,
/// or the span exceeds the last timestamp altogether.
pub open spec fn is_candidate(m: Seq<Message>, w: int, i: int) -> bool {
    &&& 0 <= i < m.len()
    &&& (w > m.last().timestamp_ms || m[i].timestamp_ms + w <= m.last().timestamp_ms)
}

/// Count `a` improves strictly on count `b` in the chosen direction.
pub open spec fn improves(find_max: bool, a: nat, b: nat) -> bool {
    if find_max {
        a > b
    } else {
        a < b
    }
}

/// `b` is the first candidate whose matched count is extreme among all
/// candidates; for the maximum, that count is positive.
pub open spec fn is_extreme_start(m: Seq<Message>, w: int, p: Seq<char>, find_max: bool, b: int) -> bool {
    &&& is_candidate(m, w, b)
    &&& find_max ==> window_matched(m, b, w, p) > 0
    &&& forall|k: int|
        #[trigger] is_candidate(m, w, k) ==> !improves(
            find_max,
            window_matched(m, k, w, p),
            window_matched(m, b, w, p),
        )
    &&& forall|k: int|
        0 <= k < b ==> improves(
            find_max,
            window_matched(m, b, w, p),
            #[trigger] window_matched(m, k, w, p),
        )
}

/// The indices owed by the participant scanner: the first extreme candidate
/// and the last message of its window, or `(0, 0)` when no candidate counts.
pub open spec fn is_extreme_indices(
    m: Seq<Message>,
    w: int,
    p: Seq<char>,
    find_max: bool,
    r: (usize, usize),
) -> bool {
    if exists|b: int| #[trigger] is_extreme_start(m, w, p, find_max, b) {
        exists|b: int|
            #[trigger] is_extreme_start(m, w, p, find_max, b) && r.0 == b && r.1 == window_last(
                m,
                b,
                w,
            )
    } else {
        r == (0usize, 0usize)
    }
}

/// The result owed by the participant scanner: `(0, 0)` for at most one
/// message, otherwise the timestamps at the indices of `is_extreme_indices`.
pub open spec fn is_participant_window(
    m: Seq<Message>,
    w: int,
    p: Seq<char>,
    find_max: bool,
    r: (u64, u64),
) -> bool {
    if m.len() <= 1 {
        r == (0u64, 0u64)
    } else {
        exists|ix: (usize, usize)|
            #[trigger] is_extreme_indices(m, w, p, find_max, ix) && ix.0 < m.len() && ix.1
                < m.len() && r == (m[ix.0 as int].timestamp_ms, m[ix.1 as int].timestamp_ms)
    }
}

/// A run of messages inside the window is counted in full.
pub proof fn lemma_span_total_run(m: Seq<Message>, i: int, hi: int, w: int)
    requires
        0 <= i <= hi <= m.len(),
        forall|k: int| i <= k < hi ==> in_span(m, i, k, w),
    ensures
        span_total(m, i, hi, w) == hi - i,
    decreases hi - i,
{
    if hi > i {
        lemma_span_total_run(m, i, hi - 1, w);
    }
}

/// Past the first message outside the window, neither count grows.
pub proof fn lemma_span_stops(m: Seq<Message>, i: int, e: int, hi: int, w: int, p: Seq<char>)
    requires
        messages_sorted(m),
        0 <= i <= e <= hi <= m.len(),
        e < m.len() ==> !in_span(m, i, e, w),
    ensures
        span_total(m, i, hi, w) == span_total(m, i, e, w),
        span_matched(m, i, hi, w, p) == span_matched(m, i, e, w, p),
    decreases hi - e,
{
    if hi > e {
        lemma_span_stops(m, i, e, hi - 1, w, p);
        assert(m[e].timestamp_ms <= m[hi - 1].timestamp_ms);
    }
}

/// Number of events among the first `j` whose timestamp lies in the closed
/// range `[lo_ms, hi_ms]`.
pub open spec fn count_between(ts: Seq<u64>, lo_ms: int, hi_ms: int, j: int) -> nat
    decreases j,
{
    if j <= 0 {
        0
    } else {
        count_between(ts, lo_ms, hi_ms, j - 1) + if lo_ms <= ts[j - 1] <= hi_ms {
            1nat
        } else {
            0nat
        }
    }
}

/// Number of events of the whole stream inside the returned window `r`.
pub open spec fn events_in(ts: Seq<u64>, r: (u64, u64)) -> nat {
    count_between(ts, r.0 as int, r.1 as int, ts.len() as int)
}

} // verus!
