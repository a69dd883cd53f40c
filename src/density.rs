use vstd::prelude::*;
use crate::model::{density, is_densest_start, is_densest_window, is_sorted, lemma_density_is_run, MS_PER_DAY};

verus! {

/// The span of a window of `period` whole days, in milliseconds.
pub fn window_span_ms(period: u8) -> (r: u64)
    ensures
        r == period as int * MS_PER_DAY as int,
{
    (period as u64) * MS_PER_DAY
}

/// Whether the timestamps are in non-decreasing order, as the scanners need.
pub fn timestamps_sorted(timestamps: &Vec<u64>) -> (r: bool)
    ensures
        r == is_sorted(timestamps@),
{
    let ghost ts = timestamps@;
    let n = timestamps.len();
    let mut i: usize = 1;
    while i < n
        invariant
            ts == timestamps@,
            n == ts.len(),
            1 <= i,
            forall|a: int, b: int| 0 <= a <= b < i && b < n ==> ts[a] <= ts[b],
        decreases n - i,
    {
        if timestamps[i - 1] > timestamps[i] {
            return false;
        }
        assert forall|a: int, b: int| 0 <= a <= b < i + 1 && b < n implies ts[a] <= ts[b] by {
            if b == i && a < i {
                assert(ts[a] <= ts[i - 1]);
            }
        }
        i += 1;
    }
    true
}

/// Finds the window of `period` days holding the most events.
///
/// Returns the timestamps of the first and last events of the first densest
/// window, where the window anchored at event `lo` holds every later event at
/// most the span after it. At most one event gives `(0, 0)`.
pub fn find_highest_density_period(timestamps: &Vec<u64>, period: u8) -> (r: (u64, u64))
    requires
        is_sorted(timestamps@),
    ensures
        is_densest_window(timestamps@, period as int * MS_PER_DAY as int, r),
{
    let n = timestamps.len();
    if n <= 1 {
        return (0, 0);
    }
    let window_ms = window_span_ms(period);
    let ghost ts = timestamps@;
    let ghost w = window_ms as int;

    let mut best_start_index: usize = 0;
    let mut best_end_index: usize = 0;
    let mut max_count: usize = 0;
    let mut start_index: usize = 0;
    let mut end_index: usize = 0;
    while start_index < n
        invariant
            ts == timestamps@,
            n == ts.len(),
            n > 1,
            w == window_ms as int,
            is_sorted(ts),
            start_index <= end_index <= n,
            forall|k: int| start_index <= k < end_index ==> ts[k] - ts[start_index as int] <= w,
            start_index == 0 ==> max_count == 0,
            start_index > 0 ==> {
                &&& best_start_index < start_index
                &&& max_count == density(ts, best_start_index as int, w)
                &&& best_end_index == best_start_index + max_count
                &&& 1 <= max_count
                &&& best_end_index <= n
            },
            forall|k: int| 0 <= k < start_index ==> #[trigger] density(ts, k, w) <= max_count,
            forall|k: int| 0 <= k < best_start_index ==> #[trigger] density(ts, k, w) < max_count,
        decreases n - start_index,
    {
        while end_index < n && timestamps[end_index] - timestamps[start_index] <= window_ms
            invariant
                ts == timestamps@,
                n == ts.len(),
                is_sorted(ts),
                w == window_ms as int,
                start_index < n,
                start_index <= end_index <= n,
                forall|k: int| start_index <= k < end_index ==> ts[k] - ts[start_index as int] <= w,
            decreases n - end_index,
        {
            end_index += 1;
        }
        assert(end_index > start_index) by {
            assert(ts[start_index as int] - ts[start_index as int] <= w);
        }
        proof {
            lemma_density_is_run(ts, start_index as int, end_index as int, w);
        }
        let count = end_index - start_index;
        if count > max_count {
            max_count = count;
            best_start_index = start_index;
            best_end_index = end_index;
        }
        proof {
            assert(ts[start_index as int] - ts[start_index as int] <= w);
            assert forall|k: int| start_index + 1 <= k < end_index implies #[trigger] ts[k] - ts[start_index + 1] <= w by {
                assert(ts[start_index as int] <= ts[start_index + 1]);
            }
        }
        start_index += 1;
    }
    proof {
        assert(is_densest_start(ts, w, best_start_index as int));
    }
    (timestamps[best_start_index], timestamps[best_end_index - 1])
}

} // verus!
