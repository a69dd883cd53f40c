use vstd::prelude::*;
use crate::model::{
    improves, in_span, is_candidate, is_extreme_indices, is_extreme_start, is_participant_window,
    lemma_span_stops, lemma_span_total_run, messages_sorted, span_matched, window_last,
    window_matched, window_total, Message, MS_PER_DAY,
};
use crate::density::window_span_ms;

verus! {

/// Whether the messages are in non-decreasing order of timestamp, as the
/// participant scanner needs.
pub fn messages_in_order(messages: &Vec<Message>) -> (r: bool)
    ensures
        r == messages_sorted(messages@),
{
    let ghost m = messages@;
    let n = messages.len();
    let mut i: usize = 1;
    while i < n
        invariant
            m == messages@,
            n == m.len(),
            1 <= i,
            forall|a: int, b: int|
                0 <= a <= b < i && b < n ==> m[a].timestamp_ms <= m[b].timestamp_ms,
        decreases n - i,
    {
        if messages[i - 1].timestamp_ms > messages[i].timestamp_ms {
            return false;
        }
        assert forall|a: int, b: int| 0 <= a <= b < i + 1 && b < n implies m[a].timestamp_ms
            <= m[b].timestamp_ms by {
            if b == i && a < i {
                assert(m[a].timestamp_ms <= m[i - 1].timestamp_ms);
            }
        }
        i += 1;
    }
    true
}

/// Counts the window of `window_ms` milliseconds anchored at message `start`:
/// returns `(matched, total)`, the messages of `participant` in it and all
/// messages in it.
pub fn participant_window_counts(
    messages: &Vec<Message>,
    start: usize,
    window_ms: u64,
    participant: &String,
) -> (r: (usize, usize))
    requires
        messages_sorted(messages@),
        start < messages.len(),
    ensures
        r.0 == window_matched(messages@, start as int, window_ms as int, participant@),
        r.1 == window_total(messages@, start as int, window_ms as int),
        r.0 <= r.1,
        start + r.1 <= messages.len(),
{
    let ghost m = messages@;
    let ghost w = window_ms as int;
    let n = messages.len();
    let start_ms = messages[start].timestamp_ms;
    let mut count: usize = 0;
    let mut tot: usize = 0;
    let mut j: usize = start;
    while j < n && messages[j].timestamp_ms - start_ms < window_ms
        invariant
            m == messages@,
            n == m.len(),
            w == window_ms as int,
            messages_sorted(m),
            start < n,
            start_ms == m[start as int].timestamp_ms,
            start <= j <= n,
            forall|k: int| start <= k < j ==> #[trigger] in_span(m, start as int, k, w),
            tot == j - start,
            count == span_matched(m, start as int, j as int, w, participant@),
            count <= tot,
        decreases n - j,
    {
        assert(in_span(m, start as int, j as int, w));
        tot += 1;
        if messages[j].sender_name == *participant {
            count += 1;
        }
        j += 1;
    }
    proof {
        lemma_span_total_run(m, start as int, j as int, w);
        lemma_span_stops(m, start as int, j as int, n as int, w, participant@);
    }
    (count, tot)
}

/// The scan shared by both directions: returns the index of the first
/// candidate with the extreme matched count (largest when `find_max`,
/// smallest otherwise) and the index of the last message of its window, or
/// `(0, 0)` when no candidate qualifies. The minimum stops at the first
/// window without matches, which nothing can undercut.
pub fn scan_participant_windows(
    messages: &Vec<Message>,
    window_ms: u64,
    participant: &String,
    find_max: bool,
) -> (r: (usize, usize))
    requires
        messages_sorted(messages@),
        messages.len() > 1,
    ensures
        is_extreme_indices(messages@, window_ms as int, participant@, find_max, r),
        r.0 < messages.len(),
        r.1 < messages.len(),
{
    let ghost m = messages@;
    let ghost w = window_ms as int;
    let ghost p = participant@;
    let n = messages.len();
    let last_ms = messages[n - 1].timestamp_ms;
    let mut found = false;
    let mut best_count: usize = 0;
    let mut best_start_index: usize = 0;
    let mut best_end_index: usize = 0;
    let mut scanning = true;
    let mut i: usize = 0;
    while scanning && i < n
        invariant
            m == messages@,
            n == m.len(),
            n > 1,
            w == window_ms as int,
            p == participant@,
            last_ms == m.last().timestamp_ms,
            messages_sorted(m),
            i <= n,
            forall|k: int| 0 <= k < i ==> #[trigger] is_candidate(m, w, k),
            best_start_index < n,
            best_end_index < n,
            found ==> {
                &&& best_start_index < i
                &&& is_candidate(m, w, best_start_index as int)
                &&& best_count == window_matched(m, best_start_index as int, w, p)
                &&& best_end_index == window_last(m, best_start_index as int, w)
                &&& find_max ==> best_count > 0
                &&& forall|k: int|
                    0 <= k < best_start_index ==> improves(
                        find_max,
                        best_count as nat,
                        #[trigger] window_matched(m, k, w, p),
                    )
            },
            !found ==> best_start_index == 0 && best_end_index == 0 && best_count == 0,
            forall|k: int|
                0 <= k < i && #[trigger] is_candidate(m, w, k) ==> if found {
                    !improves(find_max, window_matched(m, k, w, p), best_count as nat)
                } else {
                    find_max && window_matched(m, k, w, p) == 0
                },
            !scanning ==> forall|k: int|
                i <= k < n && #[trigger] is_candidate(m, w, k) ==> found && !improves(
                    find_max,
                    window_matched(m, k, w, p),
                    best_count as nat,
                ),
        decreases n - i + if scanning { 1int } else { 0int },
    {
        let start_ms = messages[i].timestamp_ms;
        if window_ms <= last_ms && start_ms > last_ms - window_ms {
            scanning = false;
            assert forall|k: int| i <= k < n implies !#[trigger] is_candidate(m, w, k) by {
                assert(m[i as int].timestamp_ms <= m[k].timestamp_ms);
            }
        } else {
            assert(is_candidate(m, w, i as int));
            let (matched, total) = participant_window_counts(messages, i, window_ms, participant);
            let ghost old_found = found;
            let ghost old_best = best_count;
            let better = if find_max {
                matched > best_count
            } else {
                !found || matched < best_count
            };
            if better {
                found = true;
                best_count = matched;
                best_start_index = i;
                best_end_index = if total == 0 {
                    i
                } else {
                    i + total - 1
                };
                if !find_max && matched == 0 {
                    scanning = false;
                }
            }
            proof {
                assert forall|k: int|
                    0 <= k < best_start_index implies improves(
                    find_max,
                    best_count as nat,
                    #[trigger] window_matched(m, k, w, p),
                ) by {
                    assert(is_candidate(m, w, k));
                }
                assert forall|k: int|
                    0 <= k < i + 1 && #[trigger] is_candidate(m, w, k) implies if found {
                    !improves(find_max, window_matched(m, k, w, p), best_count as nat)
                } else {
                    find_max && window_matched(m, k, w, p) == 0
                } by {
                    if k == i {
                        assert(window_matched(m, k, w, p) == matched);
                    } else {
                        if old_found {
                            assert(!improves(find_max, window_matched(m, k, w, p), old_best as nat));
                        } else {
                            assert(find_max && window_matched(m, k, w, p) == 0);
                        }
                    }
                }
            }
            i += 1;
        }
    }
    proof {
        if found {
            assert(is_extreme_start(m, w, p, find_max, best_start_index as int));
        } else {
            assert forall|b: int| !#[trigger] is_extreme_start(m, w, p, find_max, b) by {
                if is_extreme_start(m, w, p, find_max, b) {
                    assert(is_candidate(m, w, b));
                }
            }
        }
    }
    (best_start_index, best_end_index)
}

/// Finds the window of `period` days holding the most or the fewest messages
/// of `participant`, as `find_max` selects.
///
/// Windows start at candidate messages only (see `is_candidate`); the first
/// extreme one wins. Returns the timestamps of its first and last messages,
/// the first message's timestamp twice when no candidate qualifies, and
/// `(0, 0)` for at most one message.
pub fn find_participant_density_period(
    messages: &Vec<Message>,
    period: u8,
    participant: String,
    find_max: bool,
) -> (r: (u64, u64))
    requires
        messages_sorted(messages@),
    ensures
        is_participant_window(
            messages@,
            period as int * MS_PER_DAY as int,
            participant@,
            find_max,
            r,
        ),
{
    let n = messages.len();
    if n <= 1 {
        return (0, 0);
    }
    let window_ms = window_span_ms(period);
    let ix = scan_participant_windows(messages, window_ms, &participant, find_max);
    (messages[ix.0].timestamp_ms, messages[ix.1].timestamp_ms)
}

/// Finds the window of `period` days holding the most messages of
/// `participant`.
pub fn find_participant_max_count_period(
    messages: &Vec<Message>,
    period: u8,
    participant: String,
) -> (r: (u64, u64))
    requires
        messages_sorted(messages@),
    ensures
        is_participant_window(messages@, period as int * MS_PER_DAY as int, participant@, true, r),
{
    find_participant_density_period(messages, period, participant, true)
}

/// Finds the window of `period` days holding the fewest messages of
/// `participant`.
pub fn find_participant_min_count_period(
    messages: &Vec<Message>,
    period: u8,
    participant: String,
) -> (r: (u64, u64))
    requires
        messages_sorted(messages@),
    ensures
        is_participant_window(messages@, period as int * MS_PER_DAY as int, participant@, false, r),
{
    find_participant_density_period(messages, period, participant, false)
}

} // verus!
