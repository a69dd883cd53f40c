use density_finder::{
    find_highest_density_period, find_participant_density_period,
    find_participant_max_count_period, find_participant_min_count_period, messages_in_order,
    participant_window_counts, scan_participant_windows, timestamps_sorted, window_span_ms,
    Message, MS_PER_DAY,
};

fn messages(events: &[(u64, &str)]) -> Vec<Message> {
    events
        .iter()
        .map(|(t, s)| Message { timestamp_ms: *t, sender_name: s.to_string() })
        .collect()
}

fn sample() -> Vec<Message> {
    messages(&[(0, "A"), (100, "B"), (200, "A"), (300, "A")])
}

fn events_in(ts: &[u64], r: (u64, u64)) -> usize {
    ts.iter().filter(|t| r.0 <= **t && **t <= r.1).count()
}

#[test]
fn span_of_whole_days() {
    assert_eq!(window_span_ms(0), 0);
    assert_eq!(window_span_ms(1), MS_PER_DAY);
    assert_eq!(window_span_ms(1), 86_400_000);
    assert_eq!(window_span_ms(255), 22_032_000_000);
}

#[test]
fn empty_input_gives_sentinel() {
    assert_eq!(find_highest_density_period(&vec![], 1), (0, 0));
    let m = messages(&[]);
    assert_eq!(find_participant_max_count_period(&m, 1, "A".to_string()), (0, 0));
    assert_eq!(find_participant_min_count_period(&m, 1, "A".to_string()), (0, 0));
}

#[test]
fn single_event_gives_sentinel() {
    assert_eq!(find_highest_density_period(&vec![500], 1), (0, 0));
    let m = messages(&[(500, "A")]);
    assert_eq!(find_participant_max_count_period(&m, 1, "A".to_string()), (0, 0));
    assert_eq!(find_participant_min_count_period(&m, 1, "A".to_string()), (0, 0));
    assert_eq!(find_participant_density_period(&m, 1, "A".to_string(), true), (0, 0));
    assert_eq!(find_participant_density_period(&m, 1, "A".to_string(), false), (0, 0));
}

#[test]
fn densest_window_closed_at_span() {
    // The window is closed: an event exactly one span after the start counts.
    let ts = vec![0, 1000, 2000, 86_400_000];
    assert_eq!(find_highest_density_period(&ts, 1), (0, 86_400_000));
}

#[test]
fn densest_window_three_early_events() {
    let ts = vec![0, 1000, 2000, 86_400_001];
    let r = find_highest_density_period(&ts, 1);
    assert_eq!(r, (0, 2000));
    assert_eq!(events_in(&ts, r), 3);
}

#[test]
fn densest_window_zero_span_takes_first_event() {
    assert_eq!(find_highest_density_period(&vec![1, 2, 3], 0), (1, 1));
    assert_eq!(find_highest_density_period(&vec![5, 5, 7], 0), (5, 5));
}

#[test]
fn densest_window_covers_everything_when_span_is_wide() {
    assert_eq!(find_highest_density_period(&vec![10, 20, 30], 1), (10, 30));
}

#[test]
fn densest_window_first_of_equal_counts() {
    let ts = vec![0, 1, 100_000_000, 100_000_001];
    assert_eq!(find_highest_density_period(&ts, 1), (0, 1));
}

#[test]
fn densest_window_later_cluster() {
    let d = MS_PER_DAY;
    let ts = vec![0, 3 * d, 3 * d + 1, 3 * d + 2, 10 * d];
    assert_eq!(find_highest_density_period(&ts, 1), (3 * d, 3 * d + 2));
}

#[test]
fn densest_window_extreme_timestamps() {
    let ts = vec![u64::MAX - 1, u64::MAX];
    assert_eq!(find_highest_density_period(&ts, 255), (u64::MAX - 1, u64::MAX));
}

#[test]
fn densest_window_is_maximal() {
    let d = MS_PER_DAY;
    let ts = vec![0, 5, d - 1, d + 7, 2 * d, 2 * d + 3, 2 * d + 4, 4 * d, 9 * d];
    for period in 0u8..4 {
        let w = period as u64 * d;
        let r = find_highest_density_period(&ts, period);
        let best = events_in(&ts, r);
        for k in 0..ts.len() {
            let c = ts[k..].iter().filter(|t| **t - ts[k] <= w).count();
            assert!(c <= best);
        }
    }
}

#[test]
fn densest_window_grows_with_period() {
    let d = MS_PER_DAY;
    let ts = vec![0, 5, d - 1, d + 7, 2 * d, 2 * d + 3, 2 * d + 4, 4 * d, 9 * d];
    let mut previous = 0;
    for period in 0u8..12 {
        let count = events_in(&ts, find_highest_density_period(&ts, period));
        assert!(count >= previous);
        previous = count;
    }
    assert_eq!(previous, ts.len());
}

#[test]
fn scanners_are_repeatable() {
    let ts = vec![0, 10, 20, 86_400_000, 86_400_010];
    assert_eq!(find_highest_density_period(&ts, 1), find_highest_density_period(&ts, 1));
    let m = sample();
    for find_max in [true, false] {
        let a = find_participant_density_period(&m, 1, "A".to_string(), find_max);
        let b = find_participant_density_period(&m, 1, "A".to_string(), find_max);
        assert_eq!(a, b);
    }
}

#[test]
fn participant_maximum_over_whole_range() {
    let m = sample();
    assert_eq!(find_participant_max_count_period(&m, 1, "A".to_string()), (0, 300));
    assert_eq!(find_participant_density_period(&m, 1, "A".to_string(), true), (0, 300));
    assert_eq!(scan_participant_windows(&m, MS_PER_DAY, &"A".to_string(), true), (0, 3));
}

#[test]
fn participant_minimum_stops_at_first_zero() {
    let m = sample();
    assert_eq!(find_participant_min_count_period(&m, 1, "B".to_string()), (200, 300));
    assert_eq!(find_participant_density_period(&m, 1, "B".to_string(), false), (200, 300));
    assert_eq!(scan_participant_windows(&m, MS_PER_DAY, &"B".to_string(), false), (2, 3));
}

#[test]
fn participant_minimum_first_zero_wins() {
    let m = messages(&[(0, "B"), (100_000_000, "A"), (200_000_000, "A"), (300_000_000, "A")]);
    assert_eq!(
        find_participant_min_count_period(&m, 1, "B".to_string()),
        (100_000_000, 100_000_000)
    );
}

#[test]
fn participant_window_counts_exact() {
    let m = sample();
    assert_eq!(participant_window_counts(&m, 0, 1000, &"A".to_string()), (3, 4));
    assert_eq!(participant_window_counts(&m, 1, 150, &"A".to_string()), (1, 2));
    assert_eq!(participant_window_counts(&m, 1, 150, &"B".to_string()), (1, 2));
    // The window is half-open: an event exactly one span later is left out.
    assert_eq!(participant_window_counts(&m, 0, 100, &"B".to_string()), (0, 1));
    assert_eq!(participant_window_counts(&m, 3, 0, &"A".to_string()), (0, 0));
}

#[test]
fn participant_late_starts_are_pruned() {
    let m = messages(&[(0, "A"), (50_000_000, "A"), (100_000_000, "B")]);
    assert_eq!(find_participant_max_count_period(&m, 1, "A".to_string()), (0, 50_000_000));
    assert_eq!(find_participant_min_count_period(&m, 1, "B".to_string()), (0, 50_000_000));
    assert_eq!(find_participant_min_count_period(&m, 1, "A".to_string()), (0, 50_000_000));
    // The "B" message is in no candidate's window.
    assert_eq!(find_participant_max_count_period(&m, 1, "B".to_string()), (0, 0));
}

#[test]
fn participant_without_candidates_reports_first_event() {
    let m = messages(&[(50_000_000, "A"), (100_000_000, "A")]);
    assert_eq!(
        find_participant_max_count_period(&m, 1, "A".to_string()),
        (50_000_000, 50_000_000)
    );
    assert_eq!(
        find_participant_min_count_period(&m, 1, "A".to_string()),
        (50_000_000, 50_000_000)
    );
    assert_eq!(scan_participant_windows(&m, MS_PER_DAY, &"A".to_string(), false), (0, 0));
}

#[test]
fn participant_unknown_label() {
    let m = messages(&[(10, "A"), (20, "B")]);
    assert_eq!(find_participant_max_count_period(&m, 1, "C".to_string()), (10, 10));
    assert_eq!(find_participant_min_count_period(&m, 1, "C".to_string()), (10, 20));
}

#[test]
fn participant_maximum_first_of_equal_counts() {
    let m = messages(&[(0, "A"), (100_000_000, "A"), (200_000_000, "A")]);
    assert_eq!(find_participant_max_count_period(&m, 1, "A".to_string()), (0, 0));
}

#[test]
fn participant_zero_span() {
    let m = messages(&[(10, "A"), (20, "A"), (30, "B")]);
    assert_eq!(find_participant_max_count_period(&m, 0, "A".to_string()), (10, 10));
    assert_eq!(find_participant_min_count_period(&m, 0, "A".to_string()), (10, 10));
}

#[test]
fn participant_extreme_timestamps() {
    let m = messages(&[(u64::MAX - 1, "A"), (u64::MAX, "A")]);
    assert_eq!(
        find_participant_max_count_period(&m, 255, "A".to_string()),
        (u64::MAX - 1, u64::MAX - 1)
    );
    let m = messages(&[(0, "A"), (u64::MAX, "A")]);
    assert_eq!(find_participant_max_count_period(&m, 255, "A".to_string()), (0, 0));
}

#[test]
fn order_checks() {
    assert!(timestamps_sorted(&vec![]));
    assert!(timestamps_sorted(&vec![1, 1, 2]));
    assert!(!timestamps_sorted(&vec![2, 1]));
    assert!(!timestamps_sorted(&vec![1, 3, 2, 4]));
    assert!(messages_in_order(&sample()));
    assert!(!messages_in_order(&messages(&[(5, "A"), (4, "B")])));
}
