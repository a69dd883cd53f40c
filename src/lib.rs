//! Sliding-window density search over a chronologically ordered stream of
//! timestamped events.
//!
//! Two scanners are offered: one finds the window of a fixed span holding the
//! most events overall, the other the window holding the most (or fewest)
//! events of one participant. Both are pure functions of their inputs.

pub mod model;
pub mod density;
pub mod participant;
pub mod laws;

pub use model::{Message, MS_PER_DAY};
pub use density::{find_highest_density_period, timestamps_sorted, window_span_ms};
pub use participant::{
    find_participant_density_period, find_participant_max_count_period,
    find_participant_min_count_period, messages_in_order, participant_window_counts, scan_participant_windows,
};
