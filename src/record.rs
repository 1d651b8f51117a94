//! One night's sleep entry.
use vstd::prelude::*;

verus! {

/// One night as entered: the date, the clock times as typed, and the counts.
/// No field is checked here; negative counts flow into the statistics as they
/// are.
#[derive(Clone, Debug)]
pub struct SleepRecord {
    pub id: i64,
    pub entry_date: String,
    pub bedtime: String,
    pub wake_time_target: String,
    pub wake_time_actual: String,
    pub notes: String,
    pub nap_minutes: i32,
    pub sleep_quality_score: i32,
    pub total_sleep_minutes: i32,
    pub awake_minutes: i32,
    pub sleep_latency_minutes: i32,
    pub wake_count: i32,
}

} // verus!
