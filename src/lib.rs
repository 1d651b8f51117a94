//! Sleep metrics: clock strings, sleep windows, per-night efficiency and
//! averages over a run of nights, all in exact integer arithmetic.
pub mod averages;
pub mod clock;
pub mod command;
pub mod efficiency;
pub mod record;

pub use averages::{
    calculate_average_efficiency, calculate_average_quality, calculate_average_sleep_hours,
    calculate_average_total_sleep_with_nap, Fraction, MAX_RECORDS,
};
pub use clock::{calc_window, parse_int, to_minutes};
pub use command::{is_exit_command, is_exit_word};
pub use efficiency::{calc_efficiency, round_to_2_sig_figs, Decimal};
pub use record::SleepRecord;
