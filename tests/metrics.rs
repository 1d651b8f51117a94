use sleep_tracker::{
    calc_efficiency, calc_window, calculate_average_efficiency, calculate_average_quality,
    calculate_average_sleep_hours, calculate_average_total_sleep_with_nap, is_exit_command,
    is_exit_word, parse_int, round_to_2_sig_figs, to_minutes, Decimal,
    Fraction, SleepRecord,
};

fn night(total: i32, awake: i32, latency: i32, nap: i32, quality: i32) -> SleepRecord {
    SleepRecord {
        id: 0,
        entry_date: String::from("2024-01-01"),
        bedtime: String::from("22:30"),
        wake_time_target: String::from("07:00"),
        wake_time_actual: String::from("07:10"),
        notes: String::new(),
        nap_minutes: nap,
        sleep_quality_score: quality,
        total_sleep_minutes: total,
        awake_minutes: awake,
        sleep_latency_minutes: latency,
        wake_count: 1,
    }
}

fn dec(mantissa: i64, exponent: i32) -> Decimal {
    Decimal { mantissa, exponent }
}

fn frac(numer: i128, denom: i128) -> Fraction {
    Fraction { numer, denom }
}

#[test]
fn clock_strings_parse_to_minutes() {
    assert_eq!(to_minutes("07:30"), 450);
    assert_eq!(to_minutes("00:00"), 0);
    assert_eq!(to_minutes("bad"), 0);
    assert_eq!(to_minutes("1:2:3"), 0);
    assert_eq!(to_minutes("12:00"), 720);
}

#[test]
fn clock_strings_without_range_checks() {
    assert_eq!(to_minutes("99:99"), 6039);
    assert_eq!(to_minutes("-1:30"), -30);
    assert_eq!(to_minutes("a:30"), 0);
    assert_eq!(to_minutes("7:b"), 0);
    assert_eq!(to_minutes(":"), 0);
    assert_eq!(to_minutes(""), 0);
    assert_eq!(to_minutes(" 7:30"), 0);
    assert_eq!(to_minutes("ab:30"), 0);
    assert_eq!(to_minutes("+7:-5"), 415);
    assert_eq!(to_minutes("2147483647:0"), 2147483647i64 * 60);
}

#[test]
fn integers_parse_like_std() {
    assert_eq!(parse_int("+5"), Some(5));
    assert_eq!(parse_int("-7"), Some(-7));
    assert_eq!(parse_int("007"), Some(7));
    assert_eq!(parse_int("-2147483648"), Some(i32::MIN));
    assert_eq!(parse_int("2147483647"), Some(i32::MAX));
    assert_eq!(parse_int("2147483648"), None);
    assert_eq!(parse_int("99999999999999999999"), None);
    assert_eq!(parse_int(""), None);
    assert_eq!(parse_int("-"), None);
    assert_eq!(parse_int("1a"), None);
    assert_eq!(parse_int(" 1"), None);
}

#[test]
fn sleep_window_crosses_midnight() {
    assert_eq!(calc_window("22:30", "07:00"), 510);
    assert_eq!(calc_window("07:00", "22:30"), 930);
}

#[test]
fn sleep_window_of_equal_times_is_a_full_day() {
    assert_eq!(calc_window("23:00", "23:00"), 1440);
}

#[test]
fn efficiency_with_no_time_in_bed_is_zero() {
    assert_eq!(calc_efficiency(0, 0, 0), dec(0, 0));
    assert_eq!(calc_efficiency(10, -5, -5), dec(0, 0));
}

#[test]
fn efficiency_rounds_to_two_significant_figures() {
    // 450 / 480 * 100 = 93.75, which rounds to 94.
    assert_eq!(calc_efficiency(450, 20, 10), dec(94, 0));
    assert_eq!(calc_efficiency(480, 0, 0), dec(10, 1));
    assert_eq!(calc_efficiency(0, 30, 0), dec(0, 0));
}

#[test]
fn rounding_examples() {
    assert_eq!(round_to_2_sig_figs(8734, 100), dec(87, 0));
    assert_eq!(round_to_2_sig_figs(8734, 1000), dec(87, -1));
    assert_eq!(round_to_2_sig_figs(3456, 1000), dec(35, -1));
    assert_eq!(round_to_2_sig_figs(945, 10), dec(95, 0));
    assert_eq!(round_to_2_sig_figs(-945, 10), dec(-95, 0));
    assert_eq!(round_to_2_sig_figs(945, -10), dec(-95, 0));
    assert_eq!(round_to_2_sig_figs(996, 10), dec(100, 0));
    assert_eq!(round_to_2_sig_figs(4, 100), dec(40, -3));
    assert_eq!(round_to_2_sig_figs(12345, 1), dec(12, 3));
    assert_eq!(round_to_2_sig_figs(0, 7), dec(0, 0));
}

#[test]
fn efficiency_of_extreme_counts() {
    assert_eq!(calc_efficiency(-10, 20, 0), dec(-10, 1));
    assert_eq!(calc_efficiency(1, i32::MAX, i32::MAX), dec(23, -9));
    assert_eq!(calc_efficiency(i32::MAX, -i32::MAX + 1, 0), dec(21, 10));
}

#[test]
fn averages_of_no_records_are_zero() {
    let none: Vec<SleepRecord> = Vec::new();
    assert_eq!(calculate_average_efficiency(&none), frac(0, 1));
    assert_eq!(calculate_average_quality(&none), frac(0, 1));
    assert_eq!(calculate_average_sleep_hours(&none), frac(0, 1));
    assert_eq!(calculate_average_total_sleep_with_nap(&none), frac(0, 1));
}

#[test]
fn average_efficiency_of_nights_without_time_in_bed_is_zero() {
    let nights = vec![night(0, 0, 0, 15, 3), night(0, 0, 0, 0, 1), night(0, 0, 0, 5, 2)];
    let avg = calculate_average_efficiency(&nights);
    assert_eq!(avg.numer, 0);
    assert_eq!(avg.denom, 3_000_000_000);
}

#[test]
fn average_efficiency_rounds_each_night_first() {
    let nights = vec![night(450, 20, 10, 0, 3), night(480, 0, 0, 0, 4)];
    // (94 + 100) / 2, in units of 10^-9 percent.
    assert_eq!(calculate_average_efficiency(&nights), frac(194_000_000_000, 2_000_000_000));
    // 8.734 rounds to 8.7 before it is averaged with 94.
    let nights = vec![night(8734, 91266, 0, 0, 3), night(450, 20, 10, 0, 4)];
    assert_eq!(calculate_average_efficiency(&nights), frac(102_700_000_000, 2_000_000_000));
}

#[test]
fn average_quality_is_unrounded() {
    let nights = vec![night(400, 0, 0, 0, 3), night(400, 0, 0, 0, 4), night(400, 0, 0, 0, 4)];
    assert_eq!(calculate_average_quality(&nights), frac(11, 3));
}

#[test]
fn average_sleep_hours_leave_naps_out() {
    let nights = vec![night(420, 10, 5, 30, 3), night(480, 0, 0, 0, 4)];
    assert_eq!(calculate_average_sleep_hours(&nights), frac(900, 120));
    assert_eq!(calculate_average_total_sleep_with_nap(&nights), frac(930, 120));
}

#[test]
fn naps_never_lower_the_average() {
    let nights = vec![night(420, 10, 5, 30, 3), night(300, 0, 0, 0, 4), night(0, 0, 0, 90, 1)];
    let night_only = calculate_average_sleep_hours(&nights);
    let with_naps = calculate_average_total_sleep_with_nap(&nights);
    assert!(night_only.numer * with_naps.denom <= with_naps.numer * night_only.denom);
}

#[test]
fn sums_beyond_i32_do_not_overflow() {
    let nights = vec![night(i32::MAX, 0, 0, i32::MAX, i32::MAX), night(i32::MAX, 0, 0, 1, 1)];
    assert_eq!(calculate_average_quality(&nights), frac(i32::MAX as i128 + 1, 2));
    assert_eq!(calculate_average_sleep_hours(&nights), frac(2 * i32::MAX as i128, 120));
    assert_eq!(
        calculate_average_total_sleep_with_nap(&nights),
        frac(3 * i32::MAX as i128 + 1, 120)
    );
}

#[test]
fn repeated_calls_give_identical_results() {
    let nights = vec![night(451, 17, 12, 20, 4), night(333, 100, 7, 0, 2)];
    assert_eq!(calc_efficiency(451, 17, 12), calc_efficiency(451, 17, 12));
    assert_eq!(calculate_average_efficiency(&nights), calculate_average_efficiency(&nights));
    assert_eq!(calculate_average_quality(&nights), calculate_average_quality(&nights));
    assert_eq!(calculate_average_sleep_hours(&nights), calculate_average_sleep_hours(&nights));
    assert_eq!(
        calculate_average_total_sleep_with_nap(&nights),
        calculate_average_total_sleep_with_nap(&nights)
    );
    assert_eq!(to_minutes("06:45"), to_minutes("06:45"));
    assert_eq!(calc_window("23:15", "06:45"), calc_window("23:15", "06:45"));
}

#[test]
fn exit_commands_ignore_case() {
    assert!(is_exit_command("exit"));
    assert!(is_exit_command("EXIT"));
    assert!(is_exit_command("Quit"));
    assert!(is_exit_command("Q"));
    assert!(is_exit_command("sToP"));
    assert!(!is_exit_command("exit "));
    assert!(!is_exit_command("1"));
    assert!(!is_exit_command(""));
    assert!(is_exit_word("stop"));
    assert!(!is_exit_word("STOP"));
}
