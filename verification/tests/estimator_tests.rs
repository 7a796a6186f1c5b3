use srsglass::estimator::{duration_parts, format_duration};

#[test]
fn halfway_region_in_one_hour_window() {
    // Total population 1000, window 3600 s, 500 nations before:
    // progress one half, predicted 1800 s.
    let d = duration_parts(500, 3600, 1000);
    assert_eq!((d.hours, d.minutes, d.seconds, d.millis), (0, 30, 0, 0));
    assert_eq!(format_duration(500, 3600, 1000, 0), "0:30:00");
}

#[test]
fn fractional_second_rounds_at_requested_precision() {
    // Predicted time 7323 / 2 = 3661.5 seconds.
    assert_eq!(format_duration(7323, 1, 2, 1), "1:01:01.5");
    assert_eq!(format_duration(7323, 1, 2, 0), "1:01:01");
    assert_eq!(format_duration(7323, 1, 2, 3), "1:01:01.500");
}

#[test]
fn duration_parts_round_millis_half_up() {
    // 1/3 s = 0.333... -> 333 ms; 2/3 s = 0.666... -> 667 ms.
    let d = duration_parts(1, 1, 3);
    assert_eq!(d.millis, 333);
    let d = duration_parts(2, 1, 3);
    assert_eq!(d.millis, 667);
}

#[test]
fn millis_clamp_below_one_second_instead_of_carrying() {
    // 9999/10000 s rounds to 1000 ms and is clamped to 999.
    let d = duration_parts(9999, 1, 10000);
    assert_eq!((d.seconds, d.millis), (0, 999));
}

#[test]
fn zero_progress_is_all_zero() {
    let d = duration_parts(0, 5350, 1000);
    assert_eq!((d.hours, d.minutes, d.seconds, d.millis), (0, 0, 0, 0));
    assert_eq!(format_duration(0, 5350, 1000, 2), "0:00:00.00");
}

#[test]
fn degenerate_negative_product_collapses_to_zero() {
    let d = duration_parts(-5, 3600, 1000);
    assert_eq!((d.hours, d.minutes, d.seconds, d.millis), (0, 0, 0, 0));
    assert_eq!(format_duration(-5, 3600, 1000, 1), "0:00:00.0");
}

#[test]
fn hours_are_unbounded_elapsed_time_in_text() {
    // 999999 whole seconds: 277 hours -- more than a day, still rendered.
    assert_eq!(format_duration(999999, 1, 1, 0), "277:46:39");
}

#[test]
fn hours_saturate_only_in_sink_parts() {
    // 400000000 seconds is about 111111 hours; the sink's field stops
    // at its limit while the text keeps counting.
    let d = duration_parts(400000000, 1, 1);
    assert_eq!(d.hours, 65535);
    assert_eq!(format_duration(400000000, 1, 1, 0), "111111:06:40");
}

#[test]
fn predicted_times_never_decrease_in_dump_order() {
    let total = 997;
    let len = 5350;
    let mut prev = (0u16, 0u8, 0u8, 0u16);
    for n in [0, 1, 5, 120, 500, 996] {
        let d = duration_parts(n, len, total);
        let cur = (d.hours, d.minutes, d.seconds, d.millis);
        assert!(cur >= prev, "decreased at n = {}", n);
        prev = cur;
    }
}

#[test]
fn default_window_lengths_scale() {
    // Last nation of 10000 in the default 5350 s major window.
    let d = duration_parts(9999, 5350, 10000);
    assert_eq!((d.hours, d.minutes, d.seconds), (1, 29, 9));
}
