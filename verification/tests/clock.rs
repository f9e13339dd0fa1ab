use herdr_updater::clock::{
    describe_at, describe_unix, format_unix, humanize, now, relative_to, relative_to_now,
};

#[test]
fn formats_known_epoch_instants() {
    assert_eq!(format_unix(0), "1970-01-01T00:00:00Z");
    assert_eq!(format_unix(1_000_000_000), "2001-09-09T01:46:40Z");
    // A leap day, which is where a hand-rolled calendar goes wrong first.
    assert_eq!(format_unix(1_709_164_800), "2024-02-29T00:00:00Z");
    assert_eq!(format_unix(1_756_710_000), "2025-09-01T07:00:00Z");
}

#[test]
fn every_day_boundary_round_trips_for_a_century() {
    let mut previous = format_unix(0);
    for day in 1..36_525u64 {
        let current = format_unix(day * 86_400);
        assert!(current > previous, "{previous} -> {current}");
        previous = current;
    }
}

#[test]
fn durations_read_at_a_glance() {
    assert_eq!(humanize(45), "45s");
    assert_eq!(humanize(90), "1m");
    assert_eq!(humanize(3_600 + 120), "1h02m");
    assert_eq!(humanize(86_400 * 3 + 3_600 * 5), "3d5h");
}

#[test]
fn relative_time_names_its_direction() {
    assert!(relative_to_now(now() - 600).ends_with("ago"));
    assert!(relative_to_now(now() + 600).starts_with("in "));
}

#[test]
fn the_clock_is_past_the_year_2020() {
    assert!(now() > 1_577_836_800);
    assert!(describe_unix(now() - 120).contains("ago"));
}

#[test]
fn a_moment_is_described_against_a_given_now() {
    assert_eq!(relative_to(400, 1_000), "10m ago");
    assert_eq!(relative_to(1_600, 1_000), "in 10m");
    assert_eq!(describe_at(0, 600), "1970-01-01T00:00:00Z (10m ago)");
}

#[test]
fn century_rules_of_the_calendar_hold() {
    // 2000 was a leap year, 2100 is none.
    assert_eq!(format_unix(951_782_400), "2000-02-29T00:00:00Z");
    assert_eq!(format_unix(4_107_542_400), "2100-03-01T00:00:00Z");
    assert_eq!(format_unix(4_107_542_399), "2100-02-28T23:59:59Z");
}

#[test]
fn timestamps_sort_as_text_up_to_the_year_9999() {
    let moments = [0, 59, 60, 3_599, 86_399, 86_400, 951_782_400, 1_756_710_000, 253_402_300_799];
    for pair in moments.windows(2) {
        assert!(format_unix(pair[0]) < format_unix(pair[1]));
        assert_eq!(format_unix(pair[1]).len(), 20);
    }
    assert_eq!(format_unix(253_402_300_799), "9999-12-31T23:59:59Z");
    assert_eq!(format_unix(951_782_400), "2000-02-29T00:00:00Z");
}
