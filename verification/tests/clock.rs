use std::time::{Duration, SystemTime};
use subtake::clock::{age, age_of_elapsed, clock, elapsed, progress, relative_age, transport_label};

#[test]
fn relative_age_stays_short() {
    let ago = |seconds: u64| relative_age(SystemTime::now() - Duration::from_secs(seconds));
    assert_eq!(ago(5), "just now");
    assert_eq!(ago(2 * 60), "2m ago");
    assert_eq!(ago(3 * 3_600), "3h ago");
    assert_eq!(ago(4 * 86_400), "4d ago");
    assert_eq!(ago(9 * 86_400), "1w ago");
    assert_eq!(ago(90 * 86_400), "3mo ago");
}

#[test]
fn a_time_ahead_of_the_clock_reads_just_now() {
    assert_eq!(age_of_elapsed(None), "just now");
    assert_eq!(age_of_elapsed(Some(150)), "2m ago");
    assert_eq!(relative_age(SystemTime::now() + Duration::from_secs(3_600)), "just now");
}

#[test]
fn age_rounds_down_at_each_unit() {
    assert_eq!(age(0), "just now");
    assert_eq!(age(59), "just now");
    assert_eq!(age(60), "1m ago");
    assert_eq!(age(3_599), "59m ago");
    assert_eq!(age(3_600), "1h ago");
    assert_eq!(age(86_399), "23h ago");
    assert_eq!(age(86_400), "1d ago");
    assert_eq!(age(604_799), "6d ago");
    assert_eq!(age(604_800), "1w ago");
    assert_eq!(age(5_183_999), "8w ago");
    assert_eq!(age(5_184_000), "2mo ago");
    assert_eq!(age(u64::MAX), "7116799411153mo ago");
}

/// A take's length in seconds, rounded to whole ones as the Recent tile
/// rounds it, then written by `clock`.
fn running_time(seconds: f64) -> String {
    clock(seconds.round().max(0.) as u64)
}

#[test]
fn running_time_reads_as_a_clock() {
    assert_eq!(running_time(0.), "0:00");
    assert_eq!(running_time(84.4), "1:24");
    assert_eq!(running_time(59.6), "1:00");
    assert_eq!(running_time(3_723.), "1:02:03");
}

#[test]
fn the_clock_writes_whole_seconds() {
    assert_eq!(clock(0), "0:00");
    assert_eq!(clock(84), "1:24");
    assert_eq!(clock(60), "1:00");
    assert_eq!(clock(3_723), "1:02:03");
    assert_eq!(clock(36_000), "10:00:00");
}

#[test]
fn elapsed_pads_minutes_and_seconds() {
    assert_eq!(elapsed(0), "00:00");
    assert_eq!(elapsed(42), "00:42");
    assert_eq!(elapsed(605), "10:05");
    assert_eq!(elapsed(6_000), "100:00");
}

#[test]
fn export_progress_reads_percent_and_time_left() {
    assert_eq!(progress(2, None), "2%");
    assert_eq!(progress(62, Some(40)), "62% · 40s left");
    assert_eq!(progress(10, Some(125)), "10% · 2m 5s left");
    assert_eq!(progress(99, Some(60)), "99% · 1m 0s left");
}

#[test]
fn the_transport_reads_hundredths_against_the_length() {
    assert_eq!(transport_label(6525, 148), "01:05.25 / 02:28");
    assert_eq!(transport_label(0, 148), "00:00.00 / 02:28");
    assert_eq!(transport_label(14_800, 148), "02:28.00 / 02:28");
    assert_eq!(transport_label(6_000_000, 59), "1000:00.00 / 00:59");
}
