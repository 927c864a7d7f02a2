use mosh_client::clock::{elapsed_millis, millis_or_zero, saturated_millis, unix_millis};

#[test]
fn unix_clock_is_past_the_year_two_thousand() {
    assert!(unix_millis() > 946_684_800_000);
}

#[test]
fn elapsed_time_does_not_go_back() {
    let start = std::time::Instant::now();
    let first = elapsed_millis(&start);
    let mut spin: u64 = 0;
    for i in 0..200_000u64 {
        spin = spin.wrapping_add(i * i);
    }
    assert!(spin != 1);
    let second = elapsed_millis(&start);
    assert!(second >= first);
    assert!(second < 10_000);
}

#[test]
fn no_time_passed_is_zero_milliseconds() {
    assert_eq!(millis_or_zero(None), 0);
    assert_eq!(millis_or_zero(Some(0)), 0);
    assert_eq!(millis_or_zero(Some(1_700_000_000_123)), 1_700_000_000_123);
    assert_eq!(millis_or_zero(Some(u128::MAX)), u128::MAX);
}

#[test]
fn milliseconds_are_held_to_64_bits() {
    assert_eq!(saturated_millis(0), 0);
    assert_eq!(saturated_millis(12_345), 12_345);
    assert_eq!(saturated_millis(u64::MAX as u128), u64::MAX);
    assert_eq!(saturated_millis(u64::MAX as u128 + 1), u64::MAX);
    assert_eq!(saturated_millis(u128::MAX), u64::MAX);
}
