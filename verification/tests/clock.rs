use laminaria_run::clock::{saturate_ns, RunClock};

#[test]
fn elapsed_ns_is_monotonically_non_decreasing_across_calls() {
    let clock = RunClock::start();
    let mut previous = clock.elapsed_ns();
    for _ in 0..1000 {
        let current = clock.elapsed_ns();
        assert!(current >= previous, "elapsed_ns went backwards: {previous} -> {current}");
        previous = current;
    }
}

#[test]
fn anchor_unix_ns_is_a_plausible_recent_timestamp() {
    let clock = RunClock::start();
    let year_2024_ns: u128 = 1_704_067_200_000_000_000;
    let year_2100_ns: u128 = 4_102_444_800_000_000_000;
    assert!(clock.anchor_unix_ns() > year_2024_ns);
    assert!(clock.anchor_unix_ns() < year_2100_ns);
}

#[test]
fn nanoseconds_saturate_at_the_u64_limit() {
    assert_eq!(saturate_ns(5), 5);
    assert_eq!(saturate_ns(u64::MAX as u128), u64::MAX);
    assert_eq!(saturate_ns(u64::MAX as u128 + 1), u64::MAX);
}
