use sched_core::clock::Instant;

#[test]
fn offset_without_wrap() {
    let start = Instant::new(1_000);
    let target = start.plus_ticks(500);
    assert_eq!(target.ticks, 1_500);
    assert!(!target.reached_by(Instant::new(1_499)));
    assert!(target.reached_by(Instant::new(1_500)));
    assert!(target.reached_by(Instant::new(2_000)));
}

#[test]
fn offset_wraps_past_counter_maximum() {
    // Near the top of the counter range: adding the offset wraps.
    let start = Instant::new(u32::MAX - 10);
    let target = start.plus_ticks(20);
    assert_eq!(target.ticks, 9);

    // Not yet due while still inside the offset window...
    assert!(!target.reached_by(Instant::new(u32::MAX - 5)));
    assert!(!target.reached_by(Instant::new(u32::MAX)));
    assert!(!target.reached_by(Instant::new(8)));
    // ...due from the wrapped target on.
    assert!(target.reached_by(Instant::new(9)));
    assert!(target.reached_by(Instant::new(500)));
}

#[test]
fn naive_comparison_gets_the_wrapped_case_wrong() {
    let start = Instant::new(u32::MAX - 10);
    let target = start.plus_ticks(20); // wraps to 9
    let now = Instant::new(u32::MAX - 5); // 15 ticks before the target

    // A plain unsigned comparison says the target (9) was passed long
    // ago — the wrong sign. The wrap-aware comparison knows better.
    assert!(now.ticks >= target.ticks);
    assert!(!target.reached_by(now));
}

#[test]
fn ticks_since_measures_across_the_wrap() {
    let earlier = Instant::new(u32::MAX - 3);
    let later = Instant::new(4);
    assert_eq!(later.ticks_since(earlier), 8);
    assert_eq!(earlier.ticks_since(earlier), 0);
}
