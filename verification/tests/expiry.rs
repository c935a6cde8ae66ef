use gfp::clock::elapsed_nanos;
use gfp::expiry::still_live;
use std::time::Instant;

#[test]
fn live_until_the_idle_duration_has_passed() {
    assert!(still_live(0, 2, 0));
    assert!(still_live(0, 2, 1));
    assert!(!still_live(0, 2, 2));
    assert!(!still_live(0, 2, 3));
    assert!(still_live(1_000, 500, 1_499));
    assert!(!still_live(1_000, 500, 1_500));
}

#[test]
fn nothing_is_live_with_no_idle_time() {
    assert!(!still_live(5, 0, 5));
    assert!(!still_live(5, 0, 6));
    // only a stamp from the future
    assert!(still_live(5, 0, 4));
}

#[test]
fn a_limit_beyond_the_clock_is_never_reached() {
    assert!(still_live(1, u128::MAX, u128::MAX));
    assert!(still_live(u128::MAX, 1, u128::MAX));
    assert!(still_live(u128::MAX, u128::MAX, u128::MAX));
    assert!(!still_live(0, u128::MAX, u128::MAX));
    assert!(still_live(0, u128::MAX, u128::MAX - 1));
}

#[test]
fn the_clock_does_not_run_backwards() {
    let origin = Instant::now();
    let mut last = elapsed_nanos(&origin);
    for _ in 0..1000 {
        let now = elapsed_nanos(&origin);
        assert!(now >= last);
        last = now;
    }
}
