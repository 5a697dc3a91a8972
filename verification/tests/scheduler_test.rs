use rep_cxl::algorithms::wait_next_round;
use rep_cxl::algorithms::wait_start_time;
use rep_cxl::algorithms::Algorithm;
use rep_cxl::algorithms::RoundWait;
use rep_cxl::algorithms::StartWait;
use rep_cxl::algorithms::RATIO_SCALE;
use rep_cxl::algorithms::ROUND_SLEEP_RATIO;

#[test]
fn next_round_is_the_one_after_the_current() {
    // 234 ns after the start, with rounds of 100 ns: round 2 is running
    let wait = wait_next_round(1000, 100, 500_000, 1234);
    assert_eq!(wait, RoundWait { round_num: 3, round_start: 1300, sleep_ns: 16 });
}

#[test]
fn at_a_boundary_the_new_round_has_begun() {
    let wait = wait_next_round(1000, 100, 500_000, 1300);
    assert_eq!(wait, RoundWait { round_num: 4, round_start: 1400, sleep_ns: 50 });
    let wait = wait_next_round(1000, 100, 0, 1000);
    assert_eq!(wait, RoundWait { round_num: 1, round_start: 1100, sleep_ns: 0 });
}

#[test]
fn no_sleep_once_the_share_has_passed() {
    let wait = wait_next_round(1000, 100, 500_000, 1250);
    assert_eq!(wait.sleep_ns, 0);
    let wait = wait_next_round(1000, 100, 500_000, 1299);
    assert_eq!(wait.sleep_ns, 0);
    assert_eq!(wait.round_num, 3);
}

#[test]
fn ratio_zero_spins_and_ratio_one_sleeps_the_rest() {
    assert_eq!(ROUND_SLEEP_RATIO, 0);
    let wait = wait_next_round(0, 1_000_000, 0, 10);
    assert_eq!(wait.sleep_ns, 0);
    let wait = wait_next_round(0, 1_000_000, RATIO_SCALE, 10);
    assert_eq!(wait.sleep_ns, 999_990);
    assert_eq!(wait.round_start, 1_000_000);
}

#[test]
fn round_numbers_rise_by_one_per_wait() {
    let start = 5_000;
    let round_time = 1_000;
    let mut now = start;
    let mut previous = 0;
    for _ in 0..50 {
        let wait = wait_next_round(start, round_time, 250_000, now);
        assert_eq!(wait.round_num, previous + 1);
        assert!(now < wait.round_start);
        assert!(now + wait.sleep_ns <= wait.round_start);
        previous = wait.round_num;
        // the worker wakes at the boundary and works for a part of the round
        now = wait.round_start + 337;
    }
    // a step that overruns its round skips numbers, and never goes back
    let wait = wait_next_round(start, round_time, 250_000, now + 3 * round_time);
    assert_eq!(wait.round_num, previous + 4);
}

#[test]
fn start_wait_sleeps_a_share_of_what_is_left() {
    assert_eq!(wait_start_time(2000, 500_000, 1000), StartWait { sleep_ns: 500, spin_until: 2000 });
    assert_eq!(wait_start_time(2000, 0, 1000), StartWait { sleep_ns: 0, spin_until: 2000 });
    // the whole of it is not slept
    assert_eq!(wait_start_time(2000, RATIO_SCALE, 1000).sleep_ns, 0);
    // nothing is left
    assert_eq!(wait_start_time(2000, 500_000, 2000).sleep_ns, 0);
    assert_eq!(wait_start_time(2000, 500_000, 3000).sleep_ns, 0);
    // rounding down
    assert_eq!(wait_start_time(1003, 500_000, 1000).sleep_ns, 1);
}

#[test]
fn algorithms_by_name() {
    assert_eq!(Algorithm::from_name("monster"), Some(Algorithm::Monster));
    assert_eq!(Algorithm::from_name("async_best_effort"), Some(Algorithm::AsyncBestEffort));
    assert_eq!(Algorithm::from_name("sync_best_effort"), Some(Algorithm::SyncBestEffort));
    assert_eq!(Algorithm::from_name("best_effort"), None);
    assert_eq!(Algorithm::from_name(""), None);
    assert_eq!(Algorithm::Monster.name(), "monster");
    assert_eq!(Algorithm::SyncBestEffort.name(), "sync_best_effort");
}
