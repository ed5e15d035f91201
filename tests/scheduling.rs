use vec2check::schedule::{compute_delta, Clock, Scheduler};

#[test]
fn first_pass_runs_every_mapping() {
    let mut s = Scheduler::new(&vec![10_000, 30_000], 0);
    assert_eq!(s.tick(0), vec![0, 1]);
    assert!(!s.initial);
    assert_eq!(s.next_sleep(0), 10_000);
}

#[test]
fn sleep_after_firing_is_the_other_mappings_remaining_interval() {
    let mut s = Scheduler {
        clocks: vec![
            Clock { interval: 10_000, last_run: 15_000 },
            Clock { interval: 30_000, last_run: 0 },
        ],
        initial: false,
    };
    assert_eq!(s.tick(25_000), vec![0]);
    assert_eq!(s.clocks[0].last_run, 25_000);
    assert_eq!(s.clocks[1].last_run, 0);
    assert_eq!(s.next_sleep(25_000), 5_000);
}

#[test]
fn mappings_within_the_margin_are_due() {
    let mut s = Scheduler {
        clocks: vec![
            Clock { interval: 10_000, last_run: 0 },
            Clock { interval: 10_000, last_run: 1_000 },
            Clock { interval: 10_000, last_run: 2_000 },
        ],
        initial: false,
    };
    assert_eq!(s.tick(9_001), vec![0, 1]);
    assert_eq!(s.next_sleep(9_001), 2_999);
}

#[test]
fn delta_saturates() {
    assert_eq!(compute_delta(10_000, 0, 4_000), 6_000);
    assert_eq!(compute_delta(10_000, 0, 40_000), 0);
    assert_eq!(compute_delta(10_000, 5_000, 1_000), 10_000);
}
