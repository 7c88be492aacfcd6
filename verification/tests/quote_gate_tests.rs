use standx_dry_run_grid::quote_gate::{QuoteGate, MIN_SAMPLES_FOR_QUOTE};

#[test]
fn history_duration_from_first_and_latest_stamps() {
    let mut g = QuoteGate::new(1_000);
    assert_eq!(g.history_duration_ns(), 0);
    g.observe_timestamp(0);
    g.observe_timestamp(-5);
    assert_eq!(g.history_duration_ns(), 0);
    g.observe_timestamp(500);
    g.observe_timestamp(1_200);
    assert_eq!(g.history_duration_ns(), 700);
    g.observe_timestamp(400);
    assert_eq!(g.history_duration_ns(), 0);
}

#[test]
fn update_interval_cadence() {
    let mut g = QuoteGate::new(0);
    let due: Vec<bool> = (0..7).map(|_| g.next_step(3)).collect();
    assert_eq!(due, vec![false, false, true, false, false, true, false]);
    assert_eq!(g.step_count(), 7);
    let mut every = QuoteGate::new(0);
    assert!(every.next_step(1));
    assert!(every.next_step(1));
    assert!(every.next_step(0));
}

#[test]
fn warm_up_needs_one_hundred_samples() {
    let mut g = QuoteGate::new(0);
    for _ in 0..MIN_SAMPLES_FOR_QUOTE - 1 {
        g.record_sample();
    }
    assert!(!g.try_warm_up());
    assert!(!g.is_warmed_up());
    g.record_sample();
    assert_eq!(g.total_samples(), 100);
    assert!(g.try_warm_up());
    assert!(g.is_warmed_up());
}

#[test]
fn valid_for_trading_needs_history_and_is_announced_once() {
    let mut g = QuoteGate::new(1_000);
    for _ in 0..100 {
        g.record_sample();
    }
    g.try_warm_up();
    g.observe_timestamp(10);
    g.observe_timestamp(500);
    assert!(!g.is_valid_for_trading());
    assert!(!g.announce_valid_for_trading());
    g.observe_timestamp(1_010);
    assert!(g.is_valid_for_trading());
    assert!(g.announce_valid_for_trading());
    assert!(!g.announce_valid_for_trading());
}

#[test]
fn reset_forgets_everything() {
    let mut g = QuoteGate::new(0);
    for _ in 0..150 {
        g.record_sample();
    }
    g.try_warm_up();
    g.observe_timestamp(10);
    g.next_step(1);
    g.reset();
    assert!(!g.is_warmed_up());
    assert!(!g.is_valid_for_trading());
    assert_eq!(g.total_samples(), 0);
    assert_eq!(g.step_count(), 0);
    assert_eq!(g.history_duration_ns(), 0);
}
