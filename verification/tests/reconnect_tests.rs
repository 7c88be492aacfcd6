use standx_dry_run_grid::config::{
    default_alpha_source, default_connect_timeout, default_leverage, default_logs_dir,
    default_max_reconnect_delay, default_orderbook_levels, default_reconnect_delay,
    default_sim_latency_ms, default_stale_timeout, default_step_ns, default_update_interval_steps,
    default_window_steps, default_ws_url, WebSocketConfig,
};
use standx_dry_run_grid::reconnect::{ReconnectConfig, ReconnectState};

fn config(initial: u64, max: u64, retries: Option<u32>) -> ReconnectConfig {
    ReconnectConfig {
        initial_delay_secs: initial,
        max_delay_secs: max,
        stale_timeout_secs: 60,
        connect_timeout_secs: 30,
        max_retries: retries,
    }
}

#[test]
fn reconnect_config_default_values() {
    let c = ReconnectConfig::default();
    assert_eq!(c.initial_delay_secs, 5);
    assert_eq!(c.max_delay_secs, 60);
    assert_eq!(c.stale_timeout_secs, 60);
    assert_eq!(c.connect_timeout_secs, 30);
    assert_eq!(c.max_retries, None);
}

#[test]
fn backoff_doubles_until_the_cap() {
    let c = config(5, 60, None);
    let mut s = ReconnectState::new(&c);
    let delays: Vec<u64> = (0..7).map(|_| s.next_delay(&c).unwrap()).collect();
    assert_eq!(delays, vec![5, 10, 20, 40, 60, 60, 60]);
    assert_eq!(s.reconnect_count(), 7);
}

#[test]
fn reset_restarts_from_initial_delay_and_keeps_count() {
    let c = config(5, 60, None);
    let mut s = ReconnectState::new(&c);
    s.next_delay(&c);
    s.next_delay(&c);
    s.reset(&c);
    assert_eq!(s.next_delay(&c), Some(5));
    assert_eq!(s.reconnect_count(), 3);
}

#[test]
fn retry_budget_gives_up_after_max_retries() {
    let c = config(1, 100, Some(3));
    let mut s = ReconnectState::new(&c);
    assert_eq!(s.next_delay(&c), Some(1));
    assert_eq!(s.next_delay(&c), Some(2));
    assert_eq!(s.next_delay(&c), Some(4));
    assert_eq!(s.next_delay(&c), None);
    assert_eq!(s.reconnect_count(), 4);
    s.reset(&c);
    assert_eq!(s.next_delay(&c), Some(1));
}

#[test]
fn zero_retry_budget_never_reconnects() {
    let c = config(5, 60, Some(0));
    let mut s = ReconnectState::new(&c);
    assert_eq!(s.next_delay(&c), None);
}

#[test]
fn initial_delay_above_cap_is_used_once() {
    let c = config(100, 30, None);
    let mut s = ReconnectState::new(&c);
    assert_eq!(s.next_delay(&c), Some(100));
    assert_eq!(s.next_delay(&c), Some(30));
    assert_eq!(s.next_delay(&c), Some(30));
}

#[test]
fn next_delay_fits_reports_room() {
    let c = config(5, 60, None);
    let s = ReconnectState::new(&c);
    assert!(s.next_delay_fits(&c));
    let big = config(u64::MAX, u64::MAX, None);
    let s2 = ReconnectState::new(&big);
    assert!(!s2.next_delay_fits(&big));
    // with the budget spent no doubling happens, so a huge delay is no obstacle
    let spent = config(u64::MAX, u64::MAX, Some(0));
    let mut s3 = ReconnectState::new(&spent);
    assert!(s3.next_delay_fits(&spent));
    assert_eq!(s3.next_delay(&spent), None);
}

#[test]
fn websocket_config_defaults() {
    let w = WebSocketConfig::default();
    assert_eq!(w.url, "wss://perps.standx.com/ws-stream/v1");
    assert_eq!(w.reconnect_delay_secs, 5);
    assert_eq!(w.max_reconnect_delay_secs, 60);
    assert_eq!(w.connect_timeout_secs, 30);
    assert_eq!(w.stale_timeout_secs, 60);
    assert_eq!(default_ws_url(), "wss://perps.standx.com/ws-stream/v1");
    assert_eq!(default_reconnect_delay(), 5);
    assert_eq!(default_max_reconnect_delay(), 60);
    assert_eq!(default_connect_timeout(), 30);
    assert_eq!(default_stale_timeout(), 60);
}

#[test]
fn strategy_and_grid_defaults() {
    assert_eq!(default_step_ns(), 100_000_000);
    assert_eq!(default_window_steps(), 6000);
    assert_eq!(default_alpha_source(), "standx");
    assert_eq!(default_update_interval_steps(), 1);
    assert_eq!(default_leverage(), 1);
    assert_eq!(default_sim_latency_ms(), 50);
    assert_eq!(default_orderbook_levels(), 20);
    assert_eq!(default_logs_dir(), "logs/grid");
}

#[test]
fn to_reconnect_config_copies_settings() {
    let w = WebSocketConfig {
        url: "wss://example".to_string(),
        reconnect_delay_secs: 7,
        max_reconnect_delay_secs: 90,
        connect_timeout_secs: 11,
        stale_timeout_secs: 13,
    };
    let r = w.to_reconnect_config();
    assert_eq!(r.initial_delay_secs, 7);
    assert_eq!(r.max_delay_secs, 90);
    assert_eq!(r.connect_timeout_secs, 11);
    assert_eq!(r.stale_timeout_secs, 13);
    assert_eq!(r.max_retries, None);
}
