use std::sync::atomic::Ordering;
use std::sync::Arc;

use standx_dry_run_grid::client::{WsClient, WsClientBuilder, WsStats};
use standx_dry_run_grid::config::WebSocketConfig;

fn custom_config() -> WebSocketConfig {
    WebSocketConfig {
        url: "wss://example.test/ws".to_string(),
        reconnect_delay_secs: 2,
        max_reconnect_delay_secs: 8,
        connect_timeout_secs: 3,
        stale_timeout_secs: 4,
    }
}

#[test]
fn client_new_keeps_settings_and_starts_stopped() {
    let c = WsClient::new(custom_config(), vec!["ETH-USD".to_string()]);
    assert_eq!(c.url(), "wss://example.test/ws");
    assert_eq!(c.reconnect_config().initial_delay_secs, 2);
    assert_eq!(c.reconnect_config().max_delay_secs, 8);
    assert_eq!(c.reconnect_config().max_retries, None);
    assert_eq!(c.symbols(), &vec!["ETH-USD".to_string()]);
    assert!(!c.is_running());
}

#[test]
fn client_start_and_stop_flip_the_flag() {
    let c = WsClient::new(custom_config(), vec![]);
    c.start();
    assert!(c.is_running());
    c.stop();
    assert!(!c.is_running());
}

#[test]
fn client_stats_are_shared() {
    let c = WsClient::new(custom_config(), vec![]);
    let a = c.stats();
    let b = c.stats();
    assert!(Arc::ptr_eq(&a, &b));
    a.messages_received.fetch_add(3, Ordering::Relaxed);
    assert_eq!(b.messages_received.load(Ordering::Relaxed), 3);
}

#[test]
fn ws_stats_start_at_zero() {
    let s = WsStats::default();
    assert_eq!(s.messages_received.load(Ordering::Relaxed), 0);
    assert_eq!(s.reconnect_count.load(Ordering::Relaxed), 0);
    assert_eq!(s.bytes_received.load(Ordering::Relaxed), 0);
    assert_eq!(s.last_message_ns.load(Ordering::Relaxed), 0);
}

#[test]
fn builder_defaults() {
    let b = WsClientBuilder::new().build();
    assert_eq!(b.url(), "wss://perps.standx.com/ws-stream/v1");
    assert_eq!(b.symbols(), &vec!["BTC-USD".to_string()]);
    assert_eq!(b.reconnect_config().initial_delay_secs, 5);
    assert_eq!(b.reconnect_config().max_delay_secs, 60);
    assert!(!b.is_running());
    let d = WsClientBuilder::default().build();
    assert_eq!(d.url(), "wss://perps.standx.com/ws-stream/v1");
}

#[test]
fn builder_config_and_symbols() {
    let c = WsClientBuilder::new()
        .config(custom_config())
        .symbols(vec!["SOL-USD".to_string(), "ETH-USD".to_string()])
        .build();
    assert_eq!(c.url(), "wss://example.test/ws");
    assert_eq!(c.reconnect_config().stale_timeout_secs, 4);
    assert_eq!(c.reconnect_config().connect_timeout_secs, 3);
    assert_eq!(c.symbols().len(), 2);
    assert_eq!(c.symbols()[0], "SOL-USD");
}
