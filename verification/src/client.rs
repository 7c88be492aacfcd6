//! Shared state of the WebSocket client: its settings, run flag and counters.
//!
//! The connection loop itself (connect, subscribe, read, reconnect) is asynchronous
//! I/O and runs outside the library; it reads the settings kept here and takes its
//! back-off decisions from `ReconnectState`.

use std::sync::atomic::AtomicBool;
use std::sync::atomic::AtomicU64;
use std::sync::atomic::Ordering;
use std::sync::Arc;

use vstd::prelude::*;
use vstd::string::StringExecFns;

use crate::config::WebSocketConfig;
use crate::reconnect::ReconnectConfig;

verus! {

/// `Arc::clone`: a second handle on the same value.
#[verifier::external_body]
fn share<T>(handle: &Arc<T>) -> (res: Arc<T>)
    ensures
        res == *handle,
{
    Arc::clone(handle)
}

/// Counters of the stream, updated by the connection loop from any thread.
pub struct WsStats {
    pub messages_received: AtomicU64,
    pub reconnect_count: AtomicU64,
    pub bytes_received: AtomicU64,
    pub last_message_ns: AtomicU64,
}

impl Default for WsStats {
    /// All counters start at zero.
    fn default() -> Self {
        WsStats {
            messages_received: AtomicU64::new(0),
            reconnect_count: AtomicU64::new(0),
            bytes_received: AtomicU64::new(0),
            last_message_ns: AtomicU64::new(0),
        }
    }
}

/// A WebSocket client for the StandX order-book stream.
pub struct WsClient {
    url: String,
    reconnect_config: ReconnectConfig,
    symbols: Vec<String>,
    running: Arc<AtomicBool>,
    stats: Arc<WsStats>,
}

impl WsClient {
    pub closed spec fn url_view(&self) -> Seq<char> {
        self.url@
    }

    pub closed spec fn reconnect_config_view(&self) -> ReconnectConfig {
        self.reconnect_config
    }

    pub closed spec fn symbols_view(&self) -> Seq<String> {
        self.symbols@
    }

    pub closed spec fn stats_view(&self) -> Arc<WsStats> {
        self.stats
    }

    /// A stopped client for `symbols` with the connection settings of `config`.
    pub fn new(config: WebSocketConfig, symbols: Vec<String>) -> (res: Self)
        ensures
            res.url_view() == config.url@,
            res.reconnect_config_view() == config.to_reconnect_config_spec(),
            res.symbols_view() == symbols@,
    {
        WsClient {
            url: config.url.clone(),
            reconnect_config: config.to_reconnect_config(),
            symbols,
            running: Arc::new(AtomicBool::new(false)),
            stats: Arc::new(WsStats::default()),
        }
    }

    /// A handle on the client's counters, shared with the connection loop.
    pub fn stats(&self) -> (res: Arc<WsStats>)
        ensures
            res == self.stats_view(),
    {
        share(&self.stats)
    }

    /// Whether the connection loop is meant to keep running; another thread may
    /// change the flag at any time, so nothing is promised of the answer.
    pub fn is_running(&self) -> bool {
        self.running.load(Ordering::Acquire)
    }

    /// Asks the connection loop to stop.
    pub fn stop(&self) {
        self.running.store(false, Ordering::Release);
    }

    /// Marks the connection loop as running.
    pub fn start(&self) {
        self.running.store(true, Ordering::Release);
    }

    pub fn url(&self) -> (res: &str)
        ensures
            res@ == self.url_view(),
    {
        self.url.as_str()
    }

    pub fn reconnect_config(&self) -> (res: &ReconnectConfig)
        ensures
            *res == self.reconnect_config_view(),
    {
        &self.reconnect_config
    }

    pub fn symbols(&self) -> (res: &Vec<String>)
        ensures
            res@ == self.symbols_view(),
    {
        &self.symbols
    }
}

/// Builder of a `WsClient`.
pub struct WsClientBuilder {
    url: String,
    reconnect_config: ReconnectConfig,
    symbols: Vec<String>,
}

impl WsClientBuilder {
    pub closed spec fn url_view(&self) -> Seq<char> {
        self.url@
    }

    pub closed spec fn reconnect_config_view(&self) -> ReconnectConfig {
        self.reconnect_config
    }

    pub closed spec fn symbols_view(&self) -> Seq<String> {
        self.symbols@
    }

    /// The default connection settings and the single symbol `BTC-USD`.
    pub fn new() -> (res: Self)
        ensures
            res.url_view() == "wss://perps.standx.com/ws-stream/v1"@,
            res.reconnect_config_view().initial_delay_secs == 5,
            res.reconnect_config_view().max_delay_secs == 60,
            res.reconnect_config_view().stale_timeout_secs == 60,
            res.reconnect_config_view().connect_timeout_secs == 30,
            res.reconnect_config_view().max_retries is None,
            res.symbols_view().len() == 1,
            res.symbols_view()[0]@ == "BTC-USD"@,
    {
        let default_config = WebSocketConfig::default();
        let mut symbols: Vec<String> = Vec::new();
        symbols.push(String::from_str("BTC-USD"));
        WsClientBuilder {
            url: default_config.url.clone(),
            reconnect_config: default_config.to_reconnect_config(),
            symbols,
        }
    }

    pub fn symbols(self, symbols: Vec<String>) -> (res: Self)
        ensures
            res.symbols_view() == symbols@,
            res.url_view() == self.url_view(),
            res.reconnect_config_view() == self.reconnect_config_view(),
    {
        let mut builder = self;
        builder.symbols = symbols;
        builder
    }

    pub fn config(self, config: WebSocketConfig) -> (res: Self)
        ensures
            res.url_view() == config.url@,
            res.reconnect_config_view() == config.to_reconnect_config_spec(),
            res.symbols_view() == self.symbols_view(),
    {
        let mut builder = self;
        builder.url = config.url.clone();
        builder.reconnect_config = config.to_reconnect_config();
        builder
    }

    pub fn build(self) -> (res: Arc<WsClient>)
        ensures
            res.url_view() == self.url_view(),
            res.reconnect_config_view() == self.reconnect_config_view(),
            res.symbols_view() == self.symbols_view(),
    {
        Arc::new(
            WsClient {
                url: self.url,
                reconnect_config: self.reconnect_config,
                symbols: self.symbols,
                running: Arc::new(AtomicBool::new(false)),
                stats: Arc::new(WsStats::default()),
            },
        )
    }
}

impl Default for WsClientBuilder {
    fn default() -> (res: Self)
        ensures
            res.url_view() == "wss://perps.standx.com/ws-stream/v1"@,
            res.symbols_view().len() == 1,
            res.symbols_view()[0]@ == "BTC-USD"@,
    {
        Self::new()
    }
}

} // verus!
