//! WebSocket settings and the shape of the parameter grid.

use vstd::prelude::*;
use vstd::string::StringExecFns;

use crate::reconnect::ReconnectConfig;

verus! {

/// Endpoint of the StandX public order-book stream.
pub fn default_ws_url() -> (res: String)
    ensures
        res@ == "wss://perps.standx.com/ws-stream/v1"@,
{
    String::from_str("wss://perps.standx.com/ws-stream/v1")
}

pub fn default_reconnect_delay() -> (res: u64)
    ensures
        res == 5,
{
    5
}

pub fn default_max_reconnect_delay() -> (res: u64)
    ensures
        res == 60,
{
    60
}

pub fn default_connect_timeout() -> (res: u64)
    ensures
        res == 30,
{
    30
}

pub fn default_stale_timeout() -> (res: u64)
    ensures
        res == 60,
{
    60
}

/// Connection settings of the order-book stream.
#[derive(Debug)]
pub struct WebSocketConfig {
    pub url: String,
    pub reconnect_delay_secs: u64,
    pub max_reconnect_delay_secs: u64,
    pub connect_timeout_secs: u64,
    pub stale_timeout_secs: u64,
}

impl Clone for WebSocketConfig {
    fn clone(&self) -> (res: Self)
        ensures
            res == *self,
    {
        WebSocketConfig {
            url: self.url.clone(),
            reconnect_delay_secs: self.reconnect_delay_secs,
            max_reconnect_delay_secs: self.max_reconnect_delay_secs,
            connect_timeout_secs: self.connect_timeout_secs,
            stale_timeout_secs: self.stale_timeout_secs,
        }
    }
}

impl Default for WebSocketConfig {
    fn default() -> (res: Self)
        ensures
            res.url@ == "wss://perps.standx.com/ws-stream/v1"@,
            res.reconnect_delay_secs == 5,
            res.max_reconnect_delay_secs == 60,
            res.connect_timeout_secs == 30,
            res.stale_timeout_secs == 60,
    {
        WebSocketConfig {
            url: default_ws_url(),
            reconnect_delay_secs: default_reconnect_delay(),
            max_reconnect_delay_secs: default_max_reconnect_delay(),
            connect_timeout_secs: default_connect_timeout(),
            stale_timeout_secs: default_stale_timeout(),
        }
    }
}

impl WebSocketConfig {
    /// The back-off settings of this connection; retries are never capped.
    pub open spec fn to_reconnect_config_spec(&self) -> ReconnectConfig {
        ReconnectConfig {
            initial_delay_secs: self.reconnect_delay_secs,
            max_delay_secs: self.max_reconnect_delay_secs,
            stale_timeout_secs: self.stale_timeout_secs,
            connect_timeout_secs: self.connect_timeout_secs,
            max_retries: None,
        }
    }

    /// The back-off settings of this connection; retries are never capped.
    pub fn to_reconnect_config(&self) -> (res: ReconnectConfig)
        ensures
            res == self.to_reconnect_config_spec(),
            res.initial_delay_secs == self.reconnect_delay_secs,
            res.max_delay_secs == self.max_reconnect_delay_secs,
            res.stale_timeout_secs == self.stale_timeout_secs,
            res.connect_timeout_secs == self.connect_timeout_secs,
            res.max_retries is None,
    {
        ReconnectConfig {
            initial_delay_secs: self.reconnect_delay_secs,
            max_delay_secs: self.max_reconnect_delay_secs,
            stale_timeout_secs: self.stale_timeout_secs,
            connect_timeout_secs: self.connect_timeout_secs,
            max_retries: None,
        }
    }
}


/// Strategy step length: 100 ms.
pub fn default_step_ns() -> (res: u64)
    ensures
        res == 100_000_000,
{
    100_000_000
}

/// Rolling window length in steps (10 minutes of 100 ms steps).
pub fn default_window_steps() -> (res: usize)
    ensures
        res == 6000,
{
    6000
}

pub fn default_alpha_source() -> (res: String)
    ensures
        res@ == "standx"@,
{
    String::from_str("standx")
}

pub fn default_update_interval_steps() -> (res: usize)
    ensures
        res == 1,
{
    1
}

pub fn default_leverage() -> (res: u32)
    ensures
        res == 1,
{
    1
}

pub fn default_sim_latency_ms() -> (res: u64)
    ensures
        res == 50,
{
    50
}

pub fn default_orderbook_levels() -> (res: usize)
    ensures
        res == 20,
{
    20
}

pub fn default_logs_dir() -> (res: String)
    ensures
        res@ == "logs/grid"@,
{
    String::from_str("logs/grid")
}

} // verus!
