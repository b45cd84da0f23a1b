use vstd::prelude::*;

use std::time::Duration;

use crate::text::{decimal, push_decimal, push_str, string_of};

verus! {

/// How the runtime talks to its clients.
#[derive(Debug, Clone, Copy, PartialEq, Eq, Structural)]
pub enum TransportKind {
    Websocket,
}

/// The `[runtime]` settings. Durations are in milliseconds.
#[derive(Debug, Clone, PartialEq, Eq)]
pub struct RuntimeConfig {
    pub transport: TransportKind,
    pub host: String,
    pub port: u16,
    pub forward_timeout_ms: u64,
    pub reaper_tick_ms: u64,
    pub session_ttl_ms: u64,
}

/// The duration of the given number of milliseconds.
pub uninterp spec fn millis(ms: u64) -> Duration;

/// `std::time::Duration::from_millis`: the duration of `ms` milliseconds,
/// which depends on `ms` alone.
#[verifier::external_body]
fn duration_from_millis(ms: u64) -> (r: Duration)
    ensures
        r == millis(ms),
{
    Duration::from_millis(ms)
}

pub fn default_transport() -> (r: TransportKind)
    ensures
        r == TransportKind::Websocket,
{
    TransportKind::Websocket
}

pub fn default_host() -> (r: String)
    ensures
        r@ == "127.0.0.1"@,
{
    string_of("127.0.0.1")
}

pub fn default_port() -> (r: u16)
    ensures
        r == 8787,
{
    8787
}

pub fn default_forward_timeout_ms() -> (r: u64)
    ensures
        r == 30_000,
{
    30_000
}

pub fn default_reaper_tick_ms() -> (r: u64)
    ensures
        r == 50,
{
    50
}

pub fn default_session_ttl_ms() -> (r: u64)
    ensures
        r == 300_000,
{
    300_000
}

/// The address clients connect to: `ws://<host>:<port>`.
pub open spec fn transport_url_of(host: Seq<char>, port: u16) -> Seq<char> {
    "ws://"@ + host + ":"@ + decimal(port as nat)
}

impl RuntimeConfig {
    /// The settings with every value that is not given taken from the
    /// defaults.
    pub fn from_parts(
        transport: Option<TransportKind>,
        host: Option<String>,
        port: Option<u16>,
        forward_timeout_ms: Option<u64>,
        reaper_tick_ms: Option<u64>,
        session_ttl_ms: Option<u64>,
    ) -> (r: Self)
        ensures
            r.transport == match transport {
                Some(t) => t,
                None => TransportKind::Websocket,
            },
            r.host@ == match host {
                Some(h) => h@,
                None => "127.0.0.1"@,
            },
            r.port == match port {
                Some(p) => p,
                None => 8787u16,
            },
            r.forward_timeout_ms == match forward_timeout_ms {
                Some(t) => t,
                None => 30_000u64,
            },
            r.reaper_tick_ms == match reaper_tick_ms {
                Some(t) => t,
                None => 50u64,
            },
            r.session_ttl_ms == match session_ttl_ms {
                Some(t) => t,
                None => 300_000u64,
            },
    {
        RuntimeConfig {
            transport: match transport {
                Some(t) => t,
                None => default_transport(),
            },
            host: match host {
                Some(h) => h,
                None => default_host(),
            },
            port: match port {
                Some(p) => p,
                None => default_port(),
            },
            forward_timeout_ms: match forward_timeout_ms {
                Some(t) => t,
                None => default_forward_timeout_ms(),
            },
            reaper_tick_ms: match reaper_tick_ms {
                Some(t) => t,
                None => default_reaper_tick_ms(),
            },
            session_ttl_ms: match session_ttl_ms {
                Some(t) => t,
                None => default_session_ttl_ms(),
            },
        }
    }

    /// `ws://<host>:<port>`.
    pub fn transport_url(&self) -> (r: String)
        ensures
            r@ == transport_url_of(self.host@, self.port),
    {
        let mut r = string_of("ws://");
        push_str(&mut r, self.host.as_str());
        push_str(&mut r, ":");
        push_decimal(&mut r, self.port as u64);
        r
    }

    pub fn forward_timeout(&self) -> (r: Duration)
        ensures
            r == millis(self.forward_timeout_ms),
    {
        duration_from_millis(self.forward_timeout_ms)
    }

    pub fn reaper_tick(&self) -> (r: Duration)
        ensures
            r == millis(self.reaper_tick_ms),
    {
        duration_from_millis(self.reaper_tick_ms)
    }

    pub fn session_ttl(&self) -> (r: Duration)
        ensures
            r == millis(self.session_ttl_ms),
    {
        duration_from_millis(self.session_ttl_ms)
    }

    /// The same settings, with the host replaced when one is given.
    pub fn with_host(self, host: Option<String>) -> (r: Self)
        ensures
            r.host@ == match host {
                Some(h) => h@,
                None => self.host@,
            },
            r.transport == self.transport,
            r.port == self.port,
            r.forward_timeout_ms == self.forward_timeout_ms,
            r.reaper_tick_ms == self.reaper_tick_ms,
            r.session_ttl_ms == self.session_ttl_ms,
    {
        let mut config = self;
        match host {
            Some(h) => config.host = h,
            None => {},
        }
        config
    }

    /// The same settings, with the port replaced when one is given.
    pub fn with_port(self, port: Option<u16>) -> (r: Self)
        ensures
            r.port == match port {
                Some(p) => p,
                None => self.port,
            },
            r.transport == self.transport,
            r.host@ == self.host@,
            r.forward_timeout_ms == self.forward_timeout_ms,
            r.reaper_tick_ms == self.reaper_tick_ms,
            r.session_ttl_ms == self.session_ttl_ms,
    {
        let mut config = self;
        match port {
            Some(p) => config.port = p,
            None => {},
        }
        config
    }
}

impl Default for RuntimeConfig {
    fn default() -> (r: Self)
        ensures
            r.transport == TransportKind::Websocket,
            r.host@ == "127.0.0.1"@,
            r.port == 8787,
            r.forward_timeout_ms == 30_000,
            r.reaper_tick_ms == 50,
            r.session_ttl_ms == 300_000,
    {
        RuntimeConfig::from_parts(None, None, None, None, None, None)
    }
}

} // verus!
