//! Configuration as the core consumes it: a bind address for the
//! listener. Loading the file itself is a collaborator concern.

use vstd::prelude::*;
use crate::codec::{dec_digits, push_dec_u64};
use vstd::string::StringExecFns;

verus! {

/// The listener's configuration; missing fields fall back to
/// `127.0.0.1` and `3500`.
pub struct WebSocketConfig {
    pub host: Option<String>,
    pub port: Option<u16>,
}

pub open spec fn spec_host(c: WebSocketConfig) -> Seq<char> {
    match c.host {
        Some(h) => h@,
        None => "127.0.0.1"@,
    }
}

pub open spec fn spec_port(c: WebSocketConfig) -> u16 {
    match c.port {
        Some(p) => p,
        None => 3500,
    }
}

impl WebSocketConfig {
    /// The address the listener binds: `host:port`, with the defaults
    /// for missing fields.
    pub fn bind_addr(&self) -> (r: String)
        ensures
            r@ == spec_host(*self) + ":"@ + dec_digits(spec_port(*self) as nat),
    {
        let mut out = String::new();
        match &self.host {
            Some(h) => out.append(h.as_str()),
            None => out.append("127.0.0.1"),
        }
        out.append(":");
        let port: u16 = match self.port {
            Some(p) => p,
            None => 3500,
        };
        push_dec_u64(&mut out, port as u64);
        proof {
            assert(out@ =~= spec_host(*self) + ":"@ + dec_digits(spec_port(*self) as nat));
        }
        out
    }
}

impl Default for WebSocketConfig {
    /// The defaults, spelled out: local host, port 3500.
    fn default() -> (r: WebSocketConfig)
        ensures
            r.host matches Some(h) && h@ == "127.0.0.1"@,
            r.port == Some(3500u16),
    {
        WebSocketConfig { host: Some("127.0.0.1".to_owned()), port: Some(3500) }
    }
}

/// The whole configuration file: a database address and the listener's
/// section, both optional.
pub struct XeonConfig {
    pub mongodb_str: Option<String>,
    pub websocket: Option<WebSocketConfig>,
}

} // verus!
