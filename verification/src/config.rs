//! Client configuration.
//!
//! [`ClientBuilder`](crate::client::ClientBuilder) is the way to set any of it.
//! The prose describing what each setting does lives on the corresponding
//! builder method.

use vstd::prelude::*;
use vstd::string::*;

use crate::error::{Error, Fault};
use crate::time::Duration;

verus! {

/// Hostname of the Robinhood mainnet sequencer.
pub const SEQUENCER_HOST: &'static str = "sequencer.mainnet.chain.robinhood.com";

/// TLS port.
pub const SEQUENCER_PORT: u16 = 443;

/// Default `user-agent` header value: package name and version.
pub const DEFAULT_USER_AGENT: &'static str = "pilotlight/0.1.0";

/// Resolved settings for one client.
#[derive(Clone, Debug)]
pub struct Config {
    /// DNS name, TLS SNI, and HTTP/2 `:authority`.
    pub host: String,
    /// TLS port.
    pub port: u16,
    /// Interval between endpoint-set reconciliations; zero resolves once.
    pub dns_refresh_interval: Duration,
    /// Warm connections per endpoint address.
    pub conns_per_ip: usize,
    /// Endpoints per submission; zero means all of them.
    pub fanout: usize,
    /// TCP connect plus TLS handshake budget.
    pub connect_timeout: Duration,
    /// Budget for one submission across the whole fan-out.
    pub request_timeout: Duration,
    /// Interval between `rpc_modules` probes; zero disables them.
    pub probe_interval: Duration,
    /// HTTP/2 PING interval.
    pub h2_ping_interval: Duration,
    /// Deadline for a PING acknowledgement.
    pub h2_ping_timeout: Duration,
    /// Delay before the first reconnect attempt.
    pub reconnect_min_backoff: Duration,
    /// Ceiling for the reconnect backoff.
    pub reconnect_max_backoff: Duration,
    /// `user-agent` header value.
    pub user_agent: String,
}

/// Whether `rustls_pki_types::ServerName` can be made from a text.
pub uninterp spec fn valid_server_name(name: Seq<char>) -> bool;

/// Calls `rustls_pki_types::ServerName::try_from` on an owned copy of `name`:
/// whether it succeeds is fixed by the text, and its error has one message.
/// Which texts it takes, DNS names and IP addresses, is left unsaid.
#[verifier::external_body]
pub(crate) fn check_server_name(name: &str) -> (r: Result<(), String>)
    ensures
        r is Ok <==> valid_server_name(name@),
        r matches Err(e) ==> e@ == "invalid dns name"@,
{
    match rustls_pki_types::ServerName::try_from(name.to_string()) {
        Ok(_) => Ok(()),
        Err(e) => Err(e.to_string()),
    }
}

impl Default for Config {
    fn default() -> (cfg: Config)
        ensures
            cfg.is_default(),
    {
        Config {
            host: SEQUENCER_HOST.to_owned(),
            port: SEQUENCER_PORT,
            dns_refresh_interval: Duration::from_secs(30),
            conns_per_ip: 2,
            fanout: 0,
            connect_timeout: Duration::from_secs(3),
            request_timeout: Duration::from_secs(5),
            probe_interval: Duration::from_secs(15),
            h2_ping_interval: Duration::from_secs(10),
            h2_ping_timeout: Duration::from_secs(5),
            reconnect_min_backoff: Duration::from_millis(100),
            reconnect_max_backoff: Duration::from_secs(5),
            user_agent: DEFAULT_USER_AGENT.to_owned(),
        }
    }
}

impl Config {
    /// Whether these are the settings for the Robinhood mainnet sequencer.
    pub open spec fn is_default(self) -> bool {
        &&& self.host@ == SEQUENCER_HOST@
        &&& self.port == SEQUENCER_PORT
        &&& self.dns_refresh_interval@ == 30_000_000_000
        &&& self.conns_per_ip == 2
        &&& self.fanout == 0
        &&& self.connect_timeout@ == 3_000_000_000
        &&& self.request_timeout@ == 5_000_000_000
        &&& self.probe_interval@ == 15_000_000_000
        &&& self.h2_ping_interval@ == 10_000_000_000
        &&& self.h2_ping_timeout@ == 5_000_000_000
        &&& self.reconnect_min_backoff@ == 100_000_000
        &&& self.reconnect_max_backoff@ == 5_000_000_000
        &&& self.user_agent@ == DEFAULT_USER_AGENT@
    }

    /// The first reason these settings cannot produce a working client, if
    /// there is one.
    pub open spec fn flaw(self) -> Option<Seq<char>> {
        if self.host@.len() == 0 {
            Some("host must not be empty"@)
        } else if self.conns_per_ip == 0 {
            Some("conns_per_ip must be at least 1"@)
        } else if self.request_timeout@ == 0 {
            Some("request_timeout must be non-zero"@)
        } else if self.connect_timeout@ == 0 {
            Some("connect_timeout must be non-zero"@)
        } else if !valid_server_name(self.host@) {
            Some("`"@ + self.host@ + "` is not a valid TLS server name"@)
        } else if self.reconnect_min_backoff@ > self.reconnect_max_backoff@ {
            Some("reconnect_min_backoff must not exceed reconnect_max_backoff"@)
        } else {
            None
        }
    }

    /// Reject configurations that cannot produce a working client.
    pub fn validate(&self) -> (r: Result<(), Error>)
        ensures
            crate::rpc::outcome(r) == match self.flaw() {
                Some(m) => Err(Fault::Config(m)),
                None => Ok(()),
            },
    {
        if self.host.as_str().is_empty() {
            return Err(Error::Config("host must not be empty".to_owned()));
        }
        if self.conns_per_ip == 0 {
            return Err(Error::Config("conns_per_ip must be at least 1".to_owned()));
        }
        if self.request_timeout.is_zero() {
            return Err(Error::Config("request_timeout must be non-zero".to_owned()));
        }
        if self.connect_timeout.is_zero() {
            return Err(Error::Config("connect_timeout must be non-zero".to_owned()));
        }
        // Resolving is not a validator: a name DNS answers for can still be
        // rejected as a TLS server name, and that failure happens inside the
        // supervisor, where it would only surface as a client that never
        // becomes ready while retrying something that cannot succeed.
        if check_server_name(&self.host).is_err() {
            let mut message = "`".to_owned();
            message.append(&self.host);
            message.append("` is not a valid TLS server name");
            return Err(Error::Config(message));
        }
        if self.reconnect_min_backoff.exceeds(self.reconnect_max_backoff) {
            return Err(
                Error::Config(
                    "reconnect_min_backoff must not exceed reconnect_max_backoff".to_owned(),
                ),
            );
        }
        Ok(())
    }
}

/// Settings are valid exactly where the host is there and can be a TLS server name,
/// each address has a connection, both timeouts are there, and the backoff floor is no
/// higher than its ceiling.
pub proof fn what_makes_settings_valid(cfg: Config)
    ensures
        cfg.flaw() is None <==> {
            &&& cfg.host@.len() > 0
            &&& cfg.conns_per_ip >= 1
            &&& cfg.request_timeout@ > 0
            &&& cfg.connect_timeout@ > 0
            &&& valid_server_name(cfg.host@)
            &&& cfg.reconnect_min_backoff@ <= cfg.reconnect_max_backoff@
        },
{
}

/// Of settings with one flaw, that flaw is named.
pub proof fn a_single_flaw_is_named(cfg: Config)
    ensures
        cfg.host@.len() == 0 ==> cfg.flaw() == Some("host must not be empty"@),
        cfg.host@.len() > 0 && cfg.conns_per_ip == 0 ==> cfg.flaw() == Some(
            "conns_per_ip must be at least 1"@,
        ),
        cfg.host@.len() > 0 && cfg.conns_per_ip > 0 && cfg.request_timeout@ == 0 ==> cfg.flaw()
            == Some("request_timeout must be non-zero"@),
        cfg.host@.len() > 0 && cfg.conns_per_ip > 0 && cfg.request_timeout@ > 0
            && cfg.connect_timeout@ == 0 ==> cfg.flaw() == Some(
            "connect_timeout must be non-zero"@,
        ),
        cfg.host@.len() > 0 && cfg.conns_per_ip > 0 && cfg.request_timeout@ > 0
            && cfg.connect_timeout@ > 0 && !valid_server_name(cfg.host@) ==> cfg.flaw() == Some(
            "`"@ + cfg.host@ + "` is not a valid TLS server name"@,
        ),
        cfg.host@.len() > 0 && cfg.conns_per_ip > 0 && cfg.request_timeout@ > 0
            && cfg.connect_timeout@ > 0 && valid_server_name(cfg.host@)
            && cfg.reconnect_min_backoff@ > cfg.reconnect_max_backoff@ ==> cfg.flaw() == Some(
            "reconnect_min_backoff must not exceed reconnect_max_backoff"@,
        ),
{
}

/// The defaults keep two connections to each endpoint, send to every endpoint, probe
/// and ping often enough to keep them warm, and retry between a tenth of a second and
/// five.
pub proof fn what_the_defaults_say(cfg: Config)
    requires
        cfg.is_default(),
    ensures
        cfg.host@ == SEQUENCER_HOST@,
        cfg.port == 443,
        cfg.user_agent@ == DEFAULT_USER_AGENT@,
        cfg.conns_per_ip == 2,
        cfg.fanout == 0,
        cfg.connect_timeout@ == 3 * 1_000_000_000,
        cfg.request_timeout@ == 5 * 1_000_000_000,
        cfg.dns_refresh_interval@ == 30 * 1_000_000_000,
        cfg.probe_interval@ == 15 * 1_000_000_000,
        cfg.h2_ping_interval@ == 10 * 1_000_000_000,
        cfg.h2_ping_timeout@ == 5 * 1_000_000_000,
        cfg.reconnect_min_backoff@ == 100 * 1_000_000,
        cfg.reconnect_max_backoff@ == 50 * cfg.reconnect_min_backoff@,
{
}

} // verus!
