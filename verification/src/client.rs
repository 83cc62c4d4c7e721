//! What the client decides: its settings, what it sends, and what the answers
//! come to.

use bytes::Bytes;
use vstd::prelude::*;
use vstd::string::*;

use crate::addr::IpAddr;
use crate::conditional::ConditionalOptions;
use crate::config::Config;
use crate::conn::ConnAction;
use crate::endpoint::EndpointEvent;
use crate::error::{Error, Fault};
use crate::hex::decode;
use crate::pool::{Pool, Reconciled, Target};
use crate::request::{OutboundRequest, RequestTemplate};
use crate::rpc::{send_raw_body, send_raw_conditional_body};
use crate::text::strip_0x;
use crate::time::Duration;
use crate::types::{EndpointStats, Submission, TxHash};

verus! {

/// How many of `available` endpoints one submission goes to.
pub open spec fn width(configured: nat, available: nat) -> nat {
    if configured == 0 || configured > available {
        available
    } else {
        configured
    }
}

/// How many endpoints one submission is broadcast to.
///
/// A configured `0` means every endpoint that is ready; anything larger is
/// capped at what is actually available.
pub fn fanout_width(configured: usize, available: usize) -> (n: usize)
    ensures
        n == width(configured as nat, available as nat),
        n <= available,
        configured == 0 ==> n == available,
        configured > 0 ==> n <= configured,
        0 < configured <= available ==> n == configured,
        configured > available ==> n == available,
{
    if configured == 0 {
        available
    } else if configured <= available {
        configured
    } else {
        available
    }
}

/// Reject transactions that cannot be valid, before touching the network.
///
/// # Errors
///
/// [`Error::InvalidRawTx`] if `raw` is empty.
pub fn check_raw(raw: &[u8]) -> (r: Result<TxHash, Error>)
    ensures
        match r {
            Ok(hash) => raw@.len() > 0 && hash@ == crate::types::keccak256(raw@),
            Err(e) => raw@.len() == 0 && e@ == Fault::InvalidRawTx("transaction is empty"@),
        },
{
    if raw.len() == 0 {
        return Err(Error::InvalidRawTx("transaction is empty".to_owned()));
    }
    Ok(TxHash::of_raw_tx(raw))
}

/// Builder for [`SequencerClient`].
#[derive(Clone, Debug)]
pub struct ClientBuilder {
    cfg: Config,
}

impl View for ClientBuilder {
    type V = Config;

    /// The settings so far.
    closed spec fn view(&self) -> Config {
        self.cfg
    }
}

/// Why no client can be built with these settings, if that is so. `tls` is why
/// the TLS provider cannot be used, if it cannot.
pub open spec fn build_flaw(cfg: Config, tls: Result<(), String>) -> Option<Seq<char>> {
    if cfg.flaw() is Some {
        cfg.flaw()
    } else if tls is Err {
        Some(
            "the TLS provider supports none of the required protocol versions: "@ + tls->Err_0@,
        )
    } else {
        RequestTemplate::flaw(cfg)
    }
}

impl ClientBuilder {
    /// Hostname of the sequencer to submit to.
    ///
    /// Used for DNS resolution, for TLS SNI, and as the HTTP/2 `:authority`
    /// pseudo-header, so this is what the server certificate is validated
    /// against. Defaults to [`SEQUENCER_HOST`](crate::config::SEQUENCER_HOST).
    #[must_use]
    pub fn host(self, host: &str) -> (b: ClientBuilder)
        ensures
            b@.host@ == host@,
            b@ == (Config { host: b@.host, ..self@ }),
    {
        ClientBuilder { cfg: Config { host: host.to_owned(), ..self.cfg } }
    }

    /// TLS port. Default 443.
    #[must_use]
    pub fn port(self, port: u16) -> (b: ClientBuilder)
        ensures
            b@ == (Config { port, ..self@ }),
    {
        ClientBuilder { cfg: Config { port, ..self.cfg } }
    }

    /// Warm connections held open per endpoint address. Default 2.
    ///
    /// This buys redundancy, not throughput: HTTP/2 already multiplexes any
    /// number of concurrent submissions over a single connection, so a second
    /// connection matters when the first is torn down and a submission would
    /// otherwise have to fall back to another endpoint.
    #[must_use]
    pub fn conns_per_ip(self, n: usize) -> (b: ClientBuilder)
        ensures
            b@ == (Config { conns_per_ip: n, ..self@ }),
    {
        ClientBuilder { cfg: Config { conns_per_ip: n, ..self.cfg } }
    }

    /// How many endpoints each transaction is broadcast to at once, the first
    /// usable answer winning. Default 0.
    ///
    /// `0` means every endpoint the pool has ready. Broadcasting duplicates
    /// cannot include the transaction twice, since the nonce is fixed by the
    /// signature, and the copies that lose the race are answered `nonce too
    /// low`, which is discarded in favour of the copy that succeeded.
    #[must_use]
    pub fn fanout(self, n: usize) -> (b: ClientBuilder)
        ensures
            b@ == (Config { fanout: n, ..self@ }),
    {
        ClientBuilder { cfg: Config { fanout: n, ..self.cfg } }
    }

    /// Budget for one TCP connect plus TLS handshake. Default 3 s.
    ///
    /// Off the hot path, since connections are warmed in the background.
    /// Connecting waits up to twice this value for the first connection to come
    /// up.
    #[must_use]
    pub fn connect_timeout(self, d: Duration) -> (b: ClientBuilder)
        ensures
            b@ == (Config { connect_timeout: d, ..self@ }),
    {
        ClientBuilder { cfg: Config { connect_timeout: d, ..self.cfg } }
    }

    /// Budget for a whole submission. Default 5 s.
    ///
    /// Measured across the entire fan-out rather than per endpoint.
    #[must_use]
    pub fn request_timeout(self, d: Duration) -> (b: ClientBuilder)
        ensures
            b@ == (Config { request_timeout: d, ..self@ }),
    {
        ClientBuilder { cfg: Config { request_timeout: d, ..self.cfg } }
    }

    /// How often each connection issues an `rpc_modules` probe. Default 15 s.
    ///
    /// Two jobs: it keeps intermediate load balancers from reaping the
    /// connection as idle, and it supplies the latency sample used to rank
    /// endpoints so the fastest healthy one is preferred. Zero turns probing
    /// off.
    #[must_use]
    pub fn probe_interval(self, d: Duration) -> (b: ClientBuilder)
        ensures
            b@ == (Config { probe_interval: d, ..self@ }),
    {
        ClientBuilder { cfg: Config { probe_interval: d, ..self.cfg } }
    }

    /// How often the hostname is re-resolved and the endpoint set reconciled.
    /// Default 30 s.
    ///
    /// The A records carry a 60 s TTL and do rotate, so this stays well under
    /// it. Surviving endpoints keep their warm connections, and a failed
    /// lookup leaves the current set alone. Zero resolves once at startup and
    /// never again.
    #[must_use]
    pub fn dns_refresh_interval(self, d: Duration) -> (b: ClientBuilder)
        ensures
            b@ == (Config { dns_refresh_interval: d, ..self@ }),
    {
        ClientBuilder { cfg: Config { dns_refresh_interval: d, ..self.cfg } }
    }

    /// How often an established connection sends an HTTP/2 PING frame.
    /// Default 10 s.
    ///
    /// PINGs continue while the connection is idle, which is its normal state
    /// for a pre-warmed pool.
    #[must_use]
    pub fn h2_ping_interval(self, d: Duration) -> (b: ClientBuilder)
        ensures
            b@ == (Config { h2_ping_interval: d, ..self@ }),
    {
        ClientBuilder { cfg: Config { h2_ping_interval: d, ..self.cfg } }
    }

    /// How long a PING may go unacknowledged before the connection is declared
    /// dead and rebuilt. Default 5 s.
    #[must_use]
    pub fn h2_ping_timeout(self, d: Duration) -> (b: ClientBuilder)
        ensures
            b@ == (Config { h2_ping_timeout: d, ..self@ }),
    {
        ClientBuilder { cfg: Config { h2_ping_timeout: d, ..self.cfg } }
    }

    /// Delay before the first reconnect attempt after a connection drops.
    /// Default 100 ms.
    ///
    /// It doubles after each consecutive failure, up to
    /// [`ClientBuilder::reconnect_max_backoff`].
    #[must_use]
    pub fn reconnect_min_backoff(self, d: Duration) -> (b: ClientBuilder)
        ensures
            b@ == (Config { reconnect_min_backoff: d, ..self@ }),
    {
        ClientBuilder { cfg: Config { reconnect_min_backoff: d, ..self.cfg } }
    }

    /// Ceiling for the reconnect backoff. Default 5 s.
    ///
    /// A sustained outage keeps retrying at this interval instead of drifting
    /// out to minutes. Must not be below
    /// [`ClientBuilder::reconnect_min_backoff`], or the clamp would pin the
    /// delay at the ceiling and it would never grow.
    #[must_use]
    pub fn reconnect_max_backoff(self, d: Duration) -> (b: ClientBuilder)
        ensures
            b@ == (Config { reconnect_max_backoff: d, ..self@ }),
    {
        ClientBuilder { cfg: Config { reconnect_max_backoff: d, ..self.cfg } }
    }

    /// Value sent in the `user-agent` header.
    #[must_use]
    pub fn user_agent(self, ua: &str) -> (b: ClientBuilder)
        ensures
            b@.user_agent@ == ua@,
            b@ == (Config { user_agent: b@.user_agent, ..self@ }),
    {
        ClientBuilder { cfg: Config { user_agent: ua.to_owned(), ..self.cfg } }
    }

    /// Check the settings, before anything is resolved. `tls` is how setting up
    /// the TLS provider went.
    ///
    /// # Errors
    ///
    /// [`Error::Config`] if the settings cannot produce a working client.
    pub fn build(self, tls: Result<(), String>) -> (r: Result<ColdClient, Error>)
        ensures
            match r {
                Ok(cold) => {
                    &&& build_flaw(self@, tls) is None
                    &&& cold.cfg == self@
                    &&& cold.template.is_for(self@)
                },
                Err(e) => {
                    &&& build_flaw(self@, tls) is Some
                    &&& e@ == Fault::Config(build_flaw(self@, tls)->0)
                },
            },
    {
        if let Err(e) = self.cfg.validate() {
            return Err(e);
        }
        if let Err(e) = tls {
            let mut message =
                "the TLS provider supports none of the required protocol versions: ".to_owned();
            message.append(&e);
            return Err(Error::Config(message));
        }
        match RequestTemplate::new(&self.cfg) {
            Ok(template) => Ok(ColdClient { cfg: self.cfg, template }),
            Err(e) => Err(e),
        }
    }

    /// How long connecting waits for the first warm connection:
    /// [`connect_timeout`](ClientBuilder::connect_timeout) doubled, which covers
    /// a TCP connect plus a TLS handshake with room to spare. `None` if that is
    /// longer than a span can be.
    pub fn warm_budget(&self) -> (r: Option<Duration>)
        ensures
            match r {
                Some(d) => d@ == 2 * self@.connect_timeout@,
                None => 2 * self@.connect_timeout@ > crate::time::MAX_NANOS,
            },
    {
        self.cfg.connect_timeout.checked_mul(2)
    }
}

/// A client whose settings are checked, and whose endpoints are not resolved
/// yet.
#[derive(Debug)]
pub struct ColdClient {
    /// Settings the client is built with.
    pub cfg: Config,
    /// Request skeleton.
    pub template: RequestTemplate,
}

impl ColdClient {
    /// Give the client its endpoints. `lookup` is what the resolver answered for
    /// the host.
    ///
    /// # Errors
    ///
    /// [`Error::Dns`] if the lookup failed, or gave no address at all.
    pub fn resolve(self, lookup: Result<Vec<IpAddr>, String>) -> (r: Result<
        SequencerClient,
        Error,
    >)
        ensures
            match crate::pool::resolved(self.cfg.host@, lookup) {
                Err(fault) => r matches Err(e) && e@ == fault,
                Ok(addrs) => {
                    &&& r matches Ok(client)
                    &&& client.cfg == self.cfg
                    &&& client.template == self.template
                    &&& crate::pool::is_cold(client.pool@, addrs, self.cfg)
                },
            },
    {
        match Pool::new(&self.cfg, lookup) {
            Ok(pool) => Ok(SequencerClient { cfg: self.cfg, template: self.template, pool }),
            Err(e) => Err(e),
        }
    }
}

/// A client that holds warm connections to every sequencer endpoint and
/// submits pre-signed transactions across them.
///
/// It decides; whoever drives it owns the sockets, performs what it says, and
/// hands back what came of it.
pub struct SequencerClient {
    /// Settings the client was built with.
    pub cfg: Config,
    /// Request skeleton.
    pub template: RequestTemplate,
    /// Endpoints and their warm connections.
    pub pool: Pool,
}

/// A transaction on its way: what is sent, and where.
#[derive(Debug)]
pub struct Broadcast {
    /// `keccak256` of the raw transaction, computed locally.
    pub tx_hash: TxHash,
    /// The JSON-RPC body each copy carries.
    pub body: Bytes,
    /// Where the copies go, best endpoint first.
    pub targets: Vec<Target>,
    /// How many endpoints the pool knows about.
    pub known: usize,
}

impl Broadcast {
    /// The outcome of a submission that one endpoint carried.
    pub fn won(&self, endpoint: IpAddr, latency: Duration) -> (s: Submission)
        ensures
            s.tx_hash == self.tx_hash,
            s.endpoint == endpoint,
            s.latency == latency,
            s.fanout == self.targets.len(),
    {
        Submission { tx_hash: self.tx_hash, endpoint, latency, fanout: self.targets.len() }
    }
}

/// Whether `r` and `after` are what submitting `body`, whose transaction has the
/// hash `hash`, makes of `before`.
pub open spec fn is_broadcast(
    before: SequencerClient,
    ranked: Seq<usize>,
    body: Seq<u8>,
    hash: Seq<u8>,
    after: SequencerClient,
    r: Result<Broadcast, Error>,
) -> bool {
    &&& after.cfg == before.cfg
    &&& after.template == before.template
    &&& crate::pool::is_dispatch(
        before.pool@,
        ranked,
        before.cfg.fanout as nat,
        after.pool@,
        targets_in(r),
    )
    &&& r matches Ok(b) ==> {
        &&& b.tx_hash@ == hash
        &&& crate::buf::content(b.body) == body
        &&& b.known == before.pool@.len()
    }
}

/// The targets of a broadcast, or the error instead of it.
pub open spec fn targets_in(r: Result<Broadcast, Error>) -> Result<Vec<Target>, Error> {
    match r {
        Ok(b) => Ok(b.targets),
        Err(e) => Err(e),
    }
}

/// What can happen while the first connection is still on its way.
#[derive(Debug)]
pub enum WaitEvent {
    /// This much of the timeout is left before the next wait.
    Left(Duration),
    /// No connection came up in what was left.
    Expired,
}

/// What to do while the first connection is still on its way.
#[derive(Debug)]
pub enum WaitStep {
    /// A connection is live.
    Ready,
    /// Wait for one to come up, no longer than this.
    Wait(Duration),
}

impl SequencerClient {
    /// Start configuring a client.
    #[must_use]
    pub fn builder() -> (b: ClientBuilder)
        ensures
            b@.is_default(),
    {
        ClientBuilder { cfg: Config::default() }
    }

    /// Decide whether to go on waiting for a live connection.
    ///
    /// # Errors
    ///
    /// [`Error::Timeout`] if no endpoint has a live connection within `timeout`.
    /// Connecting goes on regardless.
    pub fn wait_until_ready(&self, timeout: Duration, event: WaitEvent) -> (r: Result<
        WaitStep,
        Error,
    >)
        ensures
            match event {
                WaitEvent::Expired => r matches Err(e) && e@ == Fault::Timeout(timeout),
                WaitEvent::Left(left) => if crate::pool::any_endpoint_ready(self.pool@) {
                    r matches Ok(WaitStep::Ready)
                } else if left@ == 0 {
                    r matches Err(e) && e@ == Fault::Timeout(timeout)
                } else {
                    r matches Ok(WaitStep::Wait(d)) && d == left
                },
            },
    {
        match event {
            WaitEvent::Expired => Err(Error::Timeout(timeout)),
            WaitEvent::Left(left) => {
                if self.pool.is_ready() {
                    return Ok(WaitStep::Ready);
                }
                if left.is_zero() {
                    return Err(Error::Timeout(timeout));
                }
                Ok(WaitStep::Wait(left))
            },
        }
    }

    /// Choose where the copies of one transaction go.
    fn dispatch(&mut self, body: Bytes, tx_hash: TxHash) -> (r: Result<Broadcast, Error>)
        ensures
            exists|ranked: Seq<usize>| #[trigger]
                is_broadcast(
                    *old(self),
                    ranked,
                    crate::buf::content(body),
                    tx_hash@,
                    *final(self),
                    r,
                ),
    {
        let known: usize = self.pool.known();
        let sent = self.pool.dispatch(self.cfg.fanout);
        let ghost ranked = choose|ranked: Seq<usize>| #[trigger]
            crate::pool::is_dispatch(
                old(self).pool@,
                ranked,
                old(self).cfg.fanout as nat,
                self.pool@,
                sent,
            );
        let r = match sent {
            Ok(targets) => Ok(Broadcast { tx_hash, body, targets, known }),
            Err(e) => Err(e),
        };
        assert(is_broadcast(
            *old(self),
            ranked,
            crate::buf::content(body),
            tx_hash@,
            *self,
            r,
        ));
        r
    }

    /// Submit a signed, RLP/EIP-2718 encoded transaction.
    ///
    /// The transaction is broadcast to [`fanout`](ClientBuilder::fanout)
    /// endpoints at once and the first success wins.
    ///
    /// The hash is computed locally, so it is correct regardless of which
    /// endpoint answers, or whether one answers at all.
    ///
    /// # Errors
    ///
    /// [`Error::InvalidRawTx`] if `raw` is empty, [`Error::NotReady`] if no
    /// endpoint can take a copy.
    pub fn send_raw_transaction(&mut self, raw: &[u8]) -> (r: Result<Broadcast, Error>)
        requires
            crate::rpc::send_body(raw@).len() <= isize::MAX,
        ensures
            raw@.len() == 0 ==> {
                &&& *final(self) == *old(self)
                &&& r matches Err(e) && e@ == Fault::InvalidRawTx("transaction is empty"@)
            },
            raw@.len() > 0 ==> exists|ranked: Seq<usize>| #[trigger]
                is_broadcast(
                    *old(self),
                    ranked,
                    crate::rpc::send_body(raw@),
                    crate::types::keccak256(raw@),
                    *final(self),
                    r,
                ),
    {
        let tx_hash = match check_raw(raw) {
            Ok(tx_hash) => tx_hash,
            Err(e) => return Err(e),
        };
        self.dispatch(send_raw_body(raw), tx_hash)
    }

    /// Submit a transaction given as a `0x`-prefixed hex string.
    ///
    /// # Errors
    ///
    /// [`Error::InvalidRawTx`] if `raw_hex` is not valid hex, plus everything
    /// [`Self::send_raw_transaction`] can return.
    pub fn send_raw_transaction_hex(&mut self, raw_hex: &str) -> (r: Result<Broadcast, Error>)
        requires
            hex_fits(raw_hex@),
        ensures
            match tx_of_hex(raw_hex@) {
                Err(bad) => {
                    &&& *final(self) == *old(self)
                    &&& r matches Err(e) && e@ == Fault::InvalidRawTx(
                        "expected hex: "@ + crate::hex::hex_error_text(bad),
                    )
                },
                Ok(raw) => {
                    &&& raw.len() == 0 ==> {
                        &&& *final(self) == *old(self)
                        &&& r matches Err(e) && e@ == Fault::InvalidRawTx("transaction is empty"@)
                    }
                    &&& raw.len() > 0 ==> exists|ranked: Seq<usize>| #[trigger]
                        is_broadcast(
                            *old(self),
                            ranked,
                            crate::rpc::send_body(raw),
                            crate::types::keccak256(raw),
                            *final(self),
                            r,
                        )
                },
            },
    {
        match decode(strip_0x(raw_hex)) {
            Ok(raw) => {
                self.send_raw_transaction(raw.as_slice())
            },
            Err(bad) => {
                let mut message = "expected hex: ".to_owned();
                message.append(&bad.message());
                Err(Error::InvalidRawTx(message))
            },
        }
    }

    /// Submit via `eth_sendRawTransactionConditional`.
    ///
    /// The sequencer checks every constraint before ordering the transaction
    /// and refuses it outright if one does not hold, which is useful when a
    /// stale state read would make the transaction harmful rather than merely
    /// wasteful.
    ///
    /// # Errors
    ///
    /// Everything [`Self::send_raw_transaction`] can return.
    pub fn send_raw_transaction_conditional(
        &mut self,
        raw: &[u8],
        options: &ConditionalOptions,
    ) -> (r: Result<Broadcast, Error>)
        requires
            crate::rpc::conditional_body(raw@, options.json()).len() <= isize::MAX,
        ensures
            raw@.len() == 0 ==> {
                &&& *final(self) == *old(self)
                &&& r matches Err(e) && e@ == Fault::InvalidRawTx("transaction is empty"@)
            },
            raw@.len() > 0 ==> exists|ranked: Seq<usize>| #[trigger]
                is_broadcast(
                    *old(self),
                    ranked,
                    crate::rpc::conditional_body(raw@, options.json()),
                    crate::types::keccak256(raw@),
                    *final(self),
                    r,
                ),
    {
        let tx_hash = match check_raw(raw) {
            Ok(tx_hash) => tx_hash,
            Err(e) => return Err(e),
        };
        let body = match send_raw_conditional_body(raw, options) {
            Ok(body) => body,
            Err(e) => return Err(e),
        };
        self.dispatch(body, tx_hash)
    }

    /// How often the endpoint set is to be reconciled with DNS, or `None` where
    /// it was resolved once and for all.
    pub fn refresher(&self) -> (r: Option<Duration>)
        ensures
            r is None <==> self.cfg.dns_refresh_interval@ == 0,
            r matches Some(d) ==> d == self.cfg.dns_refresh_interval,
    {
        if self.cfg.dns_refresh_interval.is_zero() {
            None
        } else {
            Some(self.cfg.dns_refresh_interval)
        }
    }

    /// Whether a probe that is due on a connection is to be sent: it is skipped
    /// while the connection is down.
    pub fn should_probe(&self, ip: IpAddr, conn: usize) -> (b: bool)
        ensures
            b == crate::pool::is_conn_ready(self.pool@, ip, conn),
    {
        self.pool.is_conn_ready(ip, conn)
    }

    /// The request that carries a body.
    pub fn request(&self, body: Bytes) -> (req: OutboundRequest)
        ensures
            self.template.is_request(req, body),
    {
        self.template.build(body)
    }

    /// Take note of an event on the endpoint for `ip`.
    pub fn apply(&mut self, ip: IpAddr, event: &EndpointEvent)
        ensures
            final(self).cfg == old(self).cfg,
            final(self).template == old(self).template,
            crate::pool::is_applied(old(self).pool@, ip, *event, final(self).pool@),
    {
        self.pool.apply(ip, event)
    }

    /// Take note of what the supervisor of a connection of the endpoint for `ip`
    /// decided.
    pub fn follow(&mut self, ip: IpAddr, conn: usize, action: &ConnAction)
        ensures
            final(self).cfg == old(self).cfg,
            final(self).template == old(self).template,
            crate::pool::is_followed(old(self).pool@, ip, conn, *action, final(self).pool@),
    {
        self.pool.follow(ip, conn, action)
    }

    /// Per-endpoint health and latency, for metrics and debugging.
    #[must_use]
    pub fn stats(&self) -> (stats: Vec<EndpointStats>)
        ensures
            stats.len() == self.pool@.len(),
            forall|i: int|
                0 <= i < self.pool@.len() ==> self.pool@[i].is_described_by(#[trigger] stats@[i]),
    {
        self.pool.stats()
    }

    /// Reconcile the endpoints with what the resolver answered for the host.
    ///
    /// # Errors
    ///
    /// [`Error::Dns`] if the lookup failed. The existing endpoints are left
    /// untouched, so a resolver blip does not cost warm connections.
    pub fn refresh_endpoints(&mut self, lookup: Result<Vec<IpAddr>, String>) -> (r: Result<
        Reconciled,
        Error,
    >)
        ensures
            final(self).cfg == old(self).cfg,
            final(self).template == old(self).template,
            crate::pool::is_refreshed(
                old(self).pool@,
                old(self).cfg,
                lookup,
                final(self).pool@,
                r,
            ),
    {
        self.pool.refresh(&self.cfg, lookup)
    }
}

/// The transaction that a hex string stands for.
pub open spec fn tx_of_hex(raw_hex: Seq<char>) -> Result<Seq<u8>, crate::hex::HexError> {
    crate::hex::decoded(vstd::utf8::encode_utf8(crate::text::without_0x(raw_hex)))
}

/// Whether the body for a hex string fits in memory.
pub open spec fn hex_fits(raw_hex: Seq<char>) -> bool {
    tx_of_hex(raw_hex) matches Ok(raw) ==> crate::rpc::send_body(raw).len() <= isize::MAX
}

/// A submission goes to no more endpoints than are available, nor to more than are
/// configured; to all of those available where none are configured.
pub proof fn the_width_is_capped_both_ways(configured: nat, available: nat)
    ensures
        width(configured, available) <= available,
        configured > 0 ==> width(configured, available) <= configured,
        configured == 0 || available <= configured ==> width(configured, available) == available,
        0 < configured <= available ==> width(configured, available) == configured,
{
}

/// What is sent out is the body and the hash of one transaction, to at least one
/// endpoint; without one the submission is refused as not ready.
pub proof fn a_broadcast_carries_its_transaction(
    before: SequencerClient,
    ranked: Seq<usize>,
    body: Seq<u8>,
    hash: Seq<u8>,
    after: SequencerClient,
    r: Result<Broadcast, Error>,
)
    requires
        is_broadcast(before, ranked, body, hash, after, r),
    ensures
        after.cfg == before.cfg,
        after.template == before.template,
        match r {
            Ok(b) => {
                &&& b.tx_hash@ == hash
                &&& crate::buf::content(b.body) == body
                &&& b.targets.len() > 0
                &&& b.known == before.pool@.len()
                &&& before.cfg.fanout > 0 ==> b.targets.len() <= before.cfg.fanout
            },
            Err(e) => e@ == (Fault::NotReady { known: before.pool@.len() }),
        },
{
    if let Ok(b) = r {
        if before.cfg.fanout > 0 {
            crate::pool::no_more_copies_than_the_fanout(
                before.pool@,
                ranked,
                before.cfg.fanout as nat,
                after.pool@,
                b.targets,
            );
        }
    }
}

/// A client can be built exactly where its settings are valid, the TLS provider can be
/// used, and a request can be made for them.
pub proof fn only_usable_settings_build(cfg: Config, tls: Result<(), String>)
    ensures
        build_flaw(cfg, tls) is None <==> cfg.flaw() is None && tls is Ok && RequestTemplate::flaw(
            cfg,
        ) is None,
        cfg.flaw() is Some ==> build_flaw(cfg, tls) == cfg.flaw(),
        cfg.flaw() is None && tls is Ok ==> build_flaw(cfg, tls) == RequestTemplate::flaw(cfg),
        cfg.flaw() is None ==> (tls matches Err(e) ==> build_flaw(cfg, tls) == Some(
            "the TLS provider supports none of the required protocol versions: "@ + e@,
        )),
{
}

/// A transaction given as the digits of its bytes, with the prefix or without it, is
/// those bytes.
pub proof fn hex_stands_for_its_bytes(raw: Seq<u8>)
    ensures
        tx_of_hex(crate::hex::hex_chars(raw)) == Ok::<Seq<u8>, crate::hex::HexError>(raw),
        tx_of_hex(seq!['0', 'x'] + crate::hex::hex_chars(raw)) == Ok::<
            Seq<u8>,
            crate::hex::HexError,
        >(raw),
{
    let chars = crate::hex::hex_chars(raw);
    crate::hex::hex_chars_decode(raw);
    assert(crate::text::without_0x(seq!['0', 'x'] + chars) =~= chars);
    if chars.len() >= 2 {
        assert(chars[1] != 'x');
    }
}

/// A leading `0x` makes no difference to the transaction that the rest stands for.
pub proof fn the_prefix_of_a_transaction_is_dropped(s: Seq<char>)
    ensures
        tx_of_hex(seq!['0', 'x'] + s) == crate::hex::decoded(vstd::utf8::encode_utf8(s)),
        !seq!['0', 'x'].is_prefix_of(s) ==> tx_of_hex(seq!['0', 'x'] + s) == tx_of_hex(s),
{
    crate::text::one_prefix_is_dropped(s);
}

} // verus!
