//! One pre-warmed connection: bringing it up, keeping it up, and what its
//! failures are called.
//!
//! Each connection is owned by a supervisor that establishes it, waits for it to
//! end, and re-establishes it with exponential backoff when it goes away. The
//! send path never blocks on a handshake: if a connection is not live, the
//! caller is told immediately and moves on to another endpoint.

use vstd::prelude::*;
use vstd::string::*;

use crate::addr::IpAddr;
use crate::config::{check_server_name, Config};
use crate::error::{Error, Fault};
use crate::text::from_utf8_lossy;
use crate::time::{Duration, MAX_NANOS};

verus! {

/// A failure on the connection to `ip`: what happened, and why.
fn transport_err(ip: IpAddr, what: &str, why: &str) -> (e: Error)
    ensures
        e@ == (Fault::Transport { ip, message: what@ + why@ }),
{
    let mut message = what.to_owned();
    message.append(why);
    Error::Transport { ip, message }
}

/// Why a request could not be issued on a connection.
#[derive(Debug)]
pub enum SendFault {
    /// There is no established connection to issue it on.
    NotEstablished,
    /// The connection would not take another stream, and why.
    StreamNotReady(String),
    /// The request broke off, and why.
    SendFailed(String),
}

/// One warm connection.
#[derive(Debug)]
pub struct WarmConn {
    /// Which sequencer address this connection terminates at.
    pub ip: IpAddr,
    /// Whether a request can be issued right now without a handshake.
    pub ready: bool,
}

impl WarmConn {
    /// A connection in the down state; a [`Supervisor`] brings it up.
    pub fn new(ip: IpAddr) -> (conn: WarmConn)
        ensures
            conn == (WarmConn { ip, ready: false }),
    {
        WarmConn { ip, ready: false }
    }

    /// Whether a request can be issued right now without a handshake.
    pub fn is_ready(&self) -> (b: bool)
        ensures
            b == self.ready,
    {
        self.ready
    }

    /// Let the send path choose this connection.
    pub fn mark_up(&mut self)
        ensures
            *final(self) == (WarmConn { ready: true, ..*old(self) }),
    {
        self.ready = true;
    }

    /// Stop the send path from choosing this connection.
    pub fn mark_down(&mut self)
        ensures
            *final(self) == (WarmConn { ready: false, ..*old(self) }),
    {
        self.ready = false;
    }

    /// The error for a request that could not be issued on this connection.
    ///
    /// A connection that is not live fails the request at once rather than
    /// having it wait: the caller has other endpoints to fall back on, and
    /// blocking here would defeat the point of pre-warming.
    pub fn send_error(ip: IpAddr, fault: SendFault) -> (e: Error)
        ensures
            e@ == (Fault::Transport {
                ip,
                message: match fault {
                    SendFault::NotEstablished => "connection is not established"@,
                    SendFault::StreamNotReady(why) => "stream not ready: "@ + why@,
                    SendFault::SendFailed(why) => "send failed: "@ + why@,
                },
            }),
    {
        match fault {
            SendFault::NotEstablished => {
                Error::Transport { ip, message: "connection is not established".to_owned() }
            },
            SendFault::StreamNotReady(why) => transport_err(ip, "stream not ready: ", &why),
            SendFault::SendFailed(why) => transport_err(ip, "send failed: ", &why),
        }
    }
}

/// Twice `current`, as far as a span can go, but no more than `max`.
pub open spec fn backoff_step(current: nat, max: nat) -> nat {
    let doubled: nat = if 2 * current <= MAX_NANOS {
        2 * current
    } else {
        MAX_NANOS as nat
    };
    if doubled <= max {
        doubled
    } else {
        max
    }
}

/// Double the reconnect delay, clamped to the configured ceiling.
///
/// Saturating: the starting delay is whatever the caller set.
pub fn next_backoff(current: Duration, max: Duration) -> (d: Duration)
    ensures
        d@ == backoff_step(current@, max@),
{
    current.saturating_mul(2).min(max)
}

/// Reason a connection ended.
#[derive(Debug)]
pub enum ClosedReason {
    /// Clean shutdown (typically a GOAWAY from the load balancer).
    Graceful,
    /// The connection failed.
    Error(String),
}

/// What happened to a supervised connection.
#[derive(Debug)]
pub enum ConnEvent {
    /// The handshakes finished.
    Established,
    /// The handshakes did not finish.
    AttemptFailed(Error),
    /// The established connection ended.
    Closed(ClosedReason),
    /// The task driving the established connection broke off, and why.
    DriverEnded(String),
    /// The pause before the next attempt is over.
    Woke,
}

/// What a supervisor does next.
#[derive(Debug)]
pub enum ConnAction {
    /// Attempt to establish the connection.
    Connect,
    /// Hand the connection to the send path, announce that it is usable, and
    /// wait for it to end.
    Publish,
    /// Take the connection away from the send path, count the failure if there
    /// is one, and pause for this long.
    Pause {
        /// How long to pause.
        delay: Duration,
        /// The failure to count.
        failure: Option<Error>,
    },
}

/// Keeps one connection established, reconnecting with exponential backoff.
#[derive(Debug)]
pub struct Supervisor {
    /// Address the connection goes to.
    pub ip: IpAddr,
    /// Delay before the first reconnect attempt.
    pub min_backoff: Duration,
    /// Ceiling for the delay.
    pub max_backoff: Duration,
    /// Delay before the next attempt.
    pub backoff: Duration,
}

/// The failure that the end of a connection counts as.
///
/// A graceful close is the peer recycling on its own schedule and says nothing
/// about the endpoint's health.
pub open spec fn closing_fault(ip: IpAddr, event: ConnEvent) -> Option<Fault> {
    match event {
        ConnEvent::AttemptFailed(e) => Some(e@),
        ConnEvent::Closed(ClosedReason::Error(e)) => Some(
            Fault::Transport { ip, message: "established connection failed: "@ + e@ },
        ),
        ConnEvent::DriverEnded(e) => Some(
            Fault::Transport { ip, message: "connection ended unexpectedly: "@ + e@ },
        ),
        _ => None,
    }
}

/// The backoff after an event, with floor `min` and ceiling `max`.
pub open spec fn backoff_on(min: nat, max: nat, current: nat, event: ConnEvent) -> nat {
    match event {
        ConnEvent::Established => min,
        ConnEvent::Woke => backoff_step(current, max),
        _ => current,
    }
}

impl Supervisor {
    /// Whether `after` is this supervisor once an event is taken note of, and
    /// `action` what it says to do about it.
    pub open spec fn answers(
        self,
        event: ConnEvent,
        after: Supervisor,
        action: ConnAction,
    ) -> bool {
        &&& after.ip == self.ip
        &&& after.min_backoff == self.min_backoff
        &&& after.max_backoff == self.max_backoff
        &&& after.backoff@ == backoff_on(
            self.min_backoff@,
            self.max_backoff@,
            self.backoff@,
            event,
        )
        &&& match event {
            ConnEvent::Established => action is Publish,
            ConnEvent::Woke => action is Connect,
            _ => action matches ConnAction::Pause { delay, failure } && {
                &&& delay == self.backoff
                &&& match failure {
                    Some(e) => closing_fault(self.ip, event) == Some(e@),
                    None => closing_fault(self.ip, event) is None,
                }
            },
        }
    }

    /// A supervisor about to make its first attempt.
    pub fn new(ip: IpAddr, cfg: &Config) -> (s: Supervisor)
        ensures
            s.ip == ip,
            s.min_backoff == cfg.reconnect_min_backoff,
            s.max_backoff == cfg.reconnect_max_backoff,
            s.backoff == cfg.reconnect_min_backoff,
    {
        Supervisor {
            ip,
            min_backoff: cfg.reconnect_min_backoff,
            max_backoff: cfg.reconnect_max_backoff,
            backoff: cfg.reconnect_min_backoff,
        }
    }

    /// Take note of an event and say what to do about it.
    pub fn step(&mut self, event: ConnEvent) -> (action: ConnAction)
        ensures
            old(self).answers(event, *final(self), action),
    {
        match event {
            ConnEvent::Established => {
                self.backoff = self.min_backoff;
                ConnAction::Publish
            },
            ConnEvent::AttemptFailed(e) => {
                ConnAction::Pause { delay: self.backoff, failure: Some(e) }
            },
            ConnEvent::Closed(ClosedReason::Graceful) => {
                ConnAction::Pause { delay: self.backoff, failure: None }
            },
            ConnEvent::Closed(ClosedReason::Error(e)) => {
                let failure = transport_err(self.ip, "established connection failed: ", &e);
                ConnAction::Pause { delay: self.backoff, failure: Some(failure) }
            },
            ConnEvent::DriverEnded(e) => {
                let failure = transport_err(self.ip, "connection ended unexpectedly: ", &e);
                ConnAction::Pause { delay: self.backoff, failure: Some(failure) }
            },
            ConnEvent::Woke => {
                self.backoff = next_backoff(self.backoff, self.max_backoff);
                ConnAction::Connect
            },
        }
    }
}

/// The delay after `failures` attempts in a row have failed, starting from
/// `min` with ceiling `max`.
pub open spec fn delay_after(min: nat, max: nat, failures: nat) -> nat
    decreases failures,
{
    if failures == 0 {
        min
    } else {
        backoff_step(delay_after(min, max, (failures - 1) as nat), max)
    }
}

/// The delay doubles after each consecutive failure, up to the ceiling.
pub proof fn backoff_doubles_to_the_ceiling(min: nat, max: nat, failures: nat)
    requires
        min <= max <= MAX_NANOS,
    ensures
        delay_after(min, max, failures) == {
            let doubled = min * vstd::arithmetic::power2::pow2(failures);
            if doubled <= max {
                doubled
            } else {
                max
            }
        },
        min <= delay_after(min, max, failures) <= max,
    decreases failures,
{
    if failures == 0 {
        vstd::arithmetic::power2::lemma2_to64();
    } else {
        let k = (failures - 1) as nat;
        let p = vstd::arithmetic::power2::pow2(k);
        backoff_doubles_to_the_ceiling(min, max, k);
        vstd::arithmetic::power2::lemma_pow2_unfold(failures);
        assert(min * (2 * p) == 2 * (min * p)) by (nonlinear_arith);
        assert(min * p >= 0) by (nonlinear_arith)
            requires
                min >= 0,
                p >= 0,
        ;
    }
}

/// With valid settings, every delay lies between the configured floor and the
/// ceiling.
pub proof fn valid_settings_bound_the_backoff(cfg: Config, failures: nat)
    requires
        cfg.flaw() is None,
        cfg.reconnect_max_backoff@ <= MAX_NANOS,
    ensures
        cfg.reconnect_min_backoff@ <= delay_after(
            cfg.reconnect_min_backoff@,
            cfg.reconnect_max_backoff@,
            failures,
        ) <= cfg.reconnect_max_backoff@,
{
    backoff_doubles_to_the_ceiling(
        cfg.reconnect_min_backoff@,
        cfg.reconnect_max_backoff@,
        failures,
    );
}

/// The backoff after a run of events, starting from `min`.
pub open spec fn backoff_through(min: nat, max: nat, events: Seq<ConnEvent>) -> nat
    decreases events.len(),
{
    if events.len() == 0 {
        min
    } else {
        backoff_on(min, max, backoff_through(min, max, events.drop_last()), events.last())
    }
}

/// How many pauses came to their end in a run of events.
pub open spec fn pauses(events: Seq<ConnEvent>) -> nat
    decreases events.len(),
{
    if events.len() == 0 {
        0
    } else {
        pauses(events.drop_last()) + if events.last() is Woke {
            1nat
        } else {
            0
        }
    }
}

/// While no attempt succeeds, the delay is fixed by how many pauses there were.
pub proof fn backoff_counts_pauses(min: nat, max: nat, events: Seq<ConnEvent>)
    requires
        forall|i: int| 0 <= i < events.len() ==> !(#[trigger] events[i] is Established),
    ensures
        backoff_through(min, max, events) == delay_after(min, max, pauses(events)),
    decreases events.len(),
{
    if events.len() > 0 {
        let before = events.drop_last();
        assert forall|i: int| 0 <= i < before.len() implies !(#[trigger] before[i] is Established) by {
            assert(before[i] == events[i]);
        }
        backoff_counts_pauses(min, max, before);
    }
}

/// A success takes the delay back to the floor, whatever came before it.
pub proof fn backoff_resets_on_success(min: nat, max: nat, events: Seq<ConnEvent>)
    ensures
        backoff_through(min, max, events.push(ConnEvent::Established)) == min,
{
    assert(events.push(ConnEvent::Established).last() is Established);
}

/// A step of the backoff at least keeps the delay and at most doubles it, but never
/// goes past the ceiling.
pub proof fn a_backoff_step_is_bounded(current: nat, max: nat)
    requires
        max <= MAX_NANOS,
    ensures
        backoff_step(current, max) <= max,
        backoff_step(current, max) <= 2 * current,
        2 * current <= max ==> backoff_step(current, max) == 2 * current,
        2 * current > max ==> backoff_step(current, max) == max,
{
}

/// Whether an event is the end of an attempt or of an established connection.
pub open spec fn is_end(event: ConnEvent) -> bool {
    event is AttemptFailed || event is Closed || event is DriverEnded
}

/// However a round ends, the pause that follows is the current backoff.
pub proof fn the_pause_is_the_backoff(
    s: Supervisor,
    event: ConnEvent,
    after: Supervisor,
    action: ConnAction,
)
    requires
        s.answers(event, after, action),
    ensures
        is_end(event) <==> action is Pause,
        action matches ConnAction::Pause { delay, .. } ==> delay@ == s.backoff@,
        event is Established <==> action is Publish,
        event is Woke <==> action is Connect,
{
}

/// Whether a supervisor ran through these states on these events, with these
/// actions.
pub open spec fn is_run(
    states: Seq<Supervisor>,
    events: Seq<ConnEvent>,
    actions: Seq<ConnAction>,
) -> bool {
    &&& states.len() == events.len() + 1
    &&& actions.len() == events.len()
    &&& forall|i: int|
        0 <= i < events.len() ==> (#[trigger] states[i]).answers(
            events[i],
            states[i + 1],
            actions[i],
        )
}

/// The delay that a pause asks for is the floor, doubled once for every pause since
/// the last success, up to the ceiling. Right after a success it is the floor.
///
/// `from` is where the last success was noted, or the start of the run.
pub proof fn every_pause_doubles_from_the_floor(
    states: Seq<Supervisor>,
    events: Seq<ConnEvent>,
    actions: Seq<ConnAction>,
    from: int,
    at: int,
)
    requires
        is_run(states, events, actions),
        0 <= from <= at < events.len(),
        states[0].min_backoff@ <= states[0].max_backoff@ <= MAX_NANOS,
        if from == 0 {
            states[0].backoff@ == states[0].min_backoff@
        } else {
            events[from - 1] is Established
        },
        forall|i: int| from <= i < at ==> !(#[trigger] events[i] is Established),
        is_end(events[at]),
    ensures
        ({
            let floor = states[0].min_backoff@;
            let ceiling = states[0].max_backoff@;
            let doubled = floor * vstd::arithmetic::power2::pow2(
                pauses(events.subrange(from, at)),
            );
            actions[at] matches ConnAction::Pause { delay, .. } && delay@ == if doubled <= ceiling {
                doubled
            } else {
                ceiling
            }
        }),
{
    let (floor, ceiling) = (states[0].min_backoff@, states[0].max_backoff@);
    bounds_stay(states, events, actions, at);
    if from > 0 {
        bounds_stay(states, events, actions, from - 1);
        assert(states[from - 1].answers(events[from - 1], states[from], actions[from - 1]));
    }
    backoff_since(states, events, actions, from, at);
    backoff_doubles_to_the_ceiling(floor, ceiling, pauses(events.subrange(from, at)));
    assert(states[at].answers(events[at], states[at + 1], actions[at]));
}

/// Floor and ceiling stay.
proof fn bounds_stay(
    states: Seq<Supervisor>,
    events: Seq<ConnEvent>,
    actions: Seq<ConnAction>,
    i: int,
)
    requires
        is_run(states, events, actions),
        0 <= i <= events.len(),
    ensures
        states[i].min_backoff@ == states[0].min_backoff@,
        states[i].max_backoff@ == states[0].max_backoff@,
    decreases i,
{
    if i > 0 {
        bounds_stay(states, events, actions, i - 1);
        assert(states[i - 1].answers(events[i - 1], states[i], actions[i - 1]));
    }
}

/// The backoff since the last success is fixed by the pauses since then.
proof fn backoff_since(
    states: Seq<Supervisor>,
    events: Seq<ConnEvent>,
    actions: Seq<ConnAction>,
    from: int,
    at: int,
)
    requires
        is_run(states, events, actions),
        0 <= from <= at <= events.len(),
        states[from].backoff@ == states[0].min_backoff@,
        forall|i: int| from <= i < at ==> !(#[trigger] events[i] is Established),
    ensures
        states[at].backoff@ == delay_after(
            states[0].min_backoff@,
            states[0].max_backoff@,
            pauses(events.subrange(from, at)),
        ),
    decreases at - from,
{
    let span = events.subrange(from, at);
    if from < at {
        backoff_since(states, events, actions, from, at - 1);
        bounds_stay(states, events, actions, at - 1);
        assert(states[at - 1].answers(events[at - 1], states[at], actions[at - 1]));
        assert(span.drop_last() =~= events.subrange(from, at - 1));
        assert(span.last() == events[at - 1]);
    }
}

/// Once the ceiling is reached, the delay stays there.
pub proof fn backoff_stays_at_the_ceiling(max: nat)
    requires
        max <= MAX_NANOS,
    ensures
        backoff_step(max, max) == max,
{
}

/// What the peer chose for the protocol, as text.
pub open spec fn negotiated_text(alpn: Option<Seq<u8>>) -> Seq<char> {
    match alpn {
        Some(p) => crate::text::utf8_lossy(p),
        None => "none"@,
    }
}

/// What happened while a connection was being brought up.
#[derive(Debug)]
pub enum HandshakeEvent {
    /// TCP did not connect in time.
    TcpTimedOut,
    /// TCP did not connect, and why.
    TcpFailed(String),
    /// TCP connected.
    TcpConnected,
    /// Nagle's algorithm could not be turned off, and why.
    NoDelayFailed(String),
    /// Nagle's algorithm is off, and this much of the budget for TCP and TLS
    /// together is left.
    NoDelaySet(Duration),
    /// The TLS handshake did not finish in time.
    TlsTimedOut,
    /// The TLS handshake failed, and why.
    TlsFailed(String),
    /// The TLS handshake finished, with the protocol the peer chose.
    TlsEstablished(Option<Vec<u8>>),
    /// The HTTP/2 handshake failed, and why.
    Http2Failed(String),
    /// The HTTP/2 handshake finished.
    Http2Ready,
}

/// What to do next while a connection is brought up.
#[derive(Clone, Copy, Debug, PartialEq, Eq, Structural)]
pub enum HandshakeAction {
    /// Connect TCP, in no longer than this.
    ConnectTcp(Duration),
    /// Turn Nagle's algorithm off, which would hold a small body waiting for
    /// more data.
    SetNoDelay,
    /// Run the TLS handshake for the configured hostname, in no longer than
    /// this.
    StartTls(Duration),
    /// Run the HTTP/2 handshake.
    StartHttp2,
    /// The connection is up.
    Done,
}

/// Whether the peer chose HTTP/2.
pub open spec fn is_h2(alpn: Option<Vec<u8>>) -> bool {
    alpn matches Some(p) && p@ == seq![104u8, 50u8]
}

/// The peer chose something else than HTTP/2.
pub open spec fn no_http2(ip: IpAddr, negotiated: Seq<char>) -> Fault {
    Fault::Transport {
        ip,
        message: "peer did not negotiate HTTP/2 over ALPN (got: "@ + negotiated
            + "); this client speaks HTTP/2 only"@,
    }
}

/// The budget for TCP and TLS together ran out before TLS was through.
pub open spec fn tls_timeout(ip: IpAddr, cfg: Config) -> Fault {
    Fault::Transport {
        ip,
        message: "TLS handshake timed out after "@ + cfg.connect_timeout.text(),
    }
}

/// Start opening a connection: the whole budget for TCP and TLS together is
/// there for TCP.
pub fn begin(cfg: &Config) -> (action: HandshakeAction)
    ensures
        action == HandshakeAction::ConnectTcp(cfg.connect_timeout),
{
    HandshakeAction::ConnectTcp(cfg.connect_timeout)
}

/// How much of the budget for TCP and TLS together is left, `spent` after the
/// connection was begun.
pub fn budget_left(cfg: &Config, spent: Duration) -> (left: Duration)
    ensures
        left@ == left_after(cfg.connect_timeout@, spent@),
{
    cfg.connect_timeout.saturating_sub(spent)
}

/// What is left of a budget once some of it is spent.
pub open spec fn left_after(budget: nat, spent: nat) -> nat {
    if spent <= budget {
        (budget - spent) as nat
    } else {
        0
    }
}

/// What follows from an event while a connection is brought up.
pub open spec fn handshake_step(ip: IpAddr, cfg: Config, event: HandshakeEvent) -> Result<
    HandshakeAction,
    Fault,
> {
    match event {
        HandshakeEvent::TcpTimedOut => Err(
            Fault::Transport {
                ip,
                message: "TCP connect timed out after "@ + cfg.connect_timeout.text(),
            },
        ),
        HandshakeEvent::TcpFailed(e) => Err(
            Fault::Transport { ip, message: "TCP connect failed: "@ + e@ },
        ),
        HandshakeEvent::TcpConnected => Ok(HandshakeAction::SetNoDelay),
        HandshakeEvent::NoDelayFailed(e) => Err(
            Fault::Transport { ip, message: "failed to set TCP_NODELAY: "@ + e@ },
        ),
        HandshakeEvent::NoDelaySet(left) => if !crate::config::valid_server_name(cfg.host@) {
            Err(
                Fault::Config(
                    "`"@ + cfg.host@ + "` is not a valid TLS server name: "@ + "invalid dns name"@,
                ),
            )
        } else if left@ == 0 {
            Err(tls_timeout(ip, cfg))
        } else {
            Ok(HandshakeAction::StartTls(left))
        },
        HandshakeEvent::TlsTimedOut => Err(tls_timeout(ip, cfg)),
        HandshakeEvent::TlsFailed(e) => Err(
            Fault::Transport { ip, message: "TLS handshake failed: "@ + e@ },
        ),
        HandshakeEvent::TlsEstablished(alpn) => if is_h2(alpn) {
            Ok(HandshakeAction::StartHttp2)
        } else {
            Err(
                no_http2(
                    ip,
                    negotiated_text(
                        match alpn {
                            Some(p) => Some(p@),
                            None => None,
                        },
                    ),
                ),
            )
        },
        HandshakeEvent::Http2Failed(e) => Err(
            Fault::Transport { ip, message: "HTTP/2 handshake failed: "@ + e@ },
        ),
        HandshakeEvent::Http2Ready => Ok(HandshakeAction::Done),
    }
}

/// Decide on the next step of opening one TCP + TLS + HTTP/2 connection.
///
/// The first step is to connect TCP, see [`begin`]. The connect timeout is one
/// budget for TCP and TLS together: TLS gets what TCP left of it. The socket is opened to a resolved
/// address, but SNI and certificate validation use the hostname, so each
/// endpoint is verified against the sequencer's certificate rather than its IP.
///
/// HTTP/2 is required for its multiplexing: a peer that will not negotiate it
/// is reported as an error rather than silently downgraded.
pub fn establish(ip: IpAddr, cfg: &Config, event: HandshakeEvent) -> (r: Result<
    HandshakeAction,
    Error,
>)
    ensures
        crate::rpc::outcome(r) == handshake_step(ip, *cfg, event),
        event matches HandshakeEvent::TlsEstablished(Some(p)) ==> (!is_h2(Some(p))
            && vstd::utf8::valid_utf8(p@) ==> crate::rpc::outcome(r) == Err::<
            HandshakeAction,
            Fault,
        >(no_http2(ip, vstd::utf8::decode_utf8(p@)))),
{
    match event {
        HandshakeEvent::TcpTimedOut => {
            let after = cfg.connect_timeout.to_text();
            Err(transport_err(ip, "TCP connect timed out after ", &after))
        },
        HandshakeEvent::TcpFailed(e) => Err(transport_err(ip, "TCP connect failed: ", &e)),
        HandshakeEvent::TcpConnected => Ok(HandshakeAction::SetNoDelay),
        HandshakeEvent::NoDelayFailed(e) => {
            Err(transport_err(ip, "failed to set TCP_NODELAY: ", &e))
        },
        HandshakeEvent::NoDelaySet(left) => {
            match check_server_name(&cfg.host) {
                Ok(()) => {
                    if left.is_zero() {
                        let after = cfg.connect_timeout.to_text();
                        return Err(transport_err(ip, "TLS handshake timed out after ", &after));
                    }
                    Ok(HandshakeAction::StartTls(left))
                },
                Err(e) => {
                    let mut message = "`".to_owned();
                    message.append(&cfg.host);
                    message.append("` is not a valid TLS server name: ");
                    message.append(&e);
                    Err(Error::Config(message))
                },
            }
        },
        HandshakeEvent::TlsTimedOut => {
            let after = cfg.connect_timeout.to_text();
            Err(transport_err(ip, "TLS handshake timed out after ", &after))
        },
        HandshakeEvent::TlsFailed(e) => Err(transport_err(ip, "TLS handshake failed: ", &e)),
        HandshakeEvent::TlsEstablished(alpn) => {
            let negotiated = match alpn {
                Some(p) => {
                    if p.len() == 2 && p[0] == 104 && p[1] == 50 {
                        assert(p@ =~= seq![104u8, 50u8]);
                        return Ok(HandshakeAction::StartHttp2);
                    }
                    from_utf8_lossy(p.as_slice())
                },
                None => "none".to_owned(),
            };
            let mut message = "peer did not negotiate HTTP/2 over ALPN (got: ".to_owned();
            message.append(&negotiated);
            message.append("); this client speaks HTTP/2 only");
            Err(Error::Transport { ip, message })
        },
        HandshakeEvent::Http2Failed(e) => Err(transport_err(ip, "HTTP/2 handshake failed: ", &e)),
        HandshakeEvent::Http2Ready => Ok(HandshakeAction::Done),
    }
}

/// A connection goes on past TLS exactly where the peer chose HTTP/2; any other
/// choice is a failure of the connection that may be retried.
pub proof fn only_http2_goes_on(ip: IpAddr, cfg: Config, alpn: Option<Vec<u8>>)
    ensures
        match handshake_step(ip, cfg, HandshakeEvent::TlsEstablished(alpn)) {
            Ok(action) => is_h2(alpn) && action == HandshakeAction::StartHttp2,
            Err(fault) => !is_h2(alpn) && fault is Transport && fault.retryable(),
        },
{
}

/// TCP and TLS share one budget. Where TCP leaves none of it the connection
/// fails; otherwise TLS may run for as long as the two together keep within it.
pub proof fn tcp_and_tls_share_one_budget(
    ip: IpAddr,
    cfg: Config,
    tcp: nat,
    left: Duration,
)
    requires
        left@ == left_after(cfg.connect_timeout@, tcp),
    ensures
        match handshake_step(ip, cfg, HandshakeEvent::NoDelaySet(left)) {
            Ok(HandshakeAction::StartTls(limit)) => forall|tls: nat|
                tls <= limit@ <==> #[trigger] (tcp + tls) <= cfg.connect_timeout@,
            Ok(_) => false,
            Err(fault) => crate::config::valid_server_name(cfg.host@) ==> {
                &&& tcp >= cfg.connect_timeout@
                &&& fault == tls_timeout(ip, cfg)
            },
        },
{
}

/// With valid settings, no handshake fails for good: a failure is one of the
/// connection, and may be retried.
pub proof fn valid_settings_fail_only_by_the_connection(
    ip: IpAddr,
    cfg: Config,
    event: HandshakeEvent,
)
    requires
        cfg.flaw() is None,
    ensures
        handshake_step(ip, cfg, event) matches Err(fault) ==> fault is Transport
            && fault.retryable(),
{
}

/// A failed attempt is counted as the error it failed with. A connection that breaks
/// or is cut off counts as a transport failure of its own address that ends with the
/// reason, and a graceful close counts as nothing.
pub proof fn what_a_closing_counts_as(ip: IpAddr, event: ConnEvent)
    ensures
        closing_fault(ip, event) is Some <==> is_end(event) && !(event matches ConnEvent::Closed(
            ClosedReason::Graceful,
        )),
        event matches ConnEvent::AttemptFailed(e) ==> closing_fault(ip, event) == Some(e@),
        event matches ConnEvent::Closed(ClosedReason::Error(why)) ==> closing_fault(ip, event)
            == Some(Fault::Transport { ip, message: "established connection failed: "@ + why@ }),
        event matches ConnEvent::DriverEnded(why) ==> closing_fault(ip, event) == Some(
            Fault::Transport { ip, message: "connection ended unexpectedly: "@ + why@ },
        ),
{
}

/// A connection is brought up in one order: TCP, then no delay, then TLS, then
/// HTTP/2. Each action follows from one event alone, and every failure ends the
/// attempt with an error.
pub proof fn the_handshake_goes_one_way(ip: IpAddr, cfg: Config, event: HandshakeEvent)
    ensures
        handshake_step(ip, cfg, event) == Ok::<HandshakeAction, Fault>(HandshakeAction::SetNoDelay)
            <==> event is TcpConnected,
        handshake_step(ip, cfg, event) matches Ok(HandshakeAction::StartTls(limit)) ==> event
            == HandshakeEvent::NoDelaySet(limit),
        handshake_step(ip, cfg, event) == Ok::<HandshakeAction, Fault>(HandshakeAction::StartHttp2)
            ==> event is TlsEstablished,
        handshake_step(ip, cfg, event) == Ok::<HandshakeAction, Fault>(HandshakeAction::Done)
            <==> event is Http2Ready,
        !(handshake_step(ip, cfg, event) matches Ok(HandshakeAction::ConnectTcp(_))),
        event is TcpTimedOut || event is TcpFailed || event is NoDelayFailed || event is TlsTimedOut
            || event is TlsFailed || event is Http2Failed ==> handshake_step(ip, cfg, event) is Err,
{
}

/// A failed handshake is reported for the address it was tried on, with what failed
/// and why.
pub proof fn a_failed_handshake_says_why(ip: IpAddr, cfg: Config, event: HandshakeEvent)
    ensures
        event is TcpTimedOut ==> handshake_step(ip, cfg, event) == Err::<HandshakeAction, Fault>(
            Fault::Transport {
                ip,
                message: "TCP connect timed out after "@ + cfg.connect_timeout.text(),
            },
        ),
        event is TlsTimedOut ==> handshake_step(ip, cfg, event) == Err::<HandshakeAction, Fault>(
            Fault::Transport {
                ip,
                message: "TLS handshake timed out after "@ + cfg.connect_timeout.text(),
            },
        ),
        event matches HandshakeEvent::TcpFailed(why) ==> handshake_step(ip, cfg, event) == Err::<
            HandshakeAction,
            Fault,
        >(Fault::Transport { ip, message: "TCP connect failed: "@ + why@ }),
        event matches HandshakeEvent::NoDelayFailed(why) ==> handshake_step(ip, cfg, event) == Err::<
            HandshakeAction,
            Fault,
        >(Fault::Transport { ip, message: "failed to set TCP_NODELAY: "@ + why@ }),
        event matches HandshakeEvent::TlsFailed(why) ==> handshake_step(ip, cfg, event) == Err::<
            HandshakeAction,
            Fault,
        >(Fault::Transport { ip, message: "TLS handshake failed: "@ + why@ }),
        event matches HandshakeEvent::Http2Failed(why) ==> handshake_step(ip, cfg, event) == Err::<
            HandshakeAction,
            Fault,
        >(Fault::Transport { ip, message: "HTTP/2 handshake failed: "@ + why@ }),
{
}

/// HTTP/2 is chosen exactly by the two bytes `h2`.
pub proof fn http2_is_named_by_two_bytes(alpn: Option<Vec<u8>>)
    ensures
        is_h2(alpn) <==> (alpn matches Some(p) && p@.len() == 2 && p@[0] == 'h' as u8 && p@[1]
            == '2' as u8),
{
    if let Some(p) = alpn {
        if p@.len() == 2 && p@[0] == 'h' as u8 && p@[1] == '2' as u8 {
            assert(p@ =~= seq![104u8, 50u8]);
        }
    }
}

/// A peer that chose another protocol, or none, is reported for its address with what it
/// chose.
pub proof fn another_protocol_is_named(ip: IpAddr, cfg: Config, alpn: Option<Vec<u8>>)
    requires
        !is_h2(alpn),
    ensures
        handshake_step(ip, cfg, HandshakeEvent::TlsEstablished(alpn)) == Err::<
            HandshakeAction,
            Fault,
        >(
            Fault::Transport {
                ip,
                message: "peer did not negotiate HTTP/2 over ALPN (got: "@ + match alpn {
                    Some(p) => crate::text::utf8_lossy(p@),
                    None => "none"@,
                } + "); this client speaks HTTP/2 only"@,
            },
        ),
{
}

} // verus!
