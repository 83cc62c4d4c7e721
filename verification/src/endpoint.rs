//! One sequencer address: its warm connections, health, and latency score.

use bytes::Bytes;
use vstd::prelude::*;
use vstd::slice::slice_subrange;
use vstd::string::*;

use crate::addr::IpAddr;
use crate::buf::as_slice;
use crate::config::Config;
use crate::conn::{ClosedReason, ConnAction, ConnEvent, Supervisor, WarmConn};
use crate::error::{Error, Fault};
use crate::rpc::{parse_send_response, Envelope};
use crate::text::{from_utf8_lossy, push_numeral};
use crate::time::Duration;
use crate::types::{EndpointStats, TxHash};

verus! {

/// Ceiling on a response body, to be enforced while reading rather than after.
///
/// Sequencer replies run to a few hundred bytes; anything approaching this is a
/// misrouted request or an error page from something in the path.
pub const MAX_BODY: usize = 65_536;

/// The next value of the latency average: later samples with a weight of one
/// eighth, and the sample as it is where the average stands at zero, as it does
/// before the first one.
pub open spec fn smoothed(prev: nat, sample: nat) -> nat {
    if prev == 0 {
        sample
    } else {
        (prev - prev / 8 + sample / 8) as nat
    }
}

/// A latency in whole microseconds, as far as a `u64` goes.
pub open spec fn sample_of(latency: Duration) -> nat {
    if latency@ / 1_000 <= u64::MAX {
        latency@ / 1_000
    } else {
        u64::MAX as nat
    }
}

/// Whether one rank comes before another: fewer failures first, then the lower
/// latency.
pub open spec fn ranks_before(a: (u32, u64), b: (u32, u64)) -> bool {
    a.0 < b.0 || (a.0 == b.0 && a.1 < b.1)
}

/// Health counters of one endpoint.
#[derive(Debug)]
pub struct EndpointState {
    /// Smoothed round-trip latency in microseconds; `None` before the first
    /// sample.
    pub ewma_us: Option<u64>,
    /// Failures since the last success.
    pub consecutive_failures: u32,
    /// Why the most recent failure happened.
    pub last_failure: Option<String>,
}

impl EndpointState {
    /// Why the most recent failure happened, as text.
    pub open spec fn reason(self) -> Option<Seq<char>> {
        match self.last_failure {
            Some(s) => Some(s@),
            None => None,
        }
    }

    /// Sort key: fewest failures first, then lowest latency.
    ///
    /// The latency of an endpoint with no sample yet counts as far above any
    /// real one.
    pub open spec fn key(self) -> (u32, u64) {
        (
            self.consecutive_failures,
            match self.ewma_us {
                Some(us) => us,
                None => u64::MAX / 2,
            },
        )
    }

    /// Start with no latency sample and a clean failure count.
    pub fn new() -> (s: EndpointState)
        ensures
            s == (EndpointState { ewma_us: None, consecutive_failures: 0, last_failure: None }),
    {
        EndpointState { ewma_us: None, consecutive_failures: 0, last_failure: None }
    }

    /// Fold a completed round trip into the average and clear the failure count.
    pub fn record_success(&mut self, latency: Duration)
        ensures
            counted_success(*old(self), latency, *final(self)),
    {
        // Saturating rather than casting: a latency past 584 000 years is not
        // worth recording precisely, but wrapping it to a small value would
        // silently promote the endpoint to the front of the ranking.
        let micros: u128 = latency.as_micros();
        let sample: u64 = if micros <= u64::MAX as u128 {
            micros as u64
        } else {
            u64::MAX
        };
        let prev: u64 = match self.ewma_us {
            Some(prev) => prev,
            None => 0,
        };
        self.ewma_us = Some(
            if prev == 0 {
                sample
            } else {
                prev - prev / 8 + sample / 8
            },
        );
        self.consecutive_failures = 0;
        self.last_failure = None;
    }

    /// Count a failure and keep its reason, demoting this endpoint in the rank.
    ///
    /// For a failed connection attempt, a failed probe, and a failed submission
    /// alike, so an endpoint that has never once connected reports a rising
    /// count rather than looking untouched.
    pub fn record_failure(&mut self, error: &Error)
        ensures
            counted_failure(*old(self), *error, *final(self)),
    {
        self.consecutive_failures = self.consecutive_failures.wrapping_add(1);
        self.last_failure = Some(error.message());
    }

    /// Why the most recent failure happened, if the endpoint is failing.
    pub fn last_failure(&self) -> (r: Option<String>)
        ensures
            match r {
                Some(s) => self.reason() == Some(s@),
                None => self.reason() is None,
            },
    {
        match &self.last_failure {
            Some(s) => Some(s.clone()),
            None => None,
        }
    }

    /// The smoothed latency, or `None` before the first sample.
    pub fn ewma(&self) -> (r: Option<Duration>)
        ensures
            r is None <==> self.ewma_us is None,
            r matches Some(d) ==> self.ewma_us matches Some(us) && d@ == us * 1_000,
    {
        match self.ewma_us {
            Some(us) => Some(Duration::from_micros(us)),
            None => None,
        }
    }

    /// Consecutive failures since the last success.
    pub fn failures(&self) -> (n: u32)
        ensures
            n == self.consecutive_failures,
    {
        self.consecutive_failures
    }

    /// Sort key: fewest failures first, then lowest latency.
    ///
    /// On a cold pool nothing has a sample, so all endpoints tie and the
    /// caller's existing order stands.
    pub fn rank(&self) -> (r: (u32, u64))
        ensures
            r == self.key(),
    {
        let key: u64 = match self.ewma_us {
            Some(us) => us,
            None => u64::MAX / 2,
        };
        (self.failures(), key)
    }
}

/// The average stays between its old value and the new sample, and above zero
/// once it is.
pub proof fn smoothing_stays_between(prev: nat, sample: nat)
    ensures
        prev > 0 ==> smoothed(prev, sample) > 0,
        prev <= sample ==> prev <= smoothed(prev, sample) <= sample,
        sample <= prev ==> sample <= smoothed(prev, sample) <= prev,
{
}

/// From the first completed round trip on there is a latency, however short the
/// trip was, and no event takes it away again.
pub proof fn a_completed_round_trip_leaves_a_latency(
    before: EndpointState,
    latency: Duration,
    event: EndpointEvent,
    after: EndpointState,
)
    ensures
        counted_success(before, latency, after) ==> after.ewma_us is Some,
        before.ewma_us is None && counted_success(before, latency, after) ==> after.ewma_us->0
            == sample_of(latency),
        before.ewma_us is Some && state_on(before, event, after) ==> after.ewma_us is Some,
{
}

/// With equally many failures, an endpoint with no sample yet ranks behind every
/// one whose smoothed latency is below the stand-in.
pub proof fn unsampled_ranks_behind_sampled(cold: EndpointState, probed: EndpointState)
    requires
        cold.ewma_us is None,
        probed.ewma_us matches Some(us) && us < u64::MAX / 2,
        cold.consecutive_failures == probed.consecutive_failures,
    ensures
        ranks_before(probed.key(), cold.key()),
{
}

/// Fewer failures rank first, whatever the latencies.
pub proof fn fewer_failures_rank_first(a: EndpointState, b: EndpointState)
    requires
        a.consecutive_failures < b.consecutive_failures,
    ensures
        ranks_before(a.key(), b.key()),
{
}

/// Endpoints without a sample and with equally many failures tie.
pub proof fn cold_endpoints_tie(a: EndpointState, b: EndpointState)
    requires
        a.ewma_us is None,
        b.ewma_us is None,
        a.consecutive_failures == b.consecutive_failures,
    ensures
        !ranks_before(a.key(), b.key()),
        !ranks_before(b.key(), a.key()),
{
}

/// A background task that an endpoint needs, for the connection it is named by.
#[derive(Clone, Copy, Debug, PartialEq, Eq, Structural)]
pub enum Task {
    /// Keep the connection established.
    Supervise(usize),
    /// Exercise the connection end to end at every probe interval.
    Probe(usize),
}

/// The tasks that `n` connections need.
pub open spec fn tasks_for(n: nat, probing: bool) -> Seq<Task>
    decreases n,
{
    if n == 0 {
        seq![]
    } else {
        let i = (n - 1) as usize;
        let before = tasks_for((n - 1) as nat, probing).push(Task::Supervise(i));
        if probing {
            before.push(Task::Probe(i))
        } else {
            before
        }
    }
}

/// What becomes known about one endpoint.
#[derive(Debug)]
pub enum EndpointEvent {
    /// A connection came up.
    Up(usize),
    /// A connection went down.
    Down(usize),
    /// A connection attempt failed, or an established connection did.
    Failed(Error),
    /// A copy of a transaction was answered, or not, after this long.
    Submitted {
        /// What the answer came to.
        outcome: Result<(), Error>,
        /// How long it took.
        latency: Duration,
    },
    /// A probe was answered, or not, after this long.
    Probed {
        /// What the answer came to.
        outcome: Result<(), Error>,
        /// How long it took.
        latency: Duration,
    },
}

/// How the health counters answer an event.
pub open spec fn state_on(before: EndpointState, event: EndpointEvent, after: EndpointState) -> bool {
    match event {
        EndpointEvent::Up(_) | EndpointEvent::Down(_) => after == before,
        EndpointEvent::Failed(e) => counted_failure(before, e, after),
        EndpointEvent::Submitted { outcome: Ok(()), latency } => counted_success(
            before,
            latency,
            after,
        ),
        EndpointEvent::Submitted { outcome: Err(e), latency } => if e is Rejected {
            counted_success(before, latency, after)
        } else {
            counted_failure(before, e, after)
        },
        EndpointEvent::Probed { outcome: Ok(()), latency } => counted_success(
            before,
            latency,
            after,
        ),
        EndpointEvent::Probed { outcome: Err(e), .. } => counted_failure(before, e, after),
    }
}

/// `after` is `before` with a completed round trip folded in.
pub open spec fn counted_success(
    before: EndpointState,
    latency: Duration,
    after: EndpointState,
) -> bool {
    &&& after.ewma_us matches Some(us) && us == smoothed(
        match before.ewma_us {
            Some(prev) => prev as nat,
            None => 0,
        },
        sample_of(latency),
    )
    &&& after.consecutive_failures == 0
    &&& after.last_failure is None
}

/// `after` is `before` with a failure counted.
pub open spec fn counted_failure(before: EndpointState, e: Error, after: EndpointState) -> bool {
    &&& after.ewma_us == before.ewma_us
    &&& after.consecutive_failures == if before.consecutive_failures == u32::MAX {
        0
    } else {
        before.consecutive_failures + 1
    }
    &&& after.reason() == Some(e@.text())
}

/// How the connections answer an event. An event on a connection that is not
/// there changes none.
pub open spec fn conns_on(before: Seq<WarmConn>, event: EndpointEvent) -> Seq<WarmConn> {
    match event {
        EndpointEvent::Up(i) if i < before.len() => before.update(
            i as int,
            WarmConn { ready: true, ..before[i as int] },
        ),
        EndpointEvent::Down(i) if i < before.len() => before.update(
            i as int,
            WarmConn { ready: false, ..before[i as int] },
        ),
        _ => before,
    }
}

/// The connection that is asked as the `i`-th of `n`, with the cursor at `start`.
pub open spec fn turn(start: usize, i: int, n: nat) -> int {
    (if start + i <= usize::MAX {
        start + i
    } else {
        start + i - usize::MAX - 1
    }) % (n as int)
}

/// Where the round-robin cursor goes next.
pub open spec fn advanced(cursor: usize) -> usize {
    if cursor == usize::MAX {
        0
    } else {
        (cursor + 1) as usize
    }
}

/// Whether connection `k` is the one to take the next request: it is ready, and
/// none that is asked before it is.
pub open spec fn is_pick(conns: Seq<WarmConn>, start: usize, k: int) -> bool {
    exists|i: int| #[trigger]
        picked_at(conns, start, i) && k == turn(start, i, conns.len())
}

/// The first connection that is ready is asked as the `i`-th.
pub open spec fn picked_at(conns: Seq<WarmConn>, start: usize, i: int) -> bool {
    &&& 0 <= i < conns.len()
    &&& conns[turn(start, i, conns.len())].ready
    &&& none_ready_before(conns, start, i)
}

/// None of the first `i` connections that are asked is ready.
pub open spec fn none_ready_before(conns: Seq<WarmConn>, start: usize, i: int) -> bool {
    forall|j: int| 0 <= j < i ==> !(#[trigger] conns[turn(start, j, conns.len())]).ready
}

/// The connection to take the next request, if one is ready.
pub open spec fn pick_of(conns: Seq<WarmConn>, start: usize) -> Option<usize> {
    if exists|k: usize| is_pick(conns, start, k as int) {
        Some(choose|k: usize| is_pick(conns, start, k as int))
    } else {
        None
    }
}

/// Whether any connection is ready.
pub open spec fn any_ready(conns: Seq<WarmConn>) -> bool {
    exists|i: int| 0 <= i < conns.len() && (#[trigger] conns[i]).ready
}

/// How many connections are ready.
pub open spec fn live_count(conns: Seq<WarmConn>) -> nat
    decreases conns.len(),
{
    if conns.len() == 0 {
        0
    } else {
        live_count(conns.drop_last()) + if conns.last().ready {
            1nat
        } else {
            0
        }
    }
}

/// A sequencer endpoint and the warm connections pointing at it.
#[derive(Debug)]
pub struct Endpoint {
    /// Address every connection here goes to.
    pub ip: IpAddr,
    /// Warm connections, `conns_per_ip` of them.
    pub conns: Vec<WarmConn>,
    /// Health and latency.
    pub state: EndpointState,
    /// Round-robin cursor for [`Endpoint::pick_conn`].
    pub next: usize,
}

impl Endpoint {
    /// Whether this is the endpoint for `ip` before anything became known of it.
    pub open spec fn is_fresh(self, ip: IpAddr, cfg: Config) -> bool {
        &&& self.ip == ip
        &&& self.conns.len() == cfg.conns_per_ip
        &&& forall|i: int|
            0 <= i < self.conns.len() ==> #[trigger] self.conns[i] == (WarmConn { ip, ready: false })
        &&& self.state == (EndpointState { ewma_us: None, consecutive_failures: 0, last_failure: None })
        &&& self.next == 0
    }

    /// Whether a snapshot says what holds of this endpoint.
    pub open spec fn is_described_by(self, s: EndpointStats) -> bool {
        &&& s.ip == self.ip
        &&& s.live_conns == live_count(self.conns@)
        &&& s.total_conns == self.conns.len()
        &&& s.ewma_latency is None <==> self.state.ewma_us is None
        &&& s.ewma_latency matches Some(d) ==> self.state.ewma_us matches Some(us) && d@ == us
            * 1_000
        &&& s.consecutive_failures == self.state.consecutive_failures
        &&& match s.last_failure {
            Some(why) => self.state.reason() == Some(why@),
            None => self.state.reason() is None,
        }
    }

    /// Whether `after` is this endpoint once an event is taken note of.
    pub open spec fn answers(self, event: EndpointEvent, after: Endpoint) -> bool {
        &&& after.ip == self.ip
        &&& after.next == self.next
        &&& after.conns@ == conns_on(self.conns@, event)
        &&& state_on(self.state, event, after.state)
    }

    /// The endpoint for `ip`, with every connection still down.
    pub fn spawn(ip: IpAddr, cfg: &Config) -> (e: Endpoint)
        ensures
            e.is_fresh(ip, *cfg),
    {
        let mut conns: Vec<WarmConn> = Vec::new();
        let n: usize = cfg.conns_per_ip;
        for i in 0..n
            invariant
                conns.len() == i,
                forall|j: int|
                    0 <= j < i ==> #[trigger] conns[j] == (WarmConn { ip, ready: false }),
        {
            conns.push(WarmConn::new(ip));
        }
        Endpoint { ip, conns, state: EndpointState::new(), next: 0 }
    }

    /// The tasks that warm this endpoint's connections and keep them so.
    pub fn tasks(&self, cfg: &Config) -> (tasks: Vec<Task>)
        ensures
            tasks@ == tasks_for(self.conns.len() as nat, cfg.probe_interval@ != 0),
    {
        let mut tasks: Vec<Task> = Vec::new();
        let n: usize = self.conns.len();
        let probing = !cfg.probe_interval.is_zero();
        for i in 0..n
            invariant
                tasks@ == tasks_for(i as nat, probing),
        {
            tasks.push(Task::Supervise(i));
            if probing {
                tasks.push(Task::Probe(i));
            }
        }
        tasks
    }

    /// Take note of an event.
    ///
    /// A rejection is a healthy, fast answer from a working endpoint, so it
    /// counts as a latency sample, not a fault.
    pub fn apply(&mut self, event: &EndpointEvent)
        ensures
            old(self).answers(*event, *final(self)),
    {
        match event {
            EndpointEvent::Up(i) => {
                if *i < self.conns.len() {
                    self.conns[*i].mark_up();
                }
            },
            EndpointEvent::Down(i) => {
                if *i < self.conns.len() {
                    self.conns[*i].mark_down();
                }
            },
            EndpointEvent::Failed(e) => self.state.record_failure(e),
            EndpointEvent::Submitted { outcome, latency } => {
                match outcome {
                    Ok(()) | Err(Error::Rejected { .. }) => self.state.record_success(*latency),
                    Err(e) => self.state.record_failure(e),
                }
            },
            EndpointEvent::Probed { outcome, latency } => {
                match outcome {
                    Ok(()) => self.state.record_success(*latency),
                    Err(e) => self.state.record_failure(e),
                }
            },
        }
    }

    /// Whether `after` is this endpoint once the supervisor of connection `conn`
    /// decided on an action.
    pub open spec fn follows(self, conn: usize, action: ConnAction, after: Endpoint) -> bool {
        match action {
            ConnAction::Publish => self.answers(EndpointEvent::Up(conn), after),
            ConnAction::Connect => after == self,
            ConnAction::Pause { failure, .. } => {
                &&& after.ip == self.ip
                &&& after.next == self.next
                &&& after.conns@ == conns_on(self.conns@, EndpointEvent::Down(conn))
                &&& match failure {
                    Some(e) => counted_failure(self.state, e, after.state),
                    None => after.state == self.state,
                }
            },
        }
    }

    /// Take note of what the supervisor of a connection decided: the send path may
    /// choose the connection while it is published and not while it pauses, and a
    /// failure is counted.
    pub fn follow(&mut self, conn: usize, action: &ConnAction)
        ensures
            old(self).follows(conn, *action, *final(self)),
    {
        match action {
            ConnAction::Publish => self.apply(&EndpointEvent::Up(conn)),
            ConnAction::Connect => {},
            ConnAction::Pause { failure, .. } => {
                self.apply(&EndpointEvent::Down(conn));
                if let Some(e) = failure {
                    self.state.record_failure(e);
                }
            },
        }
    }

    /// A connection that can take a request right now, round-robin.
    pub fn pick_conn(&mut self) -> (r: Option<usize>)
        ensures
            *final(self) == (Endpoint { next: advanced(old(self).next), ..*old(self) }),
            r == pick_of(old(self).conns@, old(self).next),
            match r {
                Some(k) => k < old(self).conns.len() && is_pick(
                    old(self).conns@,
                    old(self).next,
                    k as int,
                ),
                None => none_ready_before(
                    old(self).conns@,
                    old(self).next,
                    old(self).conns.len() as int,
                ),
            },
    {
        let n: usize = self.conns.len();
        let start: usize = self.next;
        self.next = start.wrapping_add(1);
        for i in 0..n
            invariant
                n == self.conns.len(),
                none_ready_before(self.conns@, start, i as int),
                *self == (Endpoint { next: advanced(start), ..*old(self) }),
                start == old(self).next,
        {
            let k: usize = start.wrapping_add(i) % n;
            assert(k == turn(start, i as int, n as nat));
            if self.conns[k].is_ready() {
                proof {
                    assert(picked_at(self.conns@, start, i as int));
                    assert(is_pick(self.conns@, start, k as int));
                    let first = choose|k: usize| is_pick(self.conns@, start, k as int);
                    the_pick_is_unique(self.conns@, start, k as int, first as int);
                }
                return Some(k);
            }
        }
        None
    }

    /// Whether any connection here can take a request right now.
    pub fn is_ready(&self) -> (b: bool)
        ensures
            b == any_ready(self.conns@),
    {
        for i in 0..self.conns.len()
            invariant
                forall|j: int| 0 <= j < i ==> !(#[trigger] self.conns[j]).ready,
        {
            if self.conns[i].is_ready() {
                assert(self.conns@[i as int].ready);
                return true;
            }
        }
        false
    }

    /// Sort key for the fan-out; see [`EndpointState::rank`].
    pub fn rank(&self) -> (r: (u32, u64))
        ensures
            r == self.state.key(),
    {
        self.state.rank()
    }

    /// Public snapshot of this endpoint's health.
    pub fn stats(&self) -> (s: EndpointStats)
        ensures
            self.is_described_by(s),
    {
        let mut live: usize = 0;
        for i in 0..self.conns.len()
            invariant
                live == live_count(self.conns@.take(i as int)),
                live <= i,
        {
            proof {
                assert(self.conns@.take(i + 1).drop_last() =~= self.conns@.take(i as int));
            }
            if self.conns[i].is_ready() {
                live += 1;
            }
        }
        assert(self.conns@.take(self.conns.len() as int) =~= self.conns@);
        EndpointStats {
            ip: self.ip,
            live_conns: live,
            total_conns: self.conns.len(),
            ewma_latency: self.state.ewma(),
            consecutive_failures: self.state.failures(),
            last_failure: self.state.last_failure(),
        }
    }
}

/// A ready connection is found, wherever the cursor stands short of its wrap.
pub proof fn a_ready_connection_is_found(conns: Seq<WarmConn>, start: usize)
    requires
        any_ready(conns),
        start + conns.len() <= usize::MAX + 1,
    ensures
        !none_ready_before(conns, start, conns.len() as int),
{
    let n = conns.len() as int;
    let k = choose|k: int| 0 <= k < conns.len() && (#[trigger] conns[k]).ready;
    let r = start as int % n;
    let q = start as int / n;
    let i = if k >= r {
        k - r
    } else {
        k + n - r
    };
    vstd::arithmetic::div_mod::lemma_fundamental_div_mod(start as int, n);
    vstd::arithmetic::div_mod::lemma_mod_bound(start as int, n);
    vstd::arithmetic::div_mod::lemma_mod_multiples_vanish(q, k, n);
    vstd::arithmetic::div_mod::lemma_mod_multiples_vanish(q + 1, k, n);
    vstd::arithmetic::div_mod::lemma_small_mod(k as nat, n as nat);
    assert(n * (q + 1) == n * q + n) by (nonlinear_arith);
    assert(turn(start, i, conns.len()) == k);
    assert(conns[turn(start, i, conns.len())].ready);
}

/// Where a ready connection is found, there is one to take the next request.
pub proof fn a_pick_exists(conns: Seq<WarmConn>, start: usize)
    requires
        conns.len() <= usize::MAX,
        !none_ready_before(conns, start, conns.len() as int),
    ensures
        pick_of(conns, start) is Some,
{
    let n = conns.len();
    let j = choose|j: int| 0 <= j < n && (#[trigger] conns[turn(start, j, n)]).ready;
    first_ready(conns, start, j);
    let i = choose|i: int| picked_at(conns, start, i);
    vstd::arithmetic::div_mod::lemma_mod_bound(
        if start + i <= usize::MAX {
            start + i
        } else {
            start + i - usize::MAX - 1
        },
        n as int,
    );
    let k = turn(start, i, n) as usize;
    assert(is_pick(conns, start, k as int));
}

/// Among the connections asked up to the `j`-th, which is ready, there is a
/// first one that is.
proof fn first_ready(conns: Seq<WarmConn>, start: usize, j: int)
    requires
        0 <= j < conns.len(),
        conns[turn(start, j, conns.len())].ready,
    ensures
        exists|i: int| picked_at(conns, start, i),
    decreases j,
{
    if none_ready_before(conns, start, j) {
        assert(picked_at(conns, start, j));
    } else {
        let k = choose|k: int|
            0 <= k < j && (#[trigger] conns[turn(start, k, conns.len())]).ready;
        first_ready(conns, start, k);
    }
}

/// At most one connection is the one to take the next request.
pub proof fn the_pick_is_unique(conns: Seq<WarmConn>, start: usize, a: int, b: int)
    requires
        is_pick(conns, start, a),
        is_pick(conns, start, b),
    ensures
        a == b,
{
    let n = conns.len();
    let i = choose|i: int| #[trigger] picked_at(conns, start, i) && a == turn(start, i, n);
    let j = choose|j: int| #[trigger] picked_at(conns, start, j) && b == turn(start, j, n);
    assert(conns[turn(start, i, n)].ready);
    assert(conns[turn(start, j, n)].ready);
}

/// While every connection is ready, requests go to each in turn.
pub proof fn ready_connections_take_turns(conns: Seq<WarmConn>, start: usize, k: int)
    requires
        conns.len() > 0,
        start < usize::MAX,
        forall|i: int| 0 <= i < conns.len() ==> (#[trigger] conns[i]).ready,
    ensures
        is_pick(conns, start, k) ==> k == start as int % conns.len() as int,
        is_pick(conns, advanced(start), k) ==> k == (start + 1) % conns.len() as int,
{
    let n = conns.len();
    vstd::arithmetic::div_mod::lemma_mod_bound(start as int, n as int);
    vstd::arithmetic::div_mod::lemma_mod_bound(start + 1, n as int);
    assert(picked_at(conns, start, 0));
    assert(picked_at(conns, advanced(start), 0));
    if is_pick(conns, start, k) {
        the_pick_is_unique(conns, start, k, turn(start, 0, n));
    }
    if is_pick(conns, advanced(start), k) {
        the_pick_is_unique(conns, advanced(start), k, turn(advanced(start), 0, n));
    }
}

/// An endpoint is ready exactly when it has live connections, of which there are
/// no more than connections.
pub proof fn ready_means_live(conns: Seq<WarmConn>)
    ensures
        any_ready(conns) <==> live_count(conns) > 0,
        live_count(conns) <= conns.len(),
    decreases conns.len(),
{
    if conns.len() > 0 {
        let before = conns.drop_last();
        ready_means_live(before);
        if any_ready(before) {
            let i = choose|i: int| 0 <= i < before.len() && (#[trigger] before[i]).ready;
            assert(conns[i].ready);
        }
        if conns.last().ready {
            assert(conns[conns.len() - 1].ready);
        }
        if any_ready(conns) && !conns.last().ready {
            let i = choose|i: int| 0 <= i < conns.len() && (#[trigger] conns[i]).ready;
            assert(before[i].ready);
        }
    }
}

/// A connection that came up makes its endpoint ready, and one that went down
/// leaves it so only by the others.
pub proof fn connections_make_the_endpoint_ready(before: Seq<WarmConn>, i: usize)
    requires
        i < before.len(),
    ensures
        any_ready(conns_on(before, EndpointEvent::Up(i))),
        any_ready(conns_on(before, EndpointEvent::Down(i))) <==> exists|j: int|
            0 <= j < before.len() && j != i && (#[trigger] before[j]).ready,
{
    let up = conns_on(before, EndpointEvent::Up(i));
    let down = conns_on(before, EndpointEvent::Down(i));
    assert(up[i as int].ready);
    if any_ready(down) {
        let j = choose|j: int| 0 <= j < down.len() && (#[trigger] down[j]).ready;
        assert(j != i && before[j].ready);
    }
    if exists|j: int| 0 <= j < before.len() && j != i && (#[trigger] before[j]).ready {
        let j = choose|j: int| 0 <= j < before.len() && j != i && (#[trigger] before[j]).ready;
        assert(down[j].ready);
    }
}

/// A rejection counts as a healthy answer: it leaves the same health as a success
/// that took as long.
pub proof fn a_rejection_is_a_healthy_answer(
    before: EndpointState,
    latency: Duration,
    e: Error,
    after: EndpointState,
)
    requires
        e is Rejected,
    ensures
        state_on(before, EndpointEvent::Submitted { outcome: Err(e), latency }, after) <==> state_on(
            before,
            EndpointEvent::Submitted { outcome: Ok(()), latency },
            after,
        ),
{
}

/// How a request and the reading of its answer went.
#[derive(Debug)]
pub enum ExchangeEvent {
    /// The request was not answered in time.
    SendTimedOut,
    /// The request could not be sent.
    SendFailed(Error),
    /// The body was not read in time.
    BodyTimedOut,
    /// The body ran past [`MAX_BODY`].
    BodyTooLong,
    /// The connection failed mid-read, and why.
    BodyFailed(String),
    /// An answer was read to its end.
    Answered {
        /// HTTP status code.
        status: u16,
        /// Response body.
        body: Bytes,
    },
}

/// The body ran past [`MAX_BODY`].
pub open spec fn too_long(ip: IpAddr) -> Fault {
    Fault::BadResponse {
        ip,
        message: "response body exceeded "@ + crate::text::decimal(MAX_BODY as nat) + " bytes"@,
    }
}

/// The error for a body that ran past [`MAX_BODY`].
fn too_long_err(ip: IpAddr) -> (e: Error)
    ensures
        e@ == too_long(ip),
{
    let mut message = "response body exceeded ".to_owned();
    push_numeral(&mut message, MAX_BODY as u64, 10);
    message.append(" bytes");
    Error::BadResponse { ip, message }
}

/// What an exchange comes to: the body of the answer, or the fault.
pub open spec fn exchange_outcome(
    ip: IpAddr,
    timeout: Duration,
    event: ExchangeEvent,
) -> Result<Bytes, Fault> {
    match event {
        ExchangeEvent::SendTimedOut | ExchangeEvent::BodyTimedOut => Err(Fault::Timeout(timeout)),
        ExchangeEvent::SendFailed(e) => Err(e@),
        ExchangeEvent::BodyTooLong => Err(too_long(ip)),
        ExchangeEvent::BodyFailed(why) => Err(
            Fault::Transport { ip, message: "reading response body failed: "@ + why@ },
        ),
        ExchangeEvent::Answered { status, body } => if crate::buf::content(body).len() > MAX_BODY {
            Err(too_long(ip))
        } else if status == 200 {
            Ok(body)
        } else {
            let head = crate::rpc::head(crate::buf::content(body), 512);
            Err(Fault::HttpStatus { ip, status, body: crate::text::utf8_lossy(head) })
        },
    }
}

/// Decide what a request on one connection, with its answer, comes to.
///
/// # Errors
///
/// [`Error::Timeout`] if either the exchange or the body read exceeds
/// `timeout`, [`Error::HttpStatus`] for a non-200 answer, [`Error::Transport`]
/// if the connection fails mid-read, and [`Error::BadResponse`] for a body that
/// runs past [`MAX_BODY`].
pub fn exchange(ip: IpAddr, timeout: Duration, event: ExchangeEvent) -> (r: Result<Bytes, Error>)
    ensures
        crate::rpc::outcome(r) == exchange_outcome(ip, timeout, event),
        event matches ExchangeEvent::Answered { status, body } ==> {
            let head = crate::rpc::head(crate::buf::content(body), 512);
            status != 200 && crate::buf::content(body).len() <= MAX_BODY
                && vstd::utf8::valid_utf8(head) ==> crate::rpc::outcome(r) == Err::<
                Bytes,
                Fault,
            >(Fault::HttpStatus { ip, status, body: vstd::utf8::decode_utf8(head) })
        },
{
    match event {
        ExchangeEvent::SendTimedOut | ExchangeEvent::BodyTimedOut => Err(Error::Timeout(timeout)),
        ExchangeEvent::SendFailed(e) => Err(e),
        ExchangeEvent::BodyTooLong => Err(too_long_err(ip)),
        ExchangeEvent::BodyFailed(why) => {
            let mut message = "reading response body failed: ".to_owned();
            message.append(&why);
            Err(Error::Transport { ip, message })
        },
        ExchangeEvent::Answered { status, body } => {
            let bytes = as_slice(&body);
            if bytes.len() > MAX_BODY {
                return Err(too_long_err(ip));
            }
            if status == 200 {
                return Ok(body);
            }
            let text = if bytes.len() <= 512 {
                from_utf8_lossy(bytes)
            } else {
                assert(bytes@.subrange(0, 512) =~= bytes@.take(512));
                from_utf8_lossy(slice_subrange(bytes, 0, 512))
            };
            Err(Error::HttpStatus { ip, status, body: text })
        },
    }
}

/// What one copy of a transaction comes to: the exchange, and then its answer held
/// against the hash that was submitted. `parsed` is the envelope in the body of the
/// answer, or why there is none.
pub fn answer_of(
    ip: IpAddr,
    timeout: Duration,
    event: ExchangeEvent,
    parsed: Result<Envelope, String>,
    expected: TxHash,
) -> (r: Result<(), Error>)
    ensures
        crate::rpc::outcome(r) == copy_outcome(ip, timeout, event, parsed, expected@),
{
    match exchange(ip, timeout, event) {
        Ok(body) => parse_send_response(ip, as_slice(&body), parsed, expected),
        Err(e) => Err(e),
    }
}

/// What one copy of a transaction comes to.
pub open spec fn copy_outcome(
    ip: IpAddr,
    timeout: Duration,
    event: ExchangeEvent,
    parsed: Result<Envelope, String>,
    expected: Seq<u8>,
) -> Result<(), Fault> {
    match exchange_outcome(ip, timeout, event) {
        Ok(body) => crate::rpc::send_verdict(ip, crate::buf::content(body), parsed, expected),
        Err(fault) => Err(fault),
    }
}

/// A copy succeeds only by a full answer within the cap that names the hash that
/// was submitted.
pub proof fn a_copy_succeeds_only_by_its_own_hash(
    ip: IpAddr,
    timeout: Duration,
    event: ExchangeEvent,
    parsed: Result<Envelope, String>,
    expected: Seq<u8>,
)
    ensures
        copy_outcome(ip, timeout, event, parsed, expected) is Ok <==> {
            &&& event matches ExchangeEvent::Answered { status, body }
            &&& status == 200
            &&& crate::buf::content(body).len() <= MAX_BODY
            &&& parsed matches Ok(env)
            &&& env.error is None
            &&& env.result matches Some(hash)
            &&& crate::types::parsed_hash(hash@) == Ok::<Seq<u8>, crate::hex::HexError>(expected)
        },
{
    if let ExchangeEvent::Answered { body, .. } = event {
        crate::rpc::only_the_own_hash_is_a_success(
            ip,
            crate::buf::content(body),
            parsed,
            expected,
        );
    }
}

/// How a supervised connection and its endpoint take an event together: what the
/// supervisor decides on it is what the endpoint follows.
pub open spec fn supervised(
    s: Supervisor,
    e: Endpoint,
    conn: usize,
    event: ConnEvent,
    s_after: Supervisor,
    e_after: Endpoint,
) -> bool {
    exists|action: ConnAction| #[trigger]
        s.answers(event, s_after, action) && e.follows(conn, action, e_after)
}

/// A connection that comes up is ready, with the health of its endpoint untouched.
pub proof fn an_established_connection_is_ready(
    s: Supervisor,
    e: Endpoint,
    conn: usize,
    s_after: Supervisor,
    e_after: Endpoint,
)
    requires
        conn < e.conns.len(),
        supervised(s, e, conn, ConnEvent::Established, s_after, e_after),
    ensures
        e_after.conns@[conn as int].ready,
        e_after.state == e.state,
{
}

/// However a round ends, the connection is not ready after it. A graceful close
/// leaves the health of the endpoint as it was; a failed attempt, a broken
/// connection and an abnormal end each count one failure, and keep its reason.
pub proof fn an_ended_connection_is_not_ready(
    s: Supervisor,
    e: Endpoint,
    conn: usize,
    event: ConnEvent,
    s_after: Supervisor,
    e_after: Endpoint,
)
    requires
        conn < e.conns.len(),
        !(event is Established || event is Woke),
        supervised(s, e, conn, event, s_after, e_after),
    ensures
        !e_after.conns@[conn as int].ready,
        event matches ConnEvent::Closed(ClosedReason::Graceful) ==> e_after.state == e.state,
        !(event matches ConnEvent::Closed(ClosedReason::Graceful)) ==> {
            &&& crate::conn::closing_fault(s.ip, event) matches Some(fault)
            &&& e_after.state.reason() == Some(fault.text())
            &&& e_after.state.ewma_us == e.state.ewma_us
            &&& e_after.state.consecutive_failures == if e.state.consecutive_failures == u32::MAX {
                0
            } else {
                e.state.consecutive_failures + 1
            }
        },
{
}

/// One round of supervision: the connection comes up and later ends. It is ready in
/// between and not after, and the round counts a failure unless the close was
/// graceful. The next delay is the floor.
pub proof fn a_round_of_supervision(
    s: Supervisor,
    e: Endpoint,
    conn: usize,
    s_up: Supervisor,
    e_up: Endpoint,
    end: ConnEvent,
    s_after: Supervisor,
    e_after: Endpoint,
)
    requires
        conn < e.conns.len(),
        !(end is Established || end is Woke),
        supervised(s, e, conn, ConnEvent::Established, s_up, e_up),
        supervised(s_up, e_up, conn, end, s_after, e_after),
    ensures
        e_up.conns@[conn as int].ready,
        !e_after.conns@[conn as int].ready,
        s_after.backoff@ == s.min_backoff@,
        match crate::conn::closing_fault(s.ip, end) {
            None => e_after.state == e.state,
            Some(fault) => {
                &&& e_after.state.reason() == Some(fault.text())
                &&& e_after.state.consecutive_failures == if e.state.consecutive_failures
                    == u32::MAX {
                    0
                } else {
                    e.state.consecutive_failures + 1
                }
            },
        },
{
    an_established_connection_is_ready(s, e, conn, s_up, e_up);
    an_ended_connection_is_not_ready(s_up, e_up, conn, end, s_after, e_after);
}

/// A sample is the latency in whole microseconds, rounded down, and a latency past
/// all counting is the largest sample: a longer trip never gives a smaller one.
pub proof fn samples_follow_the_latency(latency: Duration, longer: Duration)
    requires
        latency@ <= longer@,
    ensures
        sample_of(latency) <= sample_of(longer),
        sample_of(latency) * 1_000 <= latency@,
        sample_of(latency) < u64::MAX ==> latency@ < (sample_of(latency) + 1) * 1_000,
        sample_of(latency) <= u64::MAX,
{
}

/// The average moves one eighth of the way to a new sample, to within the rounding
/// of whole microseconds. Before there is an average, the sample is it.
pub proof fn a_sample_weighs_an_eighth(prev: nat, sample: nat)
    ensures
        prev == 0 ==> smoothed(prev, sample) == sample,
        prev > 0 ==> 7 * prev + sample - 8 < 8 * smoothed(prev, sample) < 7 * prev + sample + 8,
{
}

/// A higher sample never gives a lower average.
pub proof fn the_average_follows_the_samples(prev: nat, sample: nat, higher: nat)
    requires
        sample <= higher,
    ensures
        smoothed(prev, sample) <= smoothed(prev, higher),
{
}

/// A submission is a healthy answer exactly where the copy was accepted or the
/// sequencer rejected it. For every other error the failure count goes up by one, the
/// reason is kept, and the latency average is untouched.
pub proof fn only_answers_of_the_sequencer_are_healthy(
    before: EndpointState,
    outcome: Result<(), Error>,
    latency: Duration,
    after: EndpointState,
)
    requires
        state_on(before, EndpointEvent::Submitted { outcome, latency }, after),
    ensures
        match outcome {
            Ok(()) => is_cleared(before, latency, after),
            Err(Error::Rejected { .. }) => is_cleared(before, latency, after),
            Err(e) => {
                &&& after.ewma_us == before.ewma_us
                &&& before.consecutive_failures < u32::MAX ==> after.consecutive_failures
                    == before.consecutive_failures + 1
                &&& after.last_failure matches Some(why) && why@ == e@.text()
            },
        },
{
}

/// A probe is healthy exactly where it was answered. Any error, of whatever kind, is
/// one more failure that keeps the latency average and leaves its reason.
pub proof fn only_answered_probes_are_healthy(
    before: EndpointState,
    outcome: Result<(), Error>,
    latency: Duration,
    after: EndpointState,
)
    requires
        state_on(before, EndpointEvent::Probed { outcome, latency }, after),
    ensures
        match outcome {
            Ok(()) => is_cleared(before, latency, after),
            Err(e) => {
                &&& after.ewma_us == before.ewma_us
                &&& before.consecutive_failures < u32::MAX ==> after.consecutive_failures
                    == before.consecutive_failures + 1
                &&& after.last_failure matches Some(why) && why@ == e@.text()
            },
        },
{
}

/// A reported failure is one more failure, and a connection that comes or goes is
/// none.
pub proof fn other_events_count_as_they_say(
    before: EndpointState,
    event: EndpointEvent,
    after: EndpointState,
)
    requires
        state_on(before, event, after),
    ensures
        event is Up || event is Down ==> after == before,
        event matches EndpointEvent::Failed(e) ==> {
            &&& after.ewma_us == before.ewma_us
            &&& before.consecutive_failures < u32::MAX ==> after.consecutive_failures
                == before.consecutive_failures + 1
            &&& after.last_failure matches Some(why) && why@ == e@.text()
        },
{
}

/// No failure is left, and the average has taken the latency in.
pub open spec fn is_cleared(
    before: EndpointState,
    latency: Duration,
    after: EndpointState,
) -> bool {
    &&& after.consecutive_failures == 0
    &&& after.last_failure is None
    &&& after.ewma_us matches Some(us) && match before.ewma_us {
        None => us == sample_of(latency),
        Some(prev) => us == smoothed(prev as nat, sample_of(latency)),
    }
}

/// A submission that fails demotes its endpoint: it ranks behind where it was. One
/// that is answered takes it in front of every endpoint that is failing.
pub proof fn failing_demotes_and_answering_promotes(
    before: EndpointState,
    outcome: Result<(), Error>,
    latency: Duration,
    after: EndpointState,
    other: EndpointState,
)
    requires
        state_on(before, EndpointEvent::Submitted { outcome, latency }, after),
        before.consecutive_failures < u32::MAX,
        other.consecutive_failures > 0,
    ensures
        outcome matches Err(e) ==> (!(e is Rejected) ==> ranks_before(before.key(), after.key())),
        outcome is Ok ==> ranks_before(after.key(), other.key()),
        outcome matches Err(e) ==> (e is Rejected ==> ranks_before(after.key(), other.key())),
{
}

/// Ranks are strictly ordered: no rank comes before itself, the order chains, and of
/// two different ranks one comes first.
pub proof fn ranks_are_ordered(a: (u32, u64), b: (u32, u64), c: (u32, u64))
    ensures
        !ranks_before(a, a),
        ranks_before(a, b) && ranks_before(b, c) ==> ranks_before(a, c),
        a != b ==> ranks_before(a, b) || ranks_before(b, a),
{
}

/// Among endpoints that fail equally often, the lower smoothed latency ranks first.
pub proof fn lower_latency_ranks_first(a: EndpointState, b: EndpointState)
    requires
        a.consecutive_failures == b.consecutive_failures,
        a.ewma_us is Some,
        b.ewma_us is Some,
        a.ewma_us->0 < b.ewma_us->0,
    ensures
        ranks_before(a.key(), b.key()),
{
}

/// An event touches no more than the connection it names, and sets that one to what
/// it says. Other events touch none.
pub proof fn events_touch_their_own_connection(before: Seq<WarmConn>, event: EndpointEvent, i: int)
    requires
        0 <= i < before.len(),
    ensures
        conns_on(before, event).len() == before.len(),
        conns_on(before, event)[i].ip == before[i].ip,
        conns_on(before, event)[i].ready == if event == EndpointEvent::Up(i as usize) && i
            <= usize::MAX {
            true
        } else if event == EndpointEvent::Down(i as usize) && i <= usize::MAX {
            false
        } else {
            before[i].ready
        },
{
}

/// What an event does to an endpoint: its address and its cursor stay, and health
/// and connections go by the event.
pub proof fn events_leave_the_rest(before: Endpoint, event: EndpointEvent, after: Endpoint)
    requires
        before.answers(event, after),
    ensures
        after.ip == before.ip,
        after.next == before.next,
        after.conns.len() == before.conns.len(),
        state_on(before.state, event, after.state),
        after.conns@ == conns_on(before.conns@, event),
{
}

/// The connection to take a request is ready, and from the cursor on no connection
/// before it is.
pub proof fn the_pick_is_the_next_ready_one(conns: Seq<WarmConn>, start: usize, k: int, j: int)
    requires
        is_pick(conns, start, k),
        start + conns.len() <= usize::MAX + 1,
        0 <= j < conns.len(),
        conns[j].ready,
    ensures
        0 <= k < conns.len(),
        conns[k].ready,
        (k - start) % (conns.len() as int) <= (j - start) % (conns.len() as int),
{
    let n = conns.len() as int;
    let i = choose|i: int| #[trigger]
        picked_at(conns, start, i) && k == turn(start, i, conns.len());
    vstd::arithmetic::div_mod::lemma_mod_bound(start + i, n);
    // The place of `k` from the cursor on is `i`.
    distance_is_place(start as int, i, n);
    let m = (j - start) % n;
    vstd::arithmetic::div_mod::lemma_mod_bound(j - start, n);
    // The connection asked as the `m`-th is `j`.
    place_is_distance(start as int, j, n);
    if m < i {
        assert(turn(start, m, conns.len()) == j);
        assert(!conns[turn(start, m, conns.len())].ready);
    }
}

/// The cursor steps by one from turn to turn, starts over behind the largest number
/// there is, and always names a connection.
pub proof fn turns_step_by_one(start: usize, i: int, n: nat)
    requires
        0 <= i < n,
        n <= usize::MAX,
    ensures
        0 <= turn(start, i, n) < n,
        start + i <= usize::MAX ==> turn(start, i, n) == (start + i) % (n as int),
        turn(usize::MAX, 1, n) == 0,
        turn(start, i + 1, n) == turn(advanced(start), i, n),
{
    vstd::arithmetic::div_mod::lemma_mod_bound(start + i, n as int);
    vstd::arithmetic::div_mod::lemma_mod_bound(start + i - usize::MAX - 1, n as int);
    vstd::arithmetic::div_mod::lemma_small_mod(0, n);
}

proof fn distance_is_place(start: int, i: int, n: int)
    requires
        0 <= i < n,
    ensures
        ((start + i) % n - start) % n == i,
{
    vstd::arithmetic::div_mod::lemma_sub_mod_noop_right(0, 0, n);
    vstd::arithmetic::div_mod::lemma_sub_mod_noop(start + i, start, n);
    vstd::arithmetic::div_mod::lemma_sub_mod_noop((start + i) % n, start, n);
    vstd::arithmetic::div_mod::lemma_mod_twice(start + i, n);
    vstd::arithmetic::div_mod::lemma_small_mod(i as nat, n as nat);
    assert((start + i) - start == i);
}

proof fn place_is_distance(start: int, j: int, n: int)
    requires
        0 <= j < n,
    ensures
        (start + (j - start) % n) % n == j,
{
    vstd::arithmetic::div_mod::lemma_add_mod_noop_right(start, j - start, n);
    vstd::arithmetic::div_mod::lemma_small_mod(j as nat, n as nat);
    assert(start + (j - start) == j);
}

/// Every connection is supervised, and probed exactly where probing is on, each by
/// one task.
pub proof fn every_connection_has_its_tasks(n: nat, probing: bool, i: usize)
    requires
        n <= usize::MAX,
    ensures
        tasks_for(n, probing).contains(Task::Supervise(i)) <==> i < n,
        tasks_for(n, probing).contains(Task::Probe(i)) <==> (probing && i < n),
        tasks_for(n, probing).len() == if probing {
            2 * n
        } else {
            n
        },
    decreases n,
{
    let all = tasks_for(n, probing);
    if n > 0 {
        let k = (n - 1) as nat;
        let fewer = tasks_for(k, probing);
        let one = fewer.push(Task::Supervise(k as usize));
        every_connection_has_its_tasks(k, probing, i);
        one_more(fewer, Task::Supervise(k as usize));
        one_more(one, Task::Probe(k as usize));
    }
}

proof fn one_more(s: Seq<Task>, x: Task)
    ensures
        forall|y: Task| #[trigger] s.push(x).contains(y) <==> s.contains(y) || y == x,
{
    assert forall|y: Task| #[trigger] s.push(x).contains(y) <==> s.contains(y) || y == x by {
        if s.contains(y) {
            let k = s.index_of(y);
            assert(s.push(x)[k] == y);
        }
        assert(s.push(x)[s.len() as int] == x);
    }
}

/// The number of live connections is the number of those that are ready.
pub proof fn live_connections_are_the_ready_ones(conns: Seq<WarmConn>)
    ensures
        live_count(conns) == conns.filter(|c: WarmConn| c.ready).len(),
    decreases conns.len(),
{
    reveal(Seq::filter);
    if conns.len() > 0 {
        live_connections_are_the_ready_ones(conns.drop_last());
    }
}

/// A snapshot says what holds: the live and all connections, the latency exactly
/// where there is one, the failures and the last reason.
pub proof fn a_snapshot_says_what_holds(e: Endpoint, s: EndpointStats)
    requires
        e.is_described_by(s),
    ensures
        s.ip == e.ip,
        s.total_conns == e.conns.len(),
        s.live_conns == e.conns@.filter(|c: WarmConn| c.ready).len(),
        s.consecutive_failures == e.state.consecutive_failures,
        s.ewma_latency is Some <==> e.state.ewma_us is Some,
        s.ewma_latency matches Some(d) ==> d@ == e.state.ewma_us->0 * 1_000,
        s.last_failure is Some <==> e.state.last_failure is Some,
        s.last_failure matches Some(why) ==> why@ == e.state.last_failure->0@,
{
    live_connections_are_the_ready_ones(e.conns@);
}

/// A fresh endpoint has the configured number of connections, none of them ready, no
/// failure and no latency.
pub proof fn a_fresh_endpoint_knows_nothing(e: Endpoint, ip: IpAddr, cfg: Config)
    requires
        e.is_fresh(ip, cfg),
    ensures
        e.ip == ip,
        e.conns.len() == cfg.conns_per_ip,
        !any_ready(e.conns@),
        forall|j: int| 0 <= j < e.conns@.len() ==> (#[trigger] e.conns@[j]).ip == ip,
        e.next == 0,
        e.state.consecutive_failures == 0,
        e.state.ewma_us is None,
        e.state.last_failure is None,
{
    assert forall|j: int| 0 <= j < e.conns@.len() implies !(#[trigger] e.conns@[j]).ready by {
        assert(e.conns[j] == (WarmConn { ip, ready: false }));
    }
}

/// An exchange gives a body exactly where a full answer came with status 200 and no
/// more than the cap, and then it gives that body.
pub proof fn only_a_full_answer_is_a_body(ip: IpAddr, timeout: Duration, event: ExchangeEvent)
    ensures
        match exchange_outcome(ip, timeout, event) {
            Ok(given) => event == (ExchangeEvent::Answered { status: 200, body: given })
                && crate::buf::content(given).len() <= 65_536,
            Err(_) => !(event matches ExchangeEvent::Answered { status: 200, body }
                && crate::buf::content(body).len() <= 65_536),
        },
{
}

/// What an exchange fails with: the configured timeout, the error of the sending, a
/// transport failure with its reason, or the status with at most 512 bytes of the
/// page, each for the address it was tried on.
pub proof fn a_failed_exchange_says_why(ip: IpAddr, timeout: Duration, event: ExchangeEvent)
    ensures
        event is SendTimedOut || event is BodyTimedOut ==> exchange_outcome(ip, timeout, event)
            == Err::<Bytes, Fault>(Fault::Timeout(timeout)),
        event matches ExchangeEvent::SendFailed(e) ==> exchange_outcome(ip, timeout, event)
            == Err::<Bytes, Fault>(e@),
        event matches ExchangeEvent::BodyFailed(why) ==> exchange_outcome(ip, timeout, event)
            == Err::<Bytes, Fault>(
            Fault::Transport { ip, message: "reading response body failed: "@ + why@ },
        ),
        event is BodyTooLong ==> (exchange_outcome(ip, timeout, event) matches Err(
            Fault::BadResponse { ip: at, message },
        ) && at == ip && message == "response body exceeded "@ + crate::text::decimal(65_536)
            + " bytes"@),
        event matches ExchangeEvent::Answered { status, body } ==> {
            let bytes = crate::buf::content(body);
            &&& bytes.len() > 65_536 ==> exchange_outcome(ip, timeout, event)
                == exchange_outcome(ip, timeout, ExchangeEvent::BodyTooLong)
            &&& bytes.len() <= 512 && status != 200 ==> exchange_outcome(ip, timeout, event)
                == Err::<Bytes, Fault>(
                Fault::HttpStatus { ip, status, body: crate::text::utf8_lossy(bytes) },
            )
            &&& 512 < bytes.len() <= 65_536 && status != 200 ==> exchange_outcome(
                ip,
                timeout,
                event,
            ) == Err::<Bytes, Fault>(
                Fault::HttpStatus { ip, status, body: crate::text::utf8_lossy(bytes.take(512)) },
            )
        },
{
}

/// What a supervisor decides touches its own connection alone, and leaves address and
/// cursor. The end of a pause changes nothing at all.
pub proof fn a_supervisor_touches_its_own_connection(
    s: Supervisor,
    e: Endpoint,
    conn: usize,
    event: ConnEvent,
    s_after: Supervisor,
    e_after: Endpoint,
    i: int,
)
    requires
        supervised(s, e, conn, event, s_after, e_after),
        0 <= i < e.conns.len(),
    ensures
        e_after.ip == e.ip,
        e_after.next == e.next,
        e_after.conns.len() == e.conns.len(),
        i != conn ==> e_after.conns@[i] == e.conns@[i],
        event is Woke ==> e_after == e,
{
}

} // verus!
