//! The endpoint set: what DNS makes of it, and which endpoints a transaction
//! goes to.

use vstd::prelude::*;
use vstd::string::*;

use crate::addr::{AddressSet, IpAddr};
use crate::client::fanout_width;
use crate::config::Config;
use crate::conn::ConnAction;
use crate::endpoint::{Endpoint, EndpointEvent};
use crate::error::{Error, Fault};
use crate::types::EndpointStats;

verus! {

/// What the answer of the resolver comes to: addresses, at least one, or the
/// fault.
pub open spec fn resolved(host: Seq<char>, lookup: Result<Vec<IpAddr>, String>) -> Result<
    Seq<IpAddr>,
    Fault,
> {
    match lookup {
        Err(why) => Err(Fault::Dns { host, source: why@ }),
        Ok(addrs) => if addrs.len() == 0 {
            Err(Fault::Dns { host, source: "resolver returned no addresses"@ })
        } else {
            Ok(addrs@)
        },
    }
}

/// Turn the answer of the resolver into the set of the sequencer's addresses.
///
/// # Errors
///
/// [`Error::Dns`] if the lookup failed, or gave no address at all.
pub fn resolve(host: &str, lookup: Result<Vec<IpAddr>, String>) -> (r: Result<AddressSet, Error>)
    ensures
        match resolved(host@, lookup) {
            Err(fault) => r matches Err(e) && e@ == fault,
            Ok(addrs) => {
                &&& r matches Ok(set)
                &&& crate::addr::ascending(set@)
                &&& forall|ip: IpAddr| #[trigger] set@.contains(ip) <==> addrs.contains(ip)
            },
        },
{
    match lookup {
        Err(source) => Err(Error::Dns { host: host.to_owned(), source }),
        Ok(addrs) => {
            let ips = AddressSet::collect(&addrs);
            if ips.members().is_empty() {
                proof {
                    if addrs.len() > 0 {
                        assert(addrs@.contains(addrs@[0]));
                        assert(ips@.contains(addrs@[0]));
                    }
                }
                return Err(
                    Error::Dns {
                        host: host.to_owned(),
                        source: "resolver returned no addresses".to_owned(),
                    },
                );
            }
            assert(ips@.contains(ips@[0]));
            Ok(ips)
        },
    }
}

/// The addresses of endpoints.
pub open spec fn ips_of(endpoints: Seq<Endpoint>) -> Seq<IpAddr> {
    endpoints.map_values(|e: Endpoint| e.ip)
}

/// What a reconciliation changed.
#[derive(Debug)]
pub struct Reconciled {
    /// Addresses that have an endpoint now, and had none before.
    pub added: Vec<IpAddr>,
    /// Addresses that had an endpoint before, and have none now.
    pub retired: Vec<IpAddr>,
}

/// The endpoints, one per address, in ascending order of their addresses.
#[derive(Debug)]
pub struct Pool {
    endpoints: Vec<Endpoint>,
}

impl View for Pool {
    type V = Seq<Endpoint>;

    /// The endpoints, in ascending order of their addresses.
    closed spec fn view(&self) -> Seq<Endpoint> {
        self.endpoints@
    }
}

/// The endpoints for `ips`: those that `before` has are carried over as they
/// are, the others are fresh.
pub open spec fn is_reconciled(
    before: Seq<Endpoint>,
    ips: Seq<IpAddr>,
    cfg: Config,
    after: Seq<Endpoint>,
) -> bool {
    &&& after.len() == ips.len()
    &&& forall|i: int|
        0 <= i < ips.len() ==> is_carried_or_fresh(before, ips[i], cfg, #[trigger] after[i])
}

/// `e` is the endpoint that `before` has for `ip`, or a fresh one where it has
/// none.
pub open spec fn is_carried_or_fresh(
    before: Seq<Endpoint>,
    ip: IpAddr,
    cfg: Config,
    e: Endpoint,
) -> bool {
    &&& e.ip == ip
    &&& forall|j: int| 0 <= j < before.len() && (#[trigger] before[j]).ip == ip ==> e == before[j]
    &&& !ips_of(before).contains(ip) ==> e.is_fresh(ip, cfg)
}

/// Whether `r` and `after` are what the answer of the resolver makes of `before`.
///
/// The endpoints are those for the addresses it gave, with the surviving ones
/// carried over; without an address they stay as they are.
pub open spec fn is_refreshed(
    before: Seq<Endpoint>,
    cfg: Config,
    lookup: Result<Vec<IpAddr>, String>,
    after: Seq<Endpoint>,
    r: Result<Reconciled, Error>,
) -> bool {
    match resolved(cfg.host@, lookup) {
        Err(fault) => r matches Err(e) && e@ == fault && after == before,
        Ok(addrs) => {
            &&& r matches Ok(changes)
            &&& crate::addr::ascending(ips_of(after))
            &&& forall|ip: IpAddr| #[trigger] ips_of(after).contains(ip) <==> addrs.contains(ip)
            &&& is_reconciled(before, ips_of(after), cfg, after)
            &&& crate::addr::ascending(changes.added@)
            &&& forall|ip: IpAddr| #[trigger]
                changes.added@.contains(ip) <==> addrs.contains(ip) && !ips_of(before).contains(ip)
            &&& crate::addr::ascending(changes.retired@)
            &&& forall|ip: IpAddr| #[trigger]
                changes.retired@.contains(ip) <==> ips_of(before).contains(ip) && !addrs.contains(
                    ip,
                )
        },
    }
}

/// Whether `after` is `before` with an event on the endpoint for `ip` taken note
/// of.
pub open spec fn is_applied(
    before: Seq<Endpoint>,
    ip: IpAddr,
    event: EndpointEvent,
    after: Seq<Endpoint>,
) -> bool {
    &&& after.len() == before.len()
    &&& forall|i: int|
        0 <= i < before.len() ==> if (#[trigger] before[i]).ip == ip {
            before[i].answers(event, after[i])
        } else {
            after[i] == before[i]
        }
}

/// Whether `after` is `before` with the decision of a supervisor on the endpoint
/// for `ip` taken note of.
pub open spec fn is_followed(
    before: Seq<Endpoint>,
    ip: IpAddr,
    conn: usize,
    action: ConnAction,
    after: Seq<Endpoint>,
) -> bool {
    &&& after.len() == before.len()
    &&& forall|i: int|
        0 <= i < before.len() ==> if (#[trigger] before[i]).ip == ip {
            before[i].follows(conn, action, after[i])
        } else {
            after[i] == before[i]
        }
}

/// Whether these are fresh endpoints for the given addresses, one each, in
/// ascending order.
pub open spec fn is_cold(endpoints: Seq<Endpoint>, addrs: Seq<IpAddr>, cfg: Config) -> bool {
    &&& crate::addr::ascending(ips_of(endpoints))
    &&& forall|ip: IpAddr| #[trigger] ips_of(endpoints).contains(ip) <==> addrs.contains(ip)
    &&& forall|i: int|
        0 <= i < endpoints.len() ==> (#[trigger] endpoints[i]).is_fresh(endpoints[i].ip, cfg)
}

impl Pool {
    #[verifier::type_invariant]
    closed spec fn one_per_address(self) -> bool {
        crate::addr::ascending(ips_of(self.endpoints@))
    }

    /// A pool without endpoints.
    fn empty() -> (pool: Pool)
        ensures
            pool@ == Seq::<Endpoint>::empty(),
    {
        Pool { endpoints: Vec::new() }
    }
}

/// Whether `ip` is one of `ips`.
fn is_among(ips: &Vec<IpAddr>, ip: IpAddr) -> (b: bool)
    ensures
        b == ips@.contains(ip),
{
    for i in 0..ips.len()
        invariant
            forall|j: int| 0 <= j < i ==> #[trigger] ips[j] != ip,
    {
        if ips[i] == ip {
            assert(ips@[i as int] == ip);
            return true;
        }
    }
    false
}

/// Where the endpoint for `ip` stands.
fn position(endpoints: &Vec<Endpoint>, ip: IpAddr) -> (r: Option<usize>)
    ensures
        match r {
            Some(i) => i < endpoints.len() && endpoints[i as int].ip == ip,
            None => !ips_of(endpoints@).contains(ip),
        },
{
    for i in 0..endpoints.len()
        invariant
            forall|j: int| 0 <= j < i ==> (#[trigger] endpoints[j]).ip != ip,
    {
        if endpoints[i].ip == ip {
            return Some(i);
        }
    }
    proof {
        if ips_of(endpoints@).contains(ip) {
            let k = ips_of(endpoints@).index_of(ip);
            assert(endpoints@[k].ip == ip);
        }
    }
    None
}

/// Whether every endpoint has its address among `ips`.
fn all_among(endpoints: &Vec<Endpoint>, ips: &Vec<IpAddr>) -> (b: bool)
    ensures
        b == crate::order::is_within(ips_of(endpoints@), ips@),
{
    for i in 0..endpoints.len()
        invariant
            forall|j: int| 0 <= j < i ==> ips@.contains(#[trigger] ips_of(endpoints@)[j]),
    {
        if !is_among(ips, endpoints[i].ip) {
            assert(!ips@.contains(ips_of(endpoints@)[i as int]));
            return false;
        }
    }
    true
}

/// The order of addresses.
pub open spec fn address_order() -> spec_fn(IpAddr, IpAddr) -> bool {
    |a: IpAddr, b: IpAddr| a.precedes(b)
}

/// Endpoints that are `before` without those for `taken`.
spec fn is_rest(before: Seq<Endpoint>, taken: Seq<IpAddr>, rest: Seq<Endpoint>) -> bool {
    &&& crate::addr::ascending(ips_of(rest))
    &&& forall|j: int|
        0 <= j < before.len() && !taken.contains((#[trigger] before[j]).ip) ==> rest.contains(
            before[j],
        )
    &&& forall|m: int|
        0 <= m < rest.len() ==> before.contains(#[trigger] rest[m]) && !taken.contains(rest[m].ip)
}

impl Pool {
    /// Add endpoints for new addresses, retire those DNS has dropped.
    ///
    /// Endpoints that survive keep their warm connections and everything known
    /// of them, so a routine DNS refresh costs nothing.
    pub fn reconcile(&mut self, ips: &AddressSet, cfg: &Config) -> (r: Reconciled)
        ensures
            is_reconciled(old(self)@, ips@, *cfg, final(self)@),
            crate::addr::ascending(r.added@),
            forall|ip: IpAddr| #[trigger]
                r.added@.contains(ip) <==> ips@.contains(ip) && !ips_of(old(self)@).contains(ip),
            crate::addr::ascending(r.retired@),
            forall|ip: IpAddr| #[trigger]
                r.retired@.contains(ip) <==> ips_of(old(self)@).contains(ip) && !ips@.contains(ip),
    {
        proof {
            use_type_invariant(&*self);
        }
        let wanted = ips.members();
        let ghost before = self.endpoints@;
        if self.endpoints.len() == wanted.len() && all_among(&self.endpoints, wanted) {
            proof {
                crate::order::same_when_within(ips_of(before), wanted@, address_order());
                assert forall|i: int| 0 <= i < wanted@.len() implies is_carried_or_fresh(
                    before,
                    wanted@[i],
                    *cfg,
                    #[trigger] before[i],
                ) by {
                    assert(ips_of(before)[i] == before[i].ip);
                    assert forall|j: int|
                        0 <= j < before.len() && (#[trigger] before[j]).ip
                            == wanted@[i] implies before[i] == before[j] by {
                        assert(ips_of(before)[j] == before[j].ip);
                    }
                    assert(ips_of(before).contains(ips_of(before)[i]));
                }
            }
            return Reconciled { added: Vec::new(), retired: Vec::new() };
        }
        let mut rest: Vec<Endpoint> = Vec::new();
        core::mem::swap(&mut rest, &mut self.endpoints);
        let mut next: Vec<Endpoint> = Vec::new();
        let mut added: Vec<IpAddr> = Vec::new();
        assert(wanted@.take(0) =~= Seq::<IpAddr>::empty());
        for i in 0..wanted.len()
            invariant
                wanted@ == ips@,
                crate::addr::ascending(wanted@),
                crate::addr::ascending(ips_of(before)),
                is_rest(before, wanted@.take(i as int), rest@),
                next.len() == i,
                forall|k: int|
                    0 <= k < i ==> is_carried_or_fresh(before, wanted@[k], *cfg, #[trigger] next@[k]),
                crate::addr::ascending(added@),
                forall|ip: IpAddr| #[trigger]
                    added@.contains(ip) <==> wanted@.take(i as int).contains(ip) && !ips_of(
                        before,
                    ).contains(ip),
        {
            let ip = wanted[i];
            let ghost taken = wanted@.take(i as int);
            let ghost left = rest@;
            let ghost had = added@;
            proof {
                assert(wanted@.take(i + 1) =~= taken.push(ip));
                assert(!taken.contains(ip));
                contains_after_push(taken, ip);
            }
            match position(&rest, ip) {
                Some(p) => {
                    let e = rest.remove(p);
                    proof {
                        assert(before.contains(left[p as int]));
                        carried_over(before, ip, *cfg, e);
                        rest_without(before, taken, left, p as int);
                        assert(ips_of(before)[before.index_of(e)] == ip);
                    }
                    next.push(e);
                },
                None => {
                    next.push(Endpoint::spawn(ip, cfg));
                    added.push(ip);
                    proof {
                        absent_from_rest(before, taken, left, ip);
                        contains_after_push(had, ip);
                        assert forall|a: int, b: int| 0 <= a < b < added@.len() implies (
                        #[trigger] added@[a]).precedes(#[trigger] added@[b]) by {
                            if b == had.len() {
                                assert(had.contains(had[a]));
                                let k = taken.index_of(had[a]);
                                assert(taken.contains(had[a]));
                                assert(wanted@[k].precedes(wanted@[i as int]));
                            }
                        }
                    }
                },
            }
        }
        assert(wanted@.take(wanted@.len() as int) =~= wanted@);
        let mut retired: Vec<IpAddr> = Vec::new();
        for m in 0..rest.len()
            invariant
                retired.len() == m,
                forall|k: int| 0 <= k < m ==> #[trigger] retired@[k] == rest@[k].ip,
        {
            retired.push(rest[m].ip);
        }
        proof {
            assert(retired@ =~= ips_of(rest@));
            assert forall|ip: IpAddr| #[trigger]
                retired@.contains(ip) <==> ips_of(before).contains(ip) && !wanted@.contains(ip) by {
                rest_is_what_was_dropped(before, wanted@, rest@, ip);
            }
            assert(ips_of(next@) =~= wanted@);
        }
        self.endpoints = next;
        Reconciled { added, retired }
    }
}

/// Membership after a push.
proof fn contains_after_push<A>(s: Seq<A>, x: A)
    ensures
        forall|y: A| #[trigger] s.push(x).contains(y) <==> s.contains(y) || y == x,
{
    assert forall|y: A| #[trigger] s.push(x).contains(y) <==> s.contains(y) || y == x by {
        if s.contains(y) {
            let k = s.index_of(y);
            assert(s.push(x)[k] == y);
        }
        assert(s.push(x)[s.len() as int] == x);
    }
}

/// An endpoint that is there is the only one for its address.
proof fn carried_over(before: Seq<Endpoint>, ip: IpAddr, cfg: Config, e: Endpoint)
    requires
        crate::addr::ascending(ips_of(before)),
        before.contains(e),
        e.ip == ip,
    ensures
        is_carried_or_fresh(before, ip, cfg, e),
{
    let q = before.index_of(e);
    assert(ips_of(before)[q] == ip);
    assert forall|j: int| 0 <= j < before.len() && (#[trigger] before[j]).ip == ip implies e
        == before[j] by {
        assert(ips_of(before)[j] == ip);
    }
}

/// Taking one more address leaves the rest without its endpoint.
proof fn rest_without(before: Seq<Endpoint>, taken: Seq<IpAddr>, rest: Seq<Endpoint>, p: int)
    requires
        crate::addr::ascending(ips_of(before)),
        is_rest(before, taken, rest),
        0 <= p < rest.len(),
    ensures
        is_rest(before, taken.push(rest[p].ip), rest.remove(p)),
{
    let ip = rest[p].ip;
    let fewer = rest.remove(p);
    contains_after_push(taken, ip);
    assert forall|a: int, b: int| 0 <= a < b < fewer.len() implies (#[trigger] ips_of(
        fewer,
    )[a]).precedes(#[trigger] ips_of(fewer)[b]) by {
        let x = if a < p { a } else { a + 1 };
        let y = if b < p { b } else { b + 1 };
        assert(fewer[a] == rest[x] && fewer[b] == rest[y]);
        assert(ips_of(rest)[x].precedes(ips_of(rest)[y]));
    }
    assert forall|j: int| 0 <= j < before.len() && !taken.push(ip).contains(
        (#[trigger] before[j]).ip,
    ) implies fewer.contains(before[j]) by {
        assert(rest.contains(before[j]));
        let m = rest.index_of(before[j]);
        assert(m != p);
        assert(fewer[if m < p { m } else { m - 1 }] == before[j]);
    }
    assert forall|m: int| 0 <= m < fewer.len() implies before.contains(#[trigger] fewer[m])
        && !taken.push(ip).contains(fewer[m].ip) by {
        let x = if m < p { m } else { m + 1 };
        assert(fewer[m] == rest[x]);
        if rest[x].ip == ip {
            assert(ips_of(rest)[x] == ip && ips_of(rest)[p] == ip);
        }
    }
}

/// An address that is not taken and not in the rest was not there before.
proof fn absent_from_rest(before: Seq<Endpoint>, taken: Seq<IpAddr>, rest: Seq<Endpoint>, ip: IpAddr)
    requires
        is_rest(before, taken, rest),
        !taken.contains(ip),
        !ips_of(rest).contains(ip),
    ensures
        !ips_of(before).contains(ip),
        is_rest(before, taken.push(ip), rest),
{
    contains_after_push(taken, ip);
    if ips_of(before).contains(ip) {
        let j = ips_of(before).index_of(ip);
        assert(before[j].ip == ip);
        assert(rest.contains(before[j]));
        let m = rest.index_of(before[j]);
        assert(ips_of(rest)[m] == ip);
    }
    assert forall|m: int| 0 <= m < rest.len() implies before.contains(#[trigger] rest[m])
        && !taken.push(ip).contains(rest[m].ip) by {
        assert(ips_of(rest)[m] == rest[m].ip);
        assert(ips_of(rest).contains(ips_of(rest)[m]));
    }
}

/// The rest are the endpoints whose address was not taken.
proof fn rest_is_what_was_dropped(
    before: Seq<Endpoint>,
    taken: Seq<IpAddr>,
    rest: Seq<Endpoint>,
    ip: IpAddr,
)
    requires
        is_rest(before, taken, rest),
    ensures
        ips_of(rest).contains(ip) <==> ips_of(before).contains(ip) && !taken.contains(ip),
{
    if ips_of(rest).contains(ip) {
        let m = ips_of(rest).index_of(ip);
        assert(before.contains(rest[m]));
        let j = before.index_of(rest[m]);
        assert(ips_of(before)[j] == ip);
    }
    if ips_of(before).contains(ip) && !taken.contains(ip) {
        let j = ips_of(before).index_of(ip);
        assert(before[j].ip == ip);
        assert(rest.contains(before[j]));
        let m = rest.index_of(before[j]);
        assert(ips_of(rest)[m] == ip);
    }
}

impl Pool {
    /// A pool of fresh endpoints for the addresses that the resolver gave.
    ///
    /// # Errors
    ///
    /// [`Error::Dns`] if the lookup failed, or gave no address at all.
    pub fn new(cfg: &Config, lookup: Result<Vec<IpAddr>, String>) -> (r: Result<Pool, Error>)
        ensures
            match resolved(cfg.host@, lookup) {
                Err(fault) => r matches Err(e) && e@ == fault,
                Ok(addrs) => {
                    &&& r matches Ok(pool)
                    &&& is_cold(pool@, addrs, *cfg)
                },
            },
    {
        let mut pool = Pool::empty();
        let ips = resolve(&cfg.host, lookup)?;
        pool.reconcile(&ips, cfg);
        proof {
            use_type_invariant(&pool);
            assert(ips_of(pool@) =~= ips@);
        }
        Ok(pool)
    }

    /// Apply the resolver's answer to the endpoint set.
    ///
    /// A failed lookup leaves the existing endpoints untouched: a resolver blip
    /// should not take down warm connections that are still working.
    ///
    /// # Errors
    ///
    /// [`Error::Dns`] if the lookup failed, or gave no address at all.
    pub fn refresh(&mut self, cfg: &Config, lookup: Result<Vec<IpAddr>, String>) -> (r: Result<
        Reconciled,
        Error,
    >)
        ensures
            is_refreshed(old(self)@, *cfg, lookup, final(self)@, r),
    {
        let ips = match resolve(&cfg.host, lookup) {
            Ok(ips) => ips,
            Err(e) => return Err(e),
        };
        let changes = self.reconcile(&ips, cfg);
        proof {
            use_type_invariant(&*self);
            assert(ips_of(self@) =~= ips@);
        }
        Ok(changes)
    }

    /// Take note of an event on the endpoint for `ip`. Once that endpoint is
    /// retired, its events change nothing.
    pub fn apply(&mut self, ip: IpAddr, event: &EndpointEvent)
        ensures
            is_applied(old(self)@, ip, *event, final(self)@),
    {
        proof {
            use_type_invariant(&*self);
        }
        let mut endpoints: Vec<Endpoint> = Vec::new();
        core::mem::swap(&mut endpoints, &mut self.endpoints);
        let ghost before = endpoints@;
        match position(&endpoints, ip) {
            Some(p) => {
                endpoints[p].apply(event);
                proof {
                    assert(ips_of(endpoints@) =~= ips_of(before));
                    assert forall|i: int| 0 <= i < before.len() && i != p implies (
                    #[trigger] before[i]).ip != ip by {
                        assert(ips_of(before)[i] == before[i].ip);
                        assert(ips_of(before)[p as int] == ip);
                    }
                }
            },
            None => {
                assert forall|i: int| 0 <= i < before.len() implies (#[trigger] before[i]).ip
                    != ip by {
                    assert(ips_of(before)[i] == before[i].ip);
                    assert(ips_of(before).contains(ips_of(before)[i]));
                }
            },
        }
        self.endpoints = endpoints;
    }

    /// Take note of what the supervisor of a connection of the endpoint for `ip`
    /// decided. Once that endpoint is retired, this changes nothing.
    pub fn follow(&mut self, ip: IpAddr, conn: usize, action: &ConnAction)
        ensures
            is_followed(old(self)@, ip, conn, *action, final(self)@),
    {
        proof {
            use_type_invariant(&*self);
        }
        let mut endpoints: Vec<Endpoint> = Vec::new();
        core::mem::swap(&mut endpoints, &mut self.endpoints);
        let ghost before = endpoints@;
        match position(&endpoints, ip) {
            Some(p) => {
                endpoints[p].follow(conn, action);
                proof {
                    assert(ips_of(endpoints@) =~= ips_of(before));
                    assert forall|i: int| 0 <= i < before.len() && i != p implies (
                    #[trigger] before[i]).ip != ip by {
                        assert(ips_of(before)[i] == before[i].ip);
                        assert(ips_of(before)[p as int] == ip);
                    }
                }
            },
            None => {
                assert forall|i: int| 0 <= i < before.len() implies (#[trigger] before[i]).ip
                    != ip by {
                    assert(ips_of(before)[i] == before[i].ip);
                    assert(ips_of(before).contains(ips_of(before)[i]));
                }
            },
        }
        self.endpoints = endpoints;
    }

    /// How many endpoints there are.
    pub fn known(&self) -> (n: usize)
        ensures
            n == self@.len(),
    {
        self.endpoints.len()
    }

    /// The endpoints, in ascending order of their addresses.
    pub fn endpoints(&self) -> (endpoints: &Vec<Endpoint>)
        ensures
            endpoints@ == self@,
            crate::addr::ascending(ips_of(self@)),
    {
        proof {
            use_type_invariant(self);
        }
        &self.endpoints
    }

    /// Whether any endpoint has a live connection.
    pub fn is_ready(&self) -> (b: bool)
        ensures
            b == any_endpoint_ready(self@),
    {
        for i in 0..self.endpoints.len()
            invariant
                forall|j: int|
                    0 <= j < i ==> !crate::endpoint::any_ready((#[trigger] self@[j]).conns@),
        {
            if self.endpoints[i].is_ready() {
                assert(crate::endpoint::any_ready(self@[i as int].conns@));
                return true;
            }
        }
        false
    }

    /// Whether a connection of the endpoint for `ip` can take a request right now.
    pub fn is_conn_ready(&self, ip: IpAddr, conn: usize) -> (b: bool)
        ensures
            b == is_conn_ready(self@, ip, conn),
    {
        proof {
            use_type_invariant(self);
        }
        match position(&self.endpoints, ip) {
            Some(p) => {
                let e = &self.endpoints[p];
                let b = conn < e.conns.len() && e.conns[conn].is_ready();
                proof {
                    assert(b ==> is_ready_at(self@, p, Target { ip, conn }));
                    if is_conn_ready(self@, ip, conn) {
                        let k = choose|k: usize|
                            k < self@.len() && #[trigger] is_ready_at(self@, k, Target { ip, conn });
                        assert(ips_of(self@)[k as int] == ip);
                        assert(ips_of(self@)[p as int] == ip);
                    }
                }
                b
            },
            None => {
                proof {
                    if is_conn_ready(self@, ip, conn) {
                        let k = choose|k: usize|
                            k < self@.len() && #[trigger] is_ready_at(self@, k, Target { ip, conn });
                        assert(ips_of(self@)[k as int] == ip);
                        assert(ips_of(self@).contains(ips_of(self@)[k as int]));
                    }
                }
                false
            },
        }
    }

    /// Per-endpoint health and latency, for metrics and debugging.
    pub fn stats(&self) -> (stats: Vec<EndpointStats>)
        ensures
            stats.len() == self@.len(),
            forall|i: int| 0 <= i < self@.len() ==> self@[i].is_described_by(#[trigger] stats@[i]),
    {
        let mut stats: Vec<EndpointStats> = Vec::new();
        for i in 0..self.endpoints.len()
            invariant
                stats.len() == i,
                forall|j: int| 0 <= j < i ==> self@[j].is_described_by(#[trigger] stats@[j]),
        {
            stats.push(self.endpoints[i].stats());
        }
        stats
    }
}

/// Whether there is an endpoint for `ip` whose connection `conn` is ready.
pub open spec fn is_conn_ready(endpoints: Seq<Endpoint>, ip: IpAddr, conn: usize) -> bool {
    exists|k: usize|
        k < endpoints.len() && #[trigger] is_ready_at(endpoints, k, Target { ip, conn })
}

/// Whether any endpoint has a live connection.
pub open spec fn any_endpoint_ready(endpoints: Seq<Endpoint>) -> bool {
    exists|i: int|
        0 <= i < endpoints.len() && crate::endpoint::any_ready((#[trigger] endpoints[i]).conns@)
}

/// One copy of a transaction: the endpoint it goes to, and on which connection.
#[derive(Clone, Copy, Debug, PartialEq, Eq, Structural)]
pub struct Target {
    /// Address of the endpoint.
    pub ip: IpAddr,
    /// The connection, counted within the endpoint.
    pub conn: usize,
}

/// The order of the fan-out: by rank, and as the pool has them where ranks tie.
pub open spec fn fanout_order(endpoints: Seq<Endpoint>) -> spec_fn(usize, usize) -> bool {
    |a: usize, b: usize| goes_first(endpoints, a, b)
}

/// Whether endpoint `a` is preferred to endpoint `b`.
pub open spec fn goes_first(endpoints: Seq<Endpoint>, a: usize, b: usize) -> bool {
    let x = endpoints[a as int].state.key();
    let y = endpoints[b as int].state.key();
    crate::endpoint::ranks_before(x, y) || (x == y && a < b)
}

/// Whether `ranked` are the endpoints that are ready, the preferred ones first.
pub open spec fn is_ranking(endpoints: Seq<Endpoint>, ranked: Seq<usize>) -> bool {
    &&& crate::order::sorted_by(ranked, fanout_order(endpoints))
    &&& forall|k: usize| #[trigger]
        ranked.contains(k) <==> k < endpoints.len() && crate::endpoint::any_ready(
            endpoints[k as int].conns@,
        )
}

/// The copies that go to the given endpoints: one each, where a connection can
/// take it.
pub open spec fn copies_for(endpoints: Seq<Endpoint>, targets: Seq<usize>) -> Seq<Target>
    decreases targets.len(),
{
    if targets.len() == 0 {
        seq![]
    } else {
        let before = copies_for(endpoints, targets.drop_last());
        let e = endpoints[targets.last() as int];
        match crate::endpoint::pick_of(e.conns@, e.next) {
            Some(conn) => before.push(Target { ip: e.ip, conn }),
            None => before,
        }
    }
}

/// `after` is `before` with the round-robin cursor of each target moved on.
pub open spec fn cursors_moved(
    before: Seq<Endpoint>,
    targets: Seq<usize>,
    after: Seq<Endpoint>,
) -> bool {
    &&& after.len() == before.len()
    &&& forall|k: usize|
        k < before.len() ==> #[trigger] after[k as int] == if targets.contains(k) {
            Endpoint {
                next: crate::endpoint::advanced(before[k as int].next),
                ..before[k as int]
            }
        } else {
            before[k as int]
        }
}

/// The best of the ready endpoints that `fanout` allows.
pub open spec fn targets_of(ranked: Seq<usize>, fanout: nat) -> Seq<usize> {
    ranked.take(crate::client::width(fanout, ranked.len()) as int)
}

/// Whether `r` and `after` are what one dispatch makes of `before`, where
/// `ranked` are the endpoints that are ready, the preferred ones first.
pub open spec fn is_dispatch(
    before: Seq<Endpoint>,
    ranked: Seq<usize>,
    fanout: nat,
    after: Seq<Endpoint>,
    r: Result<Vec<Target>, Error>,
) -> bool {
    let copies = copies_for(before, targets_of(ranked, fanout));
    &&& is_ranking(before, ranked)
    &&& cursors_moved(before, targets_of(ranked, fanout), after)
    &&& match r {
        Ok(sent) => sent@ == copies && copies.len() > 0,
        Err(e) => copies.len() == 0 && e@ == (Fault::NotReady { known: before.len() }),
    }
}

/// The endpoints that are ready, the preferred ones first.
fn ranking(endpoints: &Vec<Endpoint>) -> (ranked: Vec<usize>)
    ensures
        is_ranking(endpoints@, ranked@),
{
    let mut ranked: Vec<usize> = Vec::new();
    for i in 0..endpoints.len()
        invariant
            crate::order::sorted_by(ranked@, fanout_order(endpoints@)),
            forall|k: usize| #[trigger]
                ranked@.contains(k) <==> k < i && crate::endpoint::any_ready(
                    endpoints@[k as int].conns@,
                ),
    {
        if endpoints[i].is_ready() {
            let ghost so_far = ranked@;
            assert forall|q: int| 0 <= q < so_far.len() implies #[trigger] so_far[q] < i by {
                assert(so_far.contains(so_far[q]));
            }
            let rank = endpoints[i].rank();
            let mut p: usize = ranked.len();
            while p > 0 && comes_before(rank, endpoints[ranked[p - 1]].rank())
                invariant
                    p <= ranked.len(),
                    ranked@ == so_far,
                    rank == endpoints@[i as int].state.key(),
                    forall|q: int| 0 <= q < ranked.len() ==> #[trigger] ranked@[q] < endpoints.len(),
                    forall|q: int|
                        p <= q < ranked.len() ==> crate::endpoint::ranks_before(
                            rank,
                            endpoints@[#[trigger] ranked@[q] as int].state.key(),
                        ),
                decreases p,
            {
                p -= 1;
            }
            ranked.insert(p, i);
            proof {
                ranking_extended(endpoints@, so_far, p as int, i);
            }
        }
    }
    ranked
}

/// Whether one rank comes before another.
fn comes_before(a: (u32, u64), b: (u32, u64)) -> (r: bool)
    ensures
        r == crate::endpoint::ranks_before(a, b),
{
    a.0 < b.0 || (a.0 == b.0 && a.1 < b.1)
}

impl Pool {
    /// Choose the copies for one submission: the ready endpoints in the order of
    /// their rank, as many as `fanout` allows, each with a connection that can
    /// take a request right now.
    ///
    /// # Errors
    ///
    /// [`Error::NotReady`] if there is no copy to send.
    pub fn dispatch(&mut self, fanout: usize) -> (r: Result<Vec<Target>, Error>)
        ensures
            exists|ranked: Seq<usize>| #[trigger]
                is_dispatch(old(self)@, ranked, fanout as nat, final(self)@, r),
    {
        proof {
            use_type_invariant(&*self);
        }
        let mut endpoints: Vec<Endpoint> = Vec::new();
        core::mem::swap(&mut endpoints, &mut self.endpoints);
        let ghost before = endpoints@;
        let known: usize = endpoints.len();
        let ranked = ranking(&endpoints);
        let width: usize = fanout_width(fanout, ranked.len());
        let mut copies: Vec<Target> = Vec::new();
        for t in 0..width
            invariant
                width <= ranked.len(),
                is_ranking(before, ranked@),
                cursors_moved(before, ranked@.take(t as int), endpoints@),
                copies@ == copies_for(before, ranked@.take(t as int)),
        {
            let k: usize = ranked[t];
            let ghost done = ranked@.take(t as int);
            proof {
                assert(ranked@.contains(k));
                assert(ranked@.take(t + 1) =~= done.push(k));
                assert(done.push(k).drop_last() =~= done);
                contains_after_push(done, k);
                if done.contains(k) {
                    let q = done.index_of(k);
                    assert(fanout_order(before)(ranked@[q], ranked@[t as int]));
                }
            }
            let ghost so_far = endpoints@;
            assert(so_far[k as int] == before[k as int]);
            let ip = endpoints[k].ip;
            if let Some(conn) = endpoints[k].pick_conn() {
                copies.push(Target { ip, conn });
            }
            proof {
                assert forall|j: usize| j < before.len() implies #[trigger] endpoints@[j as int]
                    == if done.push(k).contains(j) {
                    Endpoint {
                        next: crate::endpoint::advanced(before[j as int].next),
                        ..before[j as int]
                    }
                } else {
                    before[j as int]
                } by {
                    assert(so_far[j as int] == so_far[j as int]);
                }
            }
        }
        proof {
            assert(ips_of(endpoints@) =~= ips_of(before)) by {
                assert forall|i: int| 0 <= i < before.len() implies endpoints@[i].ip
                    == before[i].ip by {
                    let k = i as usize;
                    assert(endpoints@[k as int].ip == before[k as int].ip);
                }
            }
        }
        self.endpoints = endpoints;
        let r = if copies.is_empty() {
            Err(Error::NotReady { known })
        } else {
            Ok(copies)
        };
        assert(before == old(self)@);
        assert(is_dispatch(old(self)@, ranked@, fanout as nat, self@, r));
        r
    }
}

/// The order of the fan-out is transitive.
proof fn goes_first_chains(endpoints: Seq<Endpoint>, a: usize, b: usize, c: usize)
    requires
        goes_first(endpoints, a, b),
        goes_first(endpoints, b, c),
    ensures
        goes_first(endpoints, a, c),
{
}

/// Putting a later endpoint behind everything that does not rank after it keeps
/// the order.
proof fn ranking_extended(endpoints: Seq<Endpoint>, ranked: Seq<usize>, p: int, i: usize)
    requires
        crate::order::sorted_by(ranked, fanout_order(endpoints)),
        forall|k: usize| #[trigger]
            ranked.contains(k) <==> k < i && crate::endpoint::any_ready(endpoints[k as int].conns@),
        crate::endpoint::any_ready(endpoints[i as int].conns@),
        i < endpoints.len(),
        0 <= p <= ranked.len(),
        forall|q: int|
            p <= q < ranked.len() ==> crate::endpoint::ranks_before(
                endpoints[i as int].state.key(),
                endpoints[#[trigger] ranked[q] as int].state.key(),
            ),
        p > 0 ==> !crate::endpoint::ranks_before(
            endpoints[i as int].state.key(),
            endpoints[ranked[p - 1] as int].state.key(),
        ),
    ensures
        crate::order::sorted_by(ranked.insert(p, i), fanout_order(endpoints)),
        forall|k: usize| #[trigger]
            ranked.insert(p, i).contains(k) <==> k < i + 1 && crate::endpoint::any_ready(
                endpoints[k as int].conns@,
            ),
{
    let more = ranked.insert(p, i);
    let before = fanout_order(endpoints);
    assert forall|a: int, b: int| 0 <= a < b < more.len() implies before(
        #[trigger] more[a],
        #[trigger] more[b],
    ) by {
        if b == p {
            assert(ranked.contains(ranked[p - 1]));
            assert(goes_first(endpoints, ranked[p - 1], i));
            if a < p - 1 {
                assert(before(ranked[a], ranked[p - 1]));
                goes_first_chains(endpoints, ranked[a], ranked[p - 1], i);
            }
        } else if a != p {
            let x = if a < p { a } else { a - 1 };
            let y = if b < p { b } else { b - 1 };
            assert(before(ranked[x], ranked[y]));
        } else {
            assert(more[b] == ranked[b - 1]);
        }
    }
    assert forall|k: usize| #[trigger] more.contains(k) <==> k < i + 1
        && crate::endpoint::any_ready(endpoints[k as int].conns@) by {
        if more.contains(k) {
            let q = more.index_of(k);
            if q < p {
                assert(ranked[q] == k);
            } else if q > p {
                assert(ranked[q - 1] == k);
            }
        }
        if ranked.contains(k) {
            let q = ranked.index_of(k);
            assert(more[if q < p { q } else { q + 1 }] == k);
        }
        assert(more[p] == i);
    }
}

/// After a reconciliation there is an endpoint for each address, and no other.
pub proof fn reconciling_gives_each_address_its_endpoint(
    before: Seq<Endpoint>,
    ips: Seq<IpAddr>,
    cfg: Config,
    after: Seq<Endpoint>,
)
    requires
        is_reconciled(before, ips, cfg, after),
    ensures
        ips_of(after) == ips,
{
    assert(ips_of(after) =~= ips);
}

/// An endpoint whose address stays keeps its connections and its health.
pub proof fn surviving_endpoints_are_kept(
    before: Seq<Endpoint>,
    ips: Seq<IpAddr>,
    cfg: Config,
    after: Seq<Endpoint>,
    e: Endpoint,
)
    requires
        is_reconciled(before, ips, cfg, after),
        before.contains(e),
        ips.contains(e.ip),
    ensures
        after.contains(e),
{
    let i = ips.index_of(e.ip);
    let j = before.index_of(e);
    assert(is_carried_or_fresh(before, ips[i], cfg, after[i]));
    assert(before[j].ip == ips[i]);
}

/// Reconciling with the addresses that are there already changes nothing,
/// whatever the settings for new endpoints.
pub proof fn reconciling_with_the_same_addresses_changes_nothing(
    before: Seq<Endpoint>,
    cfg: Config,
    after: Seq<Endpoint>,
)
    requires
        is_reconciled(before, ips_of(before), cfg, after),
    ensures
        after == before,
{
    assert forall|i: int| 0 <= i < before.len() implies after[i] == before[i] by {
        assert(is_carried_or_fresh(before, ips_of(before)[i], cfg, after[i]));
        assert(before[i].ip == ips_of(before)[i]);
    }
    assert(after =~= before);
}

/// The endpoints that are ready have one ranking.
pub proof fn the_ranking_is_unique(endpoints: Seq<Endpoint>, a: Seq<usize>, b: Seq<usize>)
    requires
        is_ranking(endpoints, a),
        is_ranking(endpoints, b),
    ensures
        a == b,
{
    assert forall|i: int| 0 <= i < a.len() implies b.contains(#[trigger] a[i]) by {
        assert(a.contains(a[i]));
    }
    assert forall|i: int| 0 <= i < b.len() implies a.contains(#[trigger] b[i]) by {
        assert(b.contains(b[i]));
    }
    crate::order::same_elements_same_order(a, b, fanout_order(endpoints));
}

/// A fan-out of zero goes to every endpoint that is ready.
pub proof fn zero_fanout_means_all(endpoints: Seq<Endpoint>, ranked: Seq<usize>, k: usize)
    requires
        is_ranking(endpoints, ranked),
    ensures
        targets_of(ranked, 0).contains(k) <==> k < endpoints.len() && crate::endpoint::any_ready(
            endpoints[k as int].conns@,
        ),
{
    assert(targets_of(ranked, 0) =~= ranked);
}

/// There are no more copies than targets, and each goes to a connection of its
/// endpoint that is ready.
pub proof fn copies_go_to_ready_connections(endpoints: Seq<Endpoint>, targets: Seq<usize>)
    requires
        forall|t: int| 0 <= t < targets.len() ==> #[trigger] targets[t] < endpoints.len(),
    ensures
        copies_for(endpoints, targets).len() <= targets.len(),
        forall|c: int|
            0 <= c < copies_for(endpoints, targets).len() ==> is_ready_target(
                endpoints,
                targets,
                #[trigger] copies_for(endpoints, targets)[c],
            ),
    decreases targets.len(),
{
    if targets.len() > 0 {
        let fewer = targets.drop_last();
        let last = targets.last();
        let e = endpoints[last as int];
        copies_go_to_ready_connections(endpoints, fewer);
        contains_after_push(fewer, last);
        assert(fewer.push(last) =~= targets);
        assert forall|c: int| 0 <= c < copies_for(endpoints, targets).len() implies is_ready_target(
            endpoints,
            targets,
            #[trigger] copies_for(endpoints, targets)[c],
        ) by {
            let copies = copies_for(endpoints, fewer);
            if c < copies.len() {
                assert(is_ready_target(endpoints, fewer, copies[c]));
                let k = choose|k: usize| #[trigger]
                    fewer.contains(k) && is_ready_at(endpoints, k, copies[c]);
                assert(targets.contains(k) && is_ready_at(endpoints, k, copies[c]));
            } else {
                let conn = crate::endpoint::pick_of(e.conns@, e.next)->0;
                assert(crate::endpoint::is_pick(e.conns@, e.next, conn as int));
                let i = choose|i: int| #[trigger]
                    crate::endpoint::picked_at(e.conns@, e.next, i) && conn
                        == crate::endpoint::turn(e.next, i, e.conns@.len());
                vstd::arithmetic::div_mod::lemma_mod_bound(
                    if e.next + i <= usize::MAX {
                        e.next + i
                    } else {
                        e.next + i - usize::MAX - 1
                    },
                    e.conns@.len() as int,
                );
                assert(targets.contains(last) && is_ready_at(
                    endpoints,
                    last,
                    Target { ip: e.ip, conn },
                ));
            }
        }
    }
}

/// Whether a copy goes to a ready connection of one of the targets.
pub open spec fn is_ready_target(
    endpoints: Seq<Endpoint>,
    targets: Seq<usize>,
    copy: Target,
) -> bool {
    exists|k: usize| #[trigger] targets.contains(k) && is_ready_at(endpoints, k, copy)
}

/// Whether a copy goes to a ready connection of endpoint `k`.
pub open spec fn is_ready_at(endpoints: Seq<Endpoint>, k: usize, copy: Target) -> bool {
    &&& endpoints[k as int].ip == copy.ip
    &&& copy.conn < endpoints[k as int].conns.len()
    &&& endpoints[k as int].conns[copy.conn as int].ready
}

/// Where every cursor is short of its wrap, each target gets its copy.
pub proof fn every_target_gets_its_copy(endpoints: Seq<Endpoint>, targets: Seq<usize>)
    requires
        forall|t: int|
            0 <= t < targets.len() ==> can_take_a_copy(endpoints, #[trigger] targets[t]),
    ensures
        copies_for(endpoints, targets).len() == targets.len(),
        forall|t: int|
            0 <= t < targets.len() ==> (#[trigger] copies_for(endpoints, targets)[t]).ip
                == endpoints[targets[t] as int].ip,
    decreases targets.len(),
{
    if targets.len() > 0 {
        let fewer = targets.drop_last();
        let e = endpoints[targets.last() as int];
        assert forall|t: int| 0 <= t < fewer.len() implies can_take_a_copy(
            endpoints,
            #[trigger] fewer[t],
        ) by {
            assert(fewer[t] == targets[t]);
        }
        every_target_gets_its_copy(endpoints, fewer);
        assert(can_take_a_copy(endpoints, targets[targets.len() - 1]));
        crate::endpoint::a_ready_connection_is_found(e.conns@, e.next);
        crate::endpoint::a_pick_exists(e.conns@, e.next);
        assert forall|t: int| 0 <= t < targets.len() implies (#[trigger] copies_for(
            endpoints,
            targets,
        )[t]).ip == endpoints[targets[t] as int].ip by {
            if t < fewer.len() {
                assert(fewer[t] == targets[t]);
                assert(copies_for(endpoints, fewer)[t].ip == endpoints[fewer[t] as int].ip);
            }
        }
    }
}

/// Whether endpoint `k` is ready and its cursor is short of its wrap.
pub open spec fn can_take_a_copy(endpoints: Seq<Endpoint>, k: usize) -> bool {
    &&& k < endpoints.len()
    &&& crate::endpoint::any_ready(endpoints[k as int].conns@)
    &&& endpoints[k as int].next + endpoints[k as int].conns.len() <= usize::MAX + 1
}

/// While any endpoint is ready, a dispatch sends copies: to as many of the ready
/// endpoints as the fan-out allows. No cursor may be about to wrap.
pub proof fn a_ready_pool_sends(
    before: Seq<Endpoint>,
    ranked: Seq<usize>,
    fanout: nat,
    after: Seq<Endpoint>,
    r: Result<Vec<Target>, Error>,
)
    requires
        is_dispatch(before, ranked, fanout, after, r),
        any_endpoint_ready(before),
        before.len() <= usize::MAX,
        forall|k: int|
            0 <= k < before.len() ==> (#[trigger] before[k]).next + before[k].conns.len()
                <= usize::MAX + 1,
    ensures
        r matches Ok(sent) && sent.len() == crate::client::width(fanout, ranked.len()),
{
    let targets = targets_of(ranked, fanout);
    let i = choose|i: int|
        0 <= i < before.len() && crate::endpoint::any_ready((#[trigger] before[i]).conns@);
    assert(ranked.contains(i as usize));
    assert forall|t: int| 0 <= t < targets.len() implies can_take_a_copy(
        before,
        #[trigger] targets[t],
    ) by {
        assert(ranked.contains(ranked[t]));
        assert(before[targets[t] as int].next >= 0);
    }
    every_target_gets_its_copy(before, targets);
}

/// While no endpoint is ready, a dispatch sends nothing and leaves the pool as it
/// is.
pub proof fn an_unready_pool_refuses(
    before: Seq<Endpoint>,
    ranked: Seq<usize>,
    fanout: nat,
    after: Seq<Endpoint>,
    r: Result<Vec<Target>, Error>,
)
    requires
        is_dispatch(before, ranked, fanout, after, r),
        !any_endpoint_ready(before),
        before.len() <= usize::MAX,
    ensures
        r matches Err(e) && e@ == (Fault::NotReady { known: before.len() }),
        after == before,
{
    if ranked.len() > 0 {
        assert(ranked.contains(ranked[0]));
        assert(crate::endpoint::any_ready(before[ranked[0] as int].conns@));
    }
    assert(targets_of(ranked, fanout) =~= Seq::<usize>::empty());
    assert forall|i: int| 0 <= i < before.len() implies after[i] == before[i] by {
        let k = i as usize;
        assert(after[k as int] == before[k as int]);
    }
    assert(after =~= before);
}

/// Before any connection is up, a pool refuses every submission.
pub proof fn a_cold_pool_is_not_ready(endpoints: Seq<Endpoint>, addrs: Seq<IpAddr>, cfg: Config)
    requires
        is_cold(endpoints, addrs, cfg),
    ensures
        !any_endpoint_ready(endpoints),
{
    assert forall|i: int| 0 <= i < endpoints.len() implies !crate::endpoint::any_ready(
        (#[trigger] endpoints[i]).conns@,
    ) by {
        let e = endpoints[i];
        assert(e.is_fresh(e.ip, cfg));
        assert forall|j: int| 0 <= j < e.conns@.len() implies !(#[trigger] e.conns@[j]).ready by {
            assert(e.conns[j] == (crate::conn::WarmConn { ip: e.ip, ready: false }));
        }
    }
}

/// The first connection that comes up makes the pool ready.
pub proof fn a_connection_makes_the_pool_ready(
    before: Seq<Endpoint>,
    k: int,
    conn: usize,
    after: Seq<Endpoint>,
)
    requires
        0 <= k < before.len(),
        conn < before[k].conns.len(),
        is_applied(before, before[k].ip, EndpointEvent::Up(conn), after),
    ensures
        any_endpoint_ready(after),
{
    crate::endpoint::connections_make_the_endpoint_ready(before[k].conns@, conn);
    assert(before[k].answers(EndpointEvent::Up(conn), after[k]));
    assert(crate::endpoint::any_ready(after[k].conns@));
}

/// Whether these are different endpoints, each of them ready.
pub open spec fn are_ready_endpoints(endpoints: Seq<Endpoint>, chosen: Seq<usize>) -> bool {
    &&& chosen.no_duplicates()
    &&& forall|i: int|
        0 <= i < chosen.len() ==> #[trigger] chosen[i] < endpoints.len()
            && crate::endpoint::any_ready(endpoints[chosen[i] as int].conns@)
}

/// A ranking holds all endpoints that are ready.
proof fn a_ranking_holds_them_all(
    endpoints: Seq<Endpoint>,
    ranked: Seq<usize>,
    chosen: Seq<usize>,
)
    requires
        is_ranking(endpoints, ranked),
        are_ready_endpoints(endpoints, chosen),
    ensures
        chosen.len() <= ranked.len(),
{
    chosen.unique_seq_to_set();
    ranked.lemma_cardinality_of_set();
    assert(chosen.to_set().subset_of(ranked.to_set())) by {
        assert forall|k: usize| chosen.to_set().contains(k) implies ranked.to_set().contains(k) by {
            let i = chosen.index_of(k);
            assert(chosen[i] == k);
            assert(ranked.contains(k));
        }
    }
    vstd::set_lib::lemma_len_subset(chosen.to_set(), ranked.to_set());
}

/// A fan-out of `n` sends at most `n` copies.
pub proof fn no_more_copies_than_the_fanout(
    before: Seq<Endpoint>,
    ranked: Seq<usize>,
    n: nat,
    after: Seq<Endpoint>,
    sent: Vec<Target>,
)
    requires
        is_dispatch(before, ranked, n, after, Ok(sent)),
        n > 0,
    ensures
        0 < sent.len() <= n,
{
    let targets = targets_of(ranked, n);
    assert forall|t: int| 0 <= t < targets.len() implies #[trigger] targets[t] < before.len() by {
        assert(ranked.contains(ranked[t]));
    }
    copies_go_to_ready_connections(before, targets);
}

/// A fan-out of `n` sends exactly `n` copies where at least `n` endpoints are ready,
/// and one to each where fewer are. A fan-out of zero sends one to each. No cursor may
/// be about to wrap.
pub proof fn as_many_copies_as_the_fanout(
    before: Seq<Endpoint>,
    ranked: Seq<usize>,
    n: nat,
    after: Seq<Endpoint>,
    r: Result<Vec<Target>, Error>,
    chosen: Seq<usize>,
)
    requires
        is_dispatch(before, ranked, n, after, r),
        before.len() <= usize::MAX,
        are_ready_endpoints(before, chosen),
        chosen.len() > 0,
        forall|k: int|
            0 <= k < before.len() ==> (#[trigger] before[k]).next + before[k].conns.len()
                <= usize::MAX + 1,
    ensures
        r matches Ok(sent) && {
            &&& n > 0 && chosen.len() >= n ==> sent.len() == n
            &&& n == 0 || chosen.len() < n ==> sent.len() >= chosen.len()
        },
{
    a_ranking_holds_them_all(before, ranked, chosen);
    assert(chosen[0] < before.len());
    assert(crate::endpoint::any_ready(before[chosen[0] as int].conns@));
    a_ready_pool_sends(before, ranked, n, after, r);
}

/// A ranking is by failures, then by latency, then by the place in the pool, with an
/// endpoint that has no sample behind a latency of half the range.
pub proof fn a_ranking_is_by_failures_then_latency(
    endpoints: Seq<Endpoint>,
    ranked: Seq<usize>,
    i: int,
    j: int,
)
    requires
        is_ranking(endpoints, ranked),
        0 <= i < j < ranked.len(),
    ensures
        is_preferred(endpoints, ranked[i], ranked[j]),
{
    assert(fanout_order(endpoints)(ranked[i], ranked[j]));
}

/// Whether endpoint `a` fails less often than `b`, or as often and answers faster, or
/// as fast and stands in front of it.
pub open spec fn is_preferred(endpoints: Seq<Endpoint>, a: usize, b: usize) -> bool {
    let (x, y) = (endpoints[a as int].state, endpoints[b as int].state);
    let slow = u64::MAX / 2;
    let p = match x.ewma_us {
        Some(us) => us,
        None => slow,
    };
    let q = match y.ewma_us {
        Some(us) => us,
        None => slow,
    };
    ||| x.consecutive_failures < y.consecutive_failures
    ||| x.consecutive_failures == y.consecutive_failures && p < q
    ||| x.consecutive_failures == y.consecutive_failures && p == q && a < b
}

/// The copies go to the best: an endpoint that gets one is preferred to every ready
/// endpoint that gets none. No cursor may be about to wrap.
pub proof fn the_best_endpoints_get_the_copies(
    before: Seq<Endpoint>,
    ranked: Seq<usize>,
    n: nat,
    after: Seq<Endpoint>,
    sent: Vec<Target>,
    c: int,
    t: usize,
    k: usize,
)
    requires
        is_dispatch(before, ranked, n, after, Ok(sent)),
        crate::addr::ascending(ips_of(before)),
        forall|k: int|
            0 <= k < before.len() ==> (#[trigger] before[k]).next + before[k].conns.len()
                <= usize::MAX + 1,
        0 <= c < sent.len(),
        t < before.len(),
        sent[c].ip == before[t as int].ip,
        k < before.len(),
        crate::endpoint::any_ready(before[k as int].conns@),
        forall|d: int| 0 <= d < sent.len() ==> (#[trigger] sent[d]).ip != before[k as int].ip,
    ensures
        is_preferred(before, t, k),
{
    let targets = targets_of(ranked, n);
    assert forall|i: int| 0 <= i < targets.len() implies can_take_a_copy(
        before,
        #[trigger] targets[i],
    ) by {
        assert(ranked.contains(ranked[i]));
        assert(before[targets[i] as int].next >= 0);
    }
    every_target_gets_its_copy(before, targets);
    assert(sent@ == copies_for(before, targets));
    assert(copies_for(before, targets)[c].ip == before[targets[c] as int].ip);
    assert(ips_of(before)[t as int] == ips_of(before)[targets[c] as int]);
    assert(targets[c] == t);
    assert(ranked.contains(k));
    let q = ranked.index_of(k);
    if q < targets.len() {
        assert(targets[q] == k);
        assert(copies_for(before, targets)[q].ip == before[k as int].ip);
        assert(sent[q].ip == before[k as int].ip);
    }
    a_ranking_is_by_failures_then_latency(before, ranked, c, q);
}

/// The copies go out in the order of the ranking, each on the connection whose turn it
/// is at its endpoint. No cursor may be about to wrap.
pub proof fn copies_go_out_best_first(
    before: Seq<Endpoint>,
    ranked: Seq<usize>,
    n: nat,
    after: Seq<Endpoint>,
    sent: Vec<Target>,
    c: int,
)
    requires
        is_dispatch(before, ranked, n, after, Ok(sent)),
        forall|k: int|
            0 <= k < before.len() ==> (#[trigger] before[k]).next + before[k].conns.len()
                <= usize::MAX + 1,
        0 <= c < sent.len(),
    ensures
        c < ranked.len(),
        sent[c].ip == before[ranked[c] as int].ip,
        crate::endpoint::is_pick(
            before[ranked[c] as int].conns@,
            before[ranked[c] as int].next,
            sent[c].conn as int,
        ),
{
    let targets = targets_of(ranked, n);
    assert forall|i: int| 0 <= i < targets.len() implies can_take_a_copy(
        before,
        #[trigger] targets[i],
    ) by {
        assert(ranked.contains(ranked[i]));
        assert(before[targets[i] as int].next >= 0);
    }
    every_target_gets_its_copy(before, targets);
    copies_take_their_turn(before, targets, c);
    assert(targets[c] == ranked[c]);
}

/// Each copy goes on the connection whose turn it is.
proof fn copies_take_their_turn(endpoints: Seq<Endpoint>, targets: Seq<usize>, c: int)
    requires
        forall|t: int|
            0 <= t < targets.len() ==> can_take_a_copy(endpoints, #[trigger] targets[t]),
        0 <= c < targets.len(),
    ensures
        copies_for(endpoints, targets).len() == targets.len(),
        crate::endpoint::is_pick(
            endpoints[targets[c] as int].conns@,
            endpoints[targets[c] as int].next,
            copies_for(endpoints, targets)[c].conn as int,
        ),
    decreases targets.len(),
{
    every_target_gets_its_copy(endpoints, targets);
    let fewer = targets.drop_last();
    assert forall|t: int| 0 <= t < fewer.len() implies can_take_a_copy(
        endpoints,
        #[trigger] fewer[t],
    ) by {
        assert(fewer[t] == targets[t]);
    }
    every_target_gets_its_copy(endpoints, fewer);
    let e = endpoints[targets.last() as int];
    assert(can_take_a_copy(endpoints, targets[targets.len() - 1]));
    crate::endpoint::a_ready_connection_is_found(e.conns@, e.next);
    crate::endpoint::a_pick_exists(e.conns@, e.next);
    if c < fewer.len() {
        copies_take_their_turn(endpoints, fewer, c);
        assert(fewer[c] == targets[c]);
    }
}

/// A dispatch touches nothing but the cursors: each endpoint that is a target has its
/// cursor moved on by one, back to zero at the end of the range.
pub proof fn a_dispatch_moves_only_cursors(
    before: Seq<Endpoint>,
    ranked: Seq<usize>,
    n: nat,
    after: Seq<Endpoint>,
    r: Result<Vec<Target>, Error>,
    k: usize,
)
    requires
        is_dispatch(before, ranked, n, after, r),
        k < before.len(),
    ensures
        after.len() == before.len(),
        after[k as int].ip == before[k as int].ip,
        after[k as int].conns == before[k as int].conns,
        after[k as int].state == before[k as int].state,
        targets_of(ranked, n).contains(k) ==> after[k as int].next == if before[k as int].next
            == usize::MAX {
            0
        } else {
            before[k as int].next + 1
        },
        !targets_of(ranked, n).contains(k) ==> after[k as int].next == before[k as int].next,
{
}

/// A lookup that failed, or found nothing, is a DNS error for the host that names the
/// reason; any other gives the addresses it found.
pub proof fn a_lookup_is_taken_at_its_word(host: Seq<char>, lookup: Result<Vec<IpAddr>, String>)
    ensures
        match lookup {
            Err(why) => resolved(host, lookup) == Err::<Seq<IpAddr>, Fault>(
                Fault::Dns { host, source: why@ },
            ),
            Ok(addrs) => if addrs.len() == 0 {
                resolved(host, lookup) == Err::<Seq<IpAddr>, Fault>(
                    Fault::Dns { host, source: "resolver returned no addresses"@ },
                )
            } else {
                resolved(host, lookup) == Ok::<Seq<IpAddr>, Fault>(addrs@)
            },
        },
{
}

/// A lookup that failed, or found nothing, leaves every endpoint as it was.
pub proof fn a_failed_lookup_changes_nothing(
    before: Seq<Endpoint>,
    cfg: Config,
    lookup: Result<Vec<IpAddr>, String>,
    after: Seq<Endpoint>,
    r: Result<Reconciled, Error>,
)
    requires
        is_refreshed(before, cfg, lookup, after, r),
        match lookup {
            Err(_) => true,
            Ok(addrs) => addrs.len() == 0,
        },
    ensures
        r is Err,
        after == before,
{
}

/// A refresh gives each address that was found its endpoint, and no other. One that was
/// there keeps its connections and its health, and any other starts afresh.
pub proof fn a_refresh_follows_the_lookup(
    before: Seq<Endpoint>,
    cfg: Config,
    addrs: Vec<IpAddr>,
    after: Seq<Endpoint>,
    r: Result<Reconciled, Error>,
    i: int,
)
    requires
        is_refreshed(before, cfg, Ok(addrs), after, r),
        addrs.len() > 0,
        0 <= i < after.len(),
    ensures
        r matches Ok(changes) && {
            &&& crate::addr::ascending(changes.added@)
            &&& crate::addr::ascending(changes.retired@)
            &&& forall|ip: IpAddr| #[trigger]
                changes.added@.contains(ip) <==> ips_of(after).contains(ip) && !ips_of(
                    before,
                ).contains(ip)
            &&& forall|ip: IpAddr| #[trigger]
                changes.retired@.contains(ip) <==> ips_of(before).contains(ip) && !ips_of(
                    after,
                ).contains(ip)
        },
        forall|ip: IpAddr| #[trigger] addrs@.contains(ip) <==> ips_of(after).contains(ip),
        forall|j: int|
            0 <= j < after.len() && j != i ==> (#[trigger] after[j]).ip != after[i].ip,
        forall|j: int|
            0 <= j < before.len() && (#[trigger] before[j]).ip == after[i].ip ==> after[i]
                == before[j],
        !ips_of(before).contains(after[i].ip) ==> after[i].is_fresh(after[i].ip, cfg),
{
    assert(is_carried_or_fresh(before, ips_of(after)[i], cfg, after[i]));
    assert forall|j: int| 0 <= j < after.len() && j != i implies (#[trigger] after[j]).ip
        != after[i].ip by {
        assert(ips_of(after)[j] == after[j].ip);
        assert(ips_of(after)[i] == after[i].ip);
    }
    assert forall|ip: IpAddr| #[trigger] addrs@.contains(ip) <==> ips_of(after).contains(ip) by {}
}

/// An event or the decision of a supervisor reaches the endpoint of its address, and no
/// other.
pub proof fn events_reach_their_own_endpoint(
    before: Seq<Endpoint>,
    ip: IpAddr,
    event: EndpointEvent,
    conn: usize,
    action: ConnAction,
    after: Seq<Endpoint>,
    i: int,
)
    requires
        0 <= i < before.len(),
    ensures
        is_applied(before, ip, event, after) ==> after.len() == before.len() && after[i].ip
            == before[i].ip && (before[i].ip != ip ==> after[i] == before[i]) && (before[i].ip
            == ip ==> before[i].answers(event, after[i])),
        is_followed(before, ip, conn, action, after) ==> after.len() == before.len() && after[i].ip
            == before[i].ip && (before[i].ip != ip ==> after[i] == before[i]) && (before[i].ip
            == ip ==> before[i].follows(conn, action, after[i])),
{
    if is_applied(before, ip, event, after) {
        assert(before[i].ip == before[i].ip);
    }
    if is_followed(before, ip, conn, action, after) {
        assert(before[i].ip == before[i].ip);
    }
}

/// A pool is ready exactly where a connection of some endpoint is, and a connection is
/// ready exactly where the endpoint of its address has it so.
pub proof fn ready_means_a_ready_connection(endpoints: Seq<Endpoint>, ip: IpAddr, conn: usize)
    requires
        endpoints.len() <= usize::MAX,
    ensures
        any_endpoint_ready(endpoints) <==> exists|k: int, i: int|
            0 <= k < endpoints.len() && 0 <= i < endpoints[k].conns@.len() && (
            #[trigger] endpoints[k].conns@[i]).ready,
        is_conn_ready(endpoints, ip, conn) <==> exists|k: int|
            0 <= k < endpoints.len() && (#[trigger] endpoints[k]).ip == ip && conn
                < endpoints[k].conns@.len() && endpoints[k].conns@[conn as int].ready,
{
    if any_endpoint_ready(endpoints) {
        let k = choose|k: int|
            0 <= k < endpoints.len() && crate::endpoint::any_ready((#[trigger] endpoints[k]).conns@);
        let conns = endpoints[k].conns@;
        let i = choose|i: int| 0 <= i < conns.len() && (#[trigger] conns[i]).ready;
        assert(endpoints[k].conns@[i].ready);
    }
    if exists|k: int, i: int|
        0 <= k < endpoints.len() && 0 <= i < endpoints[k].conns@.len() && (
        #[trigger] endpoints[k].conns@[i]).ready {
        let (k, i) = choose|k: int, i: int|
            0 <= k < endpoints.len() && 0 <= i < endpoints[k].conns@.len() && (
            #[trigger] endpoints[k].conns@[i]).ready;
        assert(crate::endpoint::any_ready(endpoints[k].conns@));
    }
    if exists|k: int|
        0 <= k < endpoints.len() && (#[trigger] endpoints[k]).ip == ip && conn
            < endpoints[k].conns@.len() && endpoints[k].conns@[conn as int].ready {
        let k = choose|k: int|
            0 <= k < endpoints.len() && (#[trigger] endpoints[k]).ip == ip && conn
                < endpoints[k].conns@.len() && endpoints[k].conns@[conn as int].ready;
        assert(is_ready_at(endpoints, k as usize, Target { ip, conn }));
    }
}

/// A cold pool has one fresh endpoint for each address that was found, and no other.
pub proof fn a_cold_pool_has_an_endpoint_for_each_address(
    endpoints: Seq<Endpoint>,
    addrs: Seq<IpAddr>,
    cfg: Config,
    ip: IpAddr,
    i: int,
)
    requires
        is_cold(endpoints, addrs, cfg),
        0 <= i < endpoints.len(),
    ensures
        addrs.contains(ip) <==> exists|k: int|
            0 <= k < endpoints.len() && (#[trigger] endpoints[k]).ip == ip,
        endpoints[i].is_fresh(endpoints[i].ip, cfg),
        forall|k: int|
            0 <= k < endpoints.len() && k != i ==> (#[trigger] endpoints[k]).ip != endpoints[i].ip,
{
    let ips = ips_of(endpoints);
    if addrs.contains(ip) {
        assert(ips.contains(ip));
        let k = ips.index_of(ip);
        assert(endpoints[k].ip == ip);
    }
    if exists|k: int| 0 <= k < endpoints.len() && (#[trigger] endpoints[k]).ip == ip {
        let k = choose|k: int| 0 <= k < endpoints.len() && (#[trigger] endpoints[k]).ip == ip;
        assert(ips[k] == ip);
        assert(ips.contains(ip));
    }
    assert forall|k: int| 0 <= k < endpoints.len() && k != i implies (#[trigger] endpoints[k]).ip
        != endpoints[i].ip by {
        assert(ips[k] == endpoints[k].ip && ips[i] == endpoints[i].ip);
    }
}

} // verus!
