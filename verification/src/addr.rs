//! Endpoint addresses: their order, their text form, and sets of them.

use vstd::prelude::*;
use vstd::string::*;

use crate::text::push_numeral;

verus! {

/// The address of one endpoint, as its bits in network order.
#[derive(Clone, Copy, PartialEq, Eq, Hash, Structural)]
pub enum IpAddr {
    /// Four octets, the first in the high bits.
    V4(u32),
    /// Eight 16-bit segments, the first in the high bits.
    V6(u128),
}

/// The lowest `n` base-`radix` digits of `bits`, most significant first.
pub open spec fn fields(bits: nat, radix: nat, n: nat) -> Seq<nat>
    decreases n,
{
    if n == 0 {
        seq![]
    } else {
        fields(bits / radix, radix, (n - 1) as nat).push(bits % radix)
    }
}

/// Numerals in the given base, with `separator` between neighbours.
pub open spec fn joined(parts: Seq<nat>, base: nat, separator: char) -> Seq<char>
    decreases parts.len(),
{
    if parts.len() == 0 {
        seq![]
    } else if parts.len() == 1 {
        crate::text::numeral(parts[0], base)
    } else {
        joined(parts.drop_last(), base, separator).push(separator) + crate::text::numeral(parts.last(), base)
    }
}

/// How many zeros in a row `parts` has from position `i` on.
pub open spec fn zeros_from(parts: Seq<nat>, i: int) -> nat
    decreases parts.len() - i,
{
    if 0 <= i < parts.len() && parts[i] == 0 {
        1 + zeros_from(parts, i + 1)
    } else {
        0
    }
}

/// Among the first `n` positions, the earliest one that starts the longest run
/// of zeros.
pub open spec fn longest_zeros(parts: Seq<nat>, n: int) -> int
    decreases n,
{
    if n <= 1 {
        0
    } else {
        let best = longest_zeros(parts, n - 1);
        if zeros_from(parts, n - 1) > zeros_from(parts, best) {
            n - 1
        } else {
            best
        }
    }
}

/// The canonical text of eight IPv6 segments: an embedded IPv4 address is
/// written dotted, otherwise the first longest run of two or more zero segments
/// is written `::`.
pub open spec fn v6_text(bits: nat) -> Seq<char> {
    let segments = fields(bits, 65536, 8);
    let start = longest_zeros(segments, 8);
    let run = zeros_from(segments, start) as int;
    if bits / 0x1_0000_0000 == 0xffff {
        seq![':', ':', 'f', 'f', 'f', 'f', ':'] + joined(
            fields(bits % 0x1_0000_0000, 256, 4),
            10,
            '.',
        )
    } else if run > 1 {
        joined(segments.take(start), 16, ':') + seq![':', ':'] + joined(
            segments.skip(start + run),
            16,
            ':',
        )
    } else {
        joined(segments, 16, ':')
    }
}

impl IpAddr {
    /// The text form: dotted decimal, or canonical colon-separated hexadecimal.
    pub open spec fn text(self) -> Seq<char> {
        match self {
            IpAddr::V4(bits) => joined(fields(bits as nat, 256, 4), 10, '.'),
            IpAddr::V6(bits) => v6_text(bits as nat),
        }
    }

    /// Every IPv4 address comes before every IPv6 one; within a family the
    /// order is that of the bits.
    pub open spec fn precedes(self, other: IpAddr) -> bool {
        match (self, other) {
            (IpAddr::V4(a), IpAddr::V4(b)) => a < b,
            (IpAddr::V4(_), IpAddr::V6(_)) => true,
            (IpAddr::V6(_), IpAddr::V4(_)) => false,
            (IpAddr::V6(a), IpAddr::V6(b)) => a < b,
        }
    }

    /// The IPv4 address with these four octets.
    pub fn v4(a: u8, b: u8, c: u8, d: u8) -> (ip: IpAddr)
        ensures
            ip == IpAddr::V4((a * 0x100_0000 + b * 0x1_0000 + c * 0x100 + d) as u32),
    {
        IpAddr::V4(a as u32 * 0x100_0000 + b as u32 * 0x1_0000 + c as u32 * 0x100 + d as u32)
    }

    /// Whether this address sorts before `other`.
    pub fn is_before(&self, other: &IpAddr) -> (b: bool)
        ensures
            b == self.precedes(*other),
    {
        match (self, other) {
            (IpAddr::V4(a), IpAddr::V4(b)) => *a < *b,
            (IpAddr::V4(_), IpAddr::V6(_)) => true,
            (IpAddr::V6(_), IpAddr::V4(_)) => false,
            (IpAddr::V6(a), IpAddr::V6(b)) => *a < *b,
        }
    }
}

/// A vector of machine integers as a sequence of numbers.
pub open spec fn as_nats(v: Seq<u64>) -> Seq<nat> {
    v.map_values(|x: u64| x as nat)
}

/// Split `bits` into its lowest `n` base-`radix` digits.
fn split_fields(bits: u128, radix: u64, n: usize) -> (v: Vec<u64>)
    requires
        radix > 0,
    ensures
        as_nats(v@) == fields(bits as nat, radix as nat, n as nat),
        v@.len() == n,
    decreases n,
{
    if n == 0 {
        let v: Vec<u64> = Vec::new();
        assert(as_nats(v@) =~= fields(bits as nat, radix as nat, 0));
        v
    } else {
        let mut v = split_fields(bits / radix as u128, radix, n - 1);
        let ghost rest = v@;
        let d: u128 = bits % radix as u128;
        assert(d < radix) by (nonlinear_arith)
            requires
                d == bits % radix as u128,
                radix > 0,
        ;
        v.push(d as u64);
        assert(as_nats(v@) =~= as_nats(rest).push(d as nat));
        v
    }
}

/// Append the numerals of `parts[from..to]`, with `separator` between
/// neighbours.
fn push_joined(s: &mut String, parts: &Vec<u64>, from: usize, to: usize, base: u64, separator: char)
    requires
        from <= to <= parts@.len(),
        2 <= base <= 16,
    ensures
        final(s)@ == old(s)@ + joined(
            as_nats(parts@).subrange(from as int, to as int),
            base as nat,
            separator,
        ),
{
    let ghost before = s@;
    let ghost nats = as_nats(parts@);
    let mut i: usize = from;
    assert(before + joined(nats.subrange(from as int, from as int), base as nat, separator) =~= before);
    while i < to
        invariant
            from <= i <= to <= parts@.len(),
            2 <= base <= 16,
            nats == as_nats(parts@),
            s@ == before + joined(nats.subrange(from as int, i as int), base as nat, separator),
        decreases to - i,
    {
        let ghost done = nats.subrange(from as int, i as int);
        let ghost next = nats.subrange(from as int, i + 1);
        assert(next.drop_last() =~= done);
        if i > from {
            s.push(separator);
        }
        push_numeral(s, parts[i], base);
        assert(next.last() == parts@[i as int] as nat);
        assert(s@ =~= before + joined(next, base as nat, separator));
        i += 1;
    }
}

/// How many zeros in a row `parts` has from position `from` on.
fn count_zeros(parts: &Vec<u64>, from: usize) -> (n: usize)
    requires
        from <= parts@.len(),
    ensures
        n == zeros_from(as_nats(parts@), from as int),
        from + n <= parts@.len(),
    decreases parts@.len() - from,
{
    if from < parts.len() && parts[from] == 0 {
        1 + count_zeros(parts, from + 1)
    } else {
        0
    }
}

/// The earliest position that starts the longest run of zeros.
fn find_longest_zeros(parts: &Vec<u64>) -> (start: usize)
    requires
        parts@.len() > 0,
    ensures
        start == longest_zeros(as_nats(parts@), parts@.len() as int),
        start < parts@.len(),
{
    let mut best: usize = 0;
    let mut n: usize = 1;
    while n < parts.len()
        invariant
            1 <= n <= parts@.len(),
            best < n,
            best == longest_zeros(as_nats(parts@), n as int),
        decreases parts@.len() - n,
    {
        if count_zeros(parts, n) > count_zeros(parts, best) {
            best = n;
        }
        n += 1;
    }
    best
}

/// Append the dotted decimal form of an IPv4 address.
fn push_v4(s: &mut String, bits: u32)
    ensures
        final(s)@ == old(s)@ + joined(fields(bits as nat, 256, 4), 10, '.'),
{
    let octets = split_fields(bits as u128, 256, 4);
    push_joined(s, &octets, 0, 4, 10, '.');
    assert(as_nats(octets@).subrange(0, 4) =~= as_nats(octets@));
}

/// Append the canonical form of an IPv6 address.
fn push_v6(s: &mut String, bits: u128)
    ensures
        final(s)@ == old(s)@ + v6_text(bits as nat),
{
    let ghost before = s@;
    if bits / 0x1_0000_0000 == 0xffff {
        s.append("::ffff:");
        proof {
            reveal_strlit("::ffff:");
            assert("::ffff:"@ =~= seq![':', ':', 'f', 'f', 'f', 'f', ':']);
        }
        push_v4(s, (bits % 0x1_0000_0000) as u32);
        assert(s@ =~= before + v6_text(bits as nat));
    } else {
        let segments = split_fields(bits, 65536, 8);
        let ghost nats = as_nats(segments@);
        let start = find_longest_zeros(&segments);
        let run = count_zeros(&segments, start);
        if run > 1 {
            push_joined(s, &segments, 0, start, 16, ':');
            s.append("::");
            proof {
                reveal_strlit("::");
                assert("::"@ =~= seq![':', ':']);
            }
            push_joined(s, &segments, start + run, 8, 16, ':');
            assert(nats.subrange(0, start as int) =~= nats.take(start as int));
            assert(nats.subrange(start + run, 8) =~= nats.skip(start + run));
            assert(s@ =~= before + v6_text(bits as nat));
        } else {
            push_joined(s, &segments, 0, 8, 16, ':');
            assert(nats.subrange(0, 8) =~= nats);
        }
    }
}

impl IpAddr {
    /// Append the text form of this address.
    pub fn push_text(&self, s: &mut String)
        ensures
            final(s)@ == old(s)@ + self.text(),
    {
        match self {
            IpAddr::V4(bits) => push_v4(s, *bits),
            IpAddr::V6(bits) => push_v6(s, *bits),
        }
    }
}

impl core::fmt::Debug for IpAddr {
    fn fmt(&self, f: &mut core::fmt::Formatter<'_>) -> (r: core::fmt::Result)
        ensures
            r is Ok ==> crate::text::written(*final(f)) == crate::text::written(*old(f)) + self.text(),
    {
        let mut s = String::new();
        self.push_text(&mut s);
        assert(s@ =~= self.text());
        f.write_str(&s)
    }
}

/// Addresses in strictly ascending order: sorted, and none twice.
pub open spec fn ascending(ips: Seq<IpAddr>) -> bool {
    forall|i: int, j: int| 0 <= i < j < ips.len() ==> (#[trigger] ips[i]).precedes(#[trigger] ips[j])
}

/// A set of addresses, kept in ascending order.
#[derive(Debug)]
pub struct AddressSet {
    ips: Vec<IpAddr>,
}

impl View for AddressSet {
    type V = Seq<IpAddr>;

    /// The members, in ascending order.
    closed spec fn view(&self) -> Seq<IpAddr> {
        self.ips@
    }
}

impl AddressSet {
    #[verifier::type_invariant]
    closed spec fn sorted(self) -> bool {
        ascending(self.ips@)
    }

    /// The set of the given addresses, whatever their order and however often
    /// each occurs.
    pub fn collect(addrs: &Vec<IpAddr>) -> (set: AddressSet)
        ensures
            ascending(set@),
            forall|ip: IpAddr| #[trigger] set@.contains(ip) <==> addrs@.contains(ip),
    {
        let mut ips: Vec<IpAddr> = Vec::new();
        let mut i: usize = 0;
        while i < addrs.len()
            invariant
                i <= addrs@.len(),
                ascending(ips@),
                forall|ip: IpAddr| #[trigger] ips@.contains(ip) <==> addrs@.take(i as int).contains(ip),
            decreases addrs@.len() - i,
        {
            let ghost before = ips@;
            let ghost seen = addrs@.take(i as int);
            let ghost more = addrs@.take(i + 1);
            let ip = addrs[i];
            insert_sorted(&mut ips, ip);
            assert forall|x: IpAddr| #[trigger] ips@.contains(x) <==> more.contains(x) by {
                assert(more =~= seen.push(ip));
                assert(seen.push(ip).contains(x) <==> seen.contains(x) || x == ip) by {
                    if seen.contains(x) {
                        let k = choose|k: int| 0 <= k < seen.len() && seen[k] == x;
                        assert(seen.push(ip)[k] == x);
                    }
                    assert(seen.push(ip)[seen.len() as int] == ip);
                }
            }
            i += 1;
        }
        assert(addrs@.take(addrs@.len() as int) =~= addrs@);
        AddressSet { ips }
    }

    /// The members, in ascending order.
    pub fn members(&self) -> (ips: &Vec<IpAddr>)
        ensures
            ips@ == self@,
            ascending(self@),
    {
        proof {
            use_type_invariant(self);
        }
        &self.ips
    }
}

/// Put `ip` in its place in an ascending vector, unless it is there already.
fn insert_sorted(ips: &mut Vec<IpAddr>, ip: IpAddr)
    requires
        ascending(old(ips)@),
    ensures
        ascending(final(ips)@),
        forall|x: IpAddr| #[trigger] final(ips)@.contains(x) <==> old(ips)@.contains(x) || x == ip,
{
    let ghost before = ips@;
    let mut at: usize = 0;
    while at < ips.len() && ips[at].is_before(&ip)
        invariant
            at <= ips@.len(),
            ips@ == before,
            forall|k: int| 0 <= k < at ==> (#[trigger] before[k]).precedes(ip),
        decreases ips@.len() - at,
    {
        at += 1;
    }
    if at < ips.len() && ips[at] == ip {
        return;
    }
    assert forall|k: int| at <= k < before.len() implies ip.precedes(#[trigger] before[k]) by {
        if k > at {
            assert(before[at as int].precedes(before[k]));
        }
    }
    ips.insert(at, ip);
    assert forall|x: IpAddr| #[trigger] ips@.contains(x) <==> before.contains(x) || x == ip by {
        if before.contains(x) {
            let k = choose|k: int| 0 <= k < before.len() && before[k] == x;
            assert(ips@[if k < at { k } else { k + 1 }] == x);
        }
        assert(ips@[at as int] == ip);
        if ips@.contains(x) {
            let k = choose|k: int| 0 <= k < ips@.len() && ips@[k] == x;
            if k != at {
                assert(before[if k < at { k } else { k - 1 }] == x);
            }
        }
    }
}

/// Addresses are strictly ordered: none comes before itself, the order chains, of two
/// different ones one comes first, and IPv4 comes before IPv6.
pub proof fn addresses_are_ordered(a: IpAddr, b: IpAddr, c: IpAddr)
    ensures
        !a.precedes(a),
        a.precedes(b) && b.precedes(c) ==> a.precedes(c),
        a != b ==> a.precedes(b) || b.precedes(a),
        a is V4 && b is V6 ==> a.precedes(b),
        a is V4 && b is V4 ==> (a.precedes(b) <==> a->V4_0 < b->V4_0),
        a is V6 && b is V6 ==> (a.precedes(b) <==> a->V6_0 < b->V6_0),
{
}

/// An IPv4 address reads as its four octets in decimal, with dots between them.
pub proof fn an_ipv4_address_reads_as_its_octets(a: u8, b: u8, c: u8, d: u8)
    ensures
        IpAddr::V4((a * 0x100_0000 + b * 0x1_0000 + c * 0x100 + d) as u32).text()
            == crate::text::numeral(a as nat, 10) + seq!['.'] + crate::text::numeral(b as nat, 10)
            + seq!['.'] + crate::text::numeral(c as nat, 10) + seq!['.'] + crate::text::numeral(
            d as nat,
            10,
        ),
{
    let bits = (a * 0x100_0000 + b * 0x1_0000 + c * 0x100 + d) as nat;
    let (p, q, s, t) = (a as nat, b as nat, c as nat, d as nat);
    let n3 = bits / 256;
    let n2 = n3 / 256;
    let n1 = n2 / 256;
    assert(bits % 256 == t && n3 % 256 == s && n2 % 256 == q && n1 % 256 == p);
    assert(fields(n1 / 256, 256, 0) =~= Seq::<nat>::empty());
    assert(fields(n1, 256, 1) =~= seq![p]);
    assert(fields(n2, 256, 2) =~= seq![p, q]);
    assert(fields(n3, 256, 3) =~= seq![p, q, s]);
    let parts = fields(bits, 256, 4);
    assert(parts =~= seq![p, q, s, t]);
    assert(parts.drop_last() =~= seq![p, q, s]);
    assert(parts.drop_last().drop_last() =~= seq![p, q]);
    assert(parts.drop_last().drop_last().drop_last() =~= seq![p]);
    let one = joined(seq![p], 10, '.');
    let two = joined(seq![p, q], 10, '.');
    let three = joined(seq![p, q, s], 10, '.');
    assert(two =~= one + seq!['.'] + crate::text::numeral(q, 10));
    assert(three =~= two + seq!['.'] + crate::text::numeral(s, 10));
    assert(joined(parts, 10, '.') =~= three + seq!['.'] + crate::text::numeral(t, 10));
}

/// The run of zeros from a place on is all zeros, and ends at the end or before
/// something else.
pub proof fn a_run_of_zeros_is_as_long_as_it_goes(parts: Seq<nat>, i: int)
    requires
        0 <= i <= parts.len(),
    ensures
        i + zeros_from(parts, i) <= parts.len(),
        forall|k: int| i <= k < i + zeros_from(parts, i) ==> #[trigger] parts[k] == 0,
        i + zeros_from(parts, i) < parts.len() ==> parts[i + zeros_from(parts, i)] != 0,
    decreases parts.len() - i,
{
    if i < parts.len() && parts[i] == 0 {
        a_run_of_zeros_is_as_long_as_it_goes(parts, i + 1);
    }
}

/// The longest run is no shorter than any, and longer than every earlier one.
pub proof fn the_first_longest_run_is_chosen(parts: Seq<nat>, n: int, i: int)
    requires
        1 <= n,
        0 <= i < n,
    ensures
        0 <= longest_zeros(parts, n) < n,
        zeros_from(parts, i) <= zeros_from(parts, longest_zeros(parts, n)),
        i < longest_zeros(parts, n) ==> zeros_from(parts, i) < zeros_from(
            parts,
            longest_zeros(parts, n),
        ),
    decreases n,
{
    if n > 1 {
        if i < n - 1 {
            the_first_longest_run_is_chosen(parts, n - 1, i);
        } else {
            the_first_longest_run_is_chosen(parts, n - 1, 0);
        }
    }
}

} // verus!
