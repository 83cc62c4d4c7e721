//! A map from text to values that keeps its entries in key order.

use vstd::prelude::*;
use vstd::string::*;

verus! {

/// Byte-wise lexicographic order.
pub open spec fn lex_less(a: Seq<u8>, b: Seq<u8>) -> bool
    decreases a.len(),
{
    if b.len() == 0 {
        false
    } else if a.len() == 0 {
        true
    } else if a[0] != b[0] {
        a[0] < b[0]
    } else {
        lex_less(a.drop_first(), b.drop_first())
    }
}

/// The order of text keys: that of their UTF-8 bytes.
pub open spec fn key_less(a: Seq<char>, b: Seq<char>) -> bool {
    lex_less(vstd::utf8::encode_utf8(a), vstd::utf8::encode_utf8(b))
}

proof fn lex_less_irreflexive(a: Seq<u8>)
    ensures
        !lex_less(a, a),
    decreases a.len(),
{
    if a.len() > 0 {
        lex_less_irreflexive(a.drop_first());
    }
}

proof fn lex_less_transitive(a: Seq<u8>, b: Seq<u8>, c: Seq<u8>)
    requires
        lex_less(a, b),
        lex_less(b, c),
    ensures
        lex_less(a, c),
    decreases a.len(),
{
    if a.len() > 0 && a[0] == b[0] && b[0] == c[0] {
        lex_less_transitive(a.drop_first(), b.drop_first(), c.drop_first());
    }
}

proof fn lex_less_total(a: Seq<u8>, b: Seq<u8>)
    ensures
        lex_less(a, b) || lex_less(b, a) || a == b,
    decreases a.len(),
{
    if a.len() == 0 || b.len() == 0 {
        if a.len() == b.len() {
            assert(a =~= b);
        }
    } else if a[0] == b[0] {
        lex_less_total(a.drop_first(), b.drop_first());
        if a.drop_first() == b.drop_first() {
            assert(a =~= seq![a[0]] + a.drop_first());
            assert(b =~= seq![b[0]] + b.drop_first());
        }
    }
}

/// The key order is strict, transitive and total.
pub proof fn key_order_laws(a: Seq<char>, b: Seq<char>, c: Seq<char>)
    ensures
        !key_less(a, a),
        key_less(a, b) && key_less(b, c) ==> key_less(a, c),
        key_less(a, b) || key_less(b, a) || a == b,
{
    let x = vstd::utf8::encode_utf8(a);
    let y = vstd::utf8::encode_utf8(b);
    let z = vstd::utf8::encode_utf8(c);
    lex_less_irreflexive(x);
    if lex_less(x, y) && lex_less(y, z) {
        lex_less_transitive(x, y, z);
    }
    lex_less_total(x, y);
    if x == y {
        vstd::utf8::encode_utf8_decode_utf8(a);
        vstd::utf8::encode_utf8_decode_utf8(b);
        assert(vstd::utf8::decode_utf8(x) == a);
    }
}

/// Entries in strictly ascending key order: sorted, and no key twice.
pub open spec fn in_key_order<V>(entries: Seq<(Seq<char>, V)>) -> bool {
    forall|i: int, j: int|
        0 <= i < j < entries.len() ==> key_less((#[trigger] entries[i]).0, (#[trigger] entries[j]).0)
}

/// Whether some entry has the key `k`.
pub open spec fn has_key<V>(entries: Seq<(Seq<char>, V)>, k: Seq<char>) -> bool {
    exists|i: int| 0 <= i < entries.len() && (#[trigger] entries[i]).0 == k
}

/// The map that a list of entries stands for.
pub open spec fn map_of<V>(entries: Seq<(Seq<char>, V)>) -> Map<Seq<char>, V> {
    Map::new(
        |k: Seq<char>| has_key(entries, k),
        |k: Seq<char>|
            entries[choose|i: int| 0 <= i < entries.len() && (#[trigger] entries[i]).0 == k].1,
    )
}

/// In a list in key order every entry is what the map has under its key.
pub proof fn map_of_entry<V>(entries: Seq<(Seq<char>, V)>, i: int)
    requires
        in_key_order(entries),
        0 <= i < entries.len(),
    ensures
        map_of(entries).contains_key(entries[i].0),
        map_of(entries)[entries[i].0] == entries[i].1,
{
    let k = entries[i].0;
    assert(has_key(entries, k));
    let j = choose|j: int| 0 <= j < entries.len() && (#[trigger] entries[j]).0 == k;
    key_order_laws(k, k, k);
    if j != i {
        if j < i {
            assert(key_less(entries[j].0, entries[i].0));
        } else {
            assert(key_less(entries[i].0, entries[j].0));
        }
    }
}

/// Lists in key order whose maps have the same keys have the same keys in the
/// same places.
pub proof fn same_keys_same_places<V, W>(a: Seq<(Seq<char>, V)>, b: Seq<(Seq<char>, W)>)
    requires
        in_key_order(a),
        in_key_order(b),
        map_of(a).dom() == map_of(b).dom(),
    ensures
        a.len() == b.len(),
        forall|i: int| 0 <= i < a.len() ==> (#[trigger] a[i]).0 == b[i].0,
{
    let less = |x: Seq<char>, y: Seq<char>| key_less(x, y);
    let x = a.map_values(|e: (Seq<char>, V)| e.0);
    let y = b.map_values(|e: (Seq<char>, W)| e.0);
    assert forall|p: Seq<char>, q: Seq<char>| #[trigger] less(p, q) implies !less(q, p) by {
        key_order_laws(p, q, p);
    }
    assert forall|i: int| 0 <= i < x.len() implies y.contains(#[trigger] x[i]) by {
        assert(has_key(a, a[i].0));
        assert(map_of(b).dom().contains(a[i].0));
        let j = choose|j: int| 0 <= j < b.len() && (#[trigger] b[j]).0 == a[i].0;
        assert(y[j] == x[i]);
    }
    assert forall|i: int| 0 <= i < y.len() implies x.contains(#[trigger] y[i]) by {
        assert(has_key(b, b[i].0));
        assert(map_of(a).dom().contains(b[i].0));
        let j = choose|j: int| 0 <= j < a.len() && (#[trigger] a[j]).0 == b[i].0;
        assert(x[j] == y[i]);
    }
    crate::order::same_elements_same_order(x, y, less);
    assert forall|i: int| 0 <= i < a.len() implies (#[trigger] a[i]).0 == b[i].0 by {
        assert(x[i] == y[i]);
    }
}

/// Whether `a` sorts before `b`.
fn key_is_before(a: &str, b: &str) -> (r: bool)
    ensures
        r == key_less(a@, b@),
{
    let x = a.as_bytes();
    let y = b.as_bytes();
    let mut i: usize = 0;
    assert(x@.skip(0) =~= x@ && y@.skip(0) =~= y@);
    while i < x.len() && i < y.len()
        invariant
            i <= x@.len(),
            i <= y@.len(),
            x@ == vstd::utf8::encode_utf8(a@),
            y@ == vstd::utf8::encode_utf8(b@),
            key_less(a@, b@) == lex_less(x@.skip(i as int), y@.skip(i as int)),
        decreases x@.len() - i,
    {
        if x[i] != y[i] {
            return x[i] < y[i];
        }
        assert(x@.skip(i as int).drop_first() =~= x@.skip(i + 1));
        assert(y@.skip(i as int).drop_first() =~= y@.skip(i + 1));
        i += 1;
    }
    i < y.len()
}

/// The entries of a vector of pairs, with every key as its characters.
pub open spec fn keyed<V>(pairs: Seq<(String, V)>) -> Seq<(Seq<char>, V)> {
    pairs.map_values(|e: (String, V)| (e.0@, e.1))
}

/// A map from text to values, in key order.
#[derive(Debug)]
pub struct SortedMap<V> {
    pairs: Vec<(String, V)>,
}

impl<V> View for SortedMap<V> {
    type V = Map<Seq<char>, V>;

    open spec fn view(&self) -> Map<Seq<char>, V> {
        map_of(self.entries())
    }
}

impl<V> SortedMap<V> {
    #[verifier::type_invariant]
    closed spec fn sorted(self) -> bool {
        in_key_order(self.entries())
    }

    /// The entries, in key order.
    pub closed spec fn entries(self) -> Seq<(Seq<char>, V)> {
        keyed(self.pairs@)
    }

    /// The empty map.
    pub fn new() -> (m: SortedMap<V>)
        ensures
            in_key_order(m.entries()),
            m@ == Map::<Seq<char>, V>::empty(),
            m.entries() == Seq::<(Seq<char>, V)>::empty(),
    {
        let m = SortedMap { pairs: Vec::new() };
        assert(m.entries() =~= Seq::<(Seq<char>, V)>::empty());
        assert(m@ =~= Map::<Seq<char>, V>::empty());
        m
    }

    /// How many entries there are.
    pub fn len(&self) -> (n: usize)
        ensures
            n == self.entries().len(),
            in_key_order(self.entries()),
    {
        proof {
            use_type_invariant(self);
        }
        self.pairs.len()
    }

    /// The `i`-th entry in key order.
    pub fn entry(&self, i: usize) -> (e: (&str, &V))
        requires
            i < self.entries().len(),
        ensures
            e.0@ == self.entries()[i as int].0,
            *e.1 == self.entries()[i as int].1,
    {
        let pair = &self.pairs[i];
        (pair.0.as_str(), &pair.1)
    }

    /// Where `key` is, or where it belongs.
    fn position(&self, key: &str) -> (at: usize)
        ensures
            at <= self.entries().len(),
            forall|k: int| 0 <= k < at ==> key_less((#[trigger] self.entries()[k]).0, key@),
            forall|k: int|
                at <= k < self.entries().len() ==> (#[trigger] self.entries()[k]).0 == key@ || key_less(
                    key@,
                    self.entries()[k].0,
                ),
            forall|k: int| at < k < self.entries().len() ==> (#[trigger] self.entries()[k]).0 != key@,
    {
        proof {
            use_type_invariant(self);
        }
        let ghost entries = self.entries();
        let mut at: usize = 0;
        while at < self.pairs.len() && key_is_before(self.pairs[at].0.as_str(), key)
            invariant
                at <= self.pairs@.len(),
                entries == self.entries(),
                forall|k: int| 0 <= k < at ==> key_less((#[trigger] entries[k]).0, key@),
            decreases self.pairs@.len() - at,
        {
            at += 1;
        }
        assert forall|k: int| at <= k < entries.len() implies {
            &&& (#[trigger] entries[k]).0 == key@ || key_less(key@, entries[k].0)
            &&& k > at ==> entries[k].0 != key@
        } by {
            let here = entries[at as int].0;
            key_order_laws(here, key@, key@);
            key_order_laws(key@, here, entries[k].0);
            if k > at {
                assert(key_less(here, entries[k].0));
            }
            key_order_laws(key@, key@, key@);
        }
        at
    }

    /// What the map has under `key`.
    pub fn get(&self, key: &str) -> (v: Option<&V>)
        ensures
            v is Some <==> self@.contains_key(key@),
            v matches Some(x) ==> *x == self@[key@],
    {
        proof {
            use_type_invariant(self);
        }
        let at = self.position(key);
        if at < self.pairs.len() && key_equals(&self.pairs[at].0, key) {
            proof {
                map_of_entry(self.entries(), at as int);
            }
            Some(&self.pairs[at].1)
        } else {
            proof {
                lacks(self.entries(), key@, at as int);
            }
            None
        }
    }
}

/// Whether a stored key is the given text.
fn key_equals(stored: &String, key: &str) -> (b: bool)
    ensures
        b == (stored@ == key@),
{
    proof {
        key_order_laws(stored@, key@, stored@);
        key_order_laws(key@, key@, key@);
    }
    !key_is_before(stored.as_str(), key) && !key_is_before(key, stored.as_str())
}

/// A key that is neither below nor at its place is in no entry.
proof fn lacks<V>(entries: Seq<(Seq<char>, V)>, key: Seq<char>, at: int)
    requires
        0 <= at <= entries.len(),
        forall|k: int| 0 <= k < at ==> key_less((#[trigger] entries[k]).0, key),
        forall|k: int| at < k < entries.len() ==> (#[trigger] entries[k]).0 != key,
        at < entries.len() ==> entries[at].0 != key,
    ensures
        !has_key(entries, key),
{
    key_order_laws(key, key, key);
}

/// Taking out the entry at `at` takes its key out of the map, and nothing else.
proof fn map_of_remove<V>(entries: Seq<(Seq<char>, V)>, at: int)
    requires
        in_key_order(entries),
        0 <= at < entries.len(),
    ensures
        in_key_order(entries.remove(at)),
        map_of(entries.remove(at)) == map_of(entries).remove(entries[at].0),
{
    let rest = entries.remove(at);
    let key = entries[at].0;
    assert forall|i: int, j: int| 0 <= i < j < rest.len() implies key_less(
        (#[trigger] rest[i]).0,
        (#[trigger] rest[j]).0,
    ) by {
        assert(key_less(
            entries[if i < at { i } else { i + 1 }].0,
            entries[if j < at { j } else { j + 1 }].0,
        ));
    }
    key_order_laws(key, key, key);
    assert forall|k: Seq<char>| #[trigger] has_key(rest, k) <==> has_key(entries, k) && k != key by {
        if has_key(rest, k) {
            let i = choose|i: int| 0 <= i < rest.len() && (#[trigger] rest[i]).0 == k;
            let o = if i < at { i } else { i + 1 };
            assert(entries[o].0 == k);
            if o < at {
                assert(key_less(entries[o].0, entries[at].0));
            } else {
                assert(key_less(entries[at].0, entries[o].0));
            }
        }
        if has_key(entries, k) && k != key {
            let i = choose|i: int| 0 <= i < entries.len() && (#[trigger] entries[i]).0 == k;
            assert(rest[if i < at { i } else { i - 1 }].0 == k);
        }
    }
    assert forall|k: Seq<char>| has_key(rest, k) implies #[trigger] map_of(rest)[k] == map_of(
        entries,
    )[k] by {
        let i = choose|i: int| 0 <= i < rest.len() && (#[trigger] rest[i]).0 == k;
        let o = if i < at { i } else { i + 1 };
        assert(entries[o] == rest[i]);
        map_of_entry(rest, i);
        map_of_entry(entries, o);
    }
    assert(map_of(rest) =~= map_of(entries).remove(key));
}

/// Putting a new key in its place adds it to the map, and changes nothing else.
proof fn map_of_insert<V>(entries: Seq<(Seq<char>, V)>, at: int, key: Seq<char>, value: V)
    requires
        in_key_order(entries),
        0 <= at <= entries.len(),
        forall|k: int| 0 <= k < at ==> key_less((#[trigger] entries[k]).0, key),
        forall|k: int| at <= k < entries.len() ==> key_less(key, (#[trigger] entries[k]).0),
    ensures
        in_key_order(entries.insert(at, (key, value))),
        map_of(entries.insert(at, (key, value))) == map_of(entries).insert(key, value),
{
    let more = entries.insert(at, (key, value));
    assert forall|i: int, j: int| 0 <= i < j < more.len() implies key_less(
        (#[trigger] more[i]).0,
        (#[trigger] more[j]).0,
    ) by {
        let o = if i < at { i } else { i - 1 };
        let p = if j < at { j } else { j - 1 };
        if i != at && j != at {
            assert(key_less(entries[o].0, entries[p].0));
        } else if i == at {
            assert(key_less(key, entries[p].0));
        } else {
            assert(key_less(entries[o].0, key));
        }
    }
    assert(more.remove(at) =~= entries);
    map_of_remove(more, at);
    map_of_entry(more, at);
    assert(map_of(more) =~= map_of(entries).insert(key, value));
}

impl<V> SortedMap<V> {
    /// The map without `key`, and what it had there.
    pub fn take(self, key: &str) -> (r: (SortedMap<V>, Option<V>))
        ensures
            in_key_order(self.entries()),
            in_key_order(r.0.entries()),
            r.0@ == self@.remove(key@),
            r.1 == if self@.contains_key(key@) {
                Some(self@[key@])
            } else {
                None
            },
    {
        proof {
            use_type_invariant(&self);
        }
        let ghost entries = self.entries();
        let at = self.position(key);
        let mut pairs = self.pairs;
        if at < pairs.len() && key_equals(&pairs[at].0, key) {
            let pair = pairs.remove(at);
            proof {
                map_of_entry(entries, at as int);
                map_of_remove(entries, at as int);
                assert(keyed(pairs@) =~= entries.remove(at as int));
            }
            (SortedMap { pairs }, Some(pair.1))
        } else {
            proof {
                lacks(entries, key@, at as int);
                assert(map_of(entries).remove(key@) =~= map_of(entries));
            }
            (SortedMap { pairs }, None)
        }
    }

    /// The map with `value` under `key`, in place of anything that was there.
    pub fn insert(self, key: &str, value: V) -> (m: SortedMap<V>)
        ensures
            in_key_order(self.entries()),
            in_key_order(m.entries()),
            m@ == self@.insert(key@, value),
    {
        let ghost before = self@;
        let (rest, _) = self.take(key);
        proof {
            use_type_invariant(&rest);
        }
        let ghost entries = rest.entries();
        let at = rest.position(key);
        let mut pairs = rest.pairs;
        proof {
            assert forall|k: int| at <= k < entries.len() implies key_less(
                key@,
                (#[trigger] entries[k]).0,
            ) by {
                map_of_entry(entries, k);
            }
            map_of_insert(entries, at as int, key@, value);
        }
        pairs.insert(at, (key.to_owned(), value));
        assert(keyed(pairs@) =~= entries.insert(at as int, (key@, value)));
        let m = SortedMap { pairs };
        assert(m@ =~= before.insert(key@, value));
        m
    }
}

impl<V: Clone> Clone for SortedMap<V> {
    fn clone(&self) -> (m: SortedMap<V>)
        ensures
            m.entries().len() == self.entries().len(),
            forall|i: int|
                0 <= i < m.entries().len() ==> {
                    &&& (#[trigger] m.entries()[i]).0 == self.entries()[i].0
                    &&& cloned(self.entries()[i].1, m.entries()[i].1)
                },
    {
        proof {
            use_type_invariant(self);
        }
        let ghost entries = self.entries();
        let mut pairs: Vec<(String, V)> = Vec::new();
        let mut i: usize = 0;
        while i < self.pairs.len()
            invariant
                i <= self.pairs@.len(),
                pairs@.len() == i,
                entries == keyed(self.pairs@),
                forall|k: int|
                    0 <= k < i ==> {
                        &&& (#[trigger] pairs@[k]).0@ == entries[k].0
                        &&& cloned(entries[k].1, pairs@[k].1)
                    },
            decreases self.pairs@.len() - i,
        {
            let pair = &self.pairs[i];
            let value = pair.1.clone();
            pairs.push((pair.0.clone(), value));
            i += 1;
        }
        assert forall|i: int, j: int| 0 <= i < j < pairs@.len() implies key_less(
            (#[trigger] keyed(pairs@)[i]).0,
            (#[trigger] keyed(pairs@)[j]).0,
        ) by {
            assert(key_less(entries[i].0, entries[j].0));
        }
        SortedMap { pairs }
    }
}

/// Where two byte strings first differ decides their order; one that ends there comes
/// first.
pub proof fn the_first_difference_decides(a: Seq<u8>, b: Seq<u8>, at: int)
    requires
        0 <= at <= a.len(),
        at <= b.len(),
        a.take(at) == b.take(at),
        at == a.len() || at == b.len() || a[at] != b[at],
    ensures
        lex_less(a, b) <==> at < b.len() && (at == a.len() || a[at] < b[at]),
    decreases at,
{
    if at > 0 {
        assert(a.take(at)[0] == a[0] && b.take(at)[0] == b[0]);
        let (x, y) = (a.drop_first(), b.drop_first());
        assert(x.take(at - 1) =~= a.take(at).drop_first());
        assert(y.take(at - 1) =~= b.take(at).drop_first());
        the_first_difference_decides(x, y, at - 1);
    }
}

} // verus!
