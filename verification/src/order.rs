//! Strictly sorted sequences: equal as soon as they have the same elements.

use vstd::prelude::*;

verus! {

/// Each element comes before every later one.
pub open spec fn sorted_by<A>(s: Seq<A>, before: spec_fn(A, A) -> bool) -> bool {
    forall|i: int, j: int| 0 <= i < j < s.len() ==> before(#[trigger] s[i], #[trigger] s[j])
}

/// No two elements come before each other.
pub open spec fn is_asymmetric<A>(before: spec_fn(A, A) -> bool) -> bool {
    forall|x: A, y: A| #[trigger] before(x, y) ==> !before(y, x)
}

/// Every element of `a` is one of `b`.
pub open spec fn is_within<A>(a: Seq<A>, b: Seq<A>) -> bool {
    forall|i: int| 0 <= i < a.len() ==> b.contains(#[trigger] a[i])
}

/// Where `a` is within `b`, an element stands in `b` no earlier than in `a`.
proof fn stands_no_earlier<A>(
    a: Seq<A>,
    b: Seq<A>,
    before: spec_fn(A, A) -> bool,
    i: int,
    k: int,
)
    requires
        sorted_by(a, before),
        sorted_by(b, before),
        is_asymmetric(before),
        is_within(a, b),
        0 <= i < a.len(),
        0 <= k < b.len(),
        a[i] == b[k],
    ensures
        k >= i,
    decreases i,
{
    if i > 0 {
        let m = b.index_of(a[i - 1]);
        assert(b.contains(a[i - 1]));
        stands_no_earlier(a, b, before, i - 1, m);
        assert(before(a[i - 1], a[i]));
        if k < m {
            assert(before(b[k], b[m]));
        }
    }
}

/// A strictly sorted sequence within another is no longer than it.
pub proof fn no_longer_within<A>(a: Seq<A>, b: Seq<A>, before: spec_fn(A, A) -> bool)
    requires
        sorted_by(a, before),
        sorted_by(b, before),
        is_asymmetric(before),
        is_within(a, b),
    ensures
        a.len() <= b.len(),
{
    if a.len() > 0 {
        let last = a.len() - 1;
        assert(b.contains(a[last]));
        stands_no_earlier(a, b, before, last, b.index_of(a[last]));
    }
}

/// Where `a` is within an equally long `b`, an element stands in `b` no later
/// than in `a`.
proof fn stands_no_later<A>(a: Seq<A>, b: Seq<A>, before: spec_fn(A, A) -> bool, i: int, k: int)
    requires
        sorted_by(a, before),
        sorted_by(b, before),
        is_asymmetric(before),
        is_within(a, b),
        a.len() == b.len(),
        0 <= i < a.len(),
        0 <= k < b.len(),
        a[i] == b[k],
    ensures
        k <= i,
    decreases a.len() - i,
{
    if i + 1 < a.len() {
        let m = b.index_of(a[i + 1]);
        assert(b.contains(a[i + 1]));
        stands_no_later(a, b, before, i + 1, m);
        assert(before(a[i], a[i + 1]));
        if m < k {
            assert(before(b[m], b[k]));
        }
    }
}

/// Two strictly sorted sequences of one length, one within the other, are equal.
pub proof fn same_when_within<A>(a: Seq<A>, b: Seq<A>, before: spec_fn(A, A) -> bool)
    requires
        sorted_by(a, before),
        sorted_by(b, before),
        is_asymmetric(before),
        is_within(a, b),
        a.len() == b.len(),
    ensures
        a == b,
{
    assert forall|i: int| 0 <= i < a.len() implies a[i] == b[i] by {
        assert(b.contains(a[i]));
        let k = b.index_of(a[i]);
        stands_no_earlier(a, b, before, i, k);
        stands_no_later(a, b, before, i, k);
    }
    assert(a =~= b);
}

/// Two strictly sorted sequences with the same elements are equal.
pub proof fn same_elements_same_order<A>(a: Seq<A>, b: Seq<A>, before: spec_fn(A, A) -> bool)
    requires
        sorted_by(a, before),
        sorted_by(b, before),
        is_asymmetric(before),
        is_within(a, b),
        is_within(b, a),
    ensures
        a == b,
{
    no_longer_within(a, b, before);
    no_longer_within(b, a, before);
    same_when_within(a, b, before);
}

} // verus!
