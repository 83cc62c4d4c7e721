//! Writing JSON.

use vstd::prelude::*;
use vstd::string::*;

verus! {

/// How one byte of a string is written: quotes, backslashes and control
/// characters are escaped, everything else stands as it is.
pub open spec fn escape(b: u8) -> Seq<u8> {
    if b == 8 {
        seq![92, 98]
    } else if b == 9 {
        seq![92, 116]
    } else if b == 10 {
        seq![92, 110]
    } else if b == 12 {
        seq![92, 102]
    } else if b == 13 {
        seq![92, 114]
    } else if b == 34 || b == 92 {
        seq![92, b]
    } else if b < 32 {
        seq![
            92,
            117,
            48,
            48,
            crate::text::digit((b / 16) as int) as u8,
            crate::text::digit((b % 16) as int) as u8,
        ]
    } else {
        seq![b]
    }
}

/// Every byte escaped, in order.
pub open spec fn escaped(bytes: Seq<u8>) -> Seq<u8>
    decreases bytes.len(),
{
    if bytes.len() == 0 {
        seq![]
    } else {
        escaped(bytes.drop_last()) + escape(bytes.last())
    }
}

/// A text as a JSON string.
pub open spec fn json_string(s: Seq<char>) -> Seq<u8> {
    seq![34] + escaped(vstd::utf8::encode_utf8(s)) + seq![34]
}

/// Calls `serde_json::to_vec` on a string slice: the text in double quotes,
/// with the escapes of `escape`. Short of running out of memory, writing a
/// string into memory cannot fail.
#[verifier::external_body]
pub(crate) fn string(s: &str) -> (v: Vec<u8>)
    ensures
        v@ == json_string(s@),
{
    serde_json::to_vec(s).expect("writing to memory")
}

/// One member of an object: its name, a colon, its value.
pub open spec fn member(name: Seq<char>, value: Seq<u8>) -> Seq<u8> {
    json_string(name) + seq![58] + value
}

/// Parts with a comma between neighbours.
pub open spec fn comma_separated(parts: Seq<Seq<u8>>) -> Seq<u8>
    decreases parts.len(),
{
    if parts.len() == 0 {
        seq![]
    } else if parts.len() == 1 {
        parts[0]
    } else {
        comma_separated(parts.drop_last()) + seq![44] + parts.last()
    }
}

/// An object with the given members.
pub open spec fn object(members: Seq<Seq<u8>>) -> Seq<u8> {
    seq![123] + comma_separated(members) + seq![125]
}

/// Append bytes.
fn append(out: &mut Vec<u8>, bytes: &[u8])
    ensures
        final(out)@ == old(out)@ + bytes@,
{
    let ghost before = out@;
    out.extend_from_slice(bytes);
    assert(out@ =~= before + bytes@);
}

/// Write one member of an object.
pub fn write_member(name: &str, value: &[u8]) -> (v: Vec<u8>)
    ensures
        v@ == member(name@, value@),
{
    let mut v = string(name);
    v.push(58);
    append(&mut v, value);
    assert(v@ =~= member(name@, value@));
    v
}

/// The members that a vector of byte strings holds.
pub open spec fn parts_of(members: Seq<Vec<u8>>) -> Seq<Seq<u8>> {
    members.map_values(|m: Vec<u8>| m@)
}

/// Write an object with the given members.
pub fn write_object(members: &Vec<Vec<u8>>) -> (v: Vec<u8>)
    ensures
        v@ == object(parts_of(members@)),
{
    let ghost parts = parts_of(members@);
    let mut v: Vec<u8> = Vec::new();
    v.push(123);
    let mut i: usize = 0;
    assert(parts.take(0) =~= Seq::<Seq<u8>>::empty());
    assert(v@ =~= seq![123u8] + comma_separated(parts.take(0)));
    while i < members.len()
        invariant
            i <= members@.len(),
            parts == parts_of(members@),
            v@ == seq![123u8] + comma_separated(parts.take(i as int)),
        decreases members@.len() - i,
    {
        let ghost done = parts.take(i as int);
        let ghost next = parts.take(i + 1);
        assert(next.drop_last() =~= done);
        assert(next.last() == members@[i as int]@);
        if i > 0 {
            v.push(44);
        }
        append(&mut v, members[i].as_slice());
        assert(v@ =~= seq![123u8] + comma_separated(next));
        i += 1;
    }
    assert(parts.take(members@.len() as int) =~= parts);
    v.push(125);
    assert(v@ =~= object(parts));
    v
}

/// What one byte is written as tells where it ends, and which byte it was.
proof fn escape_tells_apart(b: u8, c: u8, r: Seq<u8>, s: Seq<u8>)
    requires
        escape(b) + r == escape(c) + s,
    ensures
        b == c,
        r == s,
{
    let x = escape(b) + r;
    let y = escape(c) + s;
    assert(x[0] == escape(b)[0] && y[0] == escape(c)[0]);
    if escape(b).len() >= 2 {
        assert(x[1] == escape(b)[1]);
    }
    if escape(c).len() >= 2 {
        assert(y[1] == escape(c)[1]);
    }
    if escape(b).len() == 6 {
        assert(x[4] == escape(b)[4] && x[5] == escape(b)[5]);
    }
    if escape(c).len() == 6 {
        assert(y[4] == escape(c)[4] && y[5] == escape(c)[5]);
    }
    assert(b == 16 * (b / 16) + b % 16);
    assert(c == 16 * (c / 16) + c % 16);
    assert(b == c);
    let n = escape(b).len() as int;
    assert(x.skip(n) =~= r);
    assert(y.skip(n) =~= s);
}

/// Escaping from the front.
proof fn escaped_from_front(bytes: Seq<u8>)
    requires
        bytes.len() > 0,
    ensures
        escaped(bytes) == escape(bytes[0]) + escaped(bytes.drop_first()),
    decreases bytes.len(),
{
    if bytes.len() == 1 {
        assert(bytes.drop_last() =~= Seq::<u8>::empty());
        assert(bytes.drop_first() =~= Seq::<u8>::empty());
        assert(escaped(bytes.drop_last()) =~= Seq::<u8>::empty());
        assert(escaped(bytes.drop_first()) =~= Seq::<u8>::empty());
        assert(escaped(bytes) =~= escape(bytes[0]) + escaped(bytes.drop_first()));
    } else {
        let front = bytes.drop_last();
        escaped_from_front(front);
        assert(bytes.drop_first().drop_last() =~= front.drop_first());
        assert(bytes.drop_first().last() == bytes.last());
        assert(escaped(bytes) =~= escape(bytes[0]) + escaped(bytes.drop_first()));
    }
}

/// No byte is written so that it begins with a quote.
proof fn escape_opens_without_quote(b: u8)
    ensures
        escape(b).len() > 0,
        escape(b)[0] != 34,
{
}

/// Escaped bytes up to a closing quote tell which bytes they were.
proof fn escaped_tells_apart(p: Seq<u8>, q: Seq<u8>, r: Seq<u8>, s: Seq<u8>)
    requires
        escaped(p) + seq![34u8] + r == escaped(q) + seq![34u8] + s,
    ensures
        p == q,
        r == s,
    decreases p.len(),
{
    let x = escaped(p) + seq![34u8] + r;
    let y = escaped(q) + seq![34u8] + s;
    if p.len() > 0 {
        escaped_from_front(p);
        escape_opens_without_quote(p[0]);
        assert(x[0] == escape(p[0])[0]);
    } else {
        assert(escaped(p) =~= Seq::<u8>::empty());
        assert(x[0] == 34);
    }
    if q.len() > 0 {
        escaped_from_front(q);
        escape_opens_without_quote(q[0]);
        assert(y[0] == escape(q[0])[0]);
    } else {
        assert(escaped(q) =~= Seq::<u8>::empty());
        assert(y[0] == 34);
    }
    if p.len() == 0 {
        assert(p =~= q);
        assert(x.skip(1) =~= r);
        assert(y.skip(1) =~= s);
    } else {
        let pr = escaped(p.drop_first()) + seq![34u8] + r;
        let qs = escaped(q.drop_first()) + seq![34u8] + s;
        assert(x =~= escape(p[0]) + pr);
        assert(y =~= escape(q[0]) + qs);
        escape_tells_apart(p[0], q[0], pr, qs);
        escaped_tells_apart(p.drop_first(), q.drop_first(), r, s);
        assert(p =~= seq![p[0]] + p.drop_first());
        assert(q =~= seq![q[0]] + q.drop_first());
    }
}

/// A string tells where it ends, and which text it is.
pub proof fn strings_tell_apart(a: Seq<char>, b: Seq<char>, r: Seq<u8>, s: Seq<u8>)
    requires
        json_string(a) + r == json_string(b) + s,
    ensures
        a == b,
        r == s,
{
    let x = json_string(a) + r;
    let y = json_string(b) + s;
    let p = vstd::utf8::encode_utf8(a);
    let q = vstd::utf8::encode_utf8(b);
    assert(x.skip(1) =~= escaped(p) + seq![34u8] + r);
    assert(y.skip(1) =~= escaped(q) + seq![34u8] + s);
    escaped_tells_apart(p, q, r, s);
    vstd::utf8::encode_utf8_decode_utf8(a);
    vstd::utf8::encode_utf8_decode_utf8(b);
}

/// Whether what follows a value in an object is there: a comma or the brace.
pub open spec fn ends_value(r: Seq<u8>) -> bool {
    r.len() > 0 && (r[0] == 44 || r[0] == 125)
}

/// Inside an object, two values show whether they are the same, and where they
/// end.
pub open spec fn told_apart(v: Seq<u8>, w: Seq<u8>) -> bool {
    forall|r: Seq<u8>, s: Seq<u8>|
        ends_value(r) && ends_value(s) && #[trigger] (v + r) == #[trigger] (w + s) ==> v == w && r
            == s
}

/// Names with their values.
pub open spec fn members_of(list: Seq<(Seq<char>, Seq<u8>)>) -> Seq<Seq<u8>> {
    list.map_values(|m: (Seq<char>, Seq<u8>)| member(m.0, m.1))
}

/// Values of two lists, each against each, are told apart.
pub open spec fn lists_told_apart(
    p: Seq<(Seq<char>, Seq<u8>)>,
    q: Seq<(Seq<char>, Seq<u8>)>,
) -> bool {
    forall|i: int, j: int|
        0 <= i < p.len() && 0 <= j < q.len() ==> told_apart((#[trigger] p[i]).1, (
        #[trigger] q[j]).1)
}

/// Separating from the front.
proof fn comma_separated_from_front(parts: Seq<Seq<u8>>)
    requires
        parts.len() > 1,
    ensures
        comma_separated(parts) == parts[0] + seq![44u8] + comma_separated(parts.drop_first()),
    decreases parts.len(),
{
    let front = parts.drop_last();
    assert(parts.drop_first().last() == parts.last());
    assert(parts.drop_first().drop_last() =~= front.drop_first());
    if parts.len() == 2 {
        assert(front[0] == parts[0]);
        assert(parts.drop_first()[0] == parts[1]);
        assert(comma_separated(front) == parts[0]);
        assert(comma_separated(parts.drop_first()) == parts[1]);
        assert(comma_separated(parts) == parts[0] + seq![44u8] + parts[1]);
        assert(comma_separated(parts) =~= parts[0] + seq![44u8] + comma_separated(
            parts.drop_first(),
        ));
    } else {
        comma_separated_from_front(front);
        assert(front[0] == parts[0]);
        assert(comma_separated(parts.drop_first()) == comma_separated(front.drop_first())
            + seq![44u8] + parts.last());
        assert(comma_separated(parts) =~= parts[0] + seq![44u8] + comma_separated(
            parts.drop_first(),
        ));
    }
}

/// The rest of an object behind its first member: a comma and more members, or
/// the brace.
spec fn behind_first(list: Seq<(Seq<char>, Seq<u8>)>, r: Seq<u8>) -> Seq<u8> {
    if list.len() == 1 {
        seq![125u8] + r
    } else {
        seq![44u8] + comma_separated(members_of(list.drop_first())) + seq![125u8] + r
    }
}

proof fn first_member(list: Seq<(Seq<char>, Seq<u8>)>, r: Seq<u8>)
    requires
        list.len() > 0,
    ensures
        comma_separated(members_of(list)) + seq![125u8] + r == json_string(list[0].0) + (seq![58u8]
            + (list[0].1 + behind_first(list, r))),
        ends_value(behind_first(list, r)),
{
    let parts = members_of(list);
    assert(parts[0] == member(list[0].0, list[0].1));
    assert(parts.drop_first() =~= members_of(list.drop_first()));
    if list.len() > 1 {
        comma_separated_from_front(parts);
    }
    assert(comma_separated(parts) + seq![125u8] + r =~= json_string(list[0].0) + (seq![58u8] + (
    list[0].1 + behind_first(list, r))));
}

/// Members up to a closing brace tell which they were.
proof fn members_tell_apart(
    p: Seq<(Seq<char>, Seq<u8>)>,
    q: Seq<(Seq<char>, Seq<u8>)>,
    r: Seq<u8>,
    s: Seq<u8>,
)
    requires
        lists_told_apart(p, q),
        comma_separated(members_of(p)) + seq![125u8] + r == comma_separated(members_of(q))
            + seq![125u8] + s,
    ensures
        p == q,
        r == s,
    decreases p.len(),
{
    let x = comma_separated(members_of(p)) + seq![125u8] + r;
    let y = comma_separated(members_of(q)) + seq![125u8] + s;
    if p.len() > 0 {
        first_member(p, r);
        assert(x[0] == 34);
    } else {
        assert(members_of(p) =~= Seq::<Seq<u8>>::empty());
        assert(x[0] == 125);
    }
    if q.len() > 0 {
        first_member(q, s);
        assert(y[0] == 34);
    } else {
        assert(members_of(q) =~= Seq::<Seq<u8>>::empty());
        assert(y[0] == 125);
    }
    if p.len() == 0 {
        assert(p =~= q);
        assert(x.skip(1) =~= r);
        assert(y.skip(1) =~= s);
    } else {
        let a = p[0].1 + behind_first(p, r);
        let b = q[0].1 + behind_first(q, s);
        strings_tell_apart(p[0].0, q[0].0, seq![58u8] + a, seq![58u8] + b);
        assert((seq![58u8] + a).skip(1) =~= a);
        assert((seq![58u8] + b).skip(1) =~= b);
        assert(told_apart(p[0].1, q[0].1));
        let c = behind_first(p, r);
        let d = behind_first(q, s);
        assert(c[0] == if p.len() == 1 { 125u8 } else { 44u8 });
        assert(d[0] == if q.len() == 1 { 125u8 } else { 44u8 });
        if p.len() == 1 {
            assert(c.skip(1) =~= r);
            assert(d.skip(1) =~= s);
            assert(p =~= q);
        } else {
            let pr = comma_separated(members_of(p.drop_first())) + seq![125u8] + r;
            let qs = comma_separated(members_of(q.drop_first())) + seq![125u8] + s;
            assert(c.skip(1) =~= pr);
            assert(d.skip(1) =~= qs);
            assert forall|i: int, j: int|
                0 <= i < p.drop_first().len() && 0 <= j < q.drop_first().len() implies told_apart(
                (#[trigger] p.drop_first()[i]).1,
                (#[trigger] q.drop_first()[j]).1,
            ) by {
                assert(told_apart(p[i + 1].1, q[j + 1].1));
            }
            members_tell_apart(p.drop_first(), q.drop_first(), r, s);
            assert(p =~= seq![p[0]] + p.drop_first());
            assert(q =~= seq![q[0]] + q.drop_first());
        }
    }
}

/// An object tells where it ends, and which members it has.
pub proof fn objects_tell_apart(
    p: Seq<(Seq<char>, Seq<u8>)>,
    q: Seq<(Seq<char>, Seq<u8>)>,
    r: Seq<u8>,
    s: Seq<u8>,
)
    requires
        lists_told_apart(p, q),
        object(members_of(p)) + r == object(members_of(q)) + s,
    ensures
        p == q,
        r == s,
{
    let x = object(members_of(p)) + r;
    let y = object(members_of(q)) + s;
    assert(x.skip(1) =~= comma_separated(members_of(p)) + seq![125u8] + r);
    assert(y.skip(1) =~= comma_separated(members_of(q)) + seq![125u8] + s);
    members_tell_apart(p, q, r, s);
}

/// Strings are told apart inside an object.
pub proof fn string_values(a: Seq<char>, b: Seq<char>)
    ensures
        told_apart(json_string(a), json_string(b)),
{
    assert forall|r: Seq<u8>, s: Seq<u8>|
        ends_value(r) && ends_value(s) && #[trigger] (json_string(a) + r) == #[trigger] (
        json_string(b) + s) implies json_string(a) == json_string(b) && r == s by {
        strings_tell_apart(a, b, r, s);
    }
}

/// Objects are told apart inside an object.
pub proof fn object_values(p: Seq<(Seq<char>, Seq<u8>)>, q: Seq<(Seq<char>, Seq<u8>)>)
    requires
        lists_told_apart(p, q),
    ensures
        told_apart(object(members_of(p)), object(members_of(q))),
{
    let (v, w) = (object(members_of(p)), object(members_of(q)));
    assert forall|r: Seq<u8>, s: Seq<u8>|
        ends_value(r) && ends_value(s) && #[trigger] (v + r) == #[trigger] (w + s) implies v == w
        && r == s by {
        objects_tell_apart(p, q, r, s);
    }
}

/// Values that begin differently are told apart.
pub proof fn unlike_values(v: Seq<u8>, w: Seq<u8>)
    requires
        v.len() > 0,
        w.len() > 0,
        v[0] != w[0],
    ensures
        told_apart(v, w),
{
    assert forall|r: Seq<u8>, s: Seq<u8>|
        ends_value(r) && ends_value(s) && #[trigger] (v + r) == #[trigger] (w + s) implies v == w
        && r == s by {
        assert((v + r)[0] == v[0]);
        assert((w + s)[0] == w[0]);
    }
}

/// Whether a byte may stand in a decimal number.
pub open spec fn is_number(v: Seq<u8>) -> bool {
    v.len() > 0 && forall|i: int| 0 <= i < v.len() ==> 48 <= #[trigger] v[i] <= 57
}

/// Numbers are told apart inside an object.
pub proof fn number_values(v: Seq<u8>, w: Seq<u8>)
    requires
        is_number(v),
        is_number(w),
    ensures
        told_apart(v, w),
{
    assert forall|r: Seq<u8>, s: Seq<u8>|
        ends_value(r) && ends_value(s) && #[trigger] (v + r) == #[trigger] (w + s) implies v == w
        && r == s by {
        let x = v + r;
        let y = w + s;
        if v.len() < w.len() {
            assert(x[v.len() as int] == r[0]);
            assert(y[v.len() as int] == w[v.len() as int]);
        }
        if w.len() < v.len() {
            assert(y[w.len() as int] == s[0]);
            assert(x[w.len() as int] == v[w.len() as int]);
        }
        assert forall|i: int| 0 <= i < v.len() implies v[i] == w[i] by {
            assert(x[i] == v[i] && y[i] == w[i]);
        }
        assert(v =~= w);
        assert(x.skip(v.len() as int) =~= r);
        assert(y.skip(v.len() as int) =~= s);
    }
}

/// An object stands in braces, its members are separated by single commas, and a member
/// is its name as a string, a colon and its value.
pub proof fn how_an_object_is_put_together(parts: Seq<Seq<u8>>, next: Seq<u8>, name: Seq<char>)
    ensures
        object(Seq::empty()) == seq![123u8, 125u8],
        object(seq![next]) == seq![123u8] + next + seq![125u8],
        parts.len() > 0 ==> object(parts.push(next)) == object(parts).drop_last() + seq![44u8]
            + next + seq![125u8],
        member(name, next) == json_string(name) + seq![58u8] + next,
{
    assert(comma_separated(Seq::empty()) =~= Seq::<u8>::empty());
    assert(object(Seq::empty()) =~= seq![123u8, 125u8]);
    assert(comma_separated(seq![next]) == next);
    if parts.len() > 0 {
        assert(parts.push(next).drop_last() =~= parts);
        assert(object(parts.push(next)) =~= object(parts).drop_last() + seq![44u8] + next
            + seq![125u8]);
    }
}

} // verus!
