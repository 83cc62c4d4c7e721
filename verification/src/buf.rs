//! The byte buffers that request and response bodies travel in.

use bytes::{Bytes, BytesMut};
use vstd::prelude::*;

verus! {

/// `bytes::BytesMut`, a growable buffer.
#[verifier::external_type_specification]
#[verifier::external_body]
pub struct ExBytesMut(bytes::BytesMut);

/// `bytes::Bytes`, an immutable shared byte string.
#[verifier::external_type_specification]
#[verifier::external_body]
pub struct ExBytes(bytes::Bytes);

/// What a buffer holds.
pub uninterp spec fn buffered(b: BytesMut) -> Seq<u8>;

/// The capacity a buffer was made with.
pub uninterp spec fn buffer_limit(b: BytesMut) -> nat;

/// What a byte string holds.
pub uninterp spec fn content(b: Bytes) -> Seq<u8>;

/// `BytesMut::with_capacity` makes an empty buffer with room for `capacity`
/// bytes. It panics past `isize::MAX`.
pub assume_specification[ BytesMut::with_capacity ](capacity: usize) -> (b: BytesMut)
    requires
        capacity <= isize::MAX,
    ensures
        buffered(b) == Seq::<u8>::empty(),
        buffer_limit(b) == capacity,
;

/// `BytesMut::len` counts the bytes held.
pub assume_specification[ BytesMut::len ](b: &BytesMut) -> (n: usize)
    ensures
        n == buffered(*b).len(),
;

/// `BytesMut::resize` cuts the buffer down to `new_len` bytes or fills it up
/// with `value`. Within the capacity the buffer was made with it does not
/// reallocate, so it cannot fail.
pub assume_specification[ BytesMut::resize ](b: &mut BytesMut, new_len: usize, value: u8)
    requires
        new_len <= buffer_limit(*old(b)),
    ensures
        buffer_limit(*final(b)) == buffer_limit(*old(b)),
        buffered(*final(b)) == if new_len <= buffered(*old(b)).len() {
            buffered(*old(b)).take(new_len as int)
        } else {
            buffered(*old(b)) + Seq::new(
                (new_len - buffered(*old(b)).len()) as nat,
                |i: int| value,
            )
        },
;

/// `BytesMut::freeze` hands the bytes over as they are.
pub assume_specification[ BytesMut::freeze ](b: BytesMut) -> (r: Bytes)
    ensures
        content(r) == buffered(b),
;

/// Calls `BufMut::put_slice` on a `BytesMut`, which appends `src`. Within the
/// capacity the buffer was made with it does not reallocate, so it cannot fail.
#[verifier::external_body]
pub(crate) fn put_slice(b: &mut BytesMut, src: &[u8])
    requires
        buffered(*old(b)).len() + src@.len() <= buffer_limit(*old(b)),
    ensures
        buffer_limit(*final(b)) == buffer_limit(*old(b)),
        buffered(*final(b)) == buffered(*old(b)) + src@,
{
    bytes::BufMut::put_slice(b, src)
}

/// Calls `const_hex::encode_to_slice` on the buffer from `start` to its end,
/// which must be exactly two bytes per byte of `raw`: the lowercase digits
/// replace what was there.
#[verifier::external_body]
fn encode_to_slice(b: &mut BytesMut, start: usize, raw: &[u8])
    requires
        start + 2 * raw@.len() == buffered(*old(b)).len(),
    ensures
        buffer_limit(*final(b)) == buffer_limit(*old(b)),
        buffered(*final(b)) == buffered(*old(b)).take(start as int) + crate::hex::hex_bytes(raw@),
{
    const_hex::encode_to_slice(raw, &mut b[start..]).expect("output is exactly twice as long")
}

/// Calls `Bytes::as_ref`: the bytes held, as a slice.
#[verifier::external_body]
pub(crate) fn as_slice(b: &Bytes) -> (s: &[u8])
    ensures
        s@ == content(*b),
{
    b.as_ref()
}

/// Hex-encode straight into the output buffer.
pub fn put_hex(b: &mut BytesMut, raw: &[u8])
    requires
        buffered(*old(b)).len() + 2 * raw@.len() <= buffer_limit(*old(b)),
        buffer_limit(*old(b)) <= isize::MAX,
    ensures
        buffer_limit(*final(b)) == buffer_limit(*old(b)),
        buffered(*final(b)) == buffered(*old(b)) + crate::hex::hex_bytes(raw@),
{
    let ghost before = buffered(*b);
    let start: usize = b.len();
    b.resize(start + raw.len() * 2, 0);
    encode_to_slice(b, start, raw);
    assert(buffered(*b) =~= before + crate::hex::hex_bytes(raw@));
}

} // verus!
