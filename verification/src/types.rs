//! Small value types returned by the client.

use vstd::prelude::*;
use vstd::std_specs::convert::FromSpec;
use vstd::string::*;

use crate::addr::IpAddr;
use crate::hex::{decode_32, encode_32, HexError};
use crate::text::strip_0x;
use crate::time::Duration;

verus! {

/// A 32-byte Ethereum transaction hash.
///
/// Convert through [`TxHash::as_bytes`] and [`TxHash::from_bytes`], or the
/// `From` impls in either direction. [`TxHash::to_text`] writes lowercase
/// `0x`-prefixed hex and [`TxHash::parse`] reads it back, with or without the
/// prefix.
#[derive(Clone, Copy, Eq, Hash, PartialOrd, Ord)]
pub struct TxHash([u8; 32]);

impl View for TxHash {
    type V = Seq<u8>;

    /// The bytes of the hash.
    closed spec fn view(&self) -> Seq<u8> {
        self.0@
    }
}

impl PartialEq for TxHash {
    fn eq(&self, other: &TxHash) -> (b: bool) {
        let mut i: usize = 0;
        while i < 32
            invariant
                i <= 32,
                forall|k: int| 0 <= k < i ==> self.0@[k] == other.0@[k],
            decreases 32 - i,
        {
            if self.0[i] != other.0[i] {
                return false;
            }
            i += 1;
        }
        assert(self@ =~= other@);
        true
    }
}

impl vstd::std_specs::cmp::PartialEqSpecImpl for TxHash {
    open spec fn obeys_eq_spec() -> bool {
        true
    }

    open spec fn eq_spec(&self, other: &TxHash) -> bool {
        self@ == other@
    }
}

/// The Keccak-256 digest of a byte string.
pub uninterp spec fn keccak256(data: Seq<u8>) -> Seq<u8>;

/// Runs `tiny_keccak::Keccak::v256` over `data` in one `update` and one
/// `finalize`: the 32 bytes are fixed by the data. Which bytes they are is left
/// unsaid.
#[verifier::external_body]
fn keccak_digest(data: &[u8]) -> (out: [u8; 32])
    ensures
        out@ == keccak256(data@),
{
    let mut out = [0u8; 32];
    let mut hasher = tiny_keccak::Keccak::v256();
    tiny_keccak::Hasher::update(&mut hasher, data);
    tiny_keccak::Hasher::finalize(hasher, &mut out);
    out
}

/// The text of a hash: `0x` and 64 lowercase digits.
pub open spec fn hash_text(hash: Seq<u8>) -> Seq<char> {
    seq!['0', 'x'] + crate::hex::hex_chars(hash)
}

/// The text form inside `TxHash(...)`.
pub open spec fn hash_debug_text(hash: Seq<u8>) -> Seq<char> {
    "TxHash("@ + hash_text(hash) + ")"@
}

/// What a text says as a hash: 64 digits of either case, with or without a
/// prefix.
pub open spec fn parsed_hash(s: Seq<char>) -> Result<Seq<u8>, HexError> {
    crate::hex::decoded_exactly(vstd::utf8::encode_utf8(crate::text::without_0x(s)), 32)
}

impl TxHash {
    /// Compute the hash of an already-signed, RLP/EIP-2718 encoded transaction.
    ///
    /// This is plain `keccak256(raw)`, which is exactly how the sequencer will
    /// key the transaction, so the caller knows the hash without waiting for,
    /// or trusting, the RPC response.
    #[must_use]
    pub fn of_raw_tx(raw: &[u8]) -> (h: TxHash)
        ensures
            h@ == keccak256(raw@),
    {
        TxHash(keccak_digest(raw))
    }

    /// Wrap raw bytes that are already a hash.
    #[must_use]
    pub fn from_bytes(bytes: [u8; 32]) -> (h: TxHash)
        ensures
            h@ == bytes@,
    {
        TxHash(bytes)
    }

    /// The underlying bytes.
    #[must_use]
    pub fn as_bytes(&self) -> (bytes: &[u8; 32])
        ensures
            bytes@ == self@,
    {
        &self.0
    }

    /// Lowercase `0x`-prefixed hex.
    #[must_use]
    pub fn to_text(&self) -> (s: String)
        ensures
            s@ == hash_text(self@),
    {
        let mut s = String::new();
        s.push('0');
        s.push('x');
        s.append(&encode_32(&self.0));
        assert(s@ =~= hash_text(self@));
        s
    }

    /// The text form inside `TxHash(...)`, for diagnostics.
    #[must_use]
    pub fn to_debug_text(&self) -> (s: String)
        ensures
            s@ == hash_debug_text(self@),
    {
        let mut s = "TxHash(".to_owned();
        s.append(&self.to_text());
        s.append(")");
        s
    }

    /// Read a hash from hex, with or without the `0x` prefix.
    pub fn parse(s: &str) -> (r: Result<TxHash, HexError>)
        ensures
            (match r {
                Ok(h) => Ok(h@),
                Err(e) => Err(e),
            }) == parsed_hash(s@),
    {
        match decode_32(strip_0x(s)) {
            Ok(bytes) => Ok(TxHash(bytes)),
            Err(e) => Err(e),
        }
    }
}

impl core::fmt::Debug for TxHash {
    fn fmt(&self, f: &mut core::fmt::Formatter<'_>) -> (r: core::fmt::Result)
        ensures
            r is Ok ==> crate::text::written(*final(f)) == crate::text::written(*old(f)) + hash_debug_text(
                self@,
            ),
    {
        f.write_str(&self.to_debug_text())
    }
}

impl core::str::FromStr for TxHash {
    type Err = HexError;

    fn from_str(s: &str) -> (r: Result<TxHash, HexError>)
        ensures
            (match r {
                Ok(h) => Ok(h@),
                Err(e) => Err(e),
            }) == parsed_hash(s@),
    {
        TxHash::parse(s)
    }
}

impl From<[u8; 32]> for TxHash {
    fn from(b: [u8; 32]) -> (h: TxHash) {
        TxHash(b)
    }
}

impl vstd::std_specs::convert::FromSpecImpl<[u8; 32]> for TxHash {
    open spec fn obeys_from_spec() -> bool {
        true
    }

    closed spec fn from_spec(b: [u8; 32]) -> TxHash {
        TxHash(b)
    }
}

impl From<TxHash> for [u8; 32] {
    fn from(h: TxHash) -> (b: [u8; 32]) {
        h.0
    }
}

impl vstd::std_specs::convert::FromSpecImpl<TxHash> for [u8; 32] {
    open spec fn obeys_from_spec() -> bool {
        true
    }

    closed spec fn from_spec(h: TxHash) -> [u8; 32] {
        h.0
    }
}

/// What a hash writes, it reads back: its text parses to the same hash, with
/// the prefix and without it.
pub proof fn hash_text_parses_back(hash: Seq<u8>)
    requires
        hash.len() == 32,
    ensures
        parsed_hash(hash_text(hash)) == Ok::<Seq<u8>, HexError>(hash),
        parsed_hash(crate::hex::hex_chars(hash)) == Ok::<Seq<u8>, HexError>(hash),
{
    let chars = crate::hex::hex_chars(hash);
    crate::hex::hex_chars_decode(hash);
    assert(crate::text::without_0x(hash_text(hash)) =~= chars);
    assert(chars[1] != 'x');
    assert(crate::text::without_0x(chars) == chars);
    assert(crate::hex::hex_bytes(hash).len() == 64);
}

/// Converting bytes to a hash and back, either way round, loses nothing.
pub proof fn hash_conversions_keep_the_bytes(b: [u8; 32], h: TxHash)
    ensures
        <TxHash as FromSpec<[u8; 32]>>::from_spec(b)@ == b@,
        <[u8; 32] as FromSpec<TxHash>>::from_spec(h)@ == h@,
        <[u8; 32] as FromSpec<TxHash>>::from_spec(<TxHash as FromSpec<[u8; 32]>>::from_spec(b)) == b,
        <TxHash as FromSpec<[u8; 32]>>::from_spec(<[u8; 32] as FromSpec<TxHash>>::from_spec(h)) == h,
{
}

/// Outcome of a successful submission.
///
/// The sequencer accepted the transaction and ordered it. There is no second
/// success shape: a duplicate is refused rather than acknowledged, so anything
/// other than this is an [`Error`](crate::error::Error).
#[derive(Clone, Debug)]
pub struct Submission {
    /// `keccak256` of the raw transaction, computed locally.
    pub tx_hash: TxHash,
    /// Which endpoint won the race.
    pub endpoint: IpAddr,
    /// Wall-clock time from entering the submission to this response landing.
    pub latency: Duration,
    /// How many endpoints the transaction was broadcast to.
    pub fanout: usize,
}

/// Health and latency snapshot for one sequencer IP.
#[derive(Clone, Debug)]
pub struct EndpointStats {
    /// The endpoint address.
    pub ip: IpAddr,
    /// Connections the supervisor last observed as established.
    ///
    /// A connection can break between that observation and the next send, so
    /// this can briefly overstate.
    pub live_conns: usize,
    /// Connections configured for this endpoint.
    pub total_conns: usize,
    /// Exponentially weighted moving average of observed round-trip latency.
    ///
    /// `None` until the first probe or request completes.
    pub ewma_latency: Option<Duration>,
    /// Consecutive failures since the last success.
    ///
    /// Counts failed connection attempts as well as failed probes and
    /// submissions, so an endpoint that has never connected reports a rising
    /// count rather than a resting zero.
    pub consecutive_failures: u32,
    /// Why the most recent failure happened, cleared by the next success.
    pub last_failure: Option<String>,
}

/// A text reads as a hash only where it holds 64 digits, whatever their case, and a
/// leading `0x` makes no difference to what the rest reads as.
pub proof fn only_a_whole_hash_parses(s: Seq<char>)
    ensures
        parsed_hash(seq!['0', 'x'] + s) == crate::hex::decoded_exactly(
            vstd::utf8::encode_utf8(s),
            32,
        ),
        !seq!['0', 'x'].is_prefix_of(s) ==> parsed_hash(seq!['0', 'x'] + s) == parsed_hash(s),
        parsed_hash(s) matches Ok(hash) ==> hash.len() == 32,
{
    crate::text::one_prefix_is_dropped(s);
}

} // verus!
