//! JSON-RPC payload construction and response parsing.
//!
//! The submit payload is put together by hand: the shape is fixed, so the whole
//! body is one exact-capacity allocation plus a hex encode.

use bytes::{Bytes, BytesMut};
use vstd::prelude::*;
use vstd::slice::slice_subrange;
use vstd::string::*;

use crate::addr::IpAddr;
use crate::buf::{put_hex, put_slice};
use crate::conditional::ConditionalOptions;
use crate::error::{Error, Fault};
use crate::text::from_utf8_lossy;
use crate::types::TxHash;

verus! {

/// What stands before the digits in an `eth_sendRawTransaction` body.
pub const SEND_PREFIX: &'static str =
    r#"{"jsonrpc":"2.0","id":1,"method":"eth_sendRawTransaction","params":["0x"#;

/// What stands after them.
pub const SEND_SUFFIX: &'static str = r#""]}"#;

/// Cheap no-argument method used as a keepalive and latency probe.
///
/// The sequencer exposes no read methods at all, but `rpc_modules` is answered,
/// which makes it the only viable end-to-end health check.
pub const PING_BODY: &'static str =
    r#"{"jsonrpc":"2.0","id":1,"method":"rpc_modules","params":[]}"#;

/// The body for `eth_sendRawTransaction`.
pub open spec fn send_body(raw: Seq<u8>) -> Seq<u8> {
    vstd::utf8::encode_utf8(SEND_PREFIX@) + crate::hex::hex_bytes(raw) + vstd::utf8::encode_utf8(
        SEND_SUFFIX@,
    )
}

/// Build the body for `eth_sendRawTransaction`.
///
/// A single allocation sized exactly to the final payload.
pub fn send_raw_body(raw: &[u8]) -> (body: Bytes)
    requires
        send_body(raw@).len() <= isize::MAX,
    ensures
        crate::buf::content(body) == send_body(raw@),
{
    let mut buf = BytesMut::with_capacity(SEND_PREFIX.len() + raw.len() * 2 + SEND_SUFFIX.len());
    put_slice(&mut buf, SEND_PREFIX.as_bytes());
    put_hex(&mut buf, raw);
    put_slice(&mut buf, SEND_SUFFIX.as_bytes());
    buf.freeze()
}

/// What stands before the digits in an `eth_sendRawTransactionConditional` body.
pub const COND_PREFIX: &'static str =
    r#"{"jsonrpc":"2.0","id":1,"method":"eth_sendRawTransactionConditional","params":["0x"#;

/// What stands between the digits and the constraints.
pub const COND_MID: &'static str = r#"","#;

/// What stands after the constraints.
pub const COND_SUFFIX: &'static str = "]}";

/// The body for `eth_sendRawTransactionConditional`.
pub open spec fn conditional_body(raw: Seq<u8>, options: Seq<u8>) -> Seq<u8> {
    vstd::utf8::encode_utf8(COND_PREFIX@) + crate::hex::hex_bytes(raw) + vstd::utf8::encode_utf8(
        COND_MID@,
    ) + options + vstd::utf8::encode_utf8(COND_SUFFIX@)
}

/// Build the body for `eth_sendRawTransactionConditional`.
pub fn send_raw_conditional_body(raw: &[u8], opts: &ConditionalOptions) -> (r: Result<
    Bytes,
    Error,
>)
    requires
        conditional_body(raw@, opts.json()).len() <= isize::MAX,
    ensures
        r matches Ok(body) && crate::buf::content(body) == conditional_body(raw@, opts.json()),
{
    let opts_json = opts.to_json();
    let mut buf = BytesMut::with_capacity(
        COND_PREFIX.len() + raw.len() * 2 + COND_MID.len() + opts_json.len() + COND_SUFFIX.len(),
    );
    put_slice(&mut buf, COND_PREFIX.as_bytes());
    put_hex(&mut buf, raw);
    put_slice(&mut buf, COND_MID.as_bytes());
    put_slice(&mut buf, opts_json.as_slice());
    put_slice(&mut buf, COND_SUFFIX.as_bytes());
    Ok(buf.freeze())
}

/// A JSON-RPC error object.
#[derive(Clone, Debug)]
pub struct RpcError {
    /// Error code.
    pub code: i64,
    /// Error message.
    pub message: String,
}

/// A JSON-RPC response, as far as a submission reads it.
#[derive(Clone, Debug)]
pub struct Envelope {
    /// The `result` member, where it is there and not null.
    pub result: Option<String>,
    /// The `error` member, where it is there and not null.
    pub error: Option<RpcError>,
}

/// Whether an error code is the sequencer's verdict on the transaction rather
/// than a report about the call.
///
/// JSON-RPC reserves `-32000` to `-32099` for implementation-defined server
/// errors, and EIP-1474 assigns meanings within it: `-32003` names a refused
/// transaction, and Nitro uses `-32000` for one. The rest of the space
/// describes the request or the server's ability to serve it, and an
/// unrecognised code establishes nothing: reading it as a verdict would have
/// the caller abandon a transaction that may never have been read.
pub fn is_transaction_verdict(code: i64) -> (b: bool)
    ensures
        b == (code == -32000 || code == -32003),
{
    matches!(code, -32000 | -32003)
}

/// The head of a body as text: at most `max` bytes of it, read as UTF-8, with
/// an ellipsis where there is more.
pub open spec fn head_text(body: Seq<u8>, max: nat) -> Seq<char> {
    if body.len() > max {
        crate::text::utf8_lossy(head(body, max)).push('\u{2026}')
    } else {
        crate::text::utf8_lossy(body)
    }
}

/// The head of a body: at most `max` bytes of it.
pub open spec fn head(body: Seq<u8>, max: nat) -> Seq<u8> {
    if body.len() > max {
        body.take(max as int)
    } else {
        body
    }
}

/// Lossily render the head of a response body for an error message.
pub fn truncate(body: &[u8], max: usize) -> (s: String)
    ensures
        s@ == head_text(body@, max as nat),
        crate::text::reads_exactly(head(body@, max as nat)),
        vstd::utf8::valid_utf8(head(body@, max as nat)) ==> s@ == if body@.len() > max {
            vstd::utf8::decode_utf8(head(body@, max as nat)).push('\u{2026}')
        } else {
            vstd::utf8::decode_utf8(body@)
        },
{
    if body.len() > max {
        let mut s = from_utf8_lossy(slice_subrange(body, 0, max));
        assert(body@.subrange(0, max as int) =~= body@.take(max as int));
        s.push('\u{2026}');
        s
    } else {
        from_utf8_lossy(body)
    }
}

/// What a response to a submit call means. `parsed` is the envelope in `body`,
/// or why there is none.
pub open spec fn send_verdict(
    ip: IpAddr,
    body: Seq<u8>,
    parsed: Result<Envelope, String>,
    expected: Seq<u8>,
) -> Result<(), Fault> {
    match parsed {
        Err(e) => Err(
            Fault::BadResponse { ip, message: e@ + " (body: "@ + head_text(body, 256) + ")"@ },
        ),
        Ok(env) => match env.error {
            Some(err) => if err.code == -32000 || err.code == -32003 {
                Err(Fault::Rejected { code: err.code as int, message: err.message@ })
            } else {
                Err(Fault::Rpc { code: err.code as int, message: err.message@ })
            },
            None => match env.result {
                Some(hash) => match crate::types::parsed_hash(hash@) {
                    Ok(returned) => if returned == expected {
                        Ok(())
                    } else {
                        Err(
                            Fault::BadResponse {
                                ip,
                                message: "accepted "@ + crate::types::hash_text(returned) + " but "@ + crate::types::hash_text(
                                    expected,
                                ) + " was submitted"@,
                            },
                        )
                    },
                    Err(e) => Err(
                        Fault::BadResponse {
                            ip,
                            message: "`result` is not a transaction hash: "@ + crate::hex::hex_error_text(e)
                                + " (got "@ + hash@ + ")"@,
                        },
                    ),
                },
                None => Err(
                    Fault::BadResponse {
                        ip,
                        message: "response had neither `result` nor `error` (body: "@ + head_text(
                            body,
                            256,
                        ) + ")"@,
                    },
                ),
            },
        },
    }
}

/// A result with its error as the fault it reports.
pub open spec fn outcome<T>(r: Result<T, Error>) -> Result<T, Fault> {
    match r {
        Ok(t) => Ok(t),
        Err(e) => Err(e@),
    }
}

/// Interpret a sequencer response to a submit call.
///
/// `parsed` is the JSON-RPC envelope that `body` holds, or the reason it holds
/// none. `expected` is the hash computed from the bytes that were sent. A
/// successful response carries the hash the sequencer assigned, and the two
/// must agree: anything else means the answer describes some other transaction,
/// or came from something that is not this sequencer.
pub fn parse_send_response(
    ip: IpAddr,
    body: &[u8],
    parsed: Result<Envelope, String>,
    expected: TxHash,
) -> (r: Result<(), Error>)
    ensures
        outcome(r) == send_verdict(ip, body@, parsed, expected@),
        (match parsed {
            Ok(env) => env.error is None && env.result is None,
            Err(_) => true,
        }) ==> crate::text::reads_exactly(head(body@, 256)),
{
    let env = match parsed {
        Ok(env) => env,
        Err(e) => {
            let mut message = e;
            message.append(" (body: ");
            message.append(&truncate(body, 256));
            message.append(")");
            return Err(Error::BadResponse { ip, message });
        },
    };
    if let Some(err) = env.error {
        return Err(
            if is_transaction_verdict(err.code) {
                Error::Rejected { code: err.code, message: err.message }
            } else {
                Error::Rpc { code: err.code, message: err.message }
            },
        );
    }
    match env.result {
        Some(hash) => match TxHash::parse(&hash) {
            Ok(returned) => {
                if returned == expected {
                    Ok(())
                } else {
                    let mut message = "accepted ".to_owned();
                    message.append(&returned.to_text());
                    message.append(" but ");
                    message.append(&expected.to_text());
                    message.append(" was submitted");
                    Err(Error::BadResponse { ip, message })
                }
            },
            Err(e) => {
                let mut message = "`result` is not a transaction hash: ".to_owned();
                message.append(&e.message());
                message.append(" (got ");
                message.append(&hash);
                message.append(")");
                Err(Error::BadResponse { ip, message })
            },
        },
        None => {
            let mut message = "response had neither `result` nor `error` (body: ".to_owned();
            message.append(&truncate(body, 256));
            message.append(")");
            Err(Error::BadResponse { ip, message })
        },
    }
}

/// What stands between the prefix and the suffix of a body are the digits of the
/// transaction: they decode to it, so no other transaction has that body.
pub proof fn send_body_carries_the_transaction(raw: Seq<u8>)
    ensures
        ({
            let prefix = vstd::utf8::encode_utf8(SEND_PREFIX@);
            let suffix = vstd::utf8::encode_utf8(SEND_SUFFIX@);
            let body = send_body(raw);
            crate::hex::decoded_pairs(
                body.subrange(prefix.len() as int, body.len() - suffix.len()),
            ) == Ok::<Seq<u8>, crate::hex::HexError>(raw)
        }),
{
    let prefix = vstd::utf8::encode_utf8(SEND_PREFIX@);
    let suffix = vstd::utf8::encode_utf8(SEND_SUFFIX@);
    let body = send_body(raw);
    crate::hex::hex_chars_decode(raw);
    assert(body.subrange(prefix.len() as int, body.len() - suffix.len()) =~= crate::hex::hex_bytes(
        raw,
    ));
}

/// The digits of the transaction stand in a conditional body too, right behind
/// its prefix, and the constraints right before its suffix.
pub proof fn conditional_body_carries_both(raw: Seq<u8>, options: Seq<u8>)
    ensures
        ({
            let prefix = vstd::utf8::encode_utf8(COND_PREFIX@);
            let mid = vstd::utf8::encode_utf8(COND_MID@);
            let suffix = vstd::utf8::encode_utf8(COND_SUFFIX@);
            let body = conditional_body(raw, options);
            let end = prefix.len() + 2 * raw.len();
            &&& crate::hex::decoded_pairs(body.subrange(prefix.len() as int, end as int)) == Ok::<
                Seq<u8>,
                crate::hex::HexError,
            >(raw)
            &&& body.subrange((end + mid.len()) as int, body.len() - suffix.len()) == options
        }),
{
    let prefix = vstd::utf8::encode_utf8(COND_PREFIX@);
    let mid = vstd::utf8::encode_utf8(COND_MID@);
    let suffix = vstd::utf8::encode_utf8(COND_SUFFIX@);
    let body = conditional_body(raw, options);
    let end = prefix.len() + 2 * raw.len();
    crate::hex::hex_chars_decode(raw);
    assert(body.subrange(prefix.len() as int, end as int) =~= crate::hex::hex_bytes(raw));
    assert(body.subrange((end + mid.len()) as int, body.len() - suffix.len()) =~= options);
}

/// A response is a success only where it carries no error, and as its result the
/// hash of the very transaction that was sent.
pub proof fn only_the_own_hash_is_a_success(
    ip: IpAddr,
    body: Seq<u8>,
    parsed: Result<Envelope, String>,
    expected: Seq<u8>,
)
    ensures
        send_verdict(ip, body, parsed, expected) is Ok <==> {
            &&& parsed matches Ok(env)
            &&& env.error is None
            &&& env.result matches Some(hash)
            &&& crate::types::parsed_hash(hash@) == Ok::<Seq<u8>, crate::hex::HexError>(expected)
        },
{
}

/// A response that names the transaction by the text of its hash is a success.
pub proof fn naming_the_hash_is_a_success(
    ip: IpAddr,
    body: Seq<u8>,
    env: Envelope,
    expected: Seq<u8>,
)
    requires
        expected.len() == 32,
        env.error is None,
        env.result matches Some(hash) && hash@ == crate::types::hash_text(expected),
    ensures
        send_verdict(ip, body, Ok(env), expected) is Ok,
{
    crate::types::hash_text_parses_back(expected);
}

/// An error response is never a success. It is final where its code is a verdict
/// on the transaction or a fault of the request, and may be retried otherwise.
pub proof fn error_codes_draw_the_line(
    ip: IpAddr,
    body: Seq<u8>,
    env: Envelope,
    err: RpcError,
    expected: Seq<u8>,
)
    requires
        env.error == Some(err),
    ensures
        send_verdict(ip, body, Ok(env), expected) matches Err(fault) && {
            &&& fault is Rejected <==> (err.code == -32000 || err.code == -32003)
            &&& fault == (Fault::Rejected { code: err.code as int, message: err.message@ }) || fault
                == (Fault::Rpc { code: err.code as int, message: err.message@ })
            &&& fault.retryable() <==> !(fault is Rejected || crate::error::is_request_fault(
                err.code as int,
            ))
        },
{
}

/// A response without a readable envelope, or without the own hash, leaves
/// delivery open: it may be retried.
pub proof fn unreadable_responses_may_be_retried(
    ip: IpAddr,
    body: Seq<u8>,
    parsed: Result<Envelope, String>,
    expected: Seq<u8>,
)
    requires
        parsed matches Ok(env) ==> env.error is None,
    ensures
        send_verdict(ip, body, parsed, expected) matches Err(fault) ==> fault is BadResponse
            && fault.retryable(),
{
}

/// Bodies differ by their transactions alone: two with the same body are the same, and
/// a body is as long as its frame and two digits for each byte.
pub proof fn bodies_tell_transactions_apart(raw: Seq<u8>, other: Seq<u8>)
    ensures
        send_body(raw) == send_body(other) ==> raw == other,
        send_body(raw).len() == send_body(Seq::empty()).len() + 2 * raw.len(),
{
    send_body_carries_the_transaction(raw);
    send_body_carries_the_transaction(other);
    assert(crate::hex::hex_bytes(Seq::empty()).len() == 0);
}

/// A head is the front of a body, as long as it may be.
pub proof fn a_head_is_the_front(body: Seq<u8>, max: nat)
    ensures
        head(body, max).len() == if body.len() < max {
            body.len()
        } else {
            max
        },
        head(body, max).is_prefix_of(body),
        body.len() > max ==> head_text(body, max) == crate::text::utf8_lossy(
            head(body, max),
        ).push('\u{2026}'),
        body.len() <= max ==> head_text(body, max) == crate::text::utf8_lossy(body),
{
}

/// A malformed response is reported for the endpoint that gave it, and one that names
/// another transaction is told by both hashes.
pub proof fn a_malformed_response_says_why(
    ip: IpAddr,
    body: Seq<u8>,
    parsed: Result<Envelope, String>,
    expected: Seq<u8>,
)
    ensures
        send_verdict(ip, body, parsed, expected) matches Err(Fault::BadResponse { ip: at, .. })
            ==> at == ip,
        parsed matches Err(why) ==> send_verdict(ip, body, parsed, expected) == Err::<(), Fault>(
            Fault::BadResponse { ip, message: why@ + " (body: "@ + head_text(body, 256) + ")"@ },
        ),
        parsed matches Ok(env) ==> (env.error is None && env.result is None ==> send_verdict(
            ip,
            body,
            parsed,
            expected,
        ) == Err::<(), Fault>(
            Fault::BadResponse {
                ip,
                message: "response had neither `result` nor `error` (body: "@ + head_text(body, 256)
                    + ")"@,
            },
        )),
        parsed matches Ok(env) ==> (env.error is None ==> (env.result matches Some(text) ==> match
        crate::types::parsed_hash(text@) {
            Ok(named) => if named == expected {
                send_verdict(ip, body, parsed, expected) is Ok
            } else {
                send_verdict(ip, body, parsed, expected) == Err::<(), Fault>(
                    Fault::BadResponse {
                        ip,
                        message: "accepted "@ + crate::types::hash_text(named) + " but "@
                            + crate::types::hash_text(expected) + " was submitted"@,
                    },
                )
            },
            Err(why) => send_verdict(ip, body, parsed, expected) == Err::<(), Fault>(
                Fault::BadResponse {
                    ip,
                    message: "`result` is not a transaction hash: "@ + crate::hex::hex_error_text(
                        why,
                    ) + " (got "@ + text@ + ")"@,
                },
            ),
        })),
{
}

/// A result reports the value it holds, or the fault of its error.
pub proof fn an_outcome_is_what_the_result_says<T>(t: T, e: Error)
    ensures
        outcome(Ok::<T, Error>(t)) == Ok::<T, Fault>(t),
        outcome(Err::<T, Error>(e)) == Err::<T, Fault>(e@),
{
}

} // verus!
