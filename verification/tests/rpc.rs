//! Request bodies, and what responses mean.

use bytes::Bytes;
use pilotlight::rpc::{
    is_transaction_verdict, parse_send_response, send_raw_body, send_raw_conditional_body,
    truncate, Envelope, RpcError, PING_BODY,
};
use pilotlight::{ConditionalOptions, Error, IpAddr, KnownAccount, TxHash};
use serde_json::Value;

fn ip() -> IpAddr {
    IpAddr::v4(10, 0, 0, 1)
}

fn json(body: &[u8]) -> Value {
    serde_json::from_slice(body).expect("valid JSON")
}

fn written(options: &ConditionalOptions) -> String {
    String::from_utf8(options.to_json()).expect("UTF-8")
}

#[test]
fn a_submit_body_is_the_call_in_json() {
    let body = send_raw_body(&[0x02, 0xf8, 0x6b]);
    assert_eq!(
        body,
        Bytes::from(
            r#"{"jsonrpc":"2.0","id":1,"method":"eth_sendRawTransaction","params":["0x02f86b"]}"#
        )
    );
}

#[test]
fn the_transaction_stands_in_its_body() {
    let raw: Vec<u8> = (0..=255).collect();
    let value = json(&send_raw_body(&raw));
    let digits = value["params"][0].as_str().expect("text");
    assert_eq!(const_hex::decode(digits).expect("hex"), raw);
}

#[test]
fn a_conditional_body_carries_transaction_and_constraints() {
    let options = ConditionalOptions::new().with_block_range(Some(16), None);
    let body = send_raw_conditional_body(&[0xab], &options).expect("written");
    assert_eq!(
        body,
        Bytes::from(
            r#"{"jsonrpc":"2.0","id":1,"method":"eth_sendRawTransactionConditional","params":["0xab",{"blockNumberMin":"0x10"}]}"#
        )
    );
}

#[test]
fn the_probe_is_a_call_without_arguments() {
    let value = json(PING_BODY.as_bytes());
    assert_eq!(value["method"].as_str(), Some("rpc_modules"));
    assert_eq!(value["params"].as_array().map(Vec::len), Some(0));
}

#[test]
fn no_constraint_is_an_empty_object() {
    assert_eq!(written(&ConditionalOptions::new()), "{}");
    assert_eq!(written(&ConditionalOptions::default()), "{}");
}

#[test]
fn ranges_are_written_in_their_units() {
    let options = ConditionalOptions::new()
        .with_block_range(Some(0), Some(255))
        .with_timestamp_range(Some(1), Some(u64::MAX));
    assert_eq!(
        written(&options),
        r#"{"blockNumberMin":"0x0","blockNumberMax":"0xff","timestampMin":1,"timestampMax":18446744073709551615}"#
    );
}

#[test]
fn short_hashes_are_widened() {
    let options = ConditionalOptions::new().with_storage_slot("0xAA", "0x0", "0XaB");
    assert_eq!(
        written(&options),
        format!(
            r#"{{"knownAccounts":{{"0xAA":{{"0x{}":"0x{}ab"}}}}}}"#,
            "0".repeat(64),
            "0".repeat(62)
        )
    );
}

#[test]
fn what_is_no_short_hash_stays_as_it_is() {
    let long = format!("0x{}", "1".repeat(65));
    for value in ["12", "0xzz", "", "0", "x0", long.as_str(), "0x\u{e9}"] {
        let options = ConditionalOptions::new().with_storage_root("0xaa", value);
        let known = options.known_accounts.get("0xaa").expect("there");
        assert!(matches!(known, KnownAccount::StorageRoot(root) if root == value));
    }
}

#[test]
fn slots_of_one_account_accumulate() {
    let options = ConditionalOptions::new()
        .with_storage_slot("0xaa", "0x2", "0x20")
        .with_storage_slot("0xaa", "0x1", "0x10")
        .with_storage_slot("0xaa", "0x2", "0x21");
    let value = json(&options.to_json());
    let slots = value["knownAccounts"]["0xaa"].as_object().expect("object");
    assert_eq!(slots.len(), 2);
    let key = format!("0x{}2", "0".repeat(63));
    let expected = format!("0x{}21", "0".repeat(62));
    assert_eq!(slots[&key].as_str(), Some(expected.as_str()));
}

#[test]
fn the_later_kind_of_constraint_wins() {
    let slot_last = ConditionalOptions::new()
        .with_storage_root("0xaa", "0x1")
        .with_storage_slot("0xaa", "0x1", "0x2");
    let value = json(&slot_last.to_json());
    assert!(value["knownAccounts"]["0xaa"].is_object());
    let root_last = ConditionalOptions::new()
        .with_storage_slot("0xaa", "0x1", "0x2")
        .with_storage_root("0xaa", "0x1");
    let value = json(&root_last.to_json());
    assert!(value["knownAccounts"]["0xaa"].is_string());
}

#[test]
fn the_order_of_calls_does_not_show() {
    let a = ConditionalOptions::new()
        .with_storage_root("0xbb", "0x1")
        .with_storage_root("0xaa", "0x2")
        .with_timestamp_range(None, Some(9));
    let b = ConditionalOptions::new()
        .with_timestamp_range(None, Some(9))
        .with_storage_root("0xaa", "0x2")
        .with_storage_root("0xbb", "0x1");
    assert_eq!(written(&a), written(&b));
    let first = written(&a).find("0xaa").expect("there");
    let second = written(&a).find("0xbb").expect("there");
    assert!(first < second);
}

#[test]
fn accounts_do_not_touch_each_other() {
    let options = ConditionalOptions::new()
        .with_storage_root("0xaa", "root")
        .with_storage_slot("0xbb", "k", "v")
        .with_storage_root("0xcc", "other");
    let value = json(&options.to_json());
    let accounts = &value["knownAccounts"];
    assert_eq!(accounts["0xaa"].as_str(), Some("root"));
    assert_eq!(accounts["0xbb"]["k"].as_str(), Some("v"));
    assert_eq!(accounts["0xcc"].as_str(), Some("other"));
}

#[test]
fn any_text_survives_as_json() {
    let odd = "a\"b\\c\u{8}\t\n\u{c}\r\u{0}\u{1f}\u{7f}\u{e9}\u{1f600}/";
    let options = ConditionalOptions::new()
        .with_storage_root(odd, odd)
        .with_storage_slot("s", odd, odd);
    let value = json(&options.to_json());
    assert_eq!(value["knownAccounts"][odd].as_str(), Some(odd));
    assert_eq!(value["knownAccounts"]["s"][odd].as_str(), Some(odd));
    assert!(written(&options).contains(r#"a\"b\\c\b\t\n\f\r\u0000\u001f"#));
}

fn answer(result: Option<&str>, error: Option<(i64, &str)>) -> Result<Envelope, String> {
    Ok(Envelope {
        result: result.map(str::to_string),
        error: error.map(|(code, message)| RpcError {
            code,
            message: message.to_string(),
        }),
    })
}

#[test]
fn the_own_hash_is_a_success() {
    let hash = TxHash::of_raw_tx(&[1, 2, 3]);
    let text = hash.to_text();
    assert!(parse_send_response(ip(), &[], answer(Some(&text), None), hash).is_ok());
}

#[test]
fn another_hash_is_no_success() {
    let sent = TxHash::from_bytes([1; 32]);
    let other = TxHash::from_bytes([2; 32]);
    let r = parse_send_response(ip(), &[], answer(Some(&other.to_text()), None), sent);
    let err = r.expect_err("another transaction");
    assert_eq!(
        err.message(),
        format!(
            "malformed JSON-RPC response from 10.0.0.1: accepted 0x{} but 0x{} was submitted",
            "02".repeat(32),
            "01".repeat(32)
        )
    );
    assert!(err.is_retryable());
}

#[test]
fn a_result_that_is_no_hash_is_malformed() {
    let sent = TxHash::from_bytes([1; 32]);
    let r = parse_send_response(ip(), &[], answer(Some("0x12"), None), sent);
    assert_eq!(
        r.expect_err("no hash").message(),
        "malformed JSON-RPC response from 10.0.0.1: `result` is not a transaction hash: \
         invalid string length (got 0x12)"
    );
}

#[test]
fn error_codes_tell_verdicts_from_faults() {
    let sent = TxHash::from_bytes([1; 32]);
    for code in [-32000, -32003] {
        assert!(is_transaction_verdict(code));
        let text = sent.to_text();
        let r = parse_send_response(
            ip(),
            &[],
            answer(Some(&text), Some((code, "nonce too low"))),
            sent,
        );
        assert!(
            matches!(r, Err(Error::Rejected { code: c, message }) if c == code && message == "nonce too low")
        );
    }
    for code in [-32602, -32603, -32001, 5] {
        assert!(!is_transaction_verdict(code));
        let r = parse_send_response(ip(), &[], answer(None, Some((code, "m"))), sent);
        assert!(matches!(r, Err(Error::Rpc { code: c, message }) if c == code && message == "m"));
    }
}

#[test]
fn a_response_without_either_member_shows_its_head() {
    let sent = TxHash::from_bytes([1; 32]);
    let r = parse_send_response(ip(), "{}".as_bytes(), answer(None, None), sent);
    assert_eq!(
        r.expect_err("nothing").message(),
        "malformed JSON-RPC response from 10.0.0.1: response had neither `result` nor `error` \
         (body: {})"
    );
}

#[test]
fn an_unreadable_body_is_cut_to_its_head() {
    let sent = TxHash::from_bytes([1; 32]);
    let body = vec![b'x'; 300];
    let r = parse_send_response(ip(), &body, Err("expected value".to_string()), sent);
    assert_eq!(
        r.expect_err("no envelope").message(),
        format!(
            "malformed JSON-RPC response from 10.0.0.1: expected value (body: {}\u{2026})",
            "x".repeat(256)
        )
    );
}

#[test]
fn heads_are_read_lossily() {
    assert_eq!(truncate(&[b'a', 0xff, b'b'], 3), "a\u{fffd}b");
    assert_eq!(truncate(&[b'a', 0xff, b'b'], 1), "a\u{2026}");
    assert_eq!(truncate("h\u{e9}".as_bytes(), 10), "h\u{e9}");
}
