//! Hashes, addresses, spans of time and error texts.

use pilotlight::addr::AddressSet;
use pilotlight::hex::HexError;
use pilotlight::{Duration, Error, IpAddr, TxHash};

const ABC: &str = "0x4e03657aea45a94fc7d47ba826c8d667c0d1e6e33a64a036ec44f58fa12d6c45";

fn text(ip: IpAddr) -> String {
    let mut s = String::new();
    ip.push_text(&mut s);
    s
}

#[test]
fn the_hash_of_a_transaction_is_its_keccak256() {
    assert_eq!(TxHash::of_raw_tx("abc".as_bytes()).to_text(), ABC);
    assert_eq!(
        TxHash::of_raw_tx(&[]).to_text(),
        "0xc5d2460186f7233c927e7db2dcc703c0e500b653ca82273b7bfad8045d85a470"
    );
}

#[test]
fn values_show_as_people_read_them() {
    let hash = TxHash::of_raw_tx("abc".as_bytes());
    assert_eq!(format!("{hash:?}"), format!("TxHash({ABC})"));
    assert_eq!(hash.to_debug_text(), format!("TxHash({ABC})"));
    assert_eq!(format!("{:?}", IpAddr::v4(10, 0, 0, 1)), "10.0.0.1");
    assert_eq!(format!("{:?}", Duration::from_millis(1500)), "1.5s");
    let e = Error::Timeout(Duration::from_secs(5));
    assert_eq!(format!("{e:?}"), "Timeout(5s)");
}

#[test]
fn a_hash_reads_back_from_its_text() {
    let hash = TxHash::of_raw_tx("abc".as_bytes());
    assert!(ABC.parse::<TxHash>().expect("valid") == hash);
    assert!(TxHash::parse(&ABC[2..]).expect("the prefix is optional") == hash);
    assert!(TxHash::parse(&ABC.to_uppercase().replace("0X", "0x")).expect("either case") == hash);
    assert!(TxHash::from_bytes([7; 32]) != hash);
}

#[test]
fn a_hash_keeps_its_bytes() {
    let bytes = [9u8; 32];
    let hash = TxHash::from(bytes);
    assert_eq!(hash.as_bytes(), &bytes);
    let back: [u8; 32] = hash.into();
    assert_eq!(back, bytes);
    assert_eq!(TxHash::from_bytes(bytes).as_bytes(), &bytes);
}

#[test]
fn texts_that_are_no_hash_are_refused() {
    assert!(matches!(TxHash::parse("0x123"), Err(HexError::OddLength)));
    assert!(matches!(
        TxHash::parse("0x1234"),
        Err(HexError::InvalidStringLength)
    ));
    let bad = ABC.replace("4e", "4g");
    assert!(matches!(
        TxHash::parse(&bad),
        Err(HexError::InvalidHexCharacter { c: 'g', index: 1 })
    ));
}

#[test]
fn hex_errors_have_their_texts() {
    assert_eq!(HexError::OddLength.message(), "odd number of digits");
    assert_eq!(
        HexError::InvalidStringLength.message(),
        "invalid string length"
    );
    let text = HexError::InvalidHexCharacter { c: 'g', index: 1 }.message();
    assert_eq!(
        text,
        const_hex::FromHexError::InvalidHexCharacter { c: 'g', index: 1 }.to_string()
    );
}

#[test]
fn addresses_are_written_as_usual() {
    assert_eq!(text(IpAddr::v4(10, 0, 0, 1)), "10.0.0.1");
    assert_eq!(text(IpAddr::V4(u32::MAX)), "255.255.255.255");
    assert_eq!(text(IpAddr::V6(0)), "::");
    assert_eq!(text(IpAddr::V6(1)), "::1");
    let samples = [
        (0x2001_0db8_0000_0000_0000_0000_0000_0001, "2001:db8::1"),
        (0x2001_0db8_0000_0001_0000_0000_0000_0001, "2001:db8:0:1::1"),
        (0x0001_0000_0000_0002_0000_0000_0003_0004, "1::2:0:0:3:4"),
        (0x0001_0000_0002_0003_0004_0005_0006_0007, "1:0:2:3:4:5:6:7"),
        (0x0000_0000_0000_0000_0000_ffff_0a00_0001, "::ffff:10.0.0.1"),
        (0xfe80_0000_0000_0000_0000_0000_0000_0000, "fe80::"),
        (0x0001_0002_0003_0004_0005_0006_0007_0008, "1:2:3:4:5:6:7:8"),
    ];
    for (bits, expected) in samples {
        assert_eq!(text(IpAddr::V6(bits)), expected);
    }
}

#[test]
fn a_set_of_addresses_is_sorted_and_holds_each_once() {
    let a = IpAddr::v4(10, 0, 0, 2);
    let b = IpAddr::v4(10, 0, 0, 1);
    let c = IpAddr::V6(1);
    let set = AddressSet::collect(&vec![c, a, b, a, c]);
    assert_eq!(set.members(), &vec![b, a, c]);
}

#[test]
fn spans_are_written_as_the_platform_does() {
    for (d, std_d) in [
        (Duration::from_secs(3), std::time::Duration::from_secs(3)),
        (
            Duration::from_millis(1500),
            std::time::Duration::from_millis(1500),
        ),
        (Duration::from_micros(7), std::time::Duration::from_micros(7)),
        (Duration::new(0, 42), std::time::Duration::new(0, 42)),
    ] {
        assert_eq!(d.to_text(), format!("{std_d:?}"));
        assert_eq!(d.as_nanos(), std_d.as_nanos());
        assert_eq!(d.as_secs(), std_d.as_secs());
        assert_eq!(d.subsec_nanos(), std_d.subsec_nanos());
        assert_eq!(d.as_micros(), std_d.as_micros());
    }
}

#[test]
fn spans_multiply_up_to_the_longest() {
    let max = Duration::new(u64::MAX, 999_999_999);
    assert_eq!(max.saturating_mul(2), max);
    assert_eq!(max.checked_mul(2), None);
    assert_eq!(
        Duration::from_millis(3).saturating_mul(4),
        Duration::from_millis(12)
    );
}

#[test]
fn every_error_has_its_message() {
    let ip = IpAddr::v4(10, 0, 0, 1);
    let message = "why".to_string();
    let cases = [
        (
            Error::Config(message.clone()),
            "invalid configuration: why",
            false,
        ),
        (
            Error::Dns {
                host: "h".to_string(),
                source: message.clone(),
            },
            "DNS resolution for `h` failed: why",
            false,
        ),
        (
            Error::NotReady { known: 3 },
            "no warm connection to the sequencer (3 endpoint(s) known, none ready)",
            true,
        ),
        (
            Error::Transport {
                ip,
                message: message.clone(),
            },
            "transport failure talking to 10.0.0.1: why",
            true,
        ),
        (
            Error::HttpStatus {
                ip,
                status: 503,
                body: message.clone(),
            },
            "sequencer at 10.0.0.1 returned HTTP 503: why",
            true,
        ),
        (
            Error::BadResponse {
                ip,
                message: message.clone(),
            },
            "malformed JSON-RPC response from 10.0.0.1: why",
            true,
        ),
        (
            Error::Rpc {
                code: -32603,
                message: message.clone(),
            },
            "sequencer RPC fault: [-32603] why",
            true,
        ),
        (
            Error::Rejected {
                code: i64::MIN,
                message: message.clone(),
            },
            "sequencer rejected the transaction: [-9223372036854775808] why",
            false,
        ),
        (
            Error::Timeout(Duration::from_millis(250)),
            "request timed out after 250ms",
            true,
        ),
        (
            Error::AllFailed {
                attempts: 2,
                last: Box::new(Error::NotReady { known: 0 }),
            },
            "all 2 endpoint(s) failed; last error: no warm connection to the sequencer \
             (0 endpoint(s) known, none ready)",
            true,
        ),
        (
            Error::InvalidRawTx(message),
            "invalid raw transaction: why",
            false,
        ),
    ];
    for (error, text, retryable) in cases {
        assert_eq!(error.message(), text);
        assert_eq!(error.is_retryable(), retryable, "{text}");
    }
}

#[test]
fn request_faults_are_not_retryable() {
    for code in [-32700, -32600, -32601, -32602, -32001, -32004, -32006] {
        let e = Error::Rpc {
            code,
            message: String::new(),
        };
        assert!(!e.is_retryable(), "{code}");
    }
    for code in [-32603, -32002, -32005, 0, 7] {
        let e = Error::Rpc {
            code,
            message: String::new(),
        };
        assert!(e.is_retryable(), "{code}");
    }
}
