//! Bringing connections up and keeping them up.

use pilotlight::config::Config;
use pilotlight::conn::{
    begin, budget_left, establish, next_backoff, ClosedReason, ConnAction, ConnEvent, HandshakeAction, HandshakeEvent,
    SendFault, Supervisor, WarmConn,
};
use pilotlight::{Duration, Error, IpAddr};

fn ip() -> IpAddr {
    IpAddr::v4(10, 0, 0, 1)
}

fn failed() -> ConnEvent {
    ConnEvent::AttemptFailed(Error::NotReady { known: 1 })
}

fn delay(action: ConnAction) -> Duration {
    match action {
        ConnAction::Pause { delay, .. } => delay,
        other => panic!("expected a pause, got {other:?}"),
    }
}

#[test]
fn the_backoff_doubles_up_to_its_ceiling() {
    let mut s = Supervisor::new(ip(), &Config::default());
    let mut delays = Vec::new();
    for _ in 0..8 {
        delays.push(delay(s.step(failed())));
        assert!(matches!(s.step(ConnEvent::Woke), ConnAction::Connect));
    }
    let expected: Vec<Duration> = [100, 200, 400, 800, 1600, 3200, 5000, 5000]
        .into_iter()
        .map(Duration::from_millis)
        .collect();
    assert_eq!(delays, expected);
}

#[test]
fn a_success_resets_the_backoff() {
    let mut s = Supervisor::new(ip(), &Config::default());
    for _ in 0..3 {
        s.step(failed());
        s.step(ConnEvent::Woke);
    }
    assert!(matches!(s.step(ConnEvent::Established), ConnAction::Publish));
    let pause = s.step(ConnEvent::Closed(ClosedReason::Graceful));
    assert!(matches!(&pause, ConnAction::Pause { failure: None, .. }));
    assert_eq!(delay(pause), Duration::from_millis(100));
}

#[test]
fn the_backoff_saturates() {
    let max = Duration::new(u64::MAX, 999_999_999);
    assert_eq!(next_backoff(max, max), max);
    assert_eq!(
        next_backoff(Duration::from_secs(4), Duration::from_secs(5)),
        Duration::from_secs(5)
    );
}

#[test]
fn broken_connections_are_counted() {
    let mut s = Supervisor::new(ip(), &Config::default());
    let texts = [
        (
            s.step(ConnEvent::Closed(ClosedReason::Error("reset".to_string()))),
            "transport failure talking to 10.0.0.1: established connection failed: reset",
        ),
        (
            s.step(ConnEvent::DriverEnded("panic".to_string())),
            "transport failure talking to 10.0.0.1: connection ended unexpectedly: panic",
        ),
        (
            s.step(failed()),
            "no warm connection to the sequencer (1 endpoint(s) known, none ready)",
        ),
    ];
    for (action, text) in texts {
        match action {
            ConnAction::Pause {
                failure: Some(e), ..
            } => assert_eq!(e.message(), text),
            other => panic!("expected a failure, got {other:?}"),
        }
    }
}

fn text(event: HandshakeEvent) -> String {
    establish(ip(), &Config::default(), event)
        .expect_err("failed")
        .message()
}

#[test]
fn a_connection_comes_up_step_by_step() {
    let cfg = Config::default();
    let next = |event| establish(ip(), &cfg, event).expect("goes on");
    assert_eq!(
        begin(&cfg),
        HandshakeAction::ConnectTcp(Duration::from_secs(3))
    );
    assert_eq!(
        next(HandshakeEvent::TcpConnected),
        HandshakeAction::SetNoDelay
    );
    let left = Duration::from_millis(1200);
    assert_eq!(
        next(HandshakeEvent::NoDelaySet(left)),
        HandshakeAction::StartTls(left)
    );
    assert_eq!(
        next(HandshakeEvent::TlsEstablished(Some("h2".into()))),
        HandshakeAction::StartHttp2
    );
    assert_eq!(next(HandshakeEvent::Http2Ready), HandshakeAction::Done);
}

#[test]
fn tcp_and_tls_share_one_budget() {
    let cfg = Config::default();
    let left = |millis| budget_left(&cfg, Duration::from_millis(millis));
    assert_eq!(left(0), Duration::from_secs(3));
    assert_eq!(left(1800), Duration::from_millis(1200));
    assert_eq!(left(3000), Duration::from_secs(0));
    assert_eq!(left(9000), Duration::from_secs(0));
    assert_eq!(
        text(HandshakeEvent::NoDelaySet(left(3000))),
        "transport failure talking to 10.0.0.1: TLS handshake timed out after 3s"
    );
}

#[test]
fn each_failed_handshake_has_its_message() {
    let at = "transport failure talking to 10.0.0.1: ";
    let why = || "why".to_string();
    for (event, tail) in [
        (HandshakeEvent::TcpTimedOut, "TCP connect timed out after 3s"),
        (
            HandshakeEvent::TcpFailed(why()),
            "TCP connect failed: why",
        ),
        (
            HandshakeEvent::NoDelayFailed(why()),
            "failed to set TCP_NODELAY: why",
        ),
        (
            HandshakeEvent::TlsTimedOut,
            "TLS handshake timed out after 3s",
        ),
        (
            HandshakeEvent::TlsFailed(why()),
            "TLS handshake failed: why",
        ),
        (
            HandshakeEvent::Http2Failed(why()),
            "HTTP/2 handshake failed: why",
        ),
    ] {
        assert_eq!(text(event), format!("{at}{tail}"));
    }
}

#[test]
fn only_http2_will_do() {
    let at = "transport failure talking to 10.0.0.1: peer did not negotiate HTTP/2 over ALPN";
    let end = "this client speaks HTTP/2 only";
    assert_eq!(
        text(HandshakeEvent::TlsEstablished(Some("http/1.1".into()))),
        format!("{at} (got: http/1.1); {end}")
    );
    assert_eq!(
        text(HandshakeEvent::TlsEstablished(None)),
        format!("{at} (got: none); {end}")
    );
    assert_eq!(
        text(HandshakeEvent::TlsEstablished(Some(vec![0xff]))),
        format!("{at} (got: \u{fffd}); {end}")
    );
}

#[test]
fn a_name_that_tls_cannot_use_stops_the_handshake() {
    let cfg = Config {
        host: "host~tilde".to_string(),
        ..Config::default()
    };
    let event = HandshakeEvent::NoDelaySet(Duration::from_secs(0));
    let err = establish(ip(), &cfg, event).expect_err("no name");
    assert_eq!(
        err.message(),
        "invalid configuration: `host~tilde` is not a valid TLS server name: invalid dns name"
    );
}

#[test]
fn requests_that_cannot_be_issued_say_why() {
    let at = "transport failure talking to 10.0.0.1: ";
    for (fault, tail) in [
        (SendFault::NotEstablished, "connection is not established"),
        (
            SendFault::StreamNotReady("full".to_string()),
            "stream not ready: full",
        ),
        (
            SendFault::SendFailed("reset".to_string()),
            "send failed: reset",
        ),
    ] {
        assert_eq!(
            WarmConn::send_error(ip(), fault).message(),
            format!("{at}{tail}")
        );
    }
}

#[test]
fn a_connection_starts_down() {
    let mut conn = WarmConn::new(ip());
    assert!(!conn.is_ready());
    conn.mark_up();
    assert!(conn.is_ready());
    conn.mark_down();
    assert!(!conn.is_ready());
}
