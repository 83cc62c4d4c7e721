//! The health of one endpoint, and its connections.

use bytes::Bytes;
use pilotlight::config::Config;
use pilotlight::conn::{ClosedReason, ConnEvent, Supervisor};
use pilotlight::endpoint::{
    answer_of, exchange, Endpoint, EndpointEvent, EndpointState, ExchangeEvent, Task, MAX_BODY,
};
use pilotlight::rpc::Envelope;
use pilotlight::{Duration, Error, IpAddr, TxHash};

fn ip() -> IpAddr {
    IpAddr::v4(10, 0, 0, 1)
}

fn endpoint(conns: usize) -> Endpoint {
    let cfg = Config {
        conns_per_ip: conns,
        ..Config::default()
    };
    Endpoint::spawn(ip(), &cfg)
}

fn down() -> Error {
    Error::Transport {
        ip: ip(),
        message: "down".to_string(),
    }
}

#[test]
fn the_first_sample_stands_and_later_ones_weigh_an_eighth() {
    let mut s = EndpointState::new();
    assert_eq!(s.ewma(), None);
    s.record_success(Duration::from_micros(800));
    assert_eq!(s.ewma(), Some(Duration::from_micros(800)));
    s.record_success(Duration::from_micros(1600));
    assert_eq!(s.ewma(), Some(Duration::from_micros(900)));
    s.record_success(Duration::from_micros(0));
    assert_eq!(s.ewma(), Some(Duration::from_micros(788)));
}

#[test]
fn an_endless_latency_is_capped() {
    let mut s = EndpointState::new();
    s.record_success(Duration::new(u64::MAX, 0));
    assert_eq!(s.ewma_us, Some(u64::MAX));
    s.record_success(Duration::new(u64::MAX, 0));
    assert_eq!(s.ewma_us, Some(u64::MAX));
    s.record_success(Duration::from_micros(0));
    assert_eq!(s.ewma_us, Some(u64::MAX - u64::MAX / 8));
}

#[test]
fn a_round_trip_under_a_microsecond_is_a_sample() {
    let mut s = EndpointState::new();
    s.record_success(Duration::new(0, 500));
    assert_eq!(s.ewma(), Some(Duration::from_micros(0)));
    assert_eq!(s.rank(), (0, 0));
    s.record_failure(&down());
    assert_eq!(s.ewma(), Some(Duration::from_micros(0)));
    s.record_success(Duration::from_micros(800));
    assert_eq!(s.ewma(), Some(Duration::from_micros(800)));
}

#[test]
fn a_success_clears_the_failures() {
    let mut s = EndpointState::new();
    s.record_failure(&down());
    s.record_failure(&Error::Timeout(Duration::from_secs(1)));
    assert_eq!(s.failures(), 2);
    assert_eq!(
        s.last_failure().as_deref(),
        Some("request timed out after 1s")
    );
    s.record_success(Duration::from_micros(5));
    assert_eq!(s.failures(), 0);
    assert_eq!(s.last_failure(), None);
}

#[test]
fn the_failure_count_wraps() {
    let mut s = EndpointState {
        ewma_us: None,
        consecutive_failures: u32::MAX,
        last_failure: None,
    };
    s.record_failure(&down());
    assert_eq!(s.failures(), 0);
}

#[test]
fn ranks_go_by_failures_then_latency() {
    let mut cold = EndpointState::new();
    let mut slow = EndpointState::new();
    let mut fast = EndpointState::new();
    slow.record_success(Duration::from_secs(3600));
    fast.record_success(Duration::from_micros(10));
    assert_eq!(cold.rank(), (0, u64::MAX / 2));
    assert_eq!(fast.rank(), (0, 10));
    assert!(fast.rank() < slow.rank());
    assert!(slow.rank() < cold.rank());
    fast.record_failure(&down());
    assert!(cold.rank() < fast.rank());
    cold.record_failure(&down());
    assert!(fast.rank() < cold.rank());
}

#[test]
fn a_fresh_endpoint_has_its_connections_down() {
    let e = endpoint(2);
    assert!(!e.is_ready());
    let stats = e.stats();
    assert_eq!(stats.ip, ip());
    assert_eq!(stats.live_conns, 0);
    assert_eq!(stats.total_conns, 2);
    assert_eq!(stats.ewma_latency, None);
    assert_eq!(stats.consecutive_failures, 0);
    assert_eq!(stats.last_failure, None);
}

#[test]
fn every_connection_gets_its_tasks() {
    let cfg = Config::default();
    let e = Endpoint::spawn(ip(), &cfg);
    assert_eq!(
        e.tasks(&cfg),
        vec![
            Task::Supervise(0),
            Task::Probe(0),
            Task::Supervise(1),
            Task::Probe(1)
        ]
    );
    let quiet = Config {
        probe_interval: Duration::from_secs(0),
        ..cfg
    };
    assert_eq!(
        e.tasks(&quiet),
        vec![Task::Supervise(0), Task::Supervise(1)]
    );
}

#[test]
fn ready_connections_take_turns() {
    let mut e = endpoint(3);
    assert_eq!(e.pick_conn(), None);
    for i in 0..3 {
        e.apply(&EndpointEvent::Up(i));
    }
    e.next = 0;
    let picks: Vec<Option<usize>> = (0..4).map(|_| e.pick_conn()).collect();
    assert_eq!(picks, vec![Some(0), Some(1), Some(2), Some(0)]);
}

#[test]
fn the_next_ready_connection_stands_in() {
    let mut e = endpoint(3);
    e.apply(&EndpointEvent::Up(2));
    assert_eq!(e.pick_conn(), Some(2));
    assert_eq!(e.pick_conn(), Some(2));
    e.apply(&EndpointEvent::Down(2));
    assert!(!e.is_ready());
    assert_eq!(e.pick_conn(), None);
}

#[test]
fn the_cursor_wraps() {
    let mut e = endpoint(2);
    e.apply(&EndpointEvent::Up(0));
    e.apply(&EndpointEvent::Up(1));
    e.next = usize::MAX;
    assert_eq!(e.pick_conn(), Some(1));
    assert_eq!(e.next, 0);
    assert_eq!(e.pick_conn(), Some(0));
}

/// At the wrap, three connections are asked as 0, 0 and 1.
#[test]
fn a_wrapping_cursor_can_pass_a_connection_over() {
    let mut e = endpoint(3);
    e.apply(&EndpointEvent::Up(2));
    e.next = usize::MAX;
    assert_eq!(usize::MAX % 3, 0);
    assert_eq!(e.pick_conn(), None);
    assert_eq!(e.pick_conn(), Some(2));
}

#[test]
fn events_reach_the_counters() {
    let latency = Duration::from_micros(100);
    let mut e = endpoint(1);
    e.apply(&EndpointEvent::Failed(down()));
    assert_eq!(e.stats().consecutive_failures, 1);
    e.apply(&EndpointEvent::Submitted {
        outcome: Err(Error::Rejected {
            code: -32000,
            message: "nonce too low".to_string(),
        }),
        latency,
    });
    assert_eq!(e.stats().consecutive_failures, 0, "a refusal is healthy");
    assert_eq!(e.stats().ewma_latency, Some(latency));
    e.apply(&EndpointEvent::Submitted {
        outcome: Err(down()),
        latency,
    });
    e.apply(&EndpointEvent::Probed {
        outcome: Err(Error::Rejected {
            code: -32000,
            message: "odd".to_string(),
        }),
        latency,
    });
    assert_eq!(e.rank().0, 2);
    e.apply(&EndpointEvent::Probed {
        outcome: Ok(()),
        latency,
    });
    e.apply(&EndpointEvent::Submitted {
        outcome: Ok(()),
        latency,
    });
    assert_eq!(e.rank(), (0, 100));
    e.apply(&EndpointEvent::Up(7));
    assert_eq!(e.stats().live_conns, 0, "there is no such connection");
}

#[test]
fn live_connections_are_counted() {
    let mut e = endpoint(3);
    e.apply(&EndpointEvent::Up(0));
    e.apply(&EndpointEvent::Up(2));
    assert_eq!(e.stats().live_conns, 2);
    e.apply(&EndpointEvent::Down(0));
    assert_eq!(e.stats().live_conns, 1);
    assert!(e.is_ready());
}

fn outcome(event: ExchangeEvent) -> Result<Bytes, Error> {
    exchange(ip(), Duration::from_secs(5), event)
}

#[test]
fn a_full_answer_is_its_body() {
    let body = Bytes::from("{}");
    let r = outcome(ExchangeEvent::Answered {
        status: 200,
        body: body.clone(),
    });
    assert_eq!(r.expect("answered"), body);
}

#[test]
fn each_failed_exchange_has_its_message() {
    for (event, text) in [
        (ExchangeEvent::SendTimedOut, "request timed out after 5s"),
        (ExchangeEvent::BodyTimedOut, "request timed out after 5s"),
        (
            ExchangeEvent::SendFailed(down()),
            "transport failure talking to 10.0.0.1: down",
        ),
        (
            ExchangeEvent::BodyTooLong,
            "malformed JSON-RPC response from 10.0.0.1: response body exceeded 65536 bytes",
        ),
        (
            ExchangeEvent::BodyFailed("reset".to_string()),
            "transport failure talking to 10.0.0.1: reading response body failed: reset",
        ),
        (
            ExchangeEvent::Answered {
                status: 204,
                body: Bytes::new(),
            },
            "sequencer at 10.0.0.1 returned HTTP 204: ",
        ),
    ] {
        assert_eq!(outcome(event).expect_err("failed").message(), text);
    }
    assert_eq!(MAX_BODY, 65536);
}

#[test]
fn an_error_page_is_cut_to_its_head() {
    let r = outcome(ExchangeEvent::Answered {
        status: 503,
        body: Bytes::from(vec![b'e'; 600]),
    });
    match r {
        Err(Error::HttpStatus { status, body, .. }) => {
            assert_eq!(status, 503);
            assert_eq!(body, "e".repeat(512));
        }
        other => panic!("expected HttpStatus, got {other:?}"),
    }
}

#[test]
fn a_body_past_the_cap_is_refused_whoever_read_it() {
    let answered = |status, len| {
        outcome(ExchangeEvent::Answered {
            status,
            body: Bytes::from(vec![b'x'; len]),
        })
    };
    assert!(answered(200, MAX_BODY).is_ok());
    for status in [200, 503] {
        assert_eq!(
            answered(status, 70_000).expect_err("too long").message(),
            "malformed JSON-RPC response from 10.0.0.1: response body exceeded 65536 bytes"
        );
    }
}

/// Hand an event to the supervisor, and what it decides to the endpoint.
fn round(s: &mut Supervisor, e: &mut Endpoint, event: ConnEvent) {
    let action = s.step(event);
    e.follow(0, &action);
}

#[test]
fn a_round_of_supervision() {
    let ends = [
        (ConnEvent::Closed(ClosedReason::Graceful), 0, None),
        (
            ConnEvent::Closed(ClosedReason::Error("reset".to_string())),
            1,
            Some("transport failure talking to 10.0.0.1: established connection failed: reset"),
        ),
        (
            ConnEvent::DriverEnded("panic".to_string()),
            1,
            Some("transport failure talking to 10.0.0.1: connection ended unexpectedly: panic"),
        ),
        (
            ConnEvent::AttemptFailed(down()),
            1,
            Some("transport failure talking to 10.0.0.1: down"),
        ),
    ];
    for (end, failures, reason) in ends {
        let mut s = Supervisor::new(ip(), &Config::default());
        let mut e = endpoint(1);
        round(&mut s, &mut e, ConnEvent::Established);
        assert!(e.is_ready());
        assert_eq!(e.stats().consecutive_failures, 0);
        round(&mut s, &mut e, end);
        assert!(!e.is_ready());
        assert_eq!(e.stats().consecutive_failures, failures);
        assert_eq!(e.stats().last_failure.as_deref(), reason);
        round(&mut s, &mut e, ConnEvent::Woke);
        assert!(!e.is_ready());
        assert_eq!(e.stats().consecutive_failures, failures);
    }
}

#[test]
fn a_copy_comes_to_its_exchange_and_then_its_answer() {
    let sent = TxHash::of_raw_tx(&[1]);
    let parsed = |hash: TxHash| {
        Ok(Envelope {
            result: Some(hash.to_text()),
            error: None,
        })
    };
    let answered = |status| ExchangeEvent::Answered {
        status,
        body: Bytes::from("{}"),
    };
    let timeout = Duration::from_secs(5);
    assert!(answer_of(ip(), timeout, answered(200), parsed(sent), sent).is_ok());
    let other = TxHash::of_raw_tx(&[2]);
    let r = answer_of(ip(), timeout, answered(200), parsed(other), sent);
    assert!(matches!(r, Err(Error::BadResponse { .. })));
    let r = answer_of(ip(), timeout, answered(503), parsed(sent), sent);
    assert!(matches!(r, Err(Error::HttpStatus { status: 503, .. })));
    let r = answer_of(ip(), timeout, ExchangeEvent::BodyTimedOut, parsed(sent), sent);
    assert!(matches!(r, Err(Error::Timeout(d)) if d == timeout));
}
