//! Settings and their validation.

use pilotlight::config::Config;
use pilotlight::request::RequestTemplate;
use pilotlight::{Duration, Error, SequencerClient, SEQUENCER_HOST, SEQUENCER_PORT};

#[test]
fn the_defaults_are_usable() {
    assert!(Config::default().validate().is_ok());
}

/// The ceiling clamps every doubling, so a floor above it pins the delay
/// at the ceiling from the first attempt and the backoff never grows.
/// A client configured that way reconnects at a fixed rate, and neither
/// the logs nor the endpoint statistics say why.
#[test]
fn a_backoff_floor_above_its_ceiling_is_rejected() {
    let cfg = Config {
        reconnect_min_backoff: Duration::from_secs(10),
        reconnect_max_backoff: Duration::from_secs(5),
        ..Config::default()
    };
    assert!(matches!(cfg.validate(), Err(Error::Config(_))));

    let equal = Config {
        reconnect_min_backoff: Duration::from_secs(5),
        reconnect_max_backoff: Duration::from_secs(5),
        ..Config::default()
    };
    assert!(
        equal.validate().is_ok(),
        "equal bounds are a fixed delay, not an error"
    );
}

/// Resolution is not a validator. These parse as URI authorities and some
/// of them even resolve, but none can be used as a TLS server name, and
/// that failure happens inside the supervisor, where it would surface
/// only as a client that never becomes ready while retrying something that
/// cannot succeed.
#[test]
fn a_host_that_cannot_be_a_tls_server_name_is_rejected() {
    for host in [
        "example..com",
        "-leading.example.com",
        "trailing-.example.com",
        "256.256.256.256",
        "host~tilde",
        "",
    ] {
        let cfg = Config {
            host: host.to_string(),
            ..Config::default()
        };
        assert!(
            matches!(cfg.validate(), Err(Error::Config(_))),
            "`{host}` should not build a client"
        );
    }
}

#[test]
fn ordinary_hosts_and_addresses_are_accepted() {
    for host in [
        SEQUENCER_HOST,
        "localhost",
        "1.2.3.4",
        "under_score.example.com",
    ] {
        let cfg = Config {
            host: host.to_string(),
            ..Config::default()
        };
        assert!(cfg.validate().is_ok(), "`{host}` should build a client");
    }
}

fn refusal(cfg: Config) -> String {
    cfg.validate().expect_err("refused").message()
}

#[test]
fn each_flaw_has_its_message() {
    let base = Config::default;
    assert_eq!(
        refusal(Config {
            host: String::new(),
            ..base()
        }),
        "invalid configuration: host must not be empty"
    );
    assert_eq!(
        refusal(Config {
            conns_per_ip: 0,
            ..base()
        }),
        "invalid configuration: conns_per_ip must be at least 1"
    );
    assert_eq!(
        refusal(Config {
            request_timeout: Duration::from_secs(0),
            ..base()
        }),
        "invalid configuration: request_timeout must be non-zero"
    );
    assert_eq!(
        refusal(Config {
            connect_timeout: Duration::from_secs(0),
            ..base()
        }),
        "invalid configuration: connect_timeout must be non-zero"
    );
    assert_eq!(
        refusal(Config {
            host: "host~tilde".to_string(),
            ..base()
        }),
        "invalid configuration: `host~tilde` is not a valid TLS server name"
    );
    assert_eq!(
        refusal(Config {
            reconnect_min_backoff: Duration::from_millis(5001),
            ..base()
        }),
        "invalid configuration: reconnect_min_backoff must not exceed reconnect_max_backoff"
    );
}

#[test]
fn the_builder_sets_what_it_says() {
    let cold = SequencerClient::builder()
        .host("localhost")
        .port(8443)
        .conns_per_ip(3)
        .fanout(4)
        .connect_timeout(Duration::from_secs(1))
        .request_timeout(Duration::from_millis(800))
        .probe_interval(Duration::from_secs(10))
        .dns_refresh_interval(Duration::from_secs(20))
        .h2_ping_interval(Duration::from_secs(6))
        .h2_ping_timeout(Duration::from_secs(2))
        .reconnect_min_backoff(Duration::from_millis(50))
        .reconnect_max_backoff(Duration::from_secs(7))
        .user_agent("probe/1")
        .build(Ok(()))
        .expect("valid");
    let cfg = cold.cfg;
    assert_eq!(cfg.host, "localhost");
    assert_eq!(cfg.port, 8443);
    assert_eq!(cfg.conns_per_ip, 3);
    assert_eq!(cfg.fanout, 4);
    assert_eq!(cfg.connect_timeout, Duration::from_secs(1));
    assert_eq!(cfg.request_timeout, Duration::from_millis(800));
    assert_eq!(cfg.probe_interval, Duration::from_secs(10));
    assert_eq!(cfg.dns_refresh_interval, Duration::from_secs(20));
    assert_eq!(cfg.h2_ping_interval, Duration::from_secs(6));
    assert_eq!(cfg.h2_ping_timeout, Duration::from_secs(2));
    assert_eq!(cfg.reconnect_min_backoff, Duration::from_millis(50));
    assert_eq!(cfg.reconnect_max_backoff, Duration::from_secs(7));
    assert_eq!(cfg.user_agent, "probe/1");
    assert_eq!(cold.template.uri, "https://localhost:8443/");
    assert_eq!(cold.template.user_agent, "probe/1");
}

#[test]
fn the_defaults_are_those_of_the_mainnet_sequencer() {
    let cfg = Config::default();
    assert_eq!(cfg.host, "sequencer.mainnet.chain.robinhood.com");
    assert_eq!(cfg.port, SEQUENCER_PORT);
    assert_eq!(SEQUENCER_PORT, 443);
    assert_eq!(cfg.conns_per_ip, 2);
    assert_eq!(cfg.fanout, 0);
    assert_eq!(cfg.connect_timeout, Duration::from_secs(3));
    assert_eq!(cfg.request_timeout, Duration::from_secs(5));
    assert_eq!(cfg.probe_interval, Duration::from_secs(15));
    assert_eq!(cfg.dns_refresh_interval, Duration::from_secs(30));
    assert_eq!(cfg.h2_ping_interval, Duration::from_secs(10));
    assert_eq!(cfg.h2_ping_timeout, Duration::from_secs(5));
    assert_eq!(cfg.reconnect_min_backoff, Duration::from_millis(100));
    assert_eq!(cfg.reconnect_max_backoff, Duration::from_secs(5));
}

#[test]
fn the_default_port_stays_out_of_the_uri() {
    let template = RequestTemplate::new(&Config::default()).expect("valid");
    assert_eq!(
        template.uri,
        "https://sequencer.mainnet.chain.robinhood.com/"
    );
}

#[test]
fn a_host_that_is_no_authority_is_refused() {
    let cfg = Config {
        host: "two words".to_string(),
        port: 8080,
        ..Config::default()
    };
    let err = RequestTemplate::new(&cfg).expect_err("not a URI");
    let text = err.message();
    assert!(
        text.starts_with("invalid configuration: cannot build URI for `two words:8080`: "),
        "got {text}"
    );
}

#[test]
fn a_user_agent_with_a_line_break_is_refused() {
    let cfg = Config {
        user_agent: "probe\n1".to_string(),
        ..Config::default()
    };
    let err = RequestTemplate::new(&cfg).expect_err("not a header value");
    assert_eq!(
        err.message(),
        "invalid configuration: user_agent is not a valid header value: \
         failed to parse header value"
    );
    let tabbed = Config {
        user_agent: "probe\t\u{e9}".to_string(),
        ..Config::default()
    };
    assert!(RequestTemplate::new(&tabbed).is_ok());
}

#[test]
fn a_tls_provider_without_a_protocol_is_reported_after_the_settings() {
    let err = SequencerClient::builder()
        .build(Err("none left".to_string()))
        .expect_err("no protocol");
    assert_eq!(
        err.message(),
        "invalid configuration: the TLS provider supports none of the required protocol \
         versions: none left"
    );
    let err = SequencerClient::builder()
        .conns_per_ip(0)
        .build(Err("none left".to_string()))
        .expect_err("no connection");
    assert_eq!(
        err.message(),
        "invalid configuration: conns_per_ip must be at least 1"
    );
}

#[test]
fn connecting_waits_twice_the_connect_timeout() {
    let b = SequencerClient::builder().connect_timeout(Duration::from_millis(750));
    assert_eq!(b.warm_budget(), Some(Duration::from_millis(1500)));
    let b = b.connect_timeout(Duration::from_secs(u64::MAX));
    assert_eq!(b.warm_budget(), None);
}
