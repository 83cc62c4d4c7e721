//! The pool, and what the client sends where.

use pilotlight::client::{check_raw, fanout_width, WaitEvent, WaitStep};
use pilotlight::conn::ConnAction;
use pilotlight::endpoint::EndpointEvent;
use pilotlight::pool::{resolve, Target};
use pilotlight::{
    ClientBuilder, ConditionalOptions, Duration, Error, IpAddr, SequencerClient, TxHash,
};

fn ip(last: u8) -> IpAddr {
    IpAddr::v4(10, 0, 0, last)
}

fn cold(builder: ClientBuilder, lasts: &[u8]) -> SequencerClient {
    let addrs = lasts.iter().map(|last| ip(*last)).collect();
    builder
        .build(Ok(()))
        .expect("valid")
        .resolve(Ok(addrs))
        .expect("resolved")
}

/// Every connection of every endpoint is up.
fn warm(builder: ClientBuilder, lasts: &[u8]) -> SequencerClient {
    let mut client = cold(builder, lasts);
    for last in lasts {
        for conn in 0..client.cfg.conns_per_ip {
            client.apply(ip(*last), &EndpointEvent::Up(conn));
        }
    }
    client
}

fn answered(client: &mut SequencerClient, last: u8, micros: u64) {
    client.apply(
        ip(last),
        &EndpointEvent::Probed {
            outcome: Ok(()),
            latency: Duration::from_micros(micros),
        },
    );
}

fn ips(targets: &[Target]) -> Vec<IpAddr> {
    targets.iter().map(|t| t.ip).collect()
}

fn known(client: &SequencerClient) -> Vec<IpAddr> {
    client.stats().iter().map(|s| s.ip).collect()
}

#[test]
fn widths_are_capped_at_what_is_there() {
    assert_eq!(fanout_width(0, 3), 3);
    assert_eq!(fanout_width(2, 3), 2);
    assert_eq!(fanout_width(9, 3), 3);
    assert_eq!(fanout_width(0, 0), 0);
}

#[test]
fn an_empty_transaction_is_refused_first() {
    let err = check_raw(&[]).expect_err("empty");
    assert_eq!(
        err.message(),
        "invalid raw transaction: transaction is empty"
    );
    let mut client = cold(SequencerClient::builder(), &[1]);
    assert!(matches!(
        client.send_raw_transaction(&[]),
        Err(Error::InvalidRawTx(_))
    ));
    assert!(matches!(
        client.send_raw_transaction_hex("0x"),
        Err(Error::InvalidRawTx(_))
    ));
    let options = ConditionalOptions::new();
    assert!(matches!(
        client.send_raw_transaction_conditional(&[], &options),
        Err(Error::InvalidRawTx(_))
    ));
}

#[test]
fn a_cold_client_is_not_ready() {
    let mut client = cold(SequencerClient::builder(), &[1, 2, 3]);
    let err = client.send_raw_transaction(&[1]).expect_err("cold");
    assert!(matches!(err, Error::NotReady { known: 3 }), "got {err:?}");
}

#[test]
fn a_transaction_goes_to_every_ready_endpoint() {
    let mut client = warm(SequencerClient::builder(), &[3, 1, 2]);
    client.apply(ip(2), &EndpointEvent::Down(0));
    client.apply(ip(2), &EndpointEvent::Down(1));
    let sent = client.send_raw_transaction(&[0xab]).expect("ready");
    assert_eq!(ips(&sent.targets), vec![ip(1), ip(3)]);
    assert!(sent.tx_hash == TxHash::of_raw_tx(&[0xab]));
    assert_eq!(sent.known, 3);
    let won = sent.won(ip(3), Duration::from_millis(4));
    assert!(won.tx_hash == sent.tx_hash);
    assert_eq!(won.endpoint, ip(3));
    assert_eq!(won.latency, Duration::from_millis(4));
    assert_eq!(won.fanout, 2);
}

#[test]
fn the_best_endpoints_come_first() {
    let mut client = warm(SequencerClient::builder().fanout(3), &[1, 2, 3, 4]);
    answered(&mut client, 1, 900);
    answered(&mut client, 2, 300);
    answered(&mut client, 3, 100);
    client.apply(
        ip(3),
        &EndpointEvent::Failed(Error::NotReady { known: 0 }),
    );
    let sent = client.send_raw_transaction(&[1]).expect("ready");
    assert_eq!(
        ips(&sent.targets),
        vec![ip(2), ip(1), ip(4)],
        "unsampled behind sampled, failing last and left out"
    );
}

#[test]
fn ties_keep_the_order_of_the_pool() {
    let mut client = warm(SequencerClient::builder().fanout(2), &[5, 4, 6]);
    let sent = client.send_raw_transaction(&[1]).expect("ready");
    assert_eq!(ips(&sent.targets), vec![ip(4), ip(5)]);
}

#[test]
fn submissions_rotate_over_the_connections() {
    let mut client = warm(SequencerClient::builder(), &[1]);
    let picks: Vec<usize> = (0..3)
        .map(|_| client.send_raw_transaction(&[1]).expect("ready").targets[0].conn)
        .collect();
    assert_eq!(picks, vec![0, 1, 0]);
}

#[test]
fn each_entry_sends_its_body() {
    let mut client = warm(SequencerClient::builder(), &[1]);
    let sent = client.send_raw_transaction_hex("0x02f8").expect("ready");
    assert!(sent.tx_hash == TxHash::of_raw_tx(&[0x02, 0xf8]));
    let req = client.request(sent.body.clone());
    assert_eq!(req.method, "POST");
    assert_eq!(req.uri, "https://sequencer.mainnet.chain.robinhood.com/");
    assert_eq!(req.content_type, "application/json");
    assert_eq!(req.accept, "application/json");
    assert_eq!(req.user_agent, client.cfg.user_agent);
    assert_eq!(req.body, sent.body);
    let plain = client.send_raw_transaction(&[0x02, 0xf8]).expect("ready");
    assert_eq!(plain.body, sent.body);
    let options = ConditionalOptions::new().with_timestamp_range(Some(7), None);
    let conditional = client
        .send_raw_transaction_conditional(&[0x02, 0xf8], &options)
        .expect("ready");
    let text = String::from_utf8(conditional.body.to_vec()).expect("UTF-8");
    assert!(text.contains(r#"["0x02f8",{"timestampMin":7}]"#), "{text}");
    assert!(conditional.tx_hash == sent.tx_hash);
}

#[test]
fn text_that_is_no_hex_is_refused() {
    let mut client = warm(SequencerClient::builder(), &[1]);
    let err = client.send_raw_transaction_hex("0x123").expect_err("odd");
    assert_eq!(
        err.message(),
        "invalid raw transaction: expected hex: odd number of digits"
    );
    let err = client.send_raw_transaction_hex("zz").expect_err("no digit");
    assert!(err
        .message()
        .starts_with("invalid raw transaction: expected hex: "));
}

#[test]
fn waiting_ends_with_the_first_connection() {
    let mut client = cold(SequencerClient::builder(), &[1]);
    let timeout = Duration::from_secs(6);
    let left = Duration::from_secs(2);
    let step = client.wait_until_ready(timeout, WaitEvent::Left(left));
    assert!(matches!(step, Ok(WaitStep::Wait(d)) if d == left));
    let step = client.wait_until_ready(timeout, WaitEvent::Left(Duration::from_secs(0)));
    assert!(matches!(step, Err(Error::Timeout(d)) if d == timeout));
    client.apply(ip(1), &EndpointEvent::Up(1));
    let step = client.wait_until_ready(timeout, WaitEvent::Left(Duration::from_secs(0)));
    assert!(matches!(step, Ok(WaitStep::Ready)));
    let step = client.wait_until_ready(timeout, WaitEvent::Expired);
    assert!(matches!(step, Err(Error::Timeout(d)) if d == timeout));
}

#[test]
fn surviving_endpoints_keep_what_is_known() {
    let mut client = warm(SequencerClient::builder(), &[1, 2]);
    answered(&mut client, 2, 250);
    let changes = client
        .refresh_endpoints(Ok(vec![ip(3), ip(2), ip(3)]))
        .expect("resolved");
    assert_eq!(changes.added, vec![ip(3)]);
    assert_eq!(changes.retired, vec![ip(1)]);
    let stats = client.stats();
    assert_eq!(known(&client), vec![ip(2), ip(3)]);
    assert_eq!(stats[0].live_conns, 2);
    assert_eq!(stats[0].ewma_latency, Some(Duration::from_micros(250)));
    assert_eq!(stats[1].live_conns, 0);
    assert_eq!(stats[1].ewma_latency, None);
}

#[test]
fn the_same_addresses_change_nothing() {
    let mut client = warm(SequencerClient::builder(), &[1, 2]);
    answered(&mut client, 1, 250);
    let changes = client
        .refresh_endpoints(Ok(vec![ip(2), ip(1)]))
        .expect("resolved");
    assert!(changes.added.is_empty() && changes.retired.is_empty());
    assert_eq!(client.stats()[0].ewma_latency, Some(Duration::from_micros(250)));
    assert_eq!(client.stats()[1].live_conns, 2);
}

#[test]
fn a_swap_of_one_address_is_no_rest() {
    let mut client = warm(SequencerClient::builder(), &[1, 2]);
    let changes = client
        .refresh_endpoints(Ok(vec![ip(1), ip(9)]))
        .expect("resolved");
    assert_eq!(changes.added, vec![ip(9)]);
    assert_eq!(changes.retired, vec![ip(2)]);
    assert_eq!(known(&client), vec![ip(1), ip(9)]);
}

#[test]
fn a_failed_lookup_leaves_the_endpoints_alone() {
    let mut client = warm(SequencerClient::builder().host("localhost"), &[1, 2]);
    let err = client
        .refresh_endpoints(Err("resolver down".to_string()))
        .expect_err("failed");
    assert_eq!(
        err.message(),
        "DNS resolution for `localhost` failed: resolver down"
    );
    let err = client.refresh_endpoints(Ok(vec![])).expect_err("nothing");
    assert_eq!(
        err.message(),
        "DNS resolution for `localhost` failed: resolver returned no addresses"
    );
    assert_eq!(known(&client), vec![ip(1), ip(2)]);
    assert!(client.stats().iter().all(|s| s.live_conns == 2));
}

#[test]
fn events_of_a_retired_endpoint_are_lost() {
    let mut client = warm(SequencerClient::builder(), &[1, 2]);
    client.refresh_endpoints(Ok(vec![ip(2)])).expect("resolved");
    answered(&mut client, 1, 5);
    client.apply(ip(1), &EndpointEvent::Up(0));
    assert_eq!(known(&client), vec![ip(2)]);
    assert_eq!(client.stats()[0].ewma_latency, None);
}

#[test]
fn supervisors_reach_their_endpoint() {
    let mut client = cold(SequencerClient::builder(), &[1, 2]);
    client.follow(ip(2), 1, &ConnAction::Publish);
    assert!(client.should_probe(ip(2), 1));
    client.follow(ip(2), 1, &ConnAction::Connect);
    assert!(client.should_probe(ip(2), 1));
    let pause = ConnAction::Pause {
        delay: Duration::from_millis(100),
        failure: Some(Error::NotReady { known: 0 }),
    };
    client.follow(ip(2), 1, &pause);
    client.follow(ip(9), 0, &pause);
    assert!(!client.should_probe(ip(2), 1));
    let failures: Vec<u32> = client
        .stats()
        .iter()
        .map(|s| s.consecutive_failures)
        .collect();
    assert_eq!(failures, vec![0, 1]);
}

#[test]
fn a_zero_interval_never_refreshes() {
    let client = cold(SequencerClient::builder(), &[1]);
    assert_eq!(client.refresher(), Some(Duration::from_secs(30)));
    let never = SequencerClient::builder().dns_refresh_interval(Duration::from_secs(0));
    assert_eq!(cold(never, &[1]).refresher(), None);
}

#[test]
fn probes_skip_connections_that_are_down() {
    let mut client = cold(SequencerClient::builder(), &[1, 2]);
    assert!(!client.should_probe(ip(2), 1));
    client.apply(ip(2), &EndpointEvent::Up(1));
    assert!(client.should_probe(ip(2), 1));
    assert!(!client.should_probe(ip(2), 0));
    assert!(!client.should_probe(ip(2), 9));
    assert!(!client.should_probe(ip(1), 1));
    assert!(!client.should_probe(ip(7), 1));
}

#[test]
fn a_client_needs_an_address() {
    let unresolved = || SequencerClient::builder().build(Ok(())).expect("valid");
    assert!(matches!(
        unresolved().resolve(Ok(vec![])),
        Err(Error::Dns { .. })
    ));
    let err = unresolved()
        .resolve(Err("no such host".to_string()))
        .err()
        .expect("failed");
    assert_eq!(
        err.message(),
        "DNS resolution for `sequencer.mainnet.chain.robinhood.com` failed: no such host"
    );
    let set = resolve("h", Ok(vec![ip(2), ip(1), ip(2)])).expect("resolved");
    assert_eq!(set.members(), &vec![ip(1), ip(2)]);
}
