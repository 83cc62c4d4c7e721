//! What the answers of a fan-out come to.

use pilotlight::verdict::{collect_verdict, Answer, AnswerEvent, Collector, Step};
use pilotlight::{Duration, Error, IpAddr};

fn ip(last: u8) -> IpAddr {
    IpAddr::v4(10, 0, 0, last)
}

fn nonce_too_low() -> Error {
    Error::Rejected {
        code: -32000,
        message: "nonce too low: tx: 7 state: 8".to_string(),
    }
}

fn unreachable_endpoint() -> Error {
    Error::Transport {
        ip: ip(9),
        message: "connection is not established".to_string(),
    }
}

/// Feed a fixed sequence of answers through the reduction, in order.
fn verdict_of(answers: Vec<Answer>, known: usize) -> Result<IpAddr, Error> {
    let attempts = answers.len();
    collect_verdict(answers, Duration::from_secs(30), attempts, known)
}

/// A rejection from one copy does not decide the fan-out.
///
/// Every copy but one is answered `nonce too low`, because this sequencer
/// orders synchronously and the winner has already advanced the account
/// state. Those answers arrive in whatever order the network delivers them,
/// so a rejection routinely lands first. Reporting it would tell the caller
/// a sequenced transaction had failed, and the caller may then reissue it
/// under a fresh nonce.
#[test]
fn a_success_wins_however_late_it_arrives() {
    let winner = verdict_of(
        vec![
            (ip(1), Err(nonce_too_low())),
            (ip(2), Err(nonce_too_low())),
            (ip(3), Ok(())),
        ],
        3,
    )
    .expect("the copy that landed must decide the outcome");
    assert_eq!(winner, ip(3));
}

/// A transport failure must not settle it either.
#[test]
fn a_success_wins_over_an_earlier_transport_failure() {
    let winner = verdict_of(
        vec![(ip(1), Err(unreachable_endpoint())), (ip(2), Ok(()))],
        2,
    )
    .expect("delivery on one endpoint is enough");
    assert_eq!(winner, ip(2));
}

#[test]
fn the_first_success_is_the_one_reported() {
    let winner = verdict_of(vec![(ip(1), Ok(())), (ip(2), Ok(()))], 2).expect("success");
    assert_eq!(winner, ip(1));
}

/// With nothing to override it, the sequencer's verdict is the answer.
#[test]
fn every_copy_rejected_reports_the_rejection() {
    let err = verdict_of(
        vec![
            (ip(1), Err(nonce_too_low())),
            (ip(2), Err(nonce_too_low())),
            (ip(3), Err(nonce_too_low())),
        ],
        3,
    )
    .expect_err("no copy succeeded");
    assert!(
        matches!(err, Error::Rejected { code: -32000, .. }),
        "got {err:?}"
    );
    assert!(!err.is_retryable());
}

/// A rejection outranks a transport failure: one endpoint reaching the
/// sequencer and being refused says more than another failing to reach it.
#[test]
fn a_rejection_outranks_a_transport_failure() {
    let err = verdict_of(
        vec![
            (ip(1), Err(unreachable_endpoint())),
            (ip(2), Err(nonce_too_low())),
        ],
        2,
    )
    .expect_err("no copy succeeded");
    assert!(matches!(err, Error::Rejected { .. }), "got {err:?}");
}

/// Nothing reached the sequencer, so nothing is known about the
/// transaction and the caller may resend.
#[test]
fn only_transport_failures_report_as_undelivered() {
    let err = verdict_of(
        vec![
            (ip(1), Err(unreachable_endpoint())),
            (ip(2), Err(unreachable_endpoint())),
        ],
        2,
    )
    .expect_err("no copy succeeded");
    match err {
        Error::AllFailed { attempts, .. } => assert_eq!(attempts, 2),
        other => panic!("expected AllFailed, got {other:?}"),
    }
    assert!(Error::AllFailed {
        attempts: 2,
        last: Box::new(unreachable_endpoint())
    }
    .is_retryable());
}

#[test]
fn no_copy_answered_at_all_reports_not_ready() {
    let err = verdict_of(vec![], 3).expect_err("nothing answered");
    assert!(matches!(err, Error::NotReady { known: 3 }), "got {err:?}");
}

#[test]
fn the_first_of_several_refusals_is_kept() {
    let err = verdict_of(
        vec![
            (
                ip(1),
                Err(Error::Rejected {
                    code: -32003,
                    message: "first".to_string(),
                }),
            ),
            (ip(2), Err(nonce_too_low())),
            (ip(3), Err(unreachable_endpoint())),
        ],
        3,
    )
    .expect_err("no copy succeeded");
    assert_eq!(
        err.message(),
        "sequencer rejected the transaction: [-32003] first"
    );
}

#[test]
fn the_last_undelivered_copy_is_named() {
    let err = verdict_of(
        vec![
            (ip(1), Err(unreachable_endpoint())),
            (ip(2), Err(Error::Timeout(Duration::from_millis(1500)))),
        ],
        2,
    )
    .expect_err("no copy succeeded");
    assert_eq!(
        err.message(),
        "all 2 endpoint(s) failed; last error: request timed out after 1.5s"
    );
}

#[test]
fn the_budget_is_checked_before_each_wait() {
    let mut c = Collector::new(Duration::from_secs(5), 2, 3);
    let left = Duration::from_millis(40);
    assert!(matches!(c.step(AnswerEvent::Left(left)), Step::Wait(d) if d == left));
    assert!(matches!(
        c.step(AnswerEvent::Answered(ip(1), Err(nonce_too_low()))),
        Step::Check
    ));
    let spent = c.step(AnswerEvent::Left(Duration::from_secs(0)));
    assert!(
        matches!(spent, Step::Settled(Err(Error::Timeout(d))) if d == Duration::from_secs(5)),
        "a refusal alone does not settle it in time"
    );
}

#[test]
fn an_expired_wait_is_a_timeout() {
    let mut c = Collector::new(Duration::from_secs(5), 1, 1);
    let step = c.step(AnswerEvent::Expired);
    assert!(matches!(step, Step::Settled(Err(Error::Timeout(d))) if d == Duration::from_secs(5)));
}

#[test]
fn a_success_settles_a_running_collection() {
    let mut c = Collector::new(Duration::from_secs(5), 2, 2);
    assert!(matches!(
        c.step(AnswerEvent::Answered(ip(1), Err(unreachable_endpoint()))),
        Step::Check
    ));
    let step = c.step(AnswerEvent::Answered(ip(2), Ok(())));
    assert!(matches!(step, Step::Settled(Ok(winner)) if winner == ip(2)));
}
