//! What the answers of a fan-out come to.

use vstd::prelude::*;

use crate::addr::IpAddr;
use crate::error::{Error, Fault};
use crate::time::Duration;

verus! {

/// One answer in a fan-out: which endpoint gave it, and what it came to.
pub type Answer = (IpAddr, Result<(), Error>);

/// What the failures among the answers so far come to.
pub struct Tally {
    /// The first failure that resending cannot mend.
    pub rejection: Option<Fault>,
    /// The latest failure that it could.
    pub undelivered: Option<Fault>,
}

/// The tally that nothing has been added to.
pub open spec fn fresh_tally() -> Tally {
    Tally { rejection: None, undelivered: None }
}

/// The tally with one more answer.
pub open spec fn tally_on(t: Tally, outcome: Result<(), Error>) -> Tally {
    match outcome {
        Ok(()) => t,
        Err(e) => if e@.retryable() {
            Tally { undelivered: Some(e@), ..t }
        } else if t.rejection is None {
            Tally { rejection: Some(e@), ..t }
        } else {
            t
        },
    }
}

/// What it comes to that every copy has answered and none succeeded.
pub open spec fn no_success(t: Tally, attempts: nat, known: nat) -> Fault {
    match (t.rejection, t.undelivered) {
        (Some(rejected), _) => rejected,
        (None, Some(last)) => Fault::AllFailed { attempts, last: Box::new(last) },
        (None, None) => Fault::NotReady { known },
    }
}

/// What can happen while the answers of a fan-out are collected.
#[derive(Debug)]
pub enum AnswerEvent {
    /// This much of the budget is left before the next wait.
    Left(Duration),
    /// No answer came in what was left.
    Expired,
    /// An answer came.
    Answered(IpAddr, Result<(), Error>),
    /// Every copy has answered.
    Drained,
}

/// What to do next while the answers of a fan-out are collected.
#[derive(Debug)]
pub enum Step {
    /// See how much of the budget is left.
    Check,
    /// Wait for the next answer, no longer than this.
    Wait(Duration),
    /// The outcome is settled: which endpoint carried the transaction, or the
    /// failure that describes all of them.
    Settled(Result<IpAddr, Error>),
}

/// What a step says, with its error as the fault it reports.
pub enum StepView {
    Check,
    Wait(Duration),
    Settled(Result<IpAddr, Fault>),
}

impl View for Step {
    type V = StepView;

    open spec fn view(&self) -> StepView {
        match *self {
            Step::Check => StepView::Check,
            Step::Wait(d) => StepView::Wait(d),
            Step::Settled(r) => StepView::Settled(crate::rpc::outcome(r)),
        }
    }
}

/// The tally after an event.
pub open spec fn tally_after(t: Tally, event: AnswerEvent) -> Tally {
    match event {
        AnswerEvent::Answered(_, outcome) => tally_on(t, outcome),
        AnswerEvent::Drained => fresh_tally(),
        AnswerEvent::Left(_) | AnswerEvent::Expired => t,
    }
}

/// What to do about an event.
pub open spec fn step_on(
    t: Tally,
    event: AnswerEvent,
    budget: Duration,
    attempts: nat,
    known: nat,
) -> StepView {
    match event {
        AnswerEvent::Left(d) => if d@ == 0 {
            StepView::Settled(Err(Fault::Timeout(budget)))
        } else {
            StepView::Wait(d)
        },
        AnswerEvent::Expired => StepView::Settled(Err(Fault::Timeout(budget))),
        AnswerEvent::Answered(ip, Ok(())) => StepView::Settled(Ok(ip)),
        AnswerEvent::Answered(_, Err(_)) => StepView::Check,
        AnswerEvent::Drained => StepView::Settled(Err(no_success(t, attempts, known))),
    }
}

/// Reduces the answers from a fan-out to the endpoint that carried the
/// transaction, or to the failure that describes all of them.
///
/// The first success settles it. A failure never settles it while copies are
/// still outstanding: the copies are duplicates of one transaction, not
/// independent queries, and this sequencer orders synchronously, so a copy that
/// loses the race is answered `nonce too low` against the state the winner just
/// advanced. Returning that answer would report a transaction that had been
/// sequenced as failed.
///
/// Once every copy has answered and none succeeded, a rejection from the
/// sequencer is the real answer; if nothing came back but transport failures,
/// the transaction was never delivered.
#[derive(Debug)]
pub struct Collector {
    /// Budget for the whole fan-out.
    pub budget: Duration,
    /// How many copies were sent.
    pub attempts: usize,
    /// How many endpoints the pool knows about.
    pub known: usize,
    /// The first failure that resending cannot mend.
    pub rejection: Option<Error>,
    /// The latest failure that it could.
    pub transport_failure: Option<Error>,
}

/// The fault of an error that may be there.
pub open spec fn fault_in(e: Option<Error>) -> Option<Fault> {
    match e {
        Some(e) => Some(e@),
        None => None,
    }
}

impl Collector {
    /// What the failures so far come to.
    pub open spec fn tally(self) -> Tally {
        Tally {
            rejection: fault_in(self.rejection),
            undelivered: fault_in(self.transport_failure),
        }
    }

    /// Nothing has been answered yet.
    pub fn new(budget: Duration, attempts: usize, known: usize) -> (c: Collector)
        ensures
            c == (Collector { budget, attempts, known, rejection: None, transport_failure: None }),
    {
        Collector { budget, attempts, known, rejection: None, transport_failure: None }
    }

    /// Take note of an event and say what to do about it.
    pub fn step(&mut self, event: AnswerEvent) -> (step: Step)
        ensures
            final(self).budget == old(self).budget,
            final(self).attempts == old(self).attempts,
            final(self).known == old(self).known,
            final(self).tally() == tally_after(old(self).tally(), event),
            event matches AnswerEvent::Left(d) ==> (d@ > 0 ==> step == Step::Wait(d)),
            event matches AnswerEvent::Answered(ip, Ok(())) ==> step@ == StepView::Settled(Ok(ip)),
            event matches AnswerEvent::Answered(_, Err(_)) ==> step is Check,
            step@ == step_on(
                old(self).tally(),
                event,
                old(self).budget,
                old(self).attempts as nat,
                old(self).known as nat,
            ),
    {
        match event {
            AnswerEvent::Left(d) => {
                if d.is_zero() {
                    Step::Settled(Err(Error::Timeout(self.budget)))
                } else {
                    Step::Wait(d)
                }
            },
            AnswerEvent::Expired => Step::Settled(Err(Error::Timeout(self.budget))),
            AnswerEvent::Answered(ip, Ok(())) => Step::Settled(Ok(ip)),
            AnswerEvent::Answered(_, Err(e)) => {
                if e.is_retryable() {
                    self.transport_failure = Some(e);
                } else if self.rejection.is_none() {
                    // Keep the first verdict; later copies describe the state
                    // the winner left behind rather than the transaction.
                    self.rejection = Some(e);
                }
                Step::Check
            },
            AnswerEvent::Drained => {
                let rejection = self.rejection.take();
                let transport_failure = self.transport_failure.take();
                Step::Settled(
                    Err(
                        match (rejection, transport_failure) {
                            (Some(rejected), _) => rejected,
                            (None, Some(last)) => Error::AllFailed {
                                attempts: self.attempts,
                                last: Box::new(last),
                            },
                            (None, None) => Error::NotReady { known: self.known },
                        },
                    ),
                )
            },
        }
    }
}

/// What the failures among some answers come to.
pub open spec fn tally_of(answers: Seq<Answer>) -> Tally
    decreases answers.len(),
{
    if answers.len() == 0 {
        fresh_tally()
    } else {
        tally_on(tally_of(answers.drop_last()), answers.last().1)
    }
}

/// The endpoint that gave the first success, if there is one.
pub open spec fn first_success(answers: Seq<Answer>) -> Option<IpAddr>
    decreases answers.len(),
{
    if answers.len() == 0 {
        None
    } else if first_success(answers.drop_last()) is None && answers.last().1 is Ok {
        Some(answers.last().0)
    } else {
        first_success(answers.drop_last())
    }
}

/// What the answers of a fan-out come to, once they are all there.
pub open spec fn verdict(answers: Seq<Answer>, attempts: nat, known: nat) -> Result<IpAddr, Fault> {
    match first_success(answers) {
        Some(ip) => Ok(ip),
        None => Err(no_success(tally_of(answers), attempts, known)),
    }
}

/// Reduce the answers of a fan-out, in the order they came and all of them in
/// time.
///
/// # Errors
///
/// The first failure that resending cannot mend if no copy succeeded,
/// [`Error::AllFailed`] if every one could be mended, and [`Error::NotReady`] if
/// there was no answer at all.
pub fn collect_verdict(
    answers: Vec<Answer>,
    budget: Duration,
    attempts: usize,
    known: usize,
) -> (r: Result<IpAddr, Error>)
    ensures
        crate::rpc::outcome(r) == verdict(answers@, attempts as nat, known as nat),
{
    let ghost all = answers@;
    let ghost mut seen: int = 0;
    let mut rest = answers;
    let mut collector = Collector::new(budget, attempts, known);
    proof {
        assert(all.take(0) =~= Seq::<Answer>::empty());
    }
    while rest.len() > 0
        invariant
            all == answers@,
            0 <= seen <= all.len(),
            rest@ == all.skip(seen),
            collector.attempts == attempts,
            collector.known == known,
            collector.tally() == tally_of(all.take(seen)),
            first_success(all.take(seen)) is None,
        decreases rest.len(),
    {
        let (ip, outcome) = rest.remove(0);
        proof {
            assert(all.take(seen + 1).drop_last() =~= all.take(seen));
            assert(all.take(seen + 1).last() == all[seen]);
            assert(rest@ =~= all.skip(seen + 1));
            if outcome is Ok {
                success_stays(all, seen + 1);
            }
            seen = seen + 1;
        }
        if let Step::Settled(r) = collector.step(AnswerEvent::Answered(ip, outcome)) {
            return r;
        }
    }
    assert(all.take(seen) =~= all);
    match collector.step(AnswerEvent::Drained) {
        Step::Settled(r) => r,
        Step::Check | Step::Wait(_) => Err(Error::Timeout(budget)),
    }
}

/// Once there is a success, later answers change nothing.
proof fn success_stays(answers: Seq<Answer>, n: int)
    requires
        0 <= n <= answers.len(),
        first_success(answers.take(n)) is Some,
    ensures
        first_success(answers) == first_success(answers.take(n)),
    decreases answers.len() - n,
{
    if n < answers.len() {
        assert(answers.take(n + 1).drop_last() =~= answers.take(n));
        success_stays(answers, n + 1);
    } else {
        assert(answers.take(n) =~= answers);
    }
}

/// A success settles the outcome, whatever the other answers are and however
/// late it comes: the first one is reported.
pub proof fn a_success_wins(answers: Seq<Answer>, i: int, attempts: nat, known: nat)
    requires
        0 <= i < answers.len(),
        answers[i].1 is Ok,
        forall|j: int| 0 <= j < i ==> !((#[trigger] answers[j]).1 is Ok),
    ensures
        verdict(answers, attempts, known) == Ok::<IpAddr, Fault>(answers[i].0),
{
    no_success_before(answers, i);
    assert(answers.take(i + 1).drop_last() =~= answers.take(i));
    assert(answers.take(i + 1).last() == answers[i]);
    success_stays(answers, i + 1);
}

/// Failures alone hold no success.
proof fn no_success_before(answers: Seq<Answer>, n: int)
    requires
        0 <= n <= answers.len(),
        forall|j: int| 0 <= j < n ==> !((#[trigger] answers[j]).1 is Ok),
    ensures
        first_success(answers.take(n)) is None,
    decreases n,
{
    if n > 0 {
        no_success_before(answers, n - 1);
        assert(answers.take(n).drop_last() =~= answers.take(n - 1));
        assert(answers.take(n).last() == answers[n - 1]);
    }
}

/// Whether an answer is a failure that resending cannot mend.
pub open spec fn is_final(answer: Answer) -> bool {
    answer.1 matches Err(e) && !e@.retryable()
}

/// Whether an answer is a failure that resending could mend.
pub open spec fn is_mendable(answer: Answer) -> bool {
    answer.1 matches Err(e) && e@.retryable()
}

/// Where no copy succeeded, the first failure that resending cannot mend is the
/// outcome, whatever else failed.
pub proof fn a_rejection_outranks_undelivered_copies(
    answers: Seq<Answer>,
    i: int,
    attempts: nat,
    known: nat,
)
    requires
        forall|j: int| 0 <= j < answers.len() ==> !((#[trigger] answers[j]).1 is Ok),
        0 <= i < answers.len(),
        is_final(answers[i]),
        forall|j: int| 0 <= j < i ==> !is_final(#[trigger] answers[j]),
    ensures
        answers[i].1 matches Err(e) && verdict(answers, attempts, known) == Err::<IpAddr, Fault>(
            e@,
        ),
{
    no_success_before(answers, answers.len() as int);
    assert(answers.take(answers.len() as int) =~= answers);
    first_final_is_kept(answers, i, answers.len() as int);
}

/// The tally holds no rejection while no failure is final.
proof fn no_rejection_yet(answers: Seq<Answer>, n: int)
    requires
        0 <= n <= answers.len(),
        forall|j: int| 0 <= j < n ==> !is_final(#[trigger] answers[j]),
    ensures
        tally_of(answers.take(n)).rejection is None,
    decreases n,
{
    if n > 0 {
        no_rejection_yet(answers, n - 1);
        assert(answers.take(n).drop_last() =~= answers.take(n - 1));
        assert(answers.take(n).last() == answers[n - 1]);
        assert(!is_final(answers[n - 1]));
    }
}

/// The tally keeps the first failure that is final.
proof fn first_final_is_kept(answers: Seq<Answer>, i: int, n: int)
    requires
        0 <= i < n <= answers.len(),
        is_final(answers[i]),
        forall|j: int| 0 <= j < i ==> !is_final(#[trigger] answers[j]),
    ensures
        answers[i].1 matches Err(e) && tally_of(answers.take(n)).rejection == Some(e@),
    decreases n,
{
    assert(answers.take(n).drop_last() =~= answers.take(n - 1));
    assert(answers.take(n).last() == answers[n - 1]);
    if n - 1 > i {
        first_final_is_kept(answers, i, n - 1);
    } else {
        no_rejection_yet(answers, i);
    }
}

/// Where nothing came back but failures that resending could mend, the
/// transaction is reported as undelivered, with the last of them.
pub proof fn only_mendable_failures_report_as_undelivered(
    answers: Seq<Answer>,
    attempts: nat,
    known: nat,
)
    requires
        answers.len() > 0,
        forall|j: int| 0 <= j < answers.len() ==> is_mendable(#[trigger] answers[j]),
    ensures
        answers.last().1 matches Err(e) && verdict(answers, attempts, known) == Err::<
            IpAddr,
            Fault,
        >(Fault::AllFailed { attempts, last: Box::new(e@) }),
{
    let n = answers.len() as int;
    assert forall|j: int| 0 <= j < n implies !((#[trigger] answers[j]).1 is Ok) && !is_final(
        answers[j],
    ) by {
        assert(is_mendable(answers[j]));
    }
    no_success_before(answers, n);
    no_rejection_yet(answers, n);
    assert(answers.take(n) =~= answers);
    assert(is_mendable(answers[n - 1]));
}

/// Without any answer, the pool is reported as not ready.
pub proof fn no_answer_reports_not_ready(attempts: nat, known: nat)
    ensures
        verdict(Seq::empty(), attempts, known) == Err::<IpAddr, Fault>(Fault::NotReady { known }),
{
}

/// A submission fails for good only where no copy succeeded and one was refused;
/// every other failure may be retried.
pub proof fn failures_are_final_only_when_a_copy_was_refused(
    answers: Seq<Answer>,
    attempts: nat,
    known: nat,
)
    ensures
        verdict(answers, attempts, known) matches Err(fault) && !fault.retryable() <==> {
            &&& forall|j: int| 0 <= j < answers.len() ==> !((#[trigger] answers[j]).1 is Ok)
            &&& exists|j: int| 0 <= j < answers.len() && is_final(#[trigger] answers[j])
        },
{
    let n = answers.len() as int;
    assert(answers.take(n) =~= answers);
    if exists|j: int| 0 <= j < n && (#[trigger] answers[j]).1 is Ok {
        let j = choose|j: int| 0 <= j < n && (#[trigger] answers[j]).1 is Ok;
        a_success_is_found(answers, j);
    } else {
        no_success_before(answers, n);
        if exists|j: int| 0 <= j < n && is_final(#[trigger] answers[j]) {
            let j = choose|j: int| 0 <= j < n && is_final(#[trigger] answers[j]);
            a_rejection_is_found(answers, n, j);
        } else {
            no_rejection_yet(answers, n);
        }
        rejections_are_final(answers, n);
    }
}

/// A success among the answers is found.
proof fn a_success_is_found(answers: Seq<Answer>, j: int)
    requires
        0 <= j < answers.len(),
        answers[j].1 is Ok,
    ensures
        first_success(answers) is Some,
{
    assert(answers.take(j + 1).drop_last() =~= answers.take(j));
    assert(answers.take(j + 1).last() == answers[j]);
    success_stays(answers, j + 1);
}

/// A final failure among the answers is found.
proof fn a_rejection_is_found(answers: Seq<Answer>, n: int, j: int)
    requires
        0 <= j < n <= answers.len(),
        is_final(answers[j]),
    ensures
        tally_of(answers.take(n)).rejection is Some,
    decreases n,
{
    assert(answers.take(n).drop_last() =~= answers.take(n - 1));
    assert(answers.take(n).last() == answers[n - 1]);
    if n - 1 > j {
        a_rejection_is_found(answers, n - 1, j);
    }
}

/// A rejection in the tally is final.
proof fn rejections_are_final(answers: Seq<Answer>, n: int)
    requires
        0 <= n <= answers.len(),
    ensures
        tally_of(answers.take(n)).rejection matches Some(fault) ==> !fault.retryable(),
    decreases n,
{
    if n > 0 {
        assert(answers.take(n).drop_last() =~= answers.take(n - 1));
        rejections_are_final(answers, n - 1);
    }
}

/// What a run of events comes to, starting from a tally: the outcome of the first
/// step that settles it.
pub open spec fn settled_by(
    t: Tally,
    events: Seq<AnswerEvent>,
    budget: Duration,
    attempts: nat,
    known: nat,
) -> Option<Result<IpAddr, Fault>>
    decreases events.len(),
{
    if events.len() == 0 {
        None
    } else {
        match step_on(t, events[0], budget, attempts, known) {
            StepView::Settled(r) => Some(r),
            _ => settled_by(
                tally_after(t, events[0]),
                events.drop_first(),
                budget,
                attempts,
                known,
            ),
        }
    }
}

/// The answers among some events.
pub open spec fn answers_in(events: Seq<AnswerEvent>) -> Seq<Answer>
    decreases events.len(),
{
    if events.len() == 0 {
        seq![]
    } else {
        match events[0] {
            AnswerEvent::Answered(ip, outcome) => seq![(ip, outcome)] + answers_in(
                events.drop_first(),
            ),
            _ => answers_in(events.drop_first()),
        }
    }
}

/// Whether an event is an answer, or a look at a budget that is not spent.
pub open spec fn is_in_time(event: AnswerEvent) -> bool {
    match event {
        AnswerEvent::Left(d) => d@ != 0,
        AnswerEvent::Answered(_, _) => true,
        AnswerEvent::Expired | AnswerEvent::Drained => false,
    }
}

/// Where every copy answers in time, the run comes to the verdict on the answers,
/// however often the budget is looked at in between.
pub proof fn a_run_in_time_comes_to_the_verdict(
    events: Seq<AnswerEvent>,
    budget: Duration,
    attempts: nat,
    known: nat,
)
    requires
        events.len() > 0,
        events.last() is Drained,
        forall|i: int| 0 <= i < events.len() - 1 ==> is_in_time(#[trigger] events[i]),
    ensures
        settled_by(fresh_tally(), events, budget, attempts, known) == Some(
            verdict(answers_in(events), attempts, known),
        ),
{
    assert(Seq::<Answer>::empty() + answers_in(events) =~= answers_in(events));
    run_from(Seq::empty(), events, budget, attempts, known);
}

/// The same, from any point of the run on.
proof fn run_from(
    seen: Seq<Answer>,
    events: Seq<AnswerEvent>,
    budget: Duration,
    attempts: nat,
    known: nat,
)
    requires
        events.len() > 0,
        events.last() is Drained,
        forall|i: int| 0 <= i < events.len() - 1 ==> is_in_time(#[trigger] events[i]),
        first_success(seen) is None,
    ensures
        settled_by(tally_of(seen), events, budget, attempts, known) == Some(
            verdict(seen + answers_in(events), attempts, known),
        ),
    decreases events.len(),
{
    let rest = events.drop_first();
    if events.len() == 1 {
        assert(answers_in(events) =~= Seq::<Answer>::empty()) by {
            assert(answers_in(rest) =~= Seq::<Answer>::empty());
        }
        assert(seen + answers_in(events) =~= seen);
    } else {
        assert(is_in_time(events[0]));
        assert(rest.last() is Drained);
        assert forall|i: int| 0 <= i < rest.len() - 1 implies is_in_time(#[trigger] rest[i]) by {
            assert(rest[i] == events[i + 1]);
        }
        match events[0] {
            AnswerEvent::Answered(ip, outcome) => {
                let more = seen.push((ip, outcome));
                assert(more.drop_last() =~= seen);
                assert(seen + answers_in(events) =~= more + answers_in(rest));
                if outcome is Ok {
                    let all = more + answers_in(rest);
                    assert(all.take(more.len() as int) =~= more);
                    success_stays(all, more.len() as int);
                } else {
                    run_from(more, rest, budget, attempts, known);
                }
            },
            _ => {
                run_from(seen, rest, budget, attempts, known);
            },
        }
    }
}

/// Where the budget is spent before any copy succeeds, the run comes to a timeout,
/// whatever failures came in.
pub proof fn a_spent_budget_is_a_timeout(
    t: Tally,
    events: Seq<AnswerEvent>,
    budget: Duration,
    attempts: nat,
    known: nat,
)
    requires
        events.len() > 0,
        events.last() matches AnswerEvent::Left(d) ==> d@ == 0,
        events.last() is Left || events.last() is Expired,
        forall|i: int| 0 <= i < events.len() - 1 ==> is_in_time(#[trigger] events[i]),
        first_success(answers_in(events)) is None,
    ensures
        settled_by(t, events, budget, attempts, known) == Some(
            Err::<IpAddr, Fault>(Fault::Timeout(budget)),
        ),
    decreases events.len(),
{
    if events.len() > 1 {
        let rest = events.drop_first();
        assert(is_in_time(events[0]));
        assert(rest.last() == events.last());
        assert forall|i: int| 0 <= i < rest.len() - 1 implies is_in_time(#[trigger] rest[i]) by {
            assert(rest[i] == events[i + 1]);
        }
        if let AnswerEvent::Answered(ip, outcome) = events[0] {
            let all = answers_in(events);
            assert(all[0] == (ip, outcome));
            if outcome is Ok {
                a_success_is_found(all, 0);
            }
            no_success_in_tail(all);
            assert(all.drop_first() =~= answers_in(rest));
        }
        a_spent_budget_is_a_timeout(
            tally_after(t, events[0]),
            rest,
            budget,
            attempts,
            known,
        );
    }
}

/// Without a success among the answers there is none among the later ones.
proof fn no_success_in_tail(answers: Seq<Answer>)
    requires
        answers.len() > 0,
        first_success(answers) is None,
    ensures
        first_success(answers.drop_first()) is None,
{
    let tail = answers.drop_first();
    assert forall|j: int| 0 <= j < tail.len() implies !((#[trigger] tail[j]).1 is Ok) by {
        if tail[j].1 is Ok {
            assert(answers[j + 1].1 is Ok);
            a_success_is_found(answers, j + 1);
        }
    }
    no_success_before(tail, tail.len() as int);
    assert(tail.take(tail.len() as int) =~= tail);
}

/// A look at the budget with time left answers with a wait for exactly that time,
/// whatever answers have come in before.
pub proof fn a_wait_is_what_is_left(
    t: Tally,
    left: Duration,
    budget: Duration,
    attempts: nat,
    known: nat,
)
    requires
        left@ > 0,
    ensures
        step_on(t, AnswerEvent::Left(left), budget, attempts, known) == StepView::Wait(left),
{
}

/// The sum of some spans.
pub open spec fn total(spans: Seq<nat>) -> nat
    decreases spans.len(),
{
    if spans.len() == 0 {
        0
    } else {
        spans[0] + total(spans.drop_first())
    }
}

/// Whether a step is to wait, and the wait may take this long.
pub open spec fn allows(step: StepView, span: nat) -> bool {
    match step {
        StepView::Wait(limit) => span <= limit@,
        _ => false,
    }
}

/// The waits of a run add up to no more than the budget, whatever the answers are.
/// Each look at the budget finds what the waits before it left, and each wait takes
/// no longer than the step allows.
pub proof fn waits_keep_within_the_budget(
    tallies: Seq<Tally>,
    left: Seq<Duration>,
    waited: Seq<nat>,
    budget: Duration,
    attempts: nat,
    known: nat,
)
    requires
        tallies.len() == waited.len(),
        left.len() == waited.len(),
        left.len() > 0 ==> left[0]@ <= budget@,
        forall|i: int|
            0 <= i < waited.len() ==> allows(
                step_on(tallies[i], AnswerEvent::Left(left[i]), budget, attempts, known),
                #[trigger] waited[i],
            ),
        forall|i: int|
            0 < i < waited.len() ==> (#[trigger] left[i])@ + waited[i - 1] <= left[i - 1]@,
    ensures
        total(waited) <= budget@,
{
    if waited.len() > 0 {
        waits_keep_within_what_is_left(tallies, left, waited, budget, attempts, known);
    }
}

/// The same, of what the first look found.
proof fn waits_keep_within_what_is_left(
    tallies: Seq<Tally>,
    left: Seq<Duration>,
    waited: Seq<nat>,
    budget: Duration,
    attempts: nat,
    known: nat,
)
    requires
        waited.len() > 0,
        tallies.len() == waited.len(),
        left.len() == waited.len(),
        forall|i: int|
            0 <= i < waited.len() ==> allows(
                step_on(tallies[i], AnswerEvent::Left(left[i]), budget, attempts, known),
                #[trigger] waited[i],
            ),
        forall|i: int|
            0 < i < waited.len() ==> (#[trigger] left[i])@ + waited[i - 1] <= left[i - 1]@,
    ensures
        total(waited) <= left[0]@,
    decreases waited.len(),
{
    assert(waited[0] <= left[0]@);
    let rest = waited.drop_first();
    if rest.len() > 0 {
        let l = left.drop_first();
        let t = tallies.drop_first();
        assert forall|i: int| 0 <= i < rest.len() implies allows(
            step_on(t[i], AnswerEvent::Left(l[i]), budget, attempts, known),
            #[trigger] rest[i],
            ) by {
            assert(waited[i + 1] == rest[i]);
        }
        assert forall|i: int| 0 < i < rest.len() implies (#[trigger] l[i])@ + rest[i - 1] <= l[i
            - 1]@ by {
            assert(left[i + 1] == l[i]);
        }
        waits_keep_within_what_is_left(t, l, rest, budget, attempts, known);
        assert(left[1]@ + waited[0] <= left[0]@);
    } else {
        assert(total(rest) == 0);
    }
}

/// Only a success, the end of the budget or the last answer settles a run: a failed
/// copy never does while others are outstanding.
pub proof fn what_settles_a_run(
    t: Tally,
    event: AnswerEvent,
    budget: Duration,
    attempts: nat,
    known: nat,
)
    ensures
        match event {
            AnswerEvent::Answered(ip, Ok(())) => step_on(t, event, budget, attempts, known)
                == StepView::Settled(Ok(ip)),
            AnswerEvent::Answered(_, Err(_)) => step_on(t, event, budget, attempts, known)
                == StepView::Check,
            AnswerEvent::Expired => step_on(t, event, budget, attempts, known)
                == StepView::Settled(Err(Fault::Timeout(budget))),
            AnswerEvent::Left(d) => (step_on(t, event, budget, attempts, known) is Settled)
                <==> d@ == 0,
            AnswerEvent::Drained => step_on(t, event, budget, attempts, known) matches
                StepView::Settled(Err(_)),
        },
{
}

} // verus!
