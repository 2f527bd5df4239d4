//! The retry of a decryption whose transport failed.
//!
//! Transport failures are retried with backoff and jitter; all others are final.

use vstd::prelude::*;

use crate::creds::{
    attempt_view, class_of, classify_decrypt_stderr, decrypt_failure_message, failure_message,
    secret_view, AttemptErrorView, CredError, DecryptAttemptError, DecryptClass,
    TRANSPORT_ATTEMPTS,
};

verus! {

/// The state of a decryption, named after what is due.
pub enum Retry {
    /// Attempt number `attempt`, counted from zero.
    Attempt { attempt: u32 },
    /// The wait after attempt number `attempt`, before attempt number `next`.
    Sleep { attempt: u32, next: u32 },
    Done(Result<Vec<u8>, CredError>),
}

pub enum RetryView {
    Attempt { attempt: int },
    Sleep { attempt: int, next: int },
    Done(Result<Seq<u8>, Seq<char>>),
}

impl View for Retry {
    type V = RetryView;

    open spec fn view(&self) -> RetryView {
        match *self {
            Retry::Attempt { attempt } => RetryView::Attempt { attempt: attempt as int },
            Retry::Sleep { attempt, next } => RetryView::Sleep {
                attempt: attempt as int,
                next: next as int,
            },
            Retry::Done(r) => RetryView::Done(secret_view(r)),
        }
    }
}

/// What one attempt gave, or the end of a wait.
pub enum RetryEvent {
    Attempted(Result<Vec<u8>, DecryptAttemptError>),
    Slept,
}

pub enum RetryEventView {
    Attempted(Result<Seq<u8>, AttemptErrorView>),
    Slept,
}

impl View for RetryEvent {
    type V = RetryEventView;

    open spec fn view(&self) -> RetryEventView {
        match *self {
            RetryEvent::Attempted(r) => RetryEventView::Attempted(attempt_view(r)),
            RetryEvent::Slept => RetryEventView::Slept,
        }
    }
}

/// An attempt that failed for its transport alone.
pub open spec fn retryable(outcome: Result<Seq<u8>, AttemptErrorView>) -> bool {
    outcome matches Err(AttemptErrorView::Failed(stderr)) && class_of(stderr)
        == DecryptClass::Transport
}

/// What an attempt means when it is the last one.
pub open spec fn verdict(outcome: Result<Seq<u8>, AttemptErrorView>) -> Result<
    Seq<u8>,
    Seq<char>,
> {
    match outcome {
        Ok(plain) => Ok(plain),
        Err(AttemptErrorView::Spawn(m)) => Err(m),
        Err(AttemptErrorView::Wait(m)) => Err(m),
        Err(AttemptErrorView::Failed(stderr)) => Err(failure_message(class_of(stderr), stderr)),
    }
}

/// The state after `event`: a transport failure is retried while attempts are
/// left; anything else is final.
pub open spec fn retry_next(s: RetryView, event: RetryEventView) -> RetryView {
    match (s, event) {
        (RetryView::Attempt { attempt }, RetryEventView::Attempted(outcome)) => if retryable(
            outcome,
        ) && attempt + 1 < TRANSPORT_ATTEMPTS {
            RetryView::Sleep { attempt, next: attempt + 1 }
        } else {
            RetryView::Done(verdict(outcome))
        },
        (RetryView::Sleep { attempt, next }, RetryEventView::Slept) => RetryView::Attempt {
            attempt: next,
        },
        _ => s,
    }
}

impl Retry {
    /// A decryption that is to be attempted for the first time.
    pub fn start() -> (r: Retry)
        ensures
            r@ == (RetryView::Attempt { attempt: 0 }),
    {
        Retry::Attempt { attempt: 0 }
    }

    /// The state after `event`.
    pub fn step(self, event: RetryEvent) -> (r: Retry)
        ensures
            r@ == retry_next(self@, event@),
    {
        match (self, event) {
            (Retry::Attempt { attempt }, RetryEvent::Attempted(outcome)) => match outcome {
                Ok(plain) => Retry::Done(Ok(plain)),
                Err(DecryptAttemptError::Spawn(m)) => Retry::Done(Err(CredError(m))),
                Err(DecryptAttemptError::Wait(m)) => Retry::Done(Err(CredError(m))),
                Err(DecryptAttemptError::Failed(stderr)) => {
                    let class = classify_decrypt_stderr(stderr.as_str());
                    if class == DecryptClass::Transport && attempt < TRANSPORT_ATTEMPTS - 1 {
                        Retry::Sleep { attempt, next: attempt + 1 }
                    } else {
                        Retry::Done(
                            Err(CredError(decrypt_failure_message(class, stderr.as_str()))),
                        )
                    }
                },
            },
            (Retry::Sleep { attempt: _, next }, RetryEvent::Slept) => Retry::Attempt {
                attempt: next,
            },
            (s, _) => s,
        }
    }
}

/// A complete series of attempts: every attempt but the last failed for its
/// transport, and the last one did so only if it was the last one allowed.
pub open spec fn complete_series(outcomes: Seq<Result<Seq<u8>, AttemptErrorView>>) -> bool {
    &&& 1 <= outcomes.len() <= TRANSPORT_ATTEMPTS
    &&& forall|i: int| 0 <= i < outcomes.len() - 1 ==> retryable(#[trigger] outcomes[i])
    &&& retryable(outcomes.last()) ==> outcomes.len() == TRANSPORT_ATTEMPTS
}

/// What a series of attempts gave, over what it says.
pub open spec fn series_view(outcomes: Seq<Result<Vec<u8>, DecryptAttemptError>>) -> Seq<
    Result<Seq<u8>, AttemptErrorView>,
> {
    outcomes.map_values(|o: Result<Vec<u8>, DecryptAttemptError>| attempt_view(o))
}

/// Decrypts `cipher` by `attempt`, and by further attempts while only the
/// transport fails; between two attempts `sleeper` is given the number of the
/// one before.
///
/// The contract names the outcomes of the attempts, one for each, and the waits
/// between them. That a wait stands after the attempt whose number it is given,
/// and that each outcome is one of a call of its own, it cannot say: calls leave
/// no trace in it but what they ensure.
pub fn decrypt_cipher_with_retry_using<A, S>(cipher: &[u8], attempt: A, sleeper: S) -> (r:
    Result<Vec<u8>, CredError>) where
    A: FnMut(&[u8]) -> Result<Vec<u8>, DecryptAttemptError>,
    S: FnMut(u32),

    requires
        call_requires(attempt, (cipher,)),
        forall|n: u32| n + 1 < TRANSPORT_ATTEMPTS ==> #[trigger] call_requires(sleeper, (n,)),
    ensures
        exists|outcomes: Seq<Result<Vec<u8>, DecryptAttemptError>>|
            {
                &&& #[trigger] complete_series(series_view(outcomes))
                &&& forall|i: int|
                    0 <= i < outcomes.len() ==> call_ensures(
                        attempt,
                        (cipher,),
                        #[trigger] outcomes[i],
                    )
                &&& forall|i: u32|
                    i + 1 < outcomes.len() ==> #[trigger] call_ensures(sleeper, (i,), ())
                &&& secret_view(r) == verdict(series_view(outcomes).last())
            },
{
    let mut attempt_once = attempt;
    let mut sleep_after = sleeper;
    let mut n: u32 = 0;
    let ghost mut outcomes: Seq<Result<Vec<u8>, DecryptAttemptError>> = Seq::empty();
    loop
        invariant
            attempt_once == attempt,
            sleep_after == sleeper,
            n < TRANSPORT_ATTEMPTS,
            outcomes.len() == n,
            forall|i: int| 0 <= i < n ==> retryable(attempt_view(#[trigger] outcomes[i])),
            forall|i: int|
                0 <= i < n ==> call_ensures(attempt, (cipher,), #[trigger] outcomes[i]),
            forall|k: u32| k < n ==> #[trigger] call_ensures(sleeper, (k,), ()),
            call_requires(attempt, (cipher,)),
            forall|k: u32| k + 1 < TRANSPORT_ATTEMPTS ==> #[trigger] call_requires(sleeper, (k,)),
        decreases TRANSPORT_ATTEMPTS - n,
    {
        let got = attempt_once(cipher);
        let ghost said = attempt_view(got);
        proof {
            outcomes = outcomes.push(got);
        }
        match (Retry::Attempt { attempt: n }).step(RetryEvent::Attempted(got)) {
            Retry::Done(r) => {
                assert(secret_view(r) == verdict(said));
                assert(series_view(outcomes).last() == said);
                assert(complete_series(series_view(outcomes)));
                return r;
            },
            Retry::Sleep { attempt: done, next } => {
                sleep_after(done);
                n = next;
            },
            Retry::Attempt { attempt: _ } => {
                assert(false);
                n = n + 1;
            },
        }
    }
}

// ---- laws --------------------------------------------------------------------

/// The state after a sequence of events.
pub open spec fn retry_run(s: RetryView, events: Seq<RetryEventView>) -> RetryView
    decreases events.len(),
{
    if events.len() == 0 {
        s
    } else {
        retry_next(retry_run(s, events.drop_last()), events.last())
    }
}

/// What the attempts that were due gave, one by one.
pub open spec fn attempts_made(s: RetryView, events: Seq<RetryEventView>) -> Seq<
    Result<Seq<u8>, AttemptErrorView>,
>
    decreases events.len(),
{
    if events.len() == 0 {
        Seq::empty()
    } else {
        let before = attempts_made(s, events.drop_last());
        match (retry_run(s, events.drop_last()), events.last()) {
            (RetryView::Attempt { attempt }, RetryEventView::Attempted(o)) => before.push(o),
            _ => before,
        }
    }
}

/// How many waits were due and ended.
pub open spec fn waits_made(s: RetryView, events: Seq<RetryEventView>) -> nat
    decreases events.len(),
{
    if events.len() == 0 {
        0
    } else {
        let before = waits_made(s, events.drop_last());
        match (retry_run(s, events.drop_last()), events.last()) {
            (RetryView::Sleep { attempt, next }, RetryEventView::Slept) => before + 1,
            _ => before,
        }
    }
}

/// Decryption fails closed after a bounded number of attempts: it ends with a
/// complete series of attempts and the verdict on the last one, with one wait
/// between any two; until then every attempt failed for its transport alone.
pub proof fn retries_are_bounded(events: Seq<RetryEventView>)
    ensures
        ({
            let start = RetryView::Attempt { attempt: 0 };
            let made = attempts_made(start, events);
            let waits = waits_made(start, events);
            &&& made.len() <= TRANSPORT_ATTEMPTS
            &&& waits <= TRANSPORT_ATTEMPTS - 1
            &&& match retry_run(start, events) {
                RetryView::Done(r) => complete_series(made) && r == verdict(made.last()) && waits
                    + 1 == made.len(),
                RetryView::Attempt { attempt } => attempt == made.len() && waits == made.len()
                    && made.len() < TRANSPORT_ATTEMPTS && forall|i: int|
                    0 <= i < made.len() ==> retryable(#[trigger] made[i]),
                RetryView::Sleep { attempt, next } => next == made.len() && attempt + 1
                    == made.len() && waits + 1 == made.len() && made.len() < TRANSPORT_ATTEMPTS
                    && forall|i: int| 0 <= i < made.len() ==> retryable(#[trigger] made[i]),
            }
        }),
    decreases events.len(),
{
    if events.len() > 0 {
        retries_are_bounded(events.drop_last());
    }
}

/// A failure that is not the transport's ends the decryption, whichever attempt
/// it was.
pub proof fn final_failures_are_not_retried(attempt: int, stderr: Seq<char>)
    requires
        class_of(stderr) != DecryptClass::Transport,
    ensures
        retry_next(
            RetryView::Attempt { attempt },
            RetryEventView::Attempted(Err(AttemptErrorView::Failed(stderr))),
        ) == RetryView::Done(Err(failure_message(class_of(stderr), stderr))),
{
}

/// What a decryption gives is what its attempt gave, byte for byte: an attempt that
/// succeeds ends the decryption with its plaintext, whichever attempt it was, and a
/// decryption that ends with a plaintext has it from its last attempt.
pub proof fn plaintexts_pass_unchanged(
    attempt: int,
    plain: Seq<u8>,
    outcome: Result<Seq<u8>, AttemptErrorView>,
    events: Seq<RetryEventView>,
)
    ensures
        retry_next(RetryView::Attempt { attempt }, RetryEventView::Attempted(Ok(plain)))
            == RetryView::Done(Ok(plain)),
        verdict(outcome) == Ok::<Seq<u8>, Seq<char>>(plain) <==> outcome == Ok::<
            Seq<u8>,
            AttemptErrorView,
        >(plain),
        retry_run(RetryView::Attempt { attempt: 0 }, events) == RetryView::Done(Ok(plain)) <==> ({
            let made = attempts_made(RetryView::Attempt { attempt: 0 }, events);
            made.len() > 0 && made.last() == Ok::<Seq<u8>, AttemptErrorView>(plain)
        }),
    decreases events.len(),
{
    if events.len() > 0 {
        plaintexts_pass_unchanged(attempt, plain, outcome, events.drop_last());
        retries_are_bounded(events.drop_last());
        retries_are_bounded(events);
    }
}

/// A transport failure is tried again, after one wait, unless it was the last of
/// five attempts. The message of a failure to start or to wait for the program is
/// the outcome as it is.
pub proof fn transport_failures_are_tried_again(attempt: int, stderr: Seq<char>, m: Seq<char>)
    requires
        0 <= attempt < 5,
    ensures
        class_of(stderr) == DecryptClass::Transport && attempt < 4 ==> ({
            let s = retry_next(
                RetryView::Attempt { attempt },
                RetryEventView::Attempted(Err(AttemptErrorView::Failed(stderr))),
            );
            &&& s == (RetryView::Sleep { attempt, next: attempt + 1 })
            &&& retry_next(s, RetryEventView::Slept) == (RetryView::Attempt {
                attempt: attempt + 1,
            })
        }),
        class_of(stderr) != DecryptClass::Transport || attempt == 4 ==> retry_next(
            RetryView::Attempt { attempt },
            RetryEventView::Attempted(Err(AttemptErrorView::Failed(stderr))),
        ) == RetryView::Done(Err(failure_message(class_of(stderr), stderr))),
        retry_next(
            RetryView::Attempt { attempt },
            RetryEventView::Attempted(Err(AttemptErrorView::Spawn(m))),
        ) == RetryView::Done(Err(m)),
        retry_next(
            RetryView::Attempt { attempt },
            RetryEventView::Attempted(Err(AttemptErrorView::Wait(m))),
        ) == RetryView::Done(Err(m)),
{
}

} // verus!
