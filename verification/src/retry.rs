//! Bounded retry with exponential backoff, as an explicit policy: the
//! decision taken after each attempt is a pure function of the attempt
//! number, the retry budget and the attempt's outcome, so the transport loop
//! outside the library carries no policy of its own and the policy is
//! testable without real time passing.

use vstd::prelude::*;
use crate::rest::{
    handle_response, is_retryable_code, response_model, DispatchResult, DispatchStatus,
};

verus! {

/// What one transport attempt came back with: a response, a deadline that
/// elapsed first, or a transport-level failure such as a refused connection.
pub enum AttemptOutcome {
    Response { status: u16, body: String },
    TimedOut,
    TransportError { detail: String },
}

/// The outcomes that are worth another attempt: a server-side error status,
/// an elapsed deadline, or a transport failure. Client errors and successes
/// never are.
pub open spec fn outcome_retryable(o: AttemptOutcome) -> bool {
    match o {
        AttemptOutcome::Response { status, .. } => is_retryable_code(status),
        AttemptOutcome::TimedOut => true,
        AttemptOutcome::TransportError { .. } => true,
    }
}

/// The result surfaced when `o` is the last attempt's outcome: a response is
/// classified as such, an elapsed deadline surfaces as a timeout, a
/// transport failure as an upstream error carrying its detail.
pub open spec fn final_model(o: AttemptOutcome) -> (
    DispatchStatus,
    Option<Seq<char>>,
    Option<Seq<char>>,
    Option<u16>,
) {
    match o {
        AttemptOutcome::Response { status, body } => response_model(status, body@),
        AttemptOutcome::TimedOut => (
            DispatchStatus::Timeout,
            None,
            Some("Request timeout"@),
            None,
        ),
        AttemptOutcome::TransportError { detail } => (
            DispatchStatus::UpstreamError,
            None,
            Some(detail@),
            None,
        ),
    }
}

/// The decision after attempt number `attempt` (counted from zero) came
/// back with `o`: retry (`None`) exactly when the outcome is retryable and
/// the budget of `retry_attempts` additional attempts is not yet spent;
/// otherwise the surfaced result.
pub open spec fn attempt_decision(retry_attempts: u32, attempt: int, o: AttemptOutcome) -> Option<
    (DispatchStatus, Option<Seq<char>>, Option<Seq<char>>, Option<u16>),
> {
    if outcome_retryable(o) && attempt < retry_attempts {
        None
    } else {
        Some(final_model(o))
    }
}

/// The result and total attempt count of a dispatch whose attempts come
/// back as `outcomes`, starting at attempt number `attempt`. Meaningful
/// while the transcript covers every attempt the policy can make; past its
/// end it answers a placeholder that no admitted execution reaches.
pub open spec fn replay(retry_attempts: u32, outcomes: Seq<AttemptOutcome>, attempt: int) -> (
    (DispatchStatus, Option<Seq<char>>, Option<Seq<char>>, Option<u16>),
    int,
)
    decreases outcomes.len() - attempt,
{
    if attempt < 0 || attempt >= outcomes.len() {
        ((DispatchStatus::Timeout, None, None, None), attempt)
    } else {
        match attempt_decision(retry_attempts, attempt, outcomes[attempt]) {
            Some(m) => (m, attempt + 1),
            None => replay(retry_attempts, outcomes, attempt + 1),
        }
    }
}

/// Two to the power `n`.
pub open spec fn pow2(n: nat) -> nat
    decreases n,
{
    if n == 0 {
        1
    } else {
        2 * pow2((n - 1) as nat)
    }
}

/// `base` doubled `n` times, saturating at the largest `u64`.
pub open spec fn sat_double(base: u64, n: nat) -> u64
    decreases n,
{
    if n == 0 {
        base
    } else {
        let p = sat_double(base, (n - 1) as nat);
        if 2 * p > u64::MAX {
            u64::MAX
        } else {
            (2 * p) as u64
        }
    }
}

/// The backoff before retry number `attempt + 1`: `base * 2^attempt` plus
/// the caller's jitter, saturating at the largest `u64`.
pub open spec fn backoff_spec(base: u64, attempt: u32, jitter: u64) -> u64 {
    let d = sat_double(base, attempt as nat);
    if d + jitter > u64::MAX {
        u64::MAX
    } else {
        (d + jitter) as u64
    }
}

/// Within `u64` range the saturating backoff is exactly the exponential
/// formula `base * 2^attempt + jitter`.
pub proof fn lemma_backoff_exact(base: u64, attempt: u32, jitter: u64)
    requires
        base * pow2(attempt as nat) + jitter <= u64::MAX,
    ensures
        backoff_spec(base, attempt, jitter) == base * pow2(attempt as nat) + jitter,
{
    lemma_sat_double_exact(base, attempt as nat);
}

proof fn lemma_sat_double_exact(base: u64, n: nat)
    requires
        base * pow2(n) <= u64::MAX,
    ensures
        sat_double(base, n) == base * pow2(n),
    decreases n,
{
    if n == 0 {
        assert(pow2(n) == 1);
        assert(sat_double(base, n) == base);
        assert(base * pow2(n) == base * 1);
        assert(base * 1 == base) by (nonlinear_arith);
    } else {
        let m = (n - 1) as nat;
        assert(pow2(n) == 2 * pow2(m));
        assert(pow2(m) <= pow2(n)) by {
            lemma_pow2_pos(m);
        }
        assert(base * pow2(m) <= base * pow2(n)) by (nonlinear_arith)
            requires
                pow2(m) <= pow2(n),
                base >= 0,
        ;
        lemma_sat_double_exact(base, m);
        let p = sat_double(base, m);
        assert(p == base * pow2(m));
        assert(2 * (base * pow2(m)) == base * (2 * pow2(m))) by (nonlinear_arith);
        assert(2 * p == base * pow2(n));
        assert(2 * p <= u64::MAX);
        assert(sat_double(base, n) == (2 * p) as u64);
        assert((2 * p) as u64 == 2 * p);
    }
}

/// Every power of two is positive.
proof fn lemma_pow2_pos(n: nat)
    ensures
        pow2(n) >= 1,
    decreases n,
{
    if n > 0 {
        lemma_pow2_pos((n - 1) as nat);
    }
}

/// Computes the backoff before retry number `attempt + 1`.
pub fn backoff_delay(base: u64, attempt: u32, jitter: u64) -> (r: u64)
    ensures
        r == backoff_spec(base, attempt, jitter),
{
    let mut d = base;
    let mut i: u32 = 0;
    while i < attempt
        invariant
            i <= attempt,
            d == sat_double(base, i as nat),
        decreases attempt - i,
    {
        d = if d > u64::MAX / 2 {
            u64::MAX
        } else {
            2 * d
        };
        i = i + 1;
    }
    if d > u64::MAX - jitter {
        u64::MAX
    } else {
        d + jitter
    }
}

/// One step of a dispatch: what to do after attempt number `attempt` came
/// back with `outcome`.
pub enum DispatchStep {
    Done(DispatchResult),
    Retry { delay_ms: u64 },
}

/// Decides one attempt's fate: retry with the exponential backoff exactly
/// when the outcome is retryable and budget remains, else surface the
/// classified result. No other state enters the decision.
pub fn on_attempt_outcome(
    retry_attempts: u32,
    attempt: u32,
    outcome: &AttemptOutcome,
    base_delay_ms: u64,
    jitter_ms: u64,
) -> (r: DispatchStep)
    ensures
        match attempt_decision(retry_attempts, attempt as int, *outcome) {
            Some(m) => r matches DispatchStep::Done(res) && res.model() == m,
            None => r matches DispatchStep::Retry { delay_ms } && delay_ms == backoff_spec(
                base_delay_ms,
                attempt,
                jitter_ms,
            ),
        },
{
    match outcome {
        AttemptOutcome::Response { status, body } => {
            let retryable = 500 <= *status && *status < 600;
            if retryable && attempt < retry_attempts {
                DispatchStep::Retry {
                    delay_ms: backoff_delay(base_delay_ms, attempt, jitter_ms),
                }
            } else {
                DispatchStep::Done(handle_response(*status, body.as_str()))
            }
        },
        AttemptOutcome::TimedOut => {
            if attempt < retry_attempts {
                DispatchStep::Retry {
                    delay_ms: backoff_delay(base_delay_ms, attempt, jitter_ms),
                }
            } else {
                DispatchStep::Done(
                    DispatchResult {
                        status: DispatchStatus::Timeout,
                        value: None,
                        error_detail: Some(String::from_str("Request timeout")),
                        http_status: None,
                    },
                )
            }
        },
        AttemptOutcome::TransportError { detail } => {
            if attempt < retry_attempts {
                DispatchStep::Retry {
                    delay_ms: backoff_delay(base_delay_ms, attempt, jitter_ms),
                }
            } else {
                DispatchStep::Done(
                    DispatchResult {
                        status: DispatchStatus::UpstreamError,
                        value: None,
                        error_detail: Some(detail.clone()),
                        http_status: None,
                    },
                )
            }
        },
    }
}

/// Replays a whole dispatch against a recorded transcript of outcomes, one
/// per attempt the policy makes: the deterministic core of the dispatcher,
/// shared by tests and by any transport harness. Returns the surfaced
/// result and how many attempts were made.
pub fn run_attempts(retry_attempts: u32, base_delay_ms: u64, outcomes: &Vec<AttemptOutcome>) -> (r:
    (DispatchResult, u32))
    requires
        outcomes@.len() > retry_attempts,
        retry_attempts < u32::MAX,
    ensures
        r.0.model() == replay(retry_attempts, outcomes@, 0).0,
        r.1 as int == replay(retry_attempts, outcomes@, 0).1,
{
    let mut attempt: u32 = 0;
    loop
        invariant
            attempt <= retry_attempts,
            retry_attempts < u32::MAX,
            outcomes@.len() > retry_attempts,
            replay(retry_attempts, outcomes@, 0) == replay(retry_attempts, outcomes@, attempt as int),
        decreases retry_attempts - attempt,
    {
        let outcome = &outcomes[attempt as usize];
        match on_attempt_outcome(retry_attempts, attempt, outcome, base_delay_ms, 0) {
            DispatchStep::Done(res) => {
                return (res, attempt + 1);
            },
            DispatchStep::Retry { delay_ms: _ } => {
                attempt = attempt + 1;
            },
        }
    }
}

/// Law: against an upstream whose every answer is retryable (for instance a
/// server error on each attempt), the dispatcher spends the whole budget —
/// the first attempt and exactly `retry_attempts` retries — and surfaces
/// the last attempt's outcome.
pub proof fn lemma_retry_budget_exhausted(retry_attempts: u32, outcomes: Seq<AttemptOutcome>)
    requires
        outcomes.len() > retry_attempts,
        forall|i: int| 0 <= i < outcomes.len() ==> outcome_retryable(#[trigger] outcomes[i]),
    ensures
        replay(retry_attempts, outcomes, 0).1 == retry_attempts + 1,
        replay(retry_attempts, outcomes, 0).0 == final_model(outcomes[retry_attempts as int]),
{
    lemma_replay_all_retryable(retry_attempts, outcomes, 0);
}

proof fn lemma_replay_all_retryable(retry_attempts: u32, outcomes: Seq<AttemptOutcome>, a: int)
    requires
        0 <= a <= retry_attempts,
        outcomes.len() > retry_attempts,
        forall|i: int| 0 <= i < outcomes.len() ==> outcome_retryable(#[trigger] outcomes[i]),
    ensures
        replay(retry_attempts, outcomes, a) == (
            final_model(outcomes[retry_attempts as int]),
            retry_attempts + 1 as int,
        ),
    decreases retry_attempts - a,
{
    if a < retry_attempts {
        lemma_replay_all_retryable(retry_attempts, outcomes, a + 1);
    }
}

/// Law: a response that is not retryable — a client error such as 404, or
/// any success — is surfaced at once: one attempt, zero retries, whatever
/// budget remains.
pub proof fn lemma_no_retry_when_not_retryable(retry_attempts: u32, outcomes: Seq<AttemptOutcome>)
    requires
        outcomes.len() > 0,
        !outcome_retryable(outcomes[0]),
    ensures
        replay(retry_attempts, outcomes, 0) == (final_model(outcomes[0]), 1 as int),
{
}

/// Law: when the deadline elapses on every attempt, the dispatcher stops
/// after the first attempt and `retry_attempts` retries and surfaces a
/// timeout, never an invented success.
pub proof fn lemma_timeout_surfaces(retry_attempts: u32, outcomes: Seq<AttemptOutcome>)
    requires
        outcomes.len() > retry_attempts,
        forall|i: int| 0 <= i < outcomes.len() ==> #[trigger] outcomes[i] matches AttemptOutcome::TimedOut,
    ensures
        replay(retry_attempts, outcomes, 0).1 == retry_attempts + 1,
        replay(retry_attempts, outcomes, 0).0 == (
            DispatchStatus::Timeout,
            Option::<Seq<char>>::None,
            Some("Request timeout"@),
            Option::<u16>::None,
        ),
{
    lemma_retry_budget_exhausted(retry_attempts, outcomes);
}

} // verus!
