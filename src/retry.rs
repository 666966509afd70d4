//! The retry driver's decisions: after each attempt, finish, give up, or
//! wait an exponentially growing time and try again.
use vstd::prelude::*;

verus! {

/// How often and after how long a failed delivery is tried again.
#[derive(Debug, Clone, Copy, PartialEq, Eq, Structural)]
pub struct RetryStrategy {
    /// The base `b` of the schedule: the n-th retry waits `b^n` seconds.
    pub backoff: usize,
    /// How many attempts may follow the first one.
    pub retries: usize,
}

impl Default for RetryStrategy {
    /// One minute, one hour, then 60 hours (2.5 days): three retries with
    /// base 60, covering a service restart, instance maintenance and a
    /// rebuild from backup.
    fn default() -> (r: RetryStrategy)
        ensures
            r.backoff == 60,
            r.retries == 3,
    {
        RetryStrategy { backoff: 60, retries: 3 }
    }
}

/// What the driver does after an attempt.
#[derive(Debug, Clone, Copy, PartialEq, Eq, Structural)]
pub enum RetryDecision {
    /// The attempt succeeded: stop with success.
    Finish,
    /// The attempt failed and no retry is left: stop with failure.
    Exhausted,
    /// The attempt failed: wait this many seconds, then try again.
    Wait { seconds: u64 },
}

/// `b^e`.
pub open spec fn power(b: nat, e: nat) -> nat
    decreases e,
{
    if e == 0 {
        1
    } else {
        b * power(b, (e - 1) as nat)
    }
}

/// `b^e`, or `u64::MAX` where that is larger.
pub open spec fn capped_pow(b: nat, e: nat) -> nat {
    let p = power(b, e);
    if p > u64::MAX { u64::MAX as nat } else { p as nat }
}

/// The decision after an attempt, when `count` retries were made before it.
pub open spec fn retry_step(strategy: RetryStrategy, count: nat, succeeded: bool) -> RetryDecision {
    if succeeded {
        RetryDecision::Finish
    } else if count >= strategy.retries {
        RetryDecision::Exhausted
    } else {
        RetryDecision::Wait { seconds: capped_pow(strategy.backoff as nat, count + 1) as u64 }
    }
}

proof fn lemma_capped_pow_step(b: nat, e: nat)
    ensures
        capped_pow(b, e + 1) == {
            let m = capped_pow(b, e) * b;
            if m > u64::MAX { u64::MAX as nat } else { m }
        },
{
    assert(power(b, e + 1) == b * power(b, e));
    let p = power(b, e);
    let big = u64::MAX as int;
    assert(p * b == b * p) by (nonlinear_arith);
    assert(big * 0 == 0);
    if p > big && b > 0 {
        assert(b * p >= p) by (nonlinear_arith)
            requires
                b >= 1,
                p >= 0,
        ;
        assert(big * b >= big) by (nonlinear_arith)
            requires
                b >= 1,
                big >= 0,
        ;
    }
}

/// `backoff^exponent` seconds, saturating at `u64::MAX`.
pub fn backoff_seconds(backoff: usize, exponent: usize) -> (r: u64)
    ensures
        r == capped_pow(backoff as nat, exponent as nat),
{
    let b = backoff as u64;
    let mut acc: u64 = 1;
    let mut i: usize = 0;
    while i < exponent
        invariant
            i <= exponent,
            b == backoff,
            acc == capped_pow(backoff as nat, i as nat),
        decreases exponent - i,
    {
        proof {
            lemma_capped_pow_step(backoff as nat, i as nat);
        }
        acc = match acc.checked_mul(b) {
            Some(m) => m,
            None => u64::MAX,
        };
        i = i + 1;
    }
    acc
}

/// The decision after an attempt that `succeeded` or not, when `count`
/// retries were made before it: the n-th retry waits `backoff^n` seconds.
pub fn next_step(strategy: RetryStrategy, count: usize, succeeded: bool) -> (r: RetryDecision)
    ensures
        r == retry_step(strategy, count as nat, succeeded),
{
    if succeeded {
        RetryDecision::Finish
    } else if count >= strategy.retries {
        RetryDecision::Exhausted
    } else {
        RetryDecision::Wait { seconds: backoff_seconds(strategy.backoff, count + 1) }
    }
}

/// The course of one task through the driver.
pub ghost struct RetryRun {
    /// How many attempts were made.
    pub attempts: nat,
    /// The waits between them, in seconds, in order.
    pub waits: Seq<nat>,
    /// Whether the driver stopped with success.
    pub succeeded: bool,
}

/// The driver fed with the results `outcomes` of successive attempts,
/// `count` retries having been made already.
pub open spec fn drive(strategy: RetryStrategy, count: nat, outcomes: Seq<bool>) -> RetryRun
    decreases outcomes.len(),
{
    if outcomes.len() == 0 {
        RetryRun { attempts: 0, waits: Seq::empty(), succeeded: false }
    } else {
        match retry_step(strategy, count, outcomes[0]) {
            RetryDecision::Finish => RetryRun { attempts: 1, waits: Seq::empty(), succeeded: true },
            RetryDecision::Exhausted => RetryRun {
                attempts: 1,
                waits: Seq::empty(),
                succeeded: false,
            },
            RetryDecision::Wait { seconds } => {
                let rest = drive(strategy, count + 1, outcomes.drop_first());
                RetryRun {
                    attempts: rest.attempts + 1,
                    waits: seq![seconds as nat].add(rest.waits),
                    succeeded: rest.succeeded,
                }
            },
        }
    }
}

/// The time from the first attempt to attempt number `i` (from zero).
pub open spec fn elapsed_before(waits: Seq<nat>, i: nat) -> nat
    decreases i,
{
    if i == 0 || i > waits.len() {
        0
    } else {
        elapsed_before(waits, (i - 1) as nat) + waits[i - 1]
    }
}

/// `b + b^2 + ... + b^i`, each term capped at `u64::MAX`.
pub open spec fn backoff_total(b: nat, i: nat) -> nat
    decreases i,
{
    if i == 0 {
        0
    } else {
        backoff_total(b, (i - 1) as nat) + capped_pow(b, i)
    }
}

proof fn lemma_failing_from(strategy: RetryStrategy, count: nat, outcomes: Seq<bool>)
    requires
        count <= strategy.retries,
        outcomes.len() >= strategy.retries - count + 1,
        forall|i: int| 0 <= i < outcomes.len() ==> !outcomes[i],
    ensures
        drive(strategy, count, outcomes).attempts == strategy.retries - count + 1,
        drive(strategy, count, outcomes).waits.len() == strategy.retries - count,
        forall|i: int|
            0 <= i < strategy.retries - count ==> drive(strategy, count, outcomes).waits[i]
                == capped_pow(strategy.backoff as nat, (count + i + 1) as nat),
        !drive(strategy, count, outcomes).succeeded,
    decreases strategy.retries - count,
{
    if count < strategy.retries {
        let rest = outcomes.drop_first();
        lemma_failing_from(strategy, count + 1, rest);
        let w = drive(strategy, count, outcomes).waits;
        let rw = drive(strategy, count + 1, rest).waits;
        assert forall|i: int| 0 <= i < strategy.retries - count implies w[i] == capped_pow(
            strategy.backoff as nat,
            (count + i + 1) as nat,
        ) by {
            let c = capped_pow(strategy.backoff as nat, count + 1);
            assert(c <= u64::MAX);
            assert(retry_step(strategy, count, outcomes[0]) == RetryDecision::Wait {
                seconds: c as u64,
            });
            assert(w == seq![(c as u64) as nat].add(rw));
            if i > 0 {
                assert(w[i] == rw[i - 1]);
            }
        }
    }
}

/// A task whose every attempt fails is tried exactly `retries + 1` times;
/// the n-th retry comes `b^n` seconds (capped at `u64::MAX`) after the
/// attempt before it, so attempt `i` starts `b + b^2 + ... + b^i` seconds
/// after the first, and the task ends as failed.
pub proof fn lemma_failing_schedule(strategy: RetryStrategy, outcomes: Seq<bool>)
    requires
        outcomes.len() >= strategy.retries + 1,
        forall|i: int| 0 <= i < outcomes.len() ==> !outcomes[i],
    ensures
        drive(strategy, 0, outcomes).attempts == strategy.retries + 1,
        drive(strategy, 0, outcomes).waits.len() == strategy.retries,
        forall|i: int|
            0 <= i < strategy.retries ==> drive(strategy, 0, outcomes).waits[i] == capped_pow(
                strategy.backoff as nat,
                (i + 1) as nat,
            ),
        forall|i: nat|
            i <= strategy.retries ==> #[trigger] elapsed_before(drive(strategy, 0, outcomes).waits, i)
                == backoff_total(strategy.backoff as nat, i),
        !drive(strategy, 0, outcomes).succeeded,
{
    lemma_failing_from(strategy, 0, outcomes);
    let w = drive(strategy, 0, outcomes).waits;
    assert forall|i: nat| i <= strategy.retries implies #[trigger] elapsed_before(w, i)
        == backoff_total(strategy.backoff as nat, i) by {
        lemma_elapsed(strategy, w, i);
    }
}

proof fn lemma_elapsed(strategy: RetryStrategy, w: Seq<nat>, i: nat)
    requires
        i <= w.len(),
        forall|j: int| 0 <= j < w.len() ==> w[j] == capped_pow(strategy.backoff as nat, (j + 1) as nat),
    ensures
        elapsed_before(w, i) == backoff_total(strategy.backoff as nat, i),
    decreases i,
{
    if i > 0 {
        lemma_elapsed(strategy, w, (i - 1) as nat);
    }
}

} // verus!
