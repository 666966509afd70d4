//! How the outcome of one delivery attempt is read, and what it means for
//! the retry driver and the counters.
use vstd::prelude::*;

use crate::queue::{apply, enabled, QueueEvent, QueueModel};
use crate::retry::{drive, next_step, retry_step, RetryDecision, RetryStrategy};

verus! {

/// The outcome of one attempt to deliver an activity.
#[derive(Debug, Clone, PartialEq, Eq)]
pub enum Delivery {
    /// The peer answered with a 2xx status.
    Delivered,
    /// The peer answered with a 4xx status: it refused the activity for good.
    Rejected,
    /// No response came back (connection or transport failure).
    Unreachable,
    /// Any other status: the peer may accept the activity later. `summary`
    /// is the start of the response body, as far as it was read.
    Failed { status: u16, summary: String },
}

/// The status lies in 200..=299.
pub open spec fn success_status(code: u16) -> bool {
    200 <= code < 300
}

/// The status lies in 400..=499.
pub open spec fn client_error_status(code: u16) -> bool {
    400 <= code < 500
}

/// The outcome of an attempt that got a response with `status`, or none,
/// whose body read as far as the size limit is `body`.
pub open spec fn delivery_of(status: Option<u16>, body: String) -> Delivery {
    match status {
        None => Delivery::Unreachable,
        Some(code) => if success_status(code) {
            Delivery::Delivered
        } else if client_error_status(code) {
            Delivery::Rejected
        } else {
            Delivery::Failed { status: code, summary: body }
        },
    }
}

impl Delivery {
    /// Whether the attempt ends the task as completed: every outcome but a
    /// retryable failure does.
    pub open spec fn completes(self) -> bool {
        !(self is Failed)
    }

    /// Whether the attempt ends the task as completed.
    pub fn is_ok(&self) -> (r: bool)
        ensures
            r == self.completes(),
    {
        !matches!(self, Delivery::Failed { .. })
    }
}

/// Whether an HTTP status is a success (2xx).
pub fn is_success(code: u16) -> (r: bool)
    ensures
        r == success_status(code),
{
    200 <= code && code < 300
}

/// Whether an HTTP status is a client error (4xx).
pub fn is_client_error(code: u16) -> (r: bool)
    ensures
        r == client_error_status(code),
{
    400 <= code && code < 500
}

/// Reads the outcome of an attempt from the response status, `None` when
/// the request got no response, and the response body as far as the size
/// limit (empty where it was not read): 2xx delivered, 4xx rejected, no
/// response unreachable, anything else a failure to retry, which carries
/// the status and the body text.
pub fn classify_response(status: Option<u16>, body: String) -> (r: Delivery)
    ensures
        r == delivery_of(status, body),
{
    match status {
        None => Delivery::Unreachable,
        Some(code) => if is_success(code) {
            Delivery::Delivered
        } else if is_client_error(code) {
            Delivery::Rejected
        } else {
            Delivery::Failed { status: code, summary: body }
        },
    }
}

/// What a worker does after an attempt with `outcome`, when `count`
/// retries were made before it: a retryable failure waits and tries again
/// while retries are left; any other outcome finishes the task.
pub fn after_attempt(strategy: RetryStrategy, count: usize, outcome: &Delivery) -> (r:
    RetryDecision)
    ensures
        r == retry_step(strategy, count as nat, outcome.completes()),
{
    next_step(strategy, count, outcome.is_ok())
}

/// A 4xx answer is final: the task takes exactly one attempt, whatever the
/// later attempts would have returned, and the worker counts it as
/// completed, not dead.
pub proof fn lemma_client_error_not_retried(
    strategy: RetryStrategy,
    code: u16,
    body: String,
    later: Seq<bool>,
    q: QueueModel,
    worker: nat,
)
    requires
        client_error_status(code),
        enabled(q, QueueEvent::Finish(worker, true)),
    ensures
        ({
            let r = drive(strategy, 0, seq![delivery_of(Some(code), body).completes()].add(later));
            &&& r.attempts == 1
            &&& r.succeeded
            &&& apply(q, QueueEvent::Finish(worker, r.succeeded)).stats.completed == q.stats.completed + 1
            &&& apply(q, QueueEvent::Finish(worker, r.succeeded)).stats.dead == q.stats.dead
        }),
{
}

/// A request that got no response is not retried either: one attempt, and
/// the task counts as completed.
pub proof fn lemma_transport_error_not_retried(
    strategy: RetryStrategy,
    body: String,
    later: Seq<bool>,
    q: QueueModel,
    worker: nat,
)
    requires
        enabled(q, QueueEvent::Finish(worker, true)),
    ensures
        ({
            let r = drive(strategy, 0, seq![delivery_of(None, body).completes()].add(later));
            &&& r.attempts == 1
            &&& r.succeeded
            &&& apply(q, QueueEvent::Finish(worker, r.succeeded)).stats.completed == q.stats.completed + 1
            &&& apply(q, QueueEvent::Finish(worker, r.succeeded)).stats.dead == q.stats.dead
        }),
{
}

/// A 5xx answer followed by a 2xx one, with a retry to spare: two
/// attempts, and the task is counted once, as completed.
pub proof fn lemma_server_error_then_success(
    strategy: RetryStrategy,
    failed: u16,
    delivered: u16,
    body: String,
    later: Seq<bool>,
    q: QueueModel,
    worker: nat,
)
    requires
        500 <= failed < 600,
        success_status(delivered),
        strategy.retries >= 1,
        enabled(q, QueueEvent::Finish(worker, true)),
    ensures
        ({
            let outcomes = seq![
                delivery_of(Some(failed), body).completes(),
                delivery_of(Some(delivered), body).completes(),
            ].add(later);
            let r = drive(strategy, 0, outcomes);
            &&& r.attempts == 2
            &&& r.succeeded
            &&& apply(q, QueueEvent::Finish(worker, r.succeeded)).stats.completed == q.stats.completed + 1
            &&& apply(q, QueueEvent::Finish(worker, r.succeeded)).stats.dead == q.stats.dead
        }),
{
    let outcomes = seq![
        delivery_of(Some(failed), body).completes(),
        delivery_of(Some(delivered), body).completes(),
    ].add(later);
    assert(!outcomes[0]);
    assert(outcomes.drop_first()[0]);
    let rest = drive(strategy, 1, outcomes.drop_first());
    assert(rest.attempts == 1 && rest.succeeded);
}

} // verus!
