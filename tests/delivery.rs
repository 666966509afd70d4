use activity_queue::delivery::{
    after_attempt, classify_response, is_client_error, is_success, Delivery,
};
use activity_queue::queue::ActivityQueue;
use activity_queue::retry::{RetryDecision, RetryStrategy};

#[test]
fn statuses_are_classified() {
    let none = String::new;
    assert_eq!(classify_response(Some(200), none()), Delivery::Delivered);
    assert_eq!(classify_response(Some(202), none()), Delivery::Delivered);
    assert_eq!(classify_response(Some(299), none()), Delivery::Delivered);
    assert_eq!(classify_response(Some(403), "forbidden".to_string()), Delivery::Rejected);
    assert_eq!(classify_response(Some(400), none()), Delivery::Rejected);
    assert_eq!(classify_response(Some(499), none()), Delivery::Rejected);
    assert_eq!(classify_response(None, none()), Delivery::Unreachable);
    assert_eq!(
        classify_response(Some(500), "database is down".to_string()),
        Delivery::Failed { status: 500, summary: "database is down".to_string() }
    );
    assert_eq!(
        classify_response(Some(302), none()),
        Delivery::Failed { status: 302, summary: String::new() }
    );
    assert_eq!(
        classify_response(Some(199), "early".to_string()),
        Delivery::Failed { status: 199, summary: "early".to_string() }
    );
}

#[test]
fn status_ranges() {
    assert!(is_success(200));
    assert!(!is_success(300));
    assert!(!is_success(199));
    assert!(is_client_error(404));
    assert!(!is_client_error(500));
    assert!(!is_client_error(399));
}

#[test]
fn only_retryable_failures_are_not_ok() {
    assert!(Delivery::Delivered.is_ok());
    assert!(Delivery::Rejected.is_ok());
    assert!(Delivery::Unreachable.is_ok());
    assert!(!Delivery::Failed { status: 503, summary: String::new() }.is_ok());
}

fn run_task(strategy: RetryStrategy, responses: &[Option<u16>]) -> (usize, bool) {
    let mut count: usize = 0;
    let mut attempts = 0;
    loop {
        let outcome = classify_response(responses[attempts], String::new());
        attempts += 1;
        match after_attempt(strategy, count, &outcome) {
            RetryDecision::Finish => return (attempts, true),
            RetryDecision::Exhausted => return (attempts, false),
            RetryDecision::Wait { .. } => count += 1,
        }
    }
}

#[test]
fn client_error_is_not_retried() {
    let strategy = RetryStrategy { backoff: 1, retries: 5 };
    let (attempts, ok) = run_task(strategy, &[Some(403), Some(500), Some(500)]);
    assert_eq!(attempts, 1);
    assert!(ok);
    let mut queue = ActivityQueue::new(1);
    queue.queue().unwrap();
    queue.start_task(0);
    queue.finish_task(0, ok);
    assert_eq!(queue.get_stats().completed_last_hour, 1);
    assert_eq!(queue.get_stats().dead_last_hour, 0);
}

#[test]
fn transport_error_is_not_retried() {
    let strategy = RetryStrategy { backoff: 1, retries: 3 };
    let (attempts, ok) = run_task(strategy, &[None, Some(200)]);
    assert_eq!(attempts, 1);
    assert!(ok);
}

#[test]
fn server_error_then_success_completes_once() {
    let strategy = RetryStrategy { backoff: 1, retries: 3 };
    let (attempts, ok) = run_task(strategy, &[Some(500), Some(200)]);
    assert_eq!(attempts, 2);
    assert!(ok);
    let mut queue = ActivityQueue::new(2);
    queue.queue().unwrap();
    queue.start_task(0);
    queue.finish_task(0, ok);
    assert_eq!(queue.get_stats().completed_last_hour, 1);
}

#[test]
fn dead_peer_scenario() {
    let strategy = RetryStrategy { backoff: 1, retries: 2 };
    let mut queue = ActivityQueue::new(4);
    let mut receives = 0;
    for _ in 0..10 {
        queue.queue().unwrap();
    }
    for _ in 0..10 {
        queue.start_task(0);
        let (attempts, ok) = run_task(strategy, &[Some(500); 8]);
        receives += attempts;
        queue.finish_task(0, ok);
    }
    assert_eq!(receives, 30);
    assert_eq!(queue.get_stats().dead_last_hour, 10);
    assert_eq!(queue.get_stats().completed_last_hour, 0);
}

#[test]
fn after_attempt_waits_on_server_error() {
    let strategy = RetryStrategy { backoff: 60, retries: 3 };
    let failed = Delivery::Failed { status: 503, summary: String::new() };
    assert_eq!(after_attempt(strategy, 1, &failed), RetryDecision::Wait { seconds: 3600 });
    assert_eq!(after_attempt(strategy, 3, &failed), RetryDecision::Exhausted);
    assert_eq!(after_attempt(strategy, 0, &Delivery::Delivered), RetryDecision::Finish);
    assert_eq!(after_attempt(strategy, 3, &Delivery::Rejected), RetryDecision::Finish);
}
