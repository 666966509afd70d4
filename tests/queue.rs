use activity_queue::delivery::{after_attempt, classify_response};
use activity_queue::error::Error;
use activity_queue::queue::{ActivityQueue, Stats};
use activity_queue::retry::{RetryDecision, RetryStrategy};

/// The peer of the workers test: every 20th request it receives fails with
/// an internal error, the others succeed.
fn dodgy_peer(received: &mut usize) -> Option<u16> {
    let n = *received;
    *received += 1;
    if n % 20 == 0 {
        Some(500)
    } else {
        Some(200)
    }
}

#[test]
fn test_activity_queue_workers() {
    let num_workers = 64;
    let num_messages: usize = 100;
    let strategy = RetryStrategy { backoff: 1, retries: 3 };
    let mut queue = ActivityQueue::new(num_workers);
    let mut channels = vec![Vec::new(); num_workers];
    for m in 0..num_messages {
        let idx = queue.queue().unwrap();
        channels[idx].push(m);
    }
    let mut received = 0;
    for (worker, channel) in channels.iter().enumerate() {
        for _ in channel {
            queue.start_task(worker);
            let mut count: usize = 0;
            let completed = loop {
                let outcome = classify_response(dodgy_peer(&mut received), String::new());
                match after_attempt(strategy, count, &outcome) {
                    RetryDecision::Finish => break true,
                    RetryDecision::Exhausted => break false,
                    RetryDecision::Wait { .. } => count += 1,
                }
            };
            queue.finish_task(worker, completed);
        }
    }
    queue.close();
    let stats = queue.shutdown();
    assert_eq!(stats.completed_last_hour, num_messages);
    assert_eq!(stats.dead_last_hour, 0);
    assert_eq!(received, 106);
}

#[test]
fn new_queue_starts_at_zero() {
    let queue = ActivityQueue::new(4);
    assert_eq!(queue.worker_count(), 4);
    assert!(queue.is_open());
    assert_eq!(
        *queue.get_stats(),
        Stats { pending: 0, running: 0, dead_last_hour: 0, completed_last_hour: 0 }
    );
}

#[test]
fn submissions_go_round_robin() {
    let mut queue = ActivityQueue::new(3);
    let picks: Vec<usize> = (0..7).map(|_| queue.queue().unwrap()).collect();
    assert_eq!(picks, vec![0, 1, 2, 0, 1, 2, 0]);
    assert_eq!(queue.get_stats().pending, 7);
}

#[test]
fn worker_count_submissions_reach_every_channel() {
    let mut queue = ActivityQueue::new(5);
    queue.queue().unwrap();
    queue.queue().unwrap();
    let mut picks: Vec<usize> = (0..5).map(|_| queue.queue().unwrap()).collect();
    picks.sort();
    assert_eq!(picks, vec![0, 1, 2, 3, 4]);
}

#[test]
fn single_worker_gets_everything() {
    let mut queue = ActivityQueue::new(1);
    for _ in 0..10 {
        assert_eq!(queue.queue(), Ok(0));
    }
    for _ in 0..10 {
        queue.start_task(0);
        queue.finish_task(0, true);
    }
    queue.close();
    let stats = queue.shutdown();
    assert_eq!(stats.completed_last_hour, 10);
    assert_eq!(stats.pending, 0);
}

#[test]
fn closed_queue_refuses_tasks() {
    let mut queue = ActivityQueue::new(2);
    queue.queue().unwrap();
    queue.close();
    assert!(!queue.is_open());
    assert_eq!(queue.queue(), Err(Error::QueueClosed));
    assert_eq!(queue.get_stats().pending, 1);
}

#[test]
fn shutdown_hands_back_drained_counters() {
    let mut queue = ActivityQueue::new(2);
    queue.queue().unwrap();
    queue.start_task(0);
    queue.finish_task(0, false);
    queue.close();
    assert_eq!(
        queue.shutdown(),
        Stats { pending: 0, running: 0, dead_last_hour: 1, completed_last_hour: 0 }
    );
}

#[test]
fn start_and_finish_move_counters() {
    let mut queue = ActivityQueue::new(2);
    queue.queue().unwrap();
    queue.queue().unwrap();
    queue.start_task(0);
    queue.start_task(1);
    assert!(queue.is_busy(0) && queue.is_busy(1));
    assert_eq!(queue.get_stats().running, 2);
    assert_eq!(queue.get_stats().pending, 0);
    queue.finish_task(1, true);
    assert!(queue.is_busy(0) && !queue.is_busy(1));
    queue.finish_task(0, false);
    assert_eq!(
        *queue.get_stats(),
        Stats { pending: 0, running: 0, dead_last_hour: 1, completed_last_hour: 1 }
    );
}

#[test]
fn completed_and_dead_add_up_after_drain() {
    let mut queue = ActivityQueue::new(3);
    for _ in 0..10 {
        queue.queue().unwrap();
    }
    for i in 0..10 {
        queue.start_task(0);
        queue.finish_task(0, i % 3 != 0);
    }
    queue.close();
    let stats = queue.shutdown();
    assert_eq!(stats.completed_last_hour + stats.dead_last_hour, 10);
    assert_eq!(stats.dead_last_hour, 4);
}

#[test]
fn hourly_reset_clears_last_hour_counters() {
    let mut queue = ActivityQueue::new(2);
    queue.queue().unwrap();
    queue.queue().unwrap();
    queue.queue().unwrap();
    queue.start_task(0);
    queue.finish_task(0, true);
    queue.start_task(0);
    queue.finish_task(0, false);
    queue.start_task(0);
    queue.reset_hour();
    assert_eq!(
        *queue.get_stats(),
        Stats { pending: 0, running: 1, dead_last_hour: 0, completed_last_hour: 0 }
    );
}
