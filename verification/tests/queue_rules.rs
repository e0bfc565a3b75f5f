use followup_engine::audit::{AuditLog, AuditQuery, DeliveryAttempt};
use followup_engine::backoff::{compute_backoff, compute_jitter, compute_next_attempt};
use followup_engine::config::{Config, SendWindow};
use followup_engine::error::{EngineError, ValidationReason};
use followup_engine::model::{
    Anchor, Client, FollowUpEvent, FollowUpRule, Interaction, Recurrence,
};
use followup_engine::queue::{EmailQueue, EmailState, RetryPolicy, SendOutcome};
use followup_engine::rules::due_events;

fn event(n: u64) -> FollowUpEvent {
    FollowUpEvent { client_id: n, rule_id: 1, occurrence_key: 1000 + n }
}

fn enqueue(q: &mut EmailQueue, n: u64, now: u64) -> Option<u64> {
    q.enqueue(event(n), format!("c{}@example.org", n), "s".to_string(), "b".to_string(), now)
}

fn policy() -> RetryPolicy {
    RetryPolicy { max_attempts: 5, backoff_base: 60, backoff_cap: 3600 }
}

#[test]
fn backoff_doubles_up_to_the_cap() {
    let expected = [60, 120, 240, 480, 960, 1920, 3600, 3600, 3600];
    for (attempt, want) in expected.iter().enumerate() {
        assert_eq!(compute_backoff(60, 3600, attempt as u32), *want);
    }
    assert_eq!(compute_backoff(60, 3600, u32::MAX), 3600);
    assert_eq!(compute_backoff(0, 3600, 9), 0);
    assert_eq!(compute_backoff(7, 3, 0), 3);
    assert_eq!(compute_backoff(1, u64::MAX, 63), 1u64 << 63);
    assert_eq!(compute_backoff(1, u64::MAX, 64), u64::MAX);
    assert_eq!(compute_backoff(3, 100, 5), 96);
    assert_eq!(compute_backoff(3, 100, 6), 100);
}

#[test]
fn backoff_never_shrinks() {
    let mut last = 0;
    for attempt in 0..40u32 {
        let d = compute_backoff(5, 100_000, attempt);
        assert!(d >= last);
        assert!(d <= 100_000);
        last = d;
    }
}

#[test]
fn backoff_matches_the_worked_example() {
    assert_eq!(compute_backoff(1000, 60000, 3), 8000);
    assert_eq!(compute_backoff(1000, 60000, 5), 32000);
    assert_eq!(compute_backoff(1000, 60000, 6), 60000);
    assert_eq!(compute_backoff(1000, 60000, 7), 60000);
    assert_eq!(compute_backoff(1000, 60000, 4_000_000_000), 60000);
}

#[test]
fn jitter_stays_within_the_base() {
    assert_eq!(compute_jitter(1000, 60), 1000 % 61);
    assert_eq!(compute_jitter(60, 60), 60);
    assert_eq!(compute_jitter(61, 60), 0);
    assert_eq!(compute_jitter(12345, 0), 0);
    assert_eq!(compute_jitter(u64::MAX, u64::MAX), u64::MAX);
    assert_eq!(compute_jitter(17, u64::MAX), 17);
    for seed in [0u64, 1, 59, 60, 61, 28808, u64::MAX] {
        assert!(compute_jitter(seed, 60) <= 60);
    }
}

#[test]
fn next_attempt_adds_delay_and_jitter() {
    assert_eq!(compute_next_attempt(100, 60, 3600, 1, 1000), 100 + 120 + 24);
    assert_eq!(compute_next_attempt(100, 60, 3600, 1, 0), 220);
    assert_eq!(compute_next_attempt(100, 60, 3600, 10, 3600), 100 + 3600 + 1);
    assert_eq!(compute_next_attempt(100, 60, 3600, 10, 60), 100 + 3600 + 60);
    assert_eq!(compute_next_attempt(u64::MAX - 10, 60, 3600, 1, 0), u64::MAX);
    assert_eq!(compute_next_attempt(5, u64::MAX, u64::MAX, 0, u64::MAX), u64::MAX);
}

#[test]
fn retry_waits_grow_while_under_the_cap() {
    // The largest jitter now against the smallest jitter next.
    for attempt in 0..5u32 {
        let worst = compute_next_attempt(0, 60, 3600, attempt, 60);
        let best_next = compute_next_attempt(0, 60, 3600, attempt + 1, 0);
        assert!(worst <= best_next);
    }
}

#[test]
fn wait_with_one_seed_does_not_shrink_where_the_cap_cuts_in() {
    // The doubling is cut between the first and the second of each pair.
    assert_eq!(compute_next_attempt(0, 1, 3, 1, 8), 2);
    assert_eq!(compute_next_attempt(0, 1, 3, 2, 8), 3);
    assert_eq!(compute_next_attempt(0, 1000, 60000, 5, 480008), 32000 + 529);
    assert_eq!(compute_next_attempt(0, 1000, 60000, 6, 480008), 60000 + 529);
    assert_eq!(compute_next_attempt(0, 60, 3600, 5, 28808), 1920 + 16);
    assert_eq!(compute_next_attempt(0, 60, 3600, 6, 28808), 3600 + 16);
    assert_eq!(compute_next_attempt(0, 60, 3600, 7, 28808), 3600 + 16);
}

#[test]
fn wait_with_one_seed_never_shrinks() {
    for (base, cap, seed) in [
        (1u64, 3u64, 8u64),
        (1000, 60000, 480008),
        (60, 3600, 28808),
        (7, 7, 5),
        (0, 10, 99),
        (3, 1_000_000, u64::MAX),
    ] {
        let mut last = 0;
        for attempt in 0..70u32 {
            let wait = compute_next_attempt(0, base, cap, attempt, seed);
            assert!(wait >= last, "base {} cap {} seed {} attempt {}", base, cap, seed, attempt);
            assert!(wait <= cap + base);
            last = wait;
        }
    }
}

#[test]
fn enqueue_is_idempotent_per_event() {
    let mut q = EmailQueue::new();
    assert_eq!(enqueue(&mut q, 1, 10), Some(0));
    assert_eq!(enqueue(&mut q, 2, 11), Some(1));
    assert_eq!(enqueue(&mut q, 1, 12), None);
    assert_eq!(q.len(), 2);
    assert!(q.contains_event(event(1)));
    assert!(!q.contains_event(event(3)));
    let first = q.get(0).unwrap();
    assert_eq!(first.created_at, 10);
    assert_eq!(first.state, EmailState::Pending);
    assert_eq!(first.recipient, "c1@example.org");
    assert_eq!(q.get(2), Err(EngineError::NotFound));
}

#[test]
fn duplicate_enqueue_stays_refused_in_every_state() {
    let mut q = EmailQueue::new();
    enqueue(&mut q, 1, 10);
    q.cancel(0, 11).unwrap();
    assert_eq!(enqueue(&mut q, 1, 12), None);
    enqueue(&mut q, 2, 10);
    let item = q.claim_next(20).unwrap();
    assert_eq!(item.id, 1);
    assert_eq!(enqueue(&mut q, 2, 21), None);
    q.complete(1, SendOutcome::Delivered, 22, policy(), 0).unwrap();
    assert_eq!(enqueue(&mut q, 2, 23), None);
    assert_eq!(q.len(), 2);
}

#[test]
fn claim_takes_the_earliest_due_then_the_oldest() {
    let mut q = EmailQueue::new();
    enqueue(&mut q, 1, 50);
    enqueue(&mut q, 2, 30);
    enqueue(&mut q, 3, 30);
    enqueue(&mut q, 4, 40);
    let order: Vec<u64> = (0..4).map(|_| q.claim_next(100).unwrap().id).collect();
    assert_eq!(order, vec![1, 2, 3, 0]);
    assert!(q.claim_next(100).is_none());
    assert_eq!(q.list(Some(EmailState::Sending)).len(), 4);
}

#[test]
fn claim_skips_retries_that_are_not_due() {
    let mut q = EmailQueue::new();
    enqueue(&mut q, 1, 10);
    enqueue(&mut q, 2, 500);
    let a = q.claim_next(10).unwrap();
    assert_eq!(a.id, 0);
    assert_eq!(a.updated_at, 10);
    assert_eq!(q.complete(0, SendOutcome::TransientFailure, 10, policy(), 0), Ok(EmailState::Retrying));
    assert_eq!(q.get(0).unwrap().next_attempt_at, 130);
    // The retry is due at 130; before that only the pending email is eligible.
    assert_eq!(q.claim_next(129).unwrap().id, 1);
    assert!(q.claim_next(129).is_none());
    assert_eq!(q.claim_next(130).unwrap().id, 0);
}

#[test]
fn complete_applies_each_outcome() {
    let mut q = EmailQueue::new();
    for n in 1..=3 {
        enqueue(&mut q, n, 10);
        q.claim_next(10);
    }
    assert_eq!(q.complete(0, SendOutcome::Delivered, 20, policy(), 9), Ok(EmailState::Sent));
    assert_eq!(q.complete(1, SendOutcome::TransientFailure, 20, policy(), 121), Ok(EmailState::Retrying));
    assert_eq!(q.complete(2, SendOutcome::PermanentFailure, 20, policy(), 9), Ok(EmailState::Abandoned));
    let sent = q.get(0).unwrap();
    assert_eq!((sent.attempts, sent.updated_at, sent.next_attempt_at), (1, 20, 10));
    let retrying = q.get(1).unwrap();
    assert_eq!((retrying.attempts, retrying.updated_at, retrying.next_attempt_at), (1, 20, 20 + 120 + 60));
    let abandoned = q.get(2).unwrap();
    assert_eq!((abandoned.attempts, abandoned.updated_at), (0, 20));
    assert_eq!(
        q.complete(0, SendOutcome::Delivered, 21, policy(), 0),
        Err(EngineError::Validation(ValidationReason::NotSending))
    );
    assert_eq!(q.complete(9, SendOutcome::Delivered, 21, policy(), 0), Err(EngineError::NotFound));
}

#[test]
fn recovery_requeues_only_what_is_stuck() {
    let mut q = EmailQueue::new();
    enqueue(&mut q, 1, 10);
    enqueue(&mut q, 2, 10);
    enqueue(&mut q, 3, 10);
    q.claim_next(100);
    q.claim_next(200);
    assert_eq!(q.recover_stuck(250, 100), 1);
    assert_eq!(q.get(0).unwrap().state, EmailState::Retrying);
    assert_eq!(q.get(0).unwrap().next_attempt_at, 250);
    assert_eq!(q.get(1).unwrap().state, EmailState::Sending);
    assert_eq!(q.get(2).unwrap().state, EmailState::Pending);
    assert_eq!(q.recover_stuck(300, 100), 0);
    assert_eq!(q.recover_stuck(301, 100), 1);
    assert_eq!(q.recover_stuck(u64::MAX, u64::MAX), 0);
    assert_eq!(q.len(), 3);
}

#[test]
fn cancel_for_client_spares_other_clients_and_states() {
    let mut q = EmailQueue::new();
    let mut at = |q: &mut EmailQueue, client_id: u64, key: u64| {
        q.enqueue(
            FollowUpEvent { client_id, rule_id: 1, occurrence_key: key },
            "r@example.org".to_string(),
            String::new(),
            String::new(),
            key,
        )
    };
    at(&mut q, 7, 1);
    at(&mut q, 8, 2);
    at(&mut q, 7, 3);
    at(&mut q, 7, 4);
    assert_eq!(q.claim_next(10).unwrap().id, 0);
    assert_eq!(q.cancel_for_client(7, 11), 2);
    let states: Vec<EmailState> = q.list(None).iter().map(|i| i.state).collect();
    assert_eq!(
        states,
        vec![EmailState::Sending, EmailState::Pending, EmailState::Cancelled, EmailState::Cancelled]
    );
    assert_eq!(q.cancel_for_client(7, 12), 0);
    assert_eq!(q.get(2).unwrap().updated_at, 11);
}

#[test]
fn list_filters_by_state_in_queue_order() {
    let mut q = EmailQueue::new();
    for n in 1..=4 {
        enqueue(&mut q, n, n);
    }
    q.cancel(2, 9).unwrap();
    let pending: Vec<u64> = q.list(Some(EmailState::Pending)).iter().map(|i| i.id).collect();
    assert_eq!(pending, vec![0, 1, 3]);
    assert_eq!(q.list(Some(EmailState::Cancelled))[0].id, 2);
    assert_eq!(q.list(None).len(), 4);
    assert!(q.list(Some(EmailState::Sent)).is_empty());
}

fn client_with(interactions: Vec<Interaction>) -> Client {
    Client {
        id: 5,
        name: "Dee".to_string(),
        email: "dee@example.org".to_string(),
        intake_at: 1000,
        interactions,
        archived: false,
    }
}

fn rule(id: u64, anchor: Anchor, offset: u64, recurrence: Recurrence) -> FollowUpRule {
    FollowUpRule { id, template_id: 1, anchor, offset, recurrence, active: true }
}

#[test]
fn intake_rule_is_due_exactly_at_the_offset() {
    let c = client_with(vec![]);
    let rules = vec![rule(1, Anchor::Intake, 100, Recurrence::OneShot)];
    assert!(due_events(&c, &rules, 1099).is_empty());
    assert_eq!(
        due_events(&c, &rules, 1100),
        vec![FollowUpEvent { client_id: 5, rule_id: 1, occurrence_key: 1000 }]
    );
    assert!(due_events(&c, &rules, 50).is_empty());
    let far = vec![rule(1, Anchor::Intake, u64::MAX, Recurrence::Repeating)];
    assert!(due_events(&c, &far, u64::MAX).is_empty());
}

#[test]
fn one_shot_rule_follows_the_latest_interaction_only() {
    let c = client_with(vec![
        Interaction { at: 1100, kind: 1 },
        Interaction { at: 1200, kind: 2 },
        Interaction { at: 1300, kind: 1 },
    ]);
    let rules = vec![rule(1, Anchor::Interaction(1), 50, Recurrence::OneShot)];
    assert!(due_events(&c, &rules, 1349).is_empty());
    assert_eq!(
        due_events(&c, &rules, 1350),
        vec![FollowUpEvent { client_id: 5, rule_id: 1, occurrence_key: 1300 }]
    );
    let none = vec![rule(1, Anchor::Interaction(9), 0, Recurrence::OneShot)];
    assert!(due_events(&c, &none, 5000).is_empty());
}

#[test]
fn repeating_rule_yields_every_due_occurrence_once() {
    let c = client_with(vec![
        Interaction { at: 1100, kind: 1 },
        Interaction { at: 1100, kind: 1 },
        Interaction { at: 1200, kind: 2 },
        Interaction { at: 1300, kind: 1 },
        Interaction { at: 1400, kind: 1 },
    ]);
    let rules = vec![
        rule(1, Anchor::Interaction(1), 50, Recurrence::Repeating),
        FollowUpRule { active: false, ..rule(2, Anchor::Intake, 0, Recurrence::OneShot) },
        rule(3, Anchor::Interaction(2), 0, Recurrence::Repeating),
    ];
    assert_eq!(
        due_events(&c, &rules, 1350),
        vec![
            FollowUpEvent { client_id: 5, rule_id: 1, occurrence_key: 1100 },
            FollowUpEvent { client_id: 5, rule_id: 1, occurrence_key: 1300 },
            FollowUpEvent { client_id: 5, rule_id: 3, occurrence_key: 1200 },
        ]
    );
    // The same inputs give the same events.
    assert_eq!(due_events(&c, &rules, 1350), due_events(&c, &rules, 1350));
}

#[test]
fn audit_log_answers_queries() {
    let mut log = AuditLog::new();
    let record = |email_id: u64, client_id: u64, outcome: SendOutcome| DeliveryAttempt {
        email_id,
        event: FollowUpEvent { client_id, rule_id: 1, occurrence_key: 1 },
        attempt_number: 1,
        at: 5,
        outcome,
        detail: String::new(),
    };
    log.append(record(0, 1, SendOutcome::TransientFailure));
    log.append(record(1, 2, SendOutcome::Delivered));
    log.append(record(0, 1, SendOutcome::PermanentFailure));
    assert_eq!(log.len(), 3);
    assert!(!log.has_sent(FollowUpEvent { client_id: 1, rule_id: 1, occurrence_key: 1 }));
    assert!(log.has_sent(FollowUpEvent { client_id: 2, rule_id: 1, occurrence_key: 1 }));
    let for_one = log.history(AuditQuery::Client(1));
    assert_eq!(for_one.len(), 2);
    assert_eq!(for_one[1].outcome, SendOutcome::PermanentFailure);
    let for_event = log.history(AuditQuery::Event(FollowUpEvent { client_id: 2, rule_id: 1, occurrence_key: 1 }));
    assert_eq!(for_event.len(), 1);
    assert_eq!(for_event[0].email_id, 1);
    assert!(log.history(AuditQuery::Client(3)).is_empty());
}

#[test]
fn send_window_covers_day_and_night_shapes() {
    let day = Config {
        send_window: Some(SendWindow { start: 9 * 3600, end: 17 * 3600 }),
        ..Config::default()
    };
    assert!(day.validate().is_ok());
    assert!(!day.allows_sending(9 * 3600 - 1));
    assert!(day.allows_sending(9 * 3600));
    assert!(day.allows_sending(86400 * 3 + 17 * 3600 - 1));
    assert!(!day.allows_sending(86400 * 3 + 17 * 3600));
    let night = Config {
        send_window: Some(SendWindow { start: 22 * 3600, end: 6 * 3600 }),
        ..Config::default()
    };
    assert!(night.allows_sending(23 * 3600));
    assert!(night.allows_sending(5 * 3600));
    assert!(!night.allows_sending(12 * 3600));
    assert!(Config::default().allows_sending(12345));
    let empty = Config { send_window: Some(SendWindow { start: 5, end: 5 }), ..Config::default() };
    assert!(empty.validate().is_err());
    let late = Config { send_window: Some(SendWindow { start: 86400, end: 5 }), ..Config::default() };
    assert!(late.validate().is_err());
}

#[test]
fn run_is_due_after_the_interval() {
    let c = Config::default();
    assert!(c.is_run_due(None, 0));
    assert!(!c.is_run_due(Some(100), 3699));
    assert!(c.is_run_due(Some(100), 3700));
    assert!(!c.is_run_due(Some(u64::MAX), u64::MAX));
    assert_eq!(
        c.retry_policy(),
        RetryPolicy { max_attempts: 5, backoff_base: 60, backoff_cap: 3600 }
    );
}
