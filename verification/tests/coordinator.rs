use scout_queue::{
    Alliance, Assignment, LiveEvent, QueueCoordinator, QueueError, QueueOutcome,
};

fn s(x: &str) -> String {
    String::from(x)
}

#[test]
fn auto_match_assigns_waiting_scout() {
    let mut c = QueueCoordinator::new();
    let (outcome, events) = c.request_queue(s("A"));
    assert_eq!(outcome, QueueOutcome::Waiting);
    assert_eq!(events, vec![LiveEvent::ScoutQueued(s("A"))]);

    let (assignments, events) = c.create_match_auto(s("m1"), &vec![s("254")], &vec![]);
    assert_eq!(
        assignments,
        vec![Assignment {
            scout: s("A"),
            team_key: s("254"),
            alliance: Alliance::Red,
            match_key: s("m1"),
        }]
    );
    assert_eq!(
        events,
        vec![
            LiveEvent::ScoutDequeued(s("A")),
            LiveEvent::AssignmentMade { scout: s("A"), team: s("254"), match_key: s("m1") },
        ]
    );
    assert_eq!(c.pool().pending_len(Alliance::Red), 0);
    assert!(c.is_assigned(&s("A")));
    assert!(!c.is_waiting(&s("A")));
}

#[test]
fn queue_with_stock_assigns_immediately() {
    let mut c = QueueCoordinator::new();
    let (none_assigned, _) = c.create_match_auto(s("m0"), &vec![s("118")], &vec![]);
    assert!(none_assigned.is_empty());

    let (outcome, events) = c.request_queue(s("B"));
    assert_eq!(
        outcome,
        QueueOutcome::Assigned(Assignment {
            scout: s("B"),
            team_key: s("118"),
            alliance: Alliance::Red,
            match_key: s("m0"),
        })
    );
    assert!(!c.is_waiting(&s("B")));
    assert!(c.is_assigned(&s("B")));
    assert_eq!(
        events,
        vec![
            LiveEvent::ScoutDequeued(s("B")),
            LiveEvent::AssignmentMade { scout: s("B"), team: s("118"), match_key: s("m0") },
        ]
    );
}

#[test]
fn manual_match_with_scout_on_both_alliances_is_refused() {
    let mut c = QueueCoordinator::new();
    let (outcome, events) = c.create_match_manual(
        s("m1"),
        &vec![s("254")],
        &vec![s("118")],
        &vec![s("C")],
        &vec![s("C")],
    );
    assert_eq!(outcome, Err(QueueError::DuplicateAssignment));
    assert!(events.is_empty());
    assert_eq!(c.pool().match_count(), 0);
    assert!(!c.pool().has_pending());
    assert!(!c.pool().has_override_for(&s("C")));
}

#[test]
fn disconnected_scout_is_never_assigned() {
    let mut c = QueueCoordinator::new();
    let (outcome, _) = c.request_queue(s("D"));
    assert_eq!(outcome, QueueOutcome::Waiting);
    c.disconnect(&s("D"));
    assert!(!c.is_waiting(&s("D")));

    let (assignments, events) = c.create_match_auto(s("m1"), &vec![s("254")], &vec![]);
    assert!(assignments.is_empty());
    assert!(events.is_empty());
    assert!(!c.is_assigned(&s("D")));
    assert_eq!(c.pool().pending_len(Alliance::Red), 1);
}

#[test]
fn queue_twice_waits_once() {
    let mut c = QueueCoordinator::new();
    let (first, _) = c.request_queue(s("A"));
    assert_eq!(first, QueueOutcome::Waiting);
    let (second, events) = c.request_queue(s("A"));
    assert_eq!(second, QueueOutcome::AlreadyWaiting);
    assert!(events.is_empty());
    assert_eq!(c.waiting_len(), 1);
}

#[test]
fn assigned_scout_queue_is_refused() {
    let mut c = QueueCoordinator::new();
    c.create_match_auto(s("m0"), &vec![s("118")], &vec![]);
    c.request_queue(s("B"));
    let (again, events) = c.request_queue(s("B"));
    assert_eq!(again, QueueOutcome::AlreadyAssigned);
    assert!(events.is_empty());
}

#[test]
fn dequeue_of_scout_not_waiting_fails() {
    let mut c = QueueCoordinator::new();
    let (outcome, events) = c.request_dequeue(&s("X"));
    assert_eq!(outcome, Err(QueueError::NotWaiting));
    assert!(events.is_empty());
}

#[test]
fn dequeue_removes_and_reports() {
    let mut c = QueueCoordinator::new();
    c.request_queue(s("A"));
    let (outcome, events) = c.request_dequeue(&s("A"));
    assert_eq!(outcome, Ok(()));
    assert_eq!(events, vec![LiveEvent::ScoutDequeued(s("A"))]);
    assert_eq!(c.waiting_len(), 0);
}

#[test]
fn auto_match_conserves_work_items() {
    let mut c = QueueCoordinator::new();
    c.request_queue(s("A"));
    let (assignments, _) = c.create_match_auto(
        s("m1"),
        &vec![s("254"), s("1678")],
        &vec![s("118")],
    );
    assert_eq!(assignments.len(), 1);
    assert_eq!(assignments[0].scout, s("A"));
    assert_eq!(assignments[0].team_key, s("1678"));
    let left = c.pool().pending_len(Alliance::Red) + c.pool().pending_len(Alliance::Blue);
    assert_eq!(assignments.len() + left, 3);
}

#[test]
fn submit_result_always_frees_the_scout() {
    let mut c = QueueCoordinator::new();
    c.create_match_auto(s("m0"), &vec![s("118")], &vec![]);
    c.request_queue(s("B"));
    assert!(c.is_assigned(&s("B")));
    let r = c.submit_result(&s("B"), false);
    assert_eq!(r, Err(QueueError::PersistenceFailure));
    assert!(!c.is_assigned(&s("B")));

    c.request_queue(s("C"));
    c.create_match_auto(s("m1"), &vec![s("971")], &vec![]);
    assert!(c.is_assigned(&s("C")));
    assert_eq!(c.submit_result(&s("C"), true), Ok(()));
    assert!(!c.is_assigned(&s("C")));
}

#[test]
fn manual_match_delivers_to_waiting_pinned_scout() {
    let mut c = QueueCoordinator::new();
    c.request_queue(s("C"));
    let (outcome, events) = c.create_match_manual(
        s("m2"),
        &vec![s("999")],
        &vec![],
        &vec![s("C")],
        &vec![],
    );
    let assignments = outcome.unwrap();
    assert_eq!(
        assignments,
        vec![Assignment {
            scout: s("C"),
            team_key: s("999"),
            alliance: Alliance::Red,
            match_key: s("m2"),
        }]
    );
    assert_eq!(
        events,
        vec![
            LiveEvent::ScoutDequeued(s("C")),
            LiveEvent::AssignmentMade { scout: s("C"), team: s("999"), match_key: s("m2") },
        ]
    );
    assert!(c.is_assigned(&s("C")));
    assert!(!c.is_waiting(&s("C")));
    assert!(!c.pool().has_override_for(&s("C")));
}

#[test]
fn manual_pin_for_absent_scout_waits_in_the_pool() {
    let mut c = QueueCoordinator::new();
    let (outcome, events) = c.create_match_manual(
        s("m2"),
        &vec![s("999")],
        &vec![],
        &vec![s("X")],
        &vec![],
    );
    assert!(outcome.unwrap().is_empty());
    assert!(events.is_empty());
    assert!(c.pool().has_override_for(&s("X")));

    let (later, _) = c.request_queue(s("X"));
    assert_eq!(
        later,
        QueueOutcome::Assigned(Assignment {
            scout: s("X"),
            team_key: s("999"),
            alliance: Alliance::Red,
            match_key: s("m2"),
        })
    );
}

#[test]
fn manual_leftover_teams_return_to_the_pool() {
    let mut c = QueueCoordinator::new();
    let (outcome, _) = c.create_match_manual(
        s("m3"),
        &vec![s("1"), s("2")],
        &vec![],
        &vec![s("A")],
        &vec![],
    );
    assert!(outcome.is_ok());
    assert_eq!(c.pool().pending_len(Alliance::Red), 1);
    assert!(c.pool().has_override_for(&s("A")));
}

#[test]
fn auto_match_with_no_teams_still_consumes_the_waiting_group() {
    let mut c = QueueCoordinator::new();
    c.request_queue(s("A"));
    let (assignments, events) = c.create_match_auto(s("m1"), &vec![], &vec![]);
    assert!(assignments.is_empty());
    assert!(events.is_empty());
    assert_eq!(c.waiting_len(), 0);
    assert!(!c.is_waiting(&s("A")));
    assert!(!c.is_assigned(&s("A")));
}

#[test]
fn bulk_assignment_follows_arrival_order() {
    let mut c = QueueCoordinator::new();
    c.request_queue(s("A"));
    c.request_queue(s("B"));
    let (assignments, events) = c.create_match_auto(s("m1"), &vec![s("1"), s("2")], &vec![]);
    assert_eq!(assignments.len(), 2);
    assert_eq!(assignments[0].scout, s("A"));
    assert_eq!(assignments[0].team_key, s("2"));
    assert_eq!(assignments[1].scout, s("B"));
    assert_eq!(assignments[1].team_key, s("1"));
    assert_eq!(
        events,
        vec![
            LiveEvent::ScoutDequeued(s("A")),
            LiveEvent::AssignmentMade { scout: s("A"), team: s("2"), match_key: s("m1") },
            LiveEvent::ScoutDequeued(s("B")),
            LiveEvent::AssignmentMade { scout: s("B"), team: s("1"), match_key: s("m1") },
        ]
    );
}
