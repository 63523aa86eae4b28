use scout_queue::{
    Alliance, Assignment, LiveEvent, Outbound, QueueError, QueueOutcome, QueueService,
};

fn s(x: &str) -> String {
    String::from(x)
}

#[test]
fn connected_scout_gets_a_direct_delivery() {
    let mut svc = QueueService::new();
    svc.connect(s("B"), 7);
    svc.create_match_auto(s("m0"), &vec![s("118")], &vec![]);
    let (outcome, outbound, _events) = svc.queue(s("B"));
    let expected = Assignment {
        scout: s("B"),
        team_key: s("118"),
        alliance: Alliance::Red,
        match_key: s("m0"),
    };
    assert_eq!(outcome, QueueOutcome::Assigned(expected.clone()));
    assert_eq!(outbound, vec![Outbound::Deliver { connection: 7, assignment: expected }]);
}

#[test]
fn unknown_scout_is_reported_but_still_broadcast() {
    let mut svc = QueueService::new();
    let dash = svc.subscribe();
    svc.create_match_auto(s("m0"), &vec![s("118")], &vec![]);
    let (outcome, outbound, _events) = svc.queue(s("B"));
    let expected = Assignment {
        scout: s("B"),
        team_key: s("118"),
        alliance: Alliance::Red,
        match_key: s("m0"),
    };
    assert_eq!(outcome, QueueOutcome::Assigned(expected.clone()));
    assert_eq!(outbound, vec![Outbound::Undeliverable { assignment: expected }]);
    assert_eq!(svc.resolve_connection(&s("B")), Err(QueueError::UnknownScout));
    let seen = svc.drain(dash);
    assert_eq!(
        seen,
        vec![
            LiveEvent::ScoutDequeued(s("B")),
            LiveEvent::AssignmentMade { scout: s("B"), team: s("118"), match_key: s("m0") },
        ]
    );
}

#[test]
fn reconnect_overwrites_and_a_stolen_handle_unbinds() {
    let mut svc = QueueService::new();
    svc.connect(s("B"), 7);
    svc.connect(s("B"), 9);
    assert_eq!(svc.resolve_connection(&s("B")), Ok(9));
    svc.connect(s("C"), 9);
    assert_eq!(svc.resolve_connection(&s("C")), Ok(9));
    assert_eq!(svc.resolve_connection(&s("B")), Err(QueueError::UnknownScout));
}

#[test]
fn disconnect_unbinds_and_leaves_the_waiting_group() {
    let mut svc = QueueService::new();
    svc.connect(s("D"), 3);
    let (outcome, _, _) = svc.queue(s("D"));
    assert_eq!(outcome, QueueOutcome::Waiting);
    assert_eq!(svc.disconnect(3), Some(s("D")));
    assert!(!svc.coordinator().is_waiting(&s("D")));
    assert_eq!(svc.resolve_connection(&s("D")), Err(QueueError::UnknownScout));
    let (assignments, _, _) = svc.create_match_auto(s("m1"), &vec![s("254")], &vec![]);
    assert!(assignments.is_empty());
}

#[test]
fn dashboards_see_queue_and_dequeue_events() {
    let mut svc = QueueService::new();
    assert!(svc.can_subscribe());
    let dash = svc.subscribe();
    svc.queue(s("A"));
    let (r, _) = svc.dequeue(&s("A"));
    assert_eq!(r, Ok(()));
    assert_eq!(
        svc.drain(dash),
        vec![LiveEvent::ScoutQueued(s("A")), LiveEvent::ScoutDequeued(s("A"))]
    );
}

#[test]
fn refused_manual_batch_broadcasts_nothing() {
    let mut svc = QueueService::new();
    let dash = svc.subscribe();
    let (outcome, outbound, events) = svc.create_match_manual(
        s("m1"),
        &vec![s("254")],
        &vec![s("118")],
        &vec![s("C")],
        &vec![s("C")],
    );
    assert_eq!(outcome, Err(QueueError::DuplicateAssignment));
    assert!(outbound.is_empty());
    assert!(events.is_empty());
    assert!(svc.drain(dash).is_empty());
}

#[test]
fn submit_result_reports_persistence_failure() {
    let mut svc = QueueService::new();
    svc.create_match_auto(s("m0"), &vec![s("118")], &vec![]);
    svc.queue(s("B"));
    assert_eq!(svc.submit_result(&s("B"), false), Err(QueueError::PersistenceFailure));
    assert!(!svc.coordinator().is_assigned(&s("B")));
}
