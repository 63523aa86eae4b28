use scout_queue::{Alliance, AssignmentPool, QueueError, WorkItem};

fn s(x: &str) -> String {
    String::from(x)
}

#[test]
fn empty_pool_has_nothing() {
    let mut pool = AssignmentPool::new();
    assert!(!pool.has_pending());
    assert!(pool.current_match().is_none());
    assert_eq!(pool.match_count(), 0);
    assert!(pool.take_for(&s("A")).is_none());
}

#[test]
fn enqueue_match_stocks_both_alliances() {
    let mut pool = AssignmentPool::new();
    pool.enqueue_match(s("m1"), &vec![s("254"), s("1678")], &vec![s("118")]);
    assert!(pool.has_pending());
    assert_eq!(pool.pending_len(Alliance::Red), 2);
    assert_eq!(pool.pending_len(Alliance::Blue), 1);
    assert_eq!(pool.current_match().unwrap(), &s("m1"));
    assert_eq!(pool.match_count(), 1);
}

#[test]
fn take_for_prefers_the_override() {
    let mut pool = AssignmentPool::new();
    pool.enqueue_match(s("m1"), &vec![s("254")], &vec![]);
    let r = pool.assign_manual(s("m2"), &vec![(s("999"), s("C"))], &vec![]);
    assert!(r.is_ok());
    let got = pool.take_for(&s("C")).unwrap();
    assert_eq!(got, WorkItem { team_key: s("999"), alliance: Alliance::Red });
    assert!(!pool.has_override_for(&s("C")));
    assert_eq!(pool.pending_len(Alliance::Red), 1);
}

#[test]
fn take_for_pops_red_before_blue() {
    let mut pool = AssignmentPool::new();
    pool.enqueue_match(s("m1"), &vec![s("254")], &vec![s("118")]);
    let first = pool.take_for(&s("A")).unwrap();
    assert_eq!(first, WorkItem { team_key: s("254"), alliance: Alliance::Red });
    let second = pool.take_for(&s("B")).unwrap();
    assert_eq!(second, WorkItem { team_key: s("118"), alliance: Alliance::Blue });
    assert!(pool.take_for(&s("C")).is_none());
}

#[test]
fn take_for_pops_newest_first() {
    let mut pool = AssignmentPool::new();
    pool.enqueue_match(s("m1"), &vec![s("254"), s("1678")], &vec![]);
    assert_eq!(pool.take_for(&s("A")).unwrap().team_key, s("1678"));
    assert_eq!(pool.take_for(&s("B")).unwrap().team_key, s("254"));
}

#[test]
fn manual_batch_rejects_scout_pinned_twice() {
    let mut pool = AssignmentPool::new();
    let r = pool.assign_manual(
        s("m1"),
        &vec![(s("254"), s("C"))],
        &vec![(s("118"), s("C"))],
    );
    assert_eq!(r, Err(QueueError::DuplicateAssignment));
    assert_eq!(pool.match_count(), 0);
    assert!(!pool.has_override_for(&s("C")));
    assert!(!pool.has_pending());
}

#[test]
fn manual_batch_rejects_existing_override() {
    let mut pool = AssignmentPool::new();
    assert!(pool.assign_manual(s("m1"), &vec![(s("254"), s("C"))], &vec![]).is_ok());
    let r = pool.assign_manual(s("m2"), &vec![(s("1678"), s("C"))], &vec![]);
    assert_eq!(r, Err(QueueError::DuplicateAssignment));
    assert_eq!(pool.match_count(), 1);
    assert!(pool.has_override_for(&s("C")));
}

#[test]
fn manual_batch_pins_every_pair() {
    let mut pool = AssignmentPool::new();
    let r = pool.assign_manual(
        s("m1"),
        &vec![(s("254"), s("A"))],
        &vec![(s("118"), s("B"))],
    );
    assert!(r.is_ok());
    assert!(pool.has_override_for(&s("A")));
    assert!(pool.has_override_for(&s("B")));
    assert_eq!(pool.match_count(), 1);
    assert_eq!(
        pool.take_for(&s("B")).unwrap(),
        WorkItem { team_key: s("118"), alliance: Alliance::Blue }
    );
}

#[test]
fn returned_items_are_not_dropped() {
    let mut pool = AssignmentPool::new();
    pool.return_if_unmatched(
        Alliance::Blue,
        vec![
            WorkItem { team_key: s("118"), alliance: Alliance::Blue },
            WorkItem { team_key: s("971"), alliance: Alliance::Blue },
        ],
    );
    assert_eq!(pool.pending_len(Alliance::Blue), 2);
    assert_eq!(pool.take_for(&s("A")).unwrap().team_key, s("971"));
    assert_eq!(pool.take_for(&s("B")).unwrap().team_key, s("118"));
}

#[test]
fn scouted_percent_floors_and_caps() {
    assert_eq!(scout_queue::model::scouted_percent(1, 3), 33);
    assert_eq!(scout_queue::model::scouted_percent(2, 2), 100);
    assert_eq!(scout_queue::model::scouted_percent(7, 3), 100);
    assert_eq!(scout_queue::model::scouted_percent(0, 5), 0);
}
