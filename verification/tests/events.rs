use scout_queue::{EventBroadcaster, LiveEvent};

fn s(x: &str) -> String {
    String::from(x)
}

#[test]
fn broadcast_reaches_every_current_subscriber_and_no_later_joiner() {
    let mut b = EventBroadcaster::new();
    let s1 = b.subscribe();
    let s2 = b.subscribe();
    b.publish(&LiveEvent::ScoutQueued(s("A")));
    let s3 = b.subscribe();
    b.publish(&LiveEvent::ScoutDequeued(s("A")));

    assert_eq!(
        b.drain(s1),
        vec![LiveEvent::ScoutQueued(s("A")), LiveEvent::ScoutDequeued(s("A"))]
    );
    assert_eq!(
        b.drain(s2),
        vec![LiveEvent::ScoutQueued(s("A")), LiveEvent::ScoutDequeued(s("A"))]
    );
    assert_eq!(b.drain(s3), vec![LiveEvent::ScoutDequeued(s("A"))]);
}

#[test]
fn drain_empties_the_mailbox() {
    let mut b = EventBroadcaster::new();
    let id = b.subscribe();
    b.publish(&LiveEvent::ScoutQueued(s("A")));
    assert_eq!(b.drain(id), vec![LiveEvent::ScoutQueued(s("A"))]);
    assert!(b.drain(id).is_empty());
}

#[test]
fn unsubscribe_stops_delivery_without_touching_others() {
    let mut b = EventBroadcaster::new();
    let s1 = b.subscribe();
    let s2 = b.subscribe();
    b.unsubscribe(s1);
    assert_eq!(b.subscriber_count(), 1);
    b.publish(&LiveEvent::ScoutQueued(s("A")));
    assert!(b.drain(s1).is_empty());
    assert_eq!(b.drain(s2), vec![LiveEvent::ScoutQueued(s("A"))]);
}

#[test]
fn publish_with_zero_subscribers_is_not_an_error() {
    let mut b = EventBroadcaster::new();
    b.publish(&LiveEvent::ScoutQueued(s("A")));
    assert_eq!(b.subscriber_count(), 0);
}

#[test]
fn drain_of_unknown_handle_yields_nothing() {
    let mut b = EventBroadcaster::new();
    let _ = b.subscribe();
    assert!(b.drain(999).is_empty());
}
