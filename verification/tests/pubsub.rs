//! Pub/sub scenarios: fan-out order, replacement of subscriptions,
//! automatic acknowledgements, and manual-mode retries with client-side
//! deduplication.

use toy_rpc::client::SubscriptionStream;
use toy_rpc::hub::{Hub, HubAction, HubEvent};
use toy_rpc::message::AckMode;
use toy_rpc::server::{ServerAction, ServerBroker, ServerEvent};

fn bytes(s: &str) -> Vec<u8> {
    s.as_bytes().to_vec()
}

fn publish(hub: &mut Hub, topic: &str, content: &str) -> Vec<HubAction> {
    hub.op(HubEvent::Publish {
        client_id: 9,
        msg_id: 0,
        topic: bytes(topic),
        content: bytes(content),
    })
}

fn deliveries_for(actions: &[HubAction], client: u64) -> Vec<(u64, Vec<u8>)> {
    let mut out = Vec::new();
    for a in actions {
        let HubAction::Deliver { client_id, seq_id, content, .. } = a;
        if *client_id == client {
            out.push((*seq_id, content.clone()));
        }
    }
    out
}

#[test]
fn two_subscribers_see_the_same_order() {
    let mut hub = Hub::new(AckMode::NoAck, 3);
    hub.op(HubEvent::Subscribe { client_id: 1, topic: bytes("count") });
    hub.op(HubEvent::Subscribe { client_id: 2, topic: bytes("count") });

    let mut all = Vec::new();
    for n in ["1", "2", "3"] {
        all.extend(publish(&mut hub, "count", n));
    }
    let a = deliveries_for(&all, 1);
    let b = deliveries_for(&all, 2);
    let expect = vec![
        (0u64, bytes("1")),
        (1, bytes("2")),
        (2, bytes("3")),
    ];
    assert_eq!(a, expect);
    assert_eq!(b, expect);
}

#[test]
fn subscriber_registered_before_publish_sees_it() {
    let mut hub = Hub::new(AckMode::NoAck, 3);
    hub.op(HubEvent::Subscribe { client_id: 5, topic: bytes("news") });
    let actions = publish(&mut hub, "news", "hello");
    assert_eq!(deliveries_for(&actions, 5), vec![(0, bytes("hello"))]);
}

#[test]
fn subscribing_twice_replaces_the_first() {
    let mut hub = Hub::new(AckMode::NoAck, 3);
    hub.op(HubEvent::Subscribe { client_id: 1, topic: bytes("t") });
    hub.op(HubEvent::Subscribe { client_id: 1, topic: bytes("t") });
    let actions = publish(&mut hub, "t", "once");
    assert_eq!(deliveries_for(&actions, 1).len(), 1);
}

#[test]
fn unsubscribe_stops_delivery() {
    let mut hub = Hub::new(AckMode::NoAck, 3);
    hub.op(HubEvent::Subscribe { client_id: 1, topic: bytes("t") });
    hub.op(HubEvent::Unsubscribe { client_id: 1, topic: bytes("t") });
    let actions = publish(&mut hub, "t", "gone");
    assert!(actions.is_empty());
}

#[test]
fn disconnect_purges_subscriptions() {
    let mut hub = Hub::new(AckMode::NoAck, 3);
    hub.op(HubEvent::Subscribe { client_id: 1, topic: bytes("t") });
    hub.op(HubEvent::Subscribe { client_id: 2, topic: bytes("t") });
    hub.op(HubEvent::Disconnect { client_id: 1 });
    let actions = publish(&mut hub, "t", "left");
    assert!(deliveries_for(&actions, 1).is_empty());
    assert_eq!(deliveries_for(&actions, 2).len(), 1);
}

#[test]
fn topics_are_separate() {
    let mut hub = Hub::new(AckMode::NoAck, 3);
    hub.op(HubEvent::Subscribe { client_id: 1, topic: bytes("a") });
    hub.op(HubEvent::Subscribe { client_id: 2, topic: bytes("b") });
    let actions = publish(&mut hub, "a", "x");
    assert_eq!(deliveries_for(&actions, 1).len(), 1);
    assert!(deliveries_for(&actions, 2).is_empty());
}

#[test]
fn auto_ack_one_per_publish() {
    let mut broker = ServerBroker::new(7, AckMode::Auto);
    let mut acks: u32 = 0;
    let mut hub_events: u32 = 0;
    for n in 0..3u64 {
        let actions = broker.op(ServerEvent::Publish {
            id: n,
            topic: bytes("t"),
            content: bytes("payload"),
        });
        for a in &actions {
            match a {
                ServerAction::WriteAck { id } => {
                    assert_eq!(*id, n);
                    acks += 1;
                }
                ServerAction::ToHub { .. } => hub_events += 1,
                _ => panic!("a publish only forwards and acknowledges"),
            }
        }
    }
    assert_eq!(acks, 3);
    assert_eq!(hub_events, 3);
}

#[test]
fn no_ack_mode_sends_none() {
    let mut broker = ServerBroker::new(7, AckMode::NoAck);
    let actions = broker.op(ServerEvent::Publish {
        id: 1,
        topic: bytes("t"),
        content: bytes("payload"),
    });
    assert_eq!(actions.len(), 1);
    assert!(matches!(actions[0], ServerAction::ToHub { .. }));
}

#[test]
fn manual_retry_delivers_once_at_the_subscriber() {
    let mut hub = Hub::new(AckMode::Manual, 3);
    hub.op(HubEvent::Subscribe { client_id: 1, topic: bytes("t") });
    let first = publish(&mut hub, "t", "important");
    assert_eq!(deliveries_for(&first, 1).len(), 1);

    // The subscriber is slow to acknowledge; the retry timer fires and the
    // hub sends the publication again.
    let again = hub.op(HubEvent::Retry { seq_id: 0 });
    assert_eq!(deliveries_for(&again, 1), vec![(0, bytes("important"))]);

    // The subscriber's stream hands the payload to the application once.
    let mut stream = SubscriptionStream::new(bytes("t"));
    let mut handed_over: u32 = 0;
    for (seq_id, _) in deliveries_for(&first, 1).iter().chain(deliveries_for(&again, 1).iter()) {
        if stream.on_publication(*seq_id) {
            handed_over += 1;
        }
    }
    assert_eq!(handed_over, 1);

    // Once acknowledged, the entry is collected and retries stop.
    hub.op(HubEvent::Ack { seq_id: 0, client_id: 1 });
    let after = hub.op(HubEvent::Retry { seq_id: 0 });
    assert!(after.is_empty());
}

#[test]
fn retries_stop_when_the_budget_is_spent() {
    let mut hub = Hub::new(AckMode::Manual, 1);
    hub.op(HubEvent::Subscribe { client_id: 1, topic: bytes("t") });
    publish(&mut hub, "t", "fragile");
    // One retry is allowed...
    let first = hub.op(HubEvent::Retry { seq_id: 0 });
    assert_eq!(first.len(), 1);
    // ... then the entry is retired.
    let second = hub.op(HubEvent::Retry { seq_id: 0 });
    assert!(second.is_empty());
    let third = hub.op(HubEvent::Retry { seq_id: 0 });
    assert!(third.is_empty());
}

#[test]
fn ack_for_unknown_seq_is_ignored() {
    let mut hub = Hub::new(AckMode::Manual, 3);
    hub.op(HubEvent::Subscribe { client_id: 1, topic: bytes("t") });
    hub.op(HubEvent::Ack { seq_id: 42, client_id: 1 });
    // The hub state is untouched: the next publish still fans out.
    let actions = publish(&mut hub, "t", "still here");
    assert_eq!(deliveries_for(&actions, 1).len(), 1);
}

#[test]
fn publication_reaches_the_client_broker_writer() {
    let mut broker = ServerBroker::new(7, AckMode::NoAck);
    let actions = broker.op(ServerEvent::Publication {
        seq_id: 3,
        topic: bytes("t"),
        content: bytes("payload"),
    });
    assert_eq!(actions.len(), 1);
    match &actions[0] {
        ServerAction::WritePublication { seq_id, topic, content } => {
            assert_eq!(*seq_id, 3);
            assert_eq!(*topic, bytes("t"));
            assert_eq!(*content, bytes("payload"));
        }
        _ => panic!("a publication goes to the writer"),
    }
}
