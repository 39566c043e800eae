use notification_hub::{HubChannelName, HubChannels, HubManager, HubMessage};
use tokio::sync::broadcast::error::TryRecvError;

#[test]
fn test_two_subscribers_see_messages_in_order() {
    let mut hub = HubManager::new();
    let t1 = HubChannelName::try_from_str("t1").unwrap();
    let (s1, _) = hub.register_to_channel(&t1);
    let (s2, _) = hub.register_to_channel(&t1);
    let mut r1 = s1.receiver();
    let mut r2 = s2.receiver();

    for payload in ["a", "b", "c"] {
        let message = HubMessage::try_from_str("t1", payload, 0).unwrap();
        assert!(hub.dispatch(&message));
    }

    for expected in ["a", "b", "c"] {
        assert_eq!(r1.try_recv().unwrap().data.as_str(), expected);
        assert_eq!(r2.try_recv().unwrap().data.as_str(), expected);
    }
    assert!(matches!(r1.try_recv(), Err(TryRecvError::Empty)));
    assert!(matches!(r2.try_recv(), Err(TryRecvError::Empty)));
}

#[test]
fn test_subscribe_unsubscribe_reference_count() {
    let mut hub = HubManager::new();
    let t1 = HubChannelName::try_from_str("t1").unwrap();

    let (s1, upstream1) = hub.register_to_channel(&t1);
    assert!(upstream1, "first subscriber must fire the upstream subscribe");

    let (s2, upstream2) = hub.register_to_channel(&t1);
    assert!(!upstream2, "second subscriber must not fire upstream again");

    let down1 = hub.unregister_from_channel(&t1, s1.user_id());
    assert!(!down1, "a remaining subscriber keeps the upstream subscription");

    let down2 = hub.unregister_from_channel(&t1, s2.user_id());
    assert!(down2, "the last subscriber must fire the upstream unsubscribe");
}

#[test]
fn test_register_unregister_removes_entry() {
    let mut hub = HubManager::new();
    let t1 = HubChannelName::try_from_str("t1").unwrap();
    let (s1, _) = hub.register_to_channel(&t1);
    assert_eq!(hub.get_number_subscribers(&t1), 1);
    hub.unregister_from_channel(&t1, s1.user_id());
    assert_eq!(hub.get_number_subscribers(&t1), 0);

    // the old receiver is cut off from anything published after a fresh
    // registration creates a new broadcast
    let mut old_receiver = s1.receiver();
    let (_s3, fresh) = hub.register_to_channel(&t1);
    assert!(fresh);
    let message = HubMessage::try_from_str("t1", "late", 0).unwrap();
    assert!(hub.dispatch(&message));
    assert!(old_receiver.try_recv().is_err());
}

#[test]
fn test_dispatch_without_subscribers_drops() {
    let hub = HubManager::new();
    let message = HubMessage::try_from_str("nobody", "x", 0).unwrap();
    assert!(!hub.dispatch(&message));
}

#[test]
fn test_lagged_subscriber_resynchronizes() {
    let mut channels = HubChannels::new();
    let t = HubChannelName::try_from_str("t").unwrap();
    let subscriber = channels.subscribe_user(&t);
    let mut receiver = subscriber.receiver();
    let sender = channels.get_sender(&t).unwrap();

    for i in 0..150u32 {
        let message = HubMessage::try_from_str("t", &format!("m{}", i), 0).unwrap();
        sender.send(message).unwrap();
    }

    // far beyond the capacity of 100: the receiver sees a lag signal and
    // resumes at the oldest message still held
    let skipped = match receiver.try_recv() {
        Err(TryRecvError::Lagged(n)) => n,
        other => panic!("expected a lag signal, got {:?}", other.map(|m| m.data.as_str().to_string())),
    };
    assert!(skipped > 0);
    assert_eq!(receiver.try_recv().unwrap().data.as_str(), format!("m{}", skipped));
}

#[test]
fn test_fanout_is_prefix_in_order() {
    let mut channels = HubChannels::new();
    let t = HubChannelName::try_from_str("t").unwrap();
    let subscriber = channels.subscribe_user(&t);
    let mut receiver = subscriber.receiver();
    let sender = channels.get_sender(&t).unwrap();

    for i in 0..20u32 {
        let message = HubMessage::try_from_str("t", &format!("m{}", i), 0).unwrap();
        sender.send(message).unwrap();
    }
    for i in 0..20u32 {
        assert_eq!(receiver.try_recv().unwrap().data.as_str(), format!("m{}", i));
    }
}

#[test]
fn test_merge_channel_lists_deduplicates() {
    let a = HubChannelName::try_from_str("a").unwrap();
    let b = HubChannelName::try_from_str("b").unwrap();
    let c = HubChannelName::try_from_str("c").unwrap();
    let lists = vec![vec![a.clone(), b.clone()], vec![b.clone(), c.clone()], vec![]];
    let merged = notification_hub::controller::merge_channel_lists(&lists);
    assert_eq!(merged, vec![a, b, c]);
}
