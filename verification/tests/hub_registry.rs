use notification_hub::{HubChannelName, HubChannels, HubReceiver, HubUsers};

#[test]
fn test_new_hub_channels() {
    let hub_channels = HubChannels::new();
    let channel_name = HubChannelName::try_from_str("test_channel").unwrap();
    assert!(hub_channels.is_empty(&channel_name));
}

#[test]
fn channel_test_subscribe_user() {
    let mut hub_channels = HubChannels::new();
    let channel_name = HubChannelName::try_from_str("test_channel").unwrap();
    let hub_receiver = hub_channels.subscribe_user(&channel_name);

    assert_eq!(hub_channels.get_number_subscribers(&channel_name), 1);
    assert!(hub_channels.contains_channel(&channel_name));
    assert!(hub_channels.has_subscriber(&channel_name, hub_receiver.user_id()));
}

#[test]
fn channel_test_unsubscribe_user() {
    let mut hub_channels = HubChannels::new();
    let channel_name = HubChannelName::try_from_str("test_channel").unwrap();
    let hub_receiver = hub_channels.subscribe_user(&channel_name);

    hub_channels.unsubscribe_user(&channel_name, hub_receiver.user_id());
    assert_eq!(hub_channels.get_number_subscribers(&channel_name), 0);
    assert!(!hub_channels.contains_channel(&channel_name));
}

#[test]
fn test_get_number_subscribers() {
    let mut hub_channels = HubChannels::new();
    let channel_name = HubChannelName::try_from_str("test_channel").unwrap();
    hub_channels.subscribe_user(&channel_name);
    hub_channels.subscribe_user(&channel_name);

    assert_eq!(hub_channels.get_number_subscribers(&channel_name), 2);
}

#[test]
fn test_is_empty() {
    let mut hub_channels = HubChannels::new();
    let channel_name = HubChannelName::try_from_str("test_channel").unwrap();
    assert!(hub_channels.is_empty(&channel_name));

    hub_channels.subscribe_user(&channel_name);
    assert!(!hub_channels.is_empty(&channel_name));
}

#[test]
fn test_get_sender() {
    let mut hub_channels = HubChannels::new();
    let channel_name = HubChannelName::try_from_str("test_channel").unwrap();
    hub_channels.subscribe_user(&channel_name);

    let sender = hub_channels.get_sender(&channel_name);
    assert!(sender.is_some());
}

#[test]
fn user_test_subscribe_user() {
    let mut hub_users = HubUsers::new();
    let channel = HubChannelName::try_from_str("test_channel").unwrap();
    let (_tx, receiver) = tokio::sync::broadcast::channel(10);
    let user_id: u128 = 10;
    let hub_receiver = HubReceiver::new(user_id, receiver);

    hub_users.subscribe_user(&channel, &hub_receiver);

    assert!(hub_users.contains_user(user_id));
    assert!(hub_users.holds_topic(user_id, &channel));
}

#[test]
fn user_test_unsubscribe_user() {
    let mut hub_users = HubUsers::new();
    let channel = HubChannelName::try_from_str("test_channel").unwrap();
    let (_tx, receiver) = tokio::sync::broadcast::channel(10);
    let user_id: u128 = 10;
    let hub_receiver = HubReceiver::new(user_id, receiver);

    hub_users.subscribe_user(&channel, &hub_receiver);
    hub_users.unsubscribe_user(&channel, user_id);

    assert!(!hub_users.contains_user(user_id));
}

#[test]
fn test_unsubscribe_user_from_multiple_channels() {
    let mut hub_users = HubUsers::new();
    let channel1 = HubChannelName::try_from_str("test_channel1").unwrap();
    let channel2 = HubChannelName::try_from_str("test_channel2").unwrap();
    let (_tx1, receiver1) = tokio::sync::broadcast::channel(10);
    let (_tx2, receiver2) = tokio::sync::broadcast::channel(10);
    let user_id: u128 = 10;
    let hub_receiver1 = HubReceiver::new(user_id, receiver1);
    let hub_receiver2 = HubReceiver::new(user_id, receiver2);

    hub_users.subscribe_user(&channel1, &hub_receiver1);
    hub_users.subscribe_user(&channel2, &hub_receiver2);
    hub_users.unsubscribe_user(&channel1, user_id);

    assert!(hub_users.contains_user(user_id));
    assert!(!hub_users.holds_topic(user_id, &channel1));
    assert!(hub_users.holds_topic(user_id, &channel2));
}
