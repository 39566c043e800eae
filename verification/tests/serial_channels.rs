use notification_hub::{SerialChannelName, SerialPubChannels};

#[test]
fn test_add_channel_name() {
    let mut channels = SerialPubChannels::new();
    let channel_name = SerialChannelName::try_from_str("example").unwrap();
    channels.add(channel_name.clone());
    assert!(channels.iter().iter().any(|l| *l == channel_name));
}

#[test]
#[should_panic]
fn test_add_channel_with_non_alphanumeric_chars() {
    SerialChannelName::try_from_str("example.com").unwrap();
}

#[test]
fn test_add_channel_name_capital_letters() {
    let expected_channel_name = "example";
    let mut channels = SerialPubChannels::new();
    let channel_name = SerialChannelName::try_from_str("ExamPle").unwrap();
    channels.add(channel_name.clone());
    assert!(channels.iter().iter().any(|l| *l == channel_name));
    assert!(channel_name.as_str() == expected_channel_name);
}

#[test]
fn test_add_channel_name_with_spaces() {
    let expected_channel_name = "example";
    let mut channels = SerialPubChannels::new();
    let channel_name = SerialChannelName::try_from_str(" exa mp l e   \n").unwrap();
    channels.add(channel_name.clone());
    assert!(channels.iter().iter().any(|l| *l == channel_name));
    assert!(channel_name.as_str() == expected_channel_name);
}

#[test]
fn test_remove_channel_name() {
    let mut channels = SerialPubChannels::new();
    let channel_name = SerialChannelName::try_from_str("example").unwrap();
    channels.add(channel_name.clone());
    channels.remove(channel_name.clone());
    assert!(!channels.iter().iter().any(|l| *l == channel_name));
}

#[test]
fn test_remove_nonexistent_channel_name() {
    let mut channels = SerialPubChannels::new();
    let channel_name1 = SerialChannelName::try_from_str("example").unwrap();
    let channel_name2 = SerialChannelName::try_from_str("example2").unwrap();
    channels.add(channel_name1.clone());
    channels.remove(channel_name2.clone());
}

#[test]
fn test_iter_channels() {
    let mut channels = SerialPubChannels::new();
    let channel_name1 = SerialChannelName::try_from_str("example1").unwrap();
    let channel_name2 = SerialChannelName::try_from_str("example2").unwrap();
    channels.add(channel_name1.clone());
    channels.add(channel_name2.clone());
    let collected: Vec<_> = channels.iter();
    assert!(collected.contains(&channel_name1));
    assert!(collected.contains(&channel_name2));
}

#[test]
fn test_channel_name_from_str() {
    let channel_name_str = "example";
    let channel_name = SerialChannelName::try_from_str(channel_name_str).unwrap();
    assert_eq!(channel_name.as_str(), channel_name_str.to_string());
}

#[test]
fn test_tag() {
    let channel_name = SerialChannelName::try_from_str("example").unwrap();
    assert_eq!(channel_name.tag(), "##example##");
}

#[test]
fn test_add_same_channel_twice() {
    let mut channels = SerialPubChannels::new();
    let channel_name = SerialChannelName::try_from_str("example").unwrap();
    channels.add(channel_name.clone());
    channels.add(channel_name.clone());
    assert_eq!(channels.iter().len(), 1);
}
