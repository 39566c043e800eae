use notification_hub::HubChannelName;

#[test]
fn test_valid_channel_name() {
    let valid_name = "valid_channel_123";
    let hub_channel_name = HubChannelName::try_from_str(valid_name);
    assert!(hub_channel_name.is_ok());
    assert_eq!(hub_channel_name.unwrap().as_str(), valid_name);
}

#[test]
fn test_invalid_channel_name_with_spaces() {
    let invalid_name = "invalid channel";
    let hub_channel_name = HubChannelName::try_from_str(invalid_name);
    assert!(hub_channel_name.is_err());
}

#[test]
fn test_invalid_channel_name_with_special_chars() {
    let invalid_name = "invalid@channel!";
    let hub_channel_name = HubChannelName::try_from_str(invalid_name);
    assert!(hub_channel_name.is_err());
}

#[test]
fn test_channel_name_with_uppercase() {
    let name_with_uppercase = "Valid_Channel";
    let hub_channel_name = HubChannelName::try_from_str(name_with_uppercase);
    assert!(hub_channel_name.is_ok());
    assert_eq!(hub_channel_name.unwrap().as_str(), "valid_channel");
}

#[test]
fn test_channel_name_with_newlines() {
    let name_with_newlines = "valid\nchannel";
    let hub_channel_name = HubChannelName::try_from_str(name_with_newlines);
    assert!(hub_channel_name.is_err());
}

#[test]
fn test_channel_name_with_carriage_returns() {
    let name_with_carriage_returns = "valid\rchannel";
    let hub_channel_name = HubChannelName::try_from_str(name_with_carriage_returns);
    assert!(hub_channel_name.is_err());
}

#[test]
fn test_channel_name_with_newlines_ok() {
    let name_with_newlines = "validchannel\n";
    let hub_channel_name = HubChannelName::try_from_str(name_with_newlines);
    assert!(hub_channel_name.is_ok());
    assert_eq!(hub_channel_name.unwrap().as_str(), "validchannel");
}

#[test]
fn test_channel_name_with_carriage_returns_ok() {
    let name_with_carriage_returns = "validchannel\r";
    let hub_channel_name = HubChannelName::try_from_str(name_with_carriage_returns);
    assert!(hub_channel_name.is_ok());
    assert_eq!(hub_channel_name.unwrap().as_str(), "validchannel");
}

#[test]
fn test_channel_name_to_string() {
    let valid_name = "valid_channel_123";
    let hub_channel_name = HubChannelName::try_from_str(valid_name).unwrap();
    assert_eq!(hub_channel_name.as_str(), valid_name.to_string());
}

#[test]
fn test_try_from_string() {
    let valid_name = "valid_channel_123".to_string();
    let hub_channel_name = HubChannelName::try_from_str(valid_name.as_str());
    assert!(hub_channel_name.is_ok());
    assert_eq!(hub_channel_name.unwrap().as_str(), valid_name);
}

#[test]
fn test_hub_channel_name_valid() {
    let valid_name = "valid_channel_name";
    let channel_name = HubChannelName::try_from_str(valid_name);
    assert!(channel_name.is_ok());
    assert_eq!(channel_name.unwrap().as_str(), valid_name);
}

#[test]
fn test_hub_channel_name_invalid() {
    let invalid_name = "invalid channel name!";
    let channel_name = HubChannelName::try_from_str(invalid_name);
    assert!(channel_name.is_err());
}

#[test]
fn test_hub_channel_name_to_string() {
    let valid_name = "valid_channel_name";
    let channel_name = HubChannelName::try_from_str(valid_name).unwrap();
    assert_eq!(channel_name.as_str(), valid_name);
}

#[test]
fn test_normalization_idempotent() {
    let first = HubChannelName::try_from_str("  Odometry_7\n").unwrap();
    let second = HubChannelName::try_from_str(first.as_str()).unwrap();
    assert_eq!(first.as_str(), second.as_str());
    assert_eq!(first.as_str(), "odometry_7");
}

#[test]
fn test_case_folding() {
    let upper = HubChannelName::try_from_str("Odometry").unwrap();
    let lower = HubChannelName::try_from_str("odometry").unwrap();
    assert_eq!(upper, lower);
    assert_eq!(upper.as_str(), "odometry");
}

#[test]
fn test_empty_name_rejected() {
    assert!(HubChannelName::try_from_str("").is_err());
    assert!(HubChannelName::try_from_str("   \n\r\t ").is_err());
}
