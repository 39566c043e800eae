use notification_hub::{HubData, HubError, HubMessage};

#[test]
fn test_from_str() {
    let data = HubData::from_str("  example data  ");
    assert_eq!(data, HubData::from_str("example data"));
}

#[test]
fn test_as_str() {
    let data = HubData::from_str("example data");
    assert_eq!(data.as_str(), "example data");
}

#[test]
fn test_trim_whitespace() {
    let data = HubData::from_str("  example data  \n\r");
    assert_eq!(data, HubData::from_str("example data"));
}

#[test]
fn test_empty_string() {
    let data = HubData::from_str("   ");
    assert_eq!(data.as_str(), "");
}

#[test]
fn test_hub_data_from_str() {
    let data = "  some data \n";
    let hub_data = HubData::from_str(data);
    assert_eq!(hub_data.as_str(), "some data");
}

#[test]
fn test_hub_data_to_string() {
    let data = "some data";
    let hub_data = HubData::from_str(data);
    assert_eq!(hub_data.as_str(), data);
}

#[test]
fn test_hub_message_new_valid() {
    let channel = "valid_channel";
    let data = "some data";
    let message = HubMessage::try_from_str(channel, data, 7);
    assert!(message.is_ok());
    let message = message.unwrap();
    assert_eq!(message.channel.as_str(), channel);
    assert_eq!(message.data.as_str(), "some data");
    assert_eq!(message.timestamp, 7);
}

#[test]
fn test_hub_message_new_invalid_channel() {
    let channel = "invalid channel!";
    let data = "some data";
    let message = HubMessage::try_from_str(channel, data, 0);
    assert!(message.is_err());
    assert_eq!(message.unwrap_err(), HubError::InvalidName);
}

#[test]
fn test_hub_message_to_bytes() {
    let message = HubMessage::try_from_str("valid_channel", "some data", 0).unwrap();
    let bytes = message.to_bytes();
    assert_eq!(bytes, b"##valid_channel##some data\n".to_vec());
}

#[test]
fn test_hub_message_same_content() {
    let a = HubMessage::try_from_str("t", "p", 1).unwrap();
    let b = HubMessage::try_from_str("T", " p ", 2).unwrap();
    assert!(a.same_content(&b));
    let c = HubMessage::try_from_str("t", "q", 1).unwrap();
    assert!(!a.same_content(&c));
}

#[test]
fn test_error_descriptions() {
    assert_eq!(HubError::InvalidName.describe(), "invalid channel name");
    assert_eq!(HubError::InvalidEnvelope.describe(), "invalid message envelope");
    assert_eq!(HubError::IoFailure.describe(), "transport failure");
    assert_eq!(HubError::TimedOut.describe(), "response timed out");
    assert_eq!(HubError::UnexpectedEof.describe(), "connection closed early");
    assert_eq!(HubError::NoSuchAdapter.describe(), "adapter index out of range");
}
