use notification_hub::{HubData, HubMessage, SerialChannelName, SerialData, SerialRawMessage};

#[test]
fn test_serial_data_from_str() {
    let data = "test_data";
    let serial_data = SerialData::from_str(data);
    assert_eq!(serial_data.as_str(), data);
}

#[test]
fn test_serial_raw_message_from_str() {
    let data = "##channel##data";
    let serial_raw_message = SerialRawMessage::from_str(data);
    assert_eq!(serial_raw_message.as_str(), data);
}

#[test]
fn test_serial_raw_message_extract_info() {
    let data = "##channel##data";
    let serial_raw_message = SerialRawMessage::from_str(data);
    let extracted_info = serial_raw_message.extract_info();
    assert!(extracted_info.is_some());
    let (channel_name, serial_data) = extracted_info.unwrap();
    assert_eq!(channel_name, SerialChannelName::try_from_str("channel").unwrap());
    assert_eq!(serial_data.as_str(), "data");
}

#[test]
fn test_serial_raw_message_extract_info_invalid() {
    let data = "invalid_data";
    let serial_raw_message = SerialRawMessage::from_str(data);
    let extracted_info = serial_raw_message.extract_info();
    assert!(extracted_info.is_none());
}

#[test]
fn test_hub_message_from_serial_raw_message() {
    let data = "##channel##data";
    let serial_raw_message = SerialRawMessage::from_str(data);
    let hub_message = HubMessage::try_from(serial_raw_message, 0);
    assert!(hub_message.is_ok());
    let hub_message = hub_message.unwrap();
    assert_eq!(hub_message.channel.as_str(), "channel");
    assert_eq!(hub_message.data.as_str(), "data");
}

#[test]
fn test_hub_message_from_serial_raw_message_invalid() {
    let data = "invalid_data";
    let serial_raw_message = SerialRawMessage::from_str(data);
    let hub_message = HubMessage::try_from(serial_raw_message, 0);
    assert!(hub_message.is_err());
}

#[test]
fn test_serial_data_to_hub_data() {
    let serial_data = SerialData::from_str("data");
    let hub_data = HubData::from_serial(&serial_data);
    assert_eq!(hub_data.as_str(), "data");
}

#[test]
fn test_hub_data_to_serial_data() {
    let hub_data = HubData::from_str("data");
    let serial_data = SerialData::from_hub(&hub_data);
    assert_eq!(serial_data.as_str(), "data");
}

#[test]
fn test_extract_info_empty_channel_rejected() {
    let raw = SerialRawMessage::from_str("####data");
    let hub_message = HubMessage::try_from(raw, 0);
    assert!(hub_message.is_err());
}

#[test]
fn test_extract_info_payload_keeps_inner_hashes() {
    let raw = SerialRawMessage::from_str("##t##x##y");
    let (channel_name, serial_data) = raw.extract_info().unwrap();
    assert_eq!(channel_name.as_str(), "t");
    assert_eq!(serial_data.as_str(), "x##y");
}
