use notification_hub::{
    decode_ws_message, encode_ws_message, HubChannelName, HubData, HubMessage, WsMessage,
};

#[test]
fn test_subscribe() {
    let channel = "test_channel";
    let result = WsMessage::subscribe(channel);
    assert!(result.is_ok());
    if let Ok(WsMessage::Subscribe(channel_name)) = result {
        assert_eq!(channel_name.as_str(), channel);
    } else {
        panic!("Expected WsMessage::Subscribe");
    }
}

#[test]
fn test_subscribe_channel() {
    let channel_name = HubChannelName::try_from_str("test_channel").unwrap();
    let message = WsMessage::subscribe_channel(channel_name.clone());
    if let WsMessage::Subscribe(ch) = message {
        assert_eq!(ch, channel_name);
    } else {
        panic!("Expected WsMessage::Subscribe");
    }
}

#[test]
fn test_unsubscribe() {
    let channel = "test_channel";
    let result = WsMessage::unsubscribe(channel);
    assert!(result.is_ok());
    if let Ok(WsMessage::Unsubscribe(channel_name)) = result {
        assert_eq!(channel_name.as_str(), channel);
    } else {
        panic!("Expected WsMessage::Unsubscribe");
    }
}

#[test]
fn test_unsubscribe_channel() {
    let channel_name = HubChannelName::try_from_str("test_channel").unwrap();
    let message = WsMessage::unsubscribe_channel(channel_name.clone());
    if let WsMessage::Unsubscribe(ch) = message {
        assert_eq!(ch, channel_name);
    } else {
        panic!("Expected WsMessage::Unsubscribe");
    }
}

#[test]
fn message_test_list_channels() {
    let message = WsMessage::list_channels_req();
    if let WsMessage::ListChannelsReq = message {
        // Test passed
    } else {
        panic!("Expected WsMessage::ListChannels");
    }
}

#[test]
fn test_send_data() {
    let channel = "test_channel";
    let data = "test_data";
    let result = WsMessage::send_data(channel, data);
    assert!(result.is_ok());
    if let Ok(WsMessage::Data(channel_name, _)) = result {
        assert_eq!(channel_name.as_str(), channel);
    } else {
        panic!("Expected WsMessage::Data");
    }
}

#[test]
fn test_send_data_channel() {
    let channel_name = HubChannelName::try_from_str("test_channel").unwrap();
    let data = HubData::from_str("test_data");
    let message = WsMessage::send_data_channel(channel_name.clone(), data.clone());
    if let WsMessage::Data(ch, _) = message {
        assert_eq!(ch, channel_name);
    } else {
        panic!("Expected WsMessage::Data");
    }
}

#[test]
fn test_subscribe_to_string() {
    let channel_name = HubChannelName::try_from_str("test_channel").unwrap();
    let message = WsMessage::subscribe_channel(channel_name.clone());
    let json_str = encode_ws_message(&message);
    assert_eq!(json_str, "{\"Subscribe\":\"test_channel\"}");
    let parsed_message = decode_ws_message(&json_str).unwrap();
    if let WsMessage::Subscribe(ch) = parsed_message {
        assert_eq!(ch, channel_name);
    } else {
        panic!("Expected WsMessage::Subscribe");
    }
}

#[test]
fn test_try_subscribe_from_string() {
    let json_str = r#"{"Subscribe":"test_channel"}"#.to_string();
    let result = decode_ws_message(&json_str);
    assert!(result.is_ok());
    if let Ok(WsMessage::Subscribe(channel_name)) = result {
        assert_eq!(channel_name.as_str(), "test_channel");
    } else {
        panic!("Expected WsMessage::Subscribe");
    }
}

#[test]
fn test_data_to_string() {
    let channel_name = HubChannelName::try_from_str("test_channel").unwrap();
    let data = HubData::from_str("test_data");
    let message = WsMessage::Data(channel_name.clone(), data.clone());
    let json_str = encode_ws_message(&message);
    let parsed_message = decode_ws_message(&json_str).unwrap();
    if let WsMessage::Data(ch, d) = parsed_message {
        assert_eq!(ch, channel_name);
        assert_eq!(d, data);
    } else {
        panic!("Expected WsMessage::Data");
    }
}

#[test]
fn test_try_data_from_string() {
    let json_str = r#"{"Data":["test_channel","test_data1, test_data2"]}"#.to_string();
    let result = decode_ws_message(&json_str);
    assert!(result.is_ok());
    if let Ok(WsMessage::Data(channel_name, data)) = result {
        assert_eq!(channel_name.as_str(), "test_channel");
        assert_eq!(data.as_str(), "test_data1, test_data2");
    } else {
        panic!("Expected WsMessage::Data");
    }
}

#[test]
fn test_try_from_ws_message() {
    let channel_name = HubChannelName::try_from_str("test_channel").unwrap();
    let data = HubData::from_str("test_data");
    let ws_message = WsMessage::Data(channel_name.clone(), data.clone());
    let result = HubMessage::try_from_ws(ws_message, 0);
    assert!(result.is_ok());
    let hub_message = result.unwrap();
    assert_eq!(hub_message.channel, channel_name);
    assert_eq!(hub_message.data, data);
}

#[test]
fn test_from_hub_message() {
    let channel_name = HubChannelName::try_from_str("test_channel").unwrap();
    let data = HubData::from_str("test_data");
    let hub_message = HubMessage::new(channel_name.clone(), data.clone(), 0);
    let ws_message = WsMessage::from_hub(hub_message);
    if let WsMessage::Data(ch, d) = ws_message {
        assert_eq!(ch, channel_name);
        assert_eq!(d, data);
    } else {
        panic!("Expected WsMessage::Data");
    }
}
