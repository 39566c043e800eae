use notification_hub::{
    decode_ws_message, encode_ws_message, HubChannelName, HubData, HubError, WsMessage,
};

#[test]
fn test_list_channels_req_wire_form() {
    let text = encode_ws_message(&WsMessage::list_channels_req());
    assert_eq!(text, "\"ListChannelsReq\"");
    assert!(matches!(decode_ws_message(&text), Ok(WsMessage::ListChannelsReq)));
}

#[test]
fn test_unsubscribe_wire_round_trip() {
    let message = WsMessage::unsubscribe("odometry").unwrap();
    let text = encode_ws_message(&message);
    assert_eq!(text, "{\"Unsubscribe\":\"odometry\"}");
    if let Ok(WsMessage::Unsubscribe(ch)) = decode_ws_message(&text) {
        assert_eq!(ch.as_str(), "odometry");
    } else {
        panic!("Expected WsMessage::Unsubscribe");
    }
}

#[test]
fn test_list_channels_response_round_trip() {
    let names = vec![
        HubChannelName::try_from_str("odometry").unwrap(),
        HubChannelName::try_from_str("distance").unwrap(),
    ];
    let message = WsMessage::ListChannelsResponse(names.clone());
    let text = encode_ws_message(&message);
    assert_eq!(text, "{\"ListChannelsResponse\":[\"odometry\",\"distance\"]}");
    if let Ok(WsMessage::ListChannelsResponse(back)) = decode_ws_message(&text) {
        assert_eq!(back, names);
    } else {
        panic!("Expected WsMessage::ListChannelsResponse");
    }
}

#[test]
fn test_empty_list_channels_response_round_trip() {
    let message = WsMessage::ListChannelsResponse(Vec::new());
    let text = encode_ws_message(&message);
    assert_eq!(text, "{\"ListChannelsResponse\":[]}");
    if let Ok(WsMessage::ListChannelsResponse(back)) = decode_ws_message(&text) {
        assert!(back.is_empty());
    } else {
        panic!("Expected WsMessage::ListChannelsResponse");
    }
}

#[test]
fn test_payload_escaping_round_trip() {
    let channel = HubChannelName::try_from_str("t").unwrap();
    let data = HubData::from_str("say \"hi\"\\now\tplease");
    let message = WsMessage::Data(channel.clone(), data.clone());
    let text = encode_ws_message(&message);
    assert_eq!(text, "{\"Data\":[\"t\",\"say \\\"hi\\\"\\\\now\\tplease\"]}");
    if let Ok(WsMessage::Data(ch, d)) = decode_ws_message(&text) {
        assert_eq!(ch, channel);
        assert_eq!(d, data);
    } else {
        panic!("Expected WsMessage::Data");
    }
}

#[test]
fn test_control_character_escape() {
    let channel = HubChannelName::try_from_str("t").unwrap();
    let data = HubData::from_str("a\u{1b}b");
    let message = WsMessage::Data(channel, data.clone());
    let text = encode_ws_message(&message);
    assert_eq!(text, "{\"Data\":[\"t\",\"a\\u001bb\"]}");
    if let Ok(WsMessage::Data(_, d)) = decode_ws_message(&text) {
        assert_eq!(d, data);
    } else {
        panic!("Expected WsMessage::Data");
    }
}

#[test]
fn test_invalid_envelope_errors() {
    assert_eq!(decode_ws_message("not json").unwrap_err(), HubError::InvalidEnvelope);
    assert_eq!(decode_ws_message("{\"Subscribe\":\"bad name\"}").unwrap_err(),
        HubError::InvalidEnvelope);
    assert_eq!(decode_ws_message("{\"Subscribe\":\"unterminated").unwrap_err(),
        HubError::InvalidEnvelope);
    assert_eq!(decode_ws_message("{\"Data\":[\"t\"]}").unwrap_err(), HubError::InvalidEnvelope);
    assert_eq!(decode_ws_message("").unwrap_err(), HubError::InvalidEnvelope);
}

#[test]
fn test_decoded_names_are_normalized() {
    if let Ok(WsMessage::Subscribe(ch)) = decode_ws_message("{\"Subscribe\":\"Odometry\"}") {
        assert_eq!(ch.as_str(), "odometry");
    } else {
        panic!("Expected WsMessage::Subscribe");
    }
}
