use notification_hub::ws_server::handle_envelope;
use notification_hub::{decode_ws_message, encode_ws_message, WsMessage, WsServerState};

fn envelope(text: &str) -> WsMessage {
    decode_ws_message(text).unwrap()
}

#[test]
fn test_ws_list_channels_round_trip() {
    let mut state = WsServerState::new();
    let peer_a: u64 = 1;

    // a fresh server reports no channels
    let replies = handle_envelope(&mut state, peer_a, envelope("\"ListChannelsReq\""));
    assert_eq!(replies.len(), 1);
    assert_eq!(replies[0].0, peer_a);
    assert_eq!(encode_ws_message(&replies[0].1), "{\"ListChannelsResponse\":[]}");

    // a data frame creates the topic's entry, even with nobody subscribed
    let replies = handle_envelope(&mut state, peer_a, envelope("{\"Data\":[\"t\",\"p\"]}"));
    assert!(replies.is_empty());
    let replies = handle_envelope(&mut state, peer_a, envelope("\"ListChannelsReq\""));
    assert_eq!(encode_ws_message(&replies[0].1), "{\"ListChannelsResponse\":[\"t\"]}");
}

#[test]
fn test_ws_broadcast_excludes_publisher() {
    let mut state = WsServerState::new();
    let peer_a: u64 = 1;
    let peer_b: u64 = 2;

    assert!(handle_envelope(&mut state, peer_a, envelope("{\"Subscribe\":\"t\"}")).is_empty());
    assert!(handle_envelope(&mut state, peer_b, envelope("{\"Subscribe\":\"t\"}")).is_empty());

    let replies = handle_envelope(&mut state, peer_a, envelope("{\"Data\":[\"t\",\"x\"]}"));
    assert_eq!(replies.len(), 1);
    assert_eq!(replies[0].0, peer_b);
    assert_eq!(encode_ws_message(&replies[0].1), "{\"Data\":[\"t\",\"x\"]}");
}

#[test]
fn test_ws_disconnect_removes_peer_everywhere() {
    let mut state = WsServerState::new();
    let peer_a: u64 = 1;
    let peer_b: u64 = 2;

    handle_envelope(&mut state, peer_a, envelope("{\"Subscribe\":\"t1\"}"));
    handle_envelope(&mut state, peer_a, envelope("{\"Subscribe\":\"t2\"}"));
    handle_envelope(&mut state, peer_b, envelope("{\"Subscribe\":\"t1\"}"));

    state.handle_disconnect(peer_a);

    // peer A no longer receives anything; peer B still does
    let replies = handle_envelope(&mut state, peer_b, envelope("{\"Data\":[\"t2\",\"x\"]}"));
    assert!(replies.is_empty());
    let replies = handle_envelope(&mut state, 3, envelope("{\"Data\":[\"t1\",\"x\"]}"));
    assert_eq!(replies.len(), 1);
    assert_eq!(replies[0].0, peer_b);

    // the topic entries themselves remain listed
    let replies = handle_envelope(&mut state, peer_b, envelope("\"ListChannelsReq\""));
    assert_eq!(encode_ws_message(&replies[0].1), "{\"ListChannelsResponse\":[\"t1\",\"t2\"]}");
}

#[test]
fn test_ws_unsubscribe_keeps_entry() {
    let mut state = WsServerState::new();
    let peer_a: u64 = 1;
    handle_envelope(&mut state, peer_a, envelope("{\"Subscribe\":\"t\"}"));
    handle_envelope(&mut state, peer_a, envelope("{\"Unsubscribe\":\"t\"}"));

    let replies = handle_envelope(&mut state, peer_a, envelope("\"ListChannelsReq\""));
    assert_eq!(encode_ws_message(&replies[0].1), "{\"ListChannelsResponse\":[\"t\"]}");

    let replies = handle_envelope(&mut state, 9, envelope("{\"Data\":[\"t\",\"x\"]}"));
    assert!(replies.is_empty());
}

#[test]
fn test_ws_response_envelope_ignored() {
    let mut state = WsServerState::new();
    let replies = handle_envelope(&mut state, 1, envelope("{\"ListChannelsResponse\":[\"t\"]}"));
    assert!(replies.is_empty());
}

#[test]
fn test_incoming_text_to_message() {
    let message = notification_hub::ws_codec::incoming_text_to_message(
        "{\"Data\":[\"odometry\",\"1,2\"]}",
        5,
    );
    let message = message.unwrap();
    assert_eq!(message.channel.as_str(), "odometry");
    assert_eq!(message.data.as_str(), "1,2");
    assert_eq!(message.timestamp, 5);
    assert!(notification_hub::ws_codec::incoming_text_to_message("{\"Subscribe\":\"t\"}", 5)
        .is_none());
}

#[test]
fn test_read_channel_list() {
    let names = notification_hub::ws_codec::read_channel_list(
        "{\"ListChannelsResponse\":[\"odometry\",\"distance\"]}",
    )
    .unwrap();
    assert_eq!(names.len(), 2);
    assert_eq!(names[0].as_str(), "odometry");
    assert_eq!(names[1].as_str(), "distance");
    assert!(notification_hub::ws_codec::read_channel_list("{\"Subscribe\":\"t\"}").is_err());
}
