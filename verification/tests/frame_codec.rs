use notification_hub::FrameDecoder;
use notification_hub::SerialPubChannels;

#[test]
fn test_pipe_framing_recovery() {
    let mut decoder = FrameDecoder::new();
    let messages = decoder.feed(b"garbage\n##odometry##1,2,3\n", 0);
    assert_eq!(messages.len(), 1);
    assert_eq!(messages[0].channel.as_str(), "odometry");
    assert_eq!(messages[0].data.as_str(), "1,2,3");
}

#[test]
fn test_split_frame_reassembly() {
    let mut decoder = FrameDecoder::new();
    let mut messages = decoder.feed(b"##od", 0);
    assert!(messages.is_empty());
    messages = decoder.feed(b"ometry##4,5", 0);
    assert!(messages.is_empty());
    messages = decoder.feed(b",6\n", 0);
    assert_eq!(messages.len(), 1);
    assert_eq!(messages[0].channel.as_str(), "odometry");
    assert_eq!(messages[0].data.as_str(), "4,5,6");
}

#[test]
fn test_any_split_gives_same_messages() {
    let stream = b"junk\n##a##1\n##b##2\n##c##3\n";
    let mut whole = FrameDecoder::new();
    let all = whole.feed(stream, 0);
    for cut in 0..stream.len() {
        let mut split = FrameDecoder::new();
        let mut got = split.feed(&stream[..cut], 0);
        got.extend(split.feed(&stream[cut..], 0));
        assert_eq!(got.len(), all.len());
        for (x, y) in got.iter().zip(all.iter()) {
            assert!(x.same_content(y));
        }
    }
}

#[test]
fn test_garbage_lines_do_not_desync() {
    let mut decoder = FrameDecoder::new();
    let messages = decoder.feed(b"noise\n##t##x\nmore noise\n##t##y\n", 0);
    assert_eq!(messages.len(), 2);
    assert_eq!(messages[0].data.as_str(), "x");
    assert_eq!(messages[1].data.as_str(), "y");
}

#[test]
fn test_frame_encode_decode_round_trip() {
    let message = notification_hub::HubMessage::try_from_str("odometry", "1.5,2.5", 0).unwrap();
    assert!(message.is_frame_safe());
    let bytes = message.to_bytes();
    assert_eq!(bytes, b"##odometry##1.5,2.5\n".to_vec());
    let mut decoder = FrameDecoder::new();
    let messages = decoder.feed(&bytes, 9);
    assert_eq!(messages.len(), 1);
    assert_eq!(messages[0].channel.as_str(), "odometry");
    assert_eq!(messages[0].data.as_str(), "1.5,2.5");
    assert_eq!(messages[0].timestamp, 9);
}

#[test]
fn test_invalid_topic_frame_discarded_in_sync() {
    let mut decoder = FrameDecoder::new();
    let messages = decoder.feed(b"##bad topic!##x\n##good##y\n", 0);
    assert_eq!(messages.len(), 1);
    assert_eq!(messages[0].channel.as_str(), "good");
}

#[test]
fn test_topic_learning() {
    let mut decoder = FrameDecoder::new();
    let mut channels = SerialPubChannels::new();
    let messages = notification_hub::frame::process_incoming(
        &mut decoder,
        &mut channels,
        b"##alpha##1\n##beta##2\n##alpha##3\n",
        0,
    );
    assert_eq!(messages.len(), 3);
    let learned = channels.iter();
    assert_eq!(learned.len(), 2);
    assert_eq!(learned[0].as_str(), "alpha");
    assert_eq!(learned[1].as_str(), "beta");
}
