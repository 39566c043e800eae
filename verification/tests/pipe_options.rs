use notification_hub::{ClientPipeOptions, ClientPipeOptionsBuilder};

#[test]
fn test_options_new() {
    let options =
        ClientPipeOptions::new(Some("/tmp/w"), Some("/tmp/r"), "chan", 4, 10, 200).unwrap();
    assert_eq!(options.write_path(), Some("/tmp/w".to_string()));
    assert_eq!(options.read_path(), Some("/tmp/r".to_string()));
    assert_eq!(options.channel().as_str(), "chan");
    assert_eq!(options.n_dims(), 4);
    assert_eq!(options.delay(), 10);
    assert_eq!(options.period(), 200);
}

#[test]
fn test_options_new_invalid_channel() {
    assert!(ClientPipeOptions::new(None, None, "bad chan!", 1, 1, 1).is_err());
}

#[test]
fn test_builder_defaults() {
    let options = ClientPipeOptionsBuilder::new().channel("chan").unwrap().build().unwrap();
    assert_eq!(options.write_path(), None);
    assert_eq!(options.read_path(), None);
    assert_eq!(options.channel().as_str(), "chan");
    assert_eq!(options.n_dims(), 3);
    assert_eq!(options.delay(), 100);
    assert_eq!(options.period(), 1000);
}

#[test]
fn test_builder_sets_everything() {
    let options = ClientPipeOptionsBuilder::new()
        .write_path("/tmp/w")
        .read_path("/tmp/r")
        .delay(5)
        .period(50)
        .channel("chan")
        .unwrap()
        .n_dims(2)
        .build()
        .unwrap();
    assert_eq!(options.write_path(), Some("/tmp/w".to_string()));
    assert_eq!(options.read_path(), Some("/tmp/r".to_string()));
    assert_eq!(options.delay(), 5);
    assert_eq!(options.period(), 50);
    assert_eq!(options.channel().as_str(), "chan");
    assert_eq!(options.n_dims(), 2);
}

#[test]
fn test_builder_requires_channel() {
    assert!(ClientPipeOptionsBuilder::new().delay(5).build().is_err());
}
