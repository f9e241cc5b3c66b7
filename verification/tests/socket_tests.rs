use stream_stuff_on_a_sozu_channel::socket::{BuildError, SocketBuilder};

#[test]
fn build_without_path_fails() {
    let r = SocketBuilder::new().with_permissions(0o700).build();
    assert_eq!(r.err(), Some(BuildError::MissingPath));
}

#[test]
fn build_with_path_keeps_settings() {
    let config = SocketBuilder::new().with_path("socket").with_permissions(0o600).build().unwrap();
    assert_eq!(config.path, "socket");
    assert_eq!(config.permissions, Some(0o600));
    let plain = SocketBuilder::new().with_path("other").build().unwrap();
    assert_eq!(plain.path, "other");
    assert_eq!(plain.permissions, None);
}

#[test]
fn builder_starts_empty() {
    let b = SocketBuilder::new();
    assert_eq!(b.path, None);
    assert_eq!(b.permissions, None);
}
