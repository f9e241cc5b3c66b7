use stream_stuff_on_a_sozu_channel::framing::{find_zero, utf8_string};

#[test]
fn finds_first_zero() {
    assert_eq!(find_zero(&[1, 2, 0, 3, 0]), Some(2));
    assert_eq!(find_zero(&[0]), Some(0));
    assert_eq!(find_zero(&[1, 2, 3]), None);
    assert_eq!(find_zero(&[]), None);
}

#[test]
fn utf8_text_is_taken() {
    assert_eq!(utf8_string(b"hello").as_deref(), Some("hello"));
    assert_eq!(utf8_string("é".as_bytes()).as_deref(), Some("é"));
    assert_eq!(utf8_string(b"").as_deref(), Some(""));
}

#[test]
fn invalid_utf8_is_refused() {
    assert_eq!(utf8_string(&[0xff, 0xfe]), None);
    assert_eq!(utf8_string(&[b'a', 0xc3]), None);
}
