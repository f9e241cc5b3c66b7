use std::io::{ErrorKind, Read, Write};

use mio::net::UnixStream;
use stream_stuff_on_a_sozu_channel::channel::{
    BlockingRead, BlockingWrite, Channel, ConnError, FrameRead, ReadOutcome, Transfer,
    WriteOutcome, DEFAULT_BUFFER_SIZE, DEFAULT_MAX_BUFFER_SIZE,
};
use stream_stuff_on_a_sozu_channel::ready::Ready;

type Chan = Channel<String, String>;

fn pair(buffer_size: usize, max: usize) -> (Chan, Chan) {
    let (a, b) = UnixStream::pair().unwrap();
    (Channel::new(a, buffer_size, max), Channel::new(b, buffer_size, max))
}

fn one(buffer_size: usize, max: usize) -> Chan {
    pair(buffer_size, max).0
}

/// Writes the back buffer to the stream until done, as a driver would.
fn pump_write(ch: &mut Chan) -> Result<usize, ConnError> {
    ch.handle_events(Ready::writable());
    let mut step = ch.writable_begin();
    loop {
        match step {
            Transfer::Again(count) => {
                let outcome = match (&ch.sock).write(ch.back_buf.data()) {
                    Ok(n) => WriteOutcome::Wrote(n),
                    Err(e) if e.kind() == ErrorKind::WouldBlock => WriteOutcome::WouldBlock,
                    Err(_) => WriteOutcome::Failed,
                };
                step = ch.writable_next(count, outcome);
            }
            Transfer::Finished(r) => return r,
        }
    }
}

/// Reads from the stream into the front buffer until it would block.
fn pump_read(ch: &mut Chan) -> Result<usize, ConnError> {
    ch.handle_events(Ready::readable());
    let mut step = ch.readable_begin();
    loop {
        match step {
            Transfer::Again(count) => {
                let mut tmp = vec![0u8; ch.front_space()];
                let outcome = match (&ch.sock).read(&mut tmp) {
                    Ok(n) => {
                        tmp.truncate(n);
                        ReadOutcome::Bytes(tmp)
                    }
                    Err(e) if e.kind() == ErrorKind::WouldBlock => ReadOutcome::WouldBlock,
                    Err(_) => ReadOutcome::Failed,
                };
                step = ch.readable_next(count, outcome);
            }
            Transfer::Finished(r) => return r,
        }
    }
}

fn text(r: FrameRead) -> Option<String> {
    match r {
        FrameRead::Text(s) => Some(s),
        _ => None,
    }
}

#[test]
fn new_channel_state() {
    let c = one(16, 64);
    assert_eq!(c.front_space(), 16);
    assert_eq!(c.back_buf.capacity(), 16);
    assert!(c.back_buf.empty());
    assert_eq!(c.front_data(), &[] as &[u8]);
    assert_eq!(c.max_buffer_size(), 64);
    assert_eq!(c.interest, Ready::readable());
    assert_eq!(c.readiness, Ready::empty());
    assert_eq!(c.readiness(), Ready::empty());
    assert!(!c.blocking());
    assert_eq!(DEFAULT_BUFFER_SIZE, 16384);
    assert_eq!(DEFAULT_MAX_BUFFER_SIZE, 163840);
}

#[test]
fn readiness_is_ready_and_interested() {
    let mut c = one(16, 64);
    c.handle_events(Ready(0b01011));
    assert_eq!(c.readiness.0, 0b01011);
    assert_eq!(c.readiness().0, 0b00001);
}

#[test]
fn queue_frames_message() {
    let mut c = one(16, 64);
    assert!(c.write_message_nonblocking(b"abc"));
    assert_eq!(c.back_buf.data(), b"abc\0");
    assert!(c.interest.is_writable());
    assert!(c.interest.is_readable());
}

#[test]
fn queue_too_large_is_refused() {
    let mut c = one(8, 20);
    assert!(c.write_message_nonblocking(b"ab"));
    let big = vec![b'x'; 25];
    assert!(!c.write_message_nonblocking(&big));
    assert_eq!(c.back_buf.data(), b"ab\0");
    assert_eq!(c.back_buf.capacity(), 8);
}

#[test]
fn queue_grows_to_what_is_needed() {
    let mut c = one(8, 20);
    assert!(c.write_message_nonblocking(b"abc"));
    assert!(c.write_message_nonblocking(b"defgh"));
    assert_eq!(c.back_buf.data(), b"abc\0defgh\0");
    assert_eq!(c.back_buf.capacity(), 10);
    assert_eq!(c.back_buf.available_space(), 0);
}

#[test]
fn queue_may_exceed_limit_within_own_size() {
    // a buffer larger than the limit still takes what fits in it
    let mut c = one(32, 4);
    assert!(c.write_message_nonblocking(b"0123456789"));
    assert_eq!(c.back_buf.data(), b"0123456789\0");
}

#[test]
fn readable_needs_readiness() {
    let mut c = one(16, 64);
    assert_eq!(c.readable_begin(), Transfer::Finished(Err(ConnError::Continue)));
    assert_eq!(c.writable_begin(), Transfer::Finished(Err(ConnError::Continue)));
}

#[test]
fn readable_steps() {
    let mut c = one(16, 64);
    c.handle_events(Ready::readable());
    assert_eq!(c.readable_begin(), Transfer::Again(0));
    assert_eq!(c.readable_next(0, ReadOutcome::Bytes(b"hi\0x".to_vec())), Transfer::Again(4));
    assert_eq!(c.front_data(), b"hi\0x");
    assert_eq!(c.readable_next(4, ReadOutcome::WouldBlock), Transfer::Finished(Ok(4)));
    assert!(!c.readiness.is_readable());
    assert!(c.interest.is_readable());
}

#[test]
fn readable_full_buffer_drops_interest() {
    let mut c = one(4, 64);
    c.handle_events(Ready::readable());
    assert_eq!(c.readable_begin(), Transfer::Again(0));
    assert_eq!(c.readable_next(0, ReadOutcome::Bytes(b"abcd".to_vec())), Transfer::Finished(Ok(4)));
    assert!(!c.interest.is_readable());
}

#[test]
fn readable_closed_stream() {
    let mut c = one(16, 64);
    c.handle_events(Ready::readable());
    c.readable_begin();
    assert_eq!(
        c.readable_next(0, ReadOutcome::Bytes(Vec::new())),
        Transfer::Finished(Err(ConnError::SocketError))
    );
    assert!(c.interest.is_empty());
    assert!(c.readiness.is_hup());
    assert!(!c.readiness.is_readable());
}

#[test]
fn readable_failure_clears_flags() {
    let mut c = one(16, 64);
    c.handle_events(Ready::all());
    c.readable_begin();
    assert_eq!(c.readable_next(0, ReadOutcome::Failed), Transfer::Finished(Err(ConnError::SocketError)));
    assert!(c.interest.is_empty());
    assert!(c.readiness.is_empty());
}

#[test]
fn writable_steps() {
    let mut c = one(16, 64);
    assert!(c.write_message_nonblocking(b"hello"));
    c.handle_events(Ready::writable());
    assert_eq!(c.writable_begin(), Transfer::Again(0));
    assert_eq!(c.writable_next(0, WriteOutcome::Wrote(2)), Transfer::Again(2));
    assert_eq!(c.back_buf.data(), b"llo\0");
    assert_eq!(c.writable_next(2, WriteOutcome::Wrote(4)), Transfer::Finished(Ok(6)));
    assert!(!c.interest.is_writable());
    assert!(c.back_buf.empty());
}

#[test]
fn writable_nothing_to_write() {
    let mut c = one(16, 64);
    c.handle_events(Ready::writable());
    c.interest.insert(Ready::writable());
    assert_eq!(c.writable_begin(), Transfer::Finished(Ok(0)));
    assert!(!c.interest.is_writable());
}

#[test]
fn writable_zero_write_hangs_up() {
    let mut c = one(16, 64);
    c.write_message_nonblocking(b"x");
    c.handle_events(Ready::writable());
    c.writable_begin();
    assert_eq!(c.writable_next(0, WriteOutcome::Wrote(0)), Transfer::Finished(Err(ConnError::SocketError)));
    assert!(c.interest.is_empty());
    assert!(c.readiness.is_hup());
    assert_eq!(c.writable_next(0, WriteOutcome::WouldBlock), Transfer::Finished(Ok(0)));
    assert!(!c.readiness.is_writable());
}

#[test]
fn read_message_gives_text() {
    let mut c = one(16, 64);
    c.handle_events(Ready::readable());
    c.readable_begin();
    c.readable_next(0, ReadOutcome::Bytes(b"hi\0yo\0pa".to_vec()));
    assert_eq!(text(c.read_message_nonblocking()), Some("hi".to_string()));
    assert_eq!(c.front_data(), b"yo\0pa");
    assert_eq!(text(c.read_message_nonblocking()), Some("yo".to_string()));
    assert_eq!(c.front_data(), b"pa");
    assert!(matches!(c.read_message_nonblocking(), FrameRead::Incomplete));
    assert_eq!(c.front_data(), b"pa");
}

#[test]
fn read_message_drops_invalid_utf8() {
    let mut c = one(16, 64);
    c.handle_events(Ready::readable());
    c.readable_begin();
    c.readable_next(0, ReadOutcome::Bytes(vec![0xff, 0xfe, 0, b'o', b'k', 0]));
    assert!(matches!(c.read_message_nonblocking(), FrameRead::NotUtf8));
    assert_eq!(text(c.read_message_nonblocking()), Some("ok".to_string()));
}

#[test]
fn incomplete_read_asks_to_read_and_grows() {
    let mut c = one(4, 20);
    c.interest = Ready::empty();
    c.handle_events(Ready::readable());
    c.interest = Ready::readable();
    c.readable_begin();
    c.readable_next(0, ReadOutcome::Bytes(b"abcd".to_vec()));
    assert!(!c.interest.is_readable());
    assert_eq!(c.front_space(), 0);
    assert!(matches!(c.read_message_nonblocking(), FrameRead::Incomplete));
    assert!(c.interest.is_readable());
    // grew by FRONT_GROWTH, capped at the limit of 20
    assert_eq!(c.front_space(), 16);
    assert_eq!(c.front_data(), b"abcd");
}

#[test]
fn blocking_read_steps() {
    let mut c = one(4, 4);
    assert!(matches!(c.read_message_blocking_step(), BlockingRead::Read(4)));
    assert!(c.read_message_blocking_received(ReadOutcome::Bytes(b"ab".to_vec())));
    assert!(matches!(c.read_message_blocking_step(), BlockingRead::Read(2)));
    assert!(c.read_message_blocking_received(ReadOutcome::Bytes(b"\0c".to_vec())));
    match c.read_message_blocking_step() {
        BlockingRead::Frame(f) => assert_eq!(text(f), Some("ab".to_string())),
        _ => panic!("expected a message"),
    }
    assert_eq!(c.front_data(), b"c");
    assert!(!c.read_message_blocking_received(ReadOutcome::Bytes(Vec::new())));
    assert!(!c.read_message_blocking_received(ReadOutcome::Failed));
    assert!(!c.read_message_blocking_received(ReadOutcome::WouldBlock));
}

#[test]
fn blocking_read_gives_up_when_full() {
    let mut c = one(4, 4);
    c.read_message_blocking_received(ReadOutcome::Bytes(b"abcd".to_vec()));
    assert!(matches!(c.read_message_blocking_step(), BlockingRead::Stop));
    let mut g = one(4, 10);
    g.read_message_blocking_received(ReadOutcome::Bytes(b"abcd".to_vec()));
    assert!(matches!(g.read_message_blocking_step(), BlockingRead::Read(6)));
}

#[test]
fn blocking_write_steps() {
    let mut c = one(16, 64);
    assert_eq!(c.write_message_blocking(b"abc"), BlockingWrite::Write);
    assert!(!c.interest.is_writable());
    assert_eq!(c.write_message_blocking_next(WriteOutcome::Wrote(1)), BlockingWrite::Write);
    assert_eq!(c.back_buf.data(), b"bc\0");
    assert_eq!(c.write_message_blocking_next(WriteOutcome::Wrote(3)), BlockingWrite::Done(true));
    assert_eq!(c.write_message_blocking(b"d"), BlockingWrite::Write);
    assert_eq!(c.write_message_blocking_next(WriteOutcome::Wrote(0)), BlockingWrite::Done(false));
    assert_eq!(c.write_message_blocking_next(WriteOutcome::Failed), BlockingWrite::Done(true));
    let mut small = one(4, 4);
    assert_eq!(small.write_message_blocking(b"toolong"), BlockingWrite::Done(false));
}

#[test]
fn into_and_mode_keep_state() {
    let mut c = one(16, 64);
    c.write_message_nonblocking(b"q");
    c.set_blocking_flag(true);
    assert!(c.blocking());
    let d: Channel<u8, u8> = c.into();
    assert!(d.blocking());
    assert_eq!(d.back_buf.data(), b"q\0");
    assert_eq!(d.max_buffer_size(), 64);
}

#[test]
fn messages_cross_the_stream_in_order() {
    let (mut tx, mut rx) = pair(16, 1024);
    let sent = ["{\"id\":\"a\"}", "second message", "é and more"];
    for m in sent.iter() {
        assert!(tx.write_message_nonblocking(m.as_bytes()));
    }
    let written = pump_write(&mut tx).unwrap();
    assert_eq!(written, sent.iter().map(|m| m.len() + 1).sum::<usize>());
    let mut got = Vec::new();
    while got.len() < sent.len() {
        let _ = pump_read(&mut rx);
        match rx.read_message_nonblocking() {
            FrameRead::Text(s) => got.push(s),
            FrameRead::NotUtf8 => panic!("not utf-8"),
            FrameRead::Incomplete => {}
        }
    }
    assert_eq!(got, sent.iter().map(|s| s.to_string()).collect::<Vec<_>>());
}
