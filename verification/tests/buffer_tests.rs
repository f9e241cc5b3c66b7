use stream_stuff_on_a_sozu_channel::buffer::Buffer;

#[test]
fn new_buffer_is_empty() {
    let b = Buffer::with_capacity(10);
    assert_eq!(b.capacity(), 10);
    assert_eq!(b.available_data(), 0);
    assert_eq!(b.available_space(), 10);
    assert!(b.empty());
    assert_eq!(b.data(), &[] as &[u8]);
}

#[test]
fn write_appends_what_fits() {
    let mut b = Buffer::with_capacity(5);
    assert_eq!(b.write(&[1, 2, 3]), 3);
    assert_eq!(b.data(), &[1, 2, 3]);
    assert_eq!(b.available_space(), 2);
    assert_eq!(b.write(&[4, 5, 6, 7]), 2);
    assert_eq!(b.data(), &[1, 2, 3, 4, 5]);
    assert_eq!(b.available_space(), 0);
    assert_eq!(b.write(&[8]), 0);
    assert_eq!(b.data(), &[1, 2, 3, 4, 5]);
}

#[test]
fn consume_drops_front_bytes() {
    let mut b = Buffer::with_capacity(10);
    b.write(&[1, 2, 3, 4]);
    assert_eq!(b.consume(2), 2);
    assert_eq!(b.data(), &[3, 4]);
    // 2 bytes consumed is not more than half of 10: no shift
    assert_eq!(b.available_space(), 6);
    assert_eq!(b.consume(10), 2);
    assert!(b.empty());
}

#[test]
fn consume_past_half_shifts() {
    let mut b = Buffer::with_capacity(10);
    b.write(&[1, 2, 3, 4, 5, 6, 7]);
    assert_eq!(b.consume(6), 6);
    assert_eq!(b.data(), &[7]);
    // position 6 > 5: the data moved to the start
    assert_eq!(b.available_space(), 9);
}

#[test]
fn write_shifts_when_space_runs_low() {
    let mut b = Buffer::with_capacity(10);
    b.write(&[1, 2, 3, 4]);
    b.consume(3);
    // data [4] at 3..4, space 6
    assert_eq!(b.available_space(), 6);
    // after taking 3 bytes: end 7, space 3 < data 4 + 3: shift to the start
    assert_eq!(b.write(&[5, 6, 7]), 3);
    assert_eq!(b.data(), &[4, 5, 6, 7]);
    assert_eq!(b.available_space(), 6);
}

#[test]
fn shift_keeps_data() {
    let mut b = Buffer::with_capacity(8);
    b.write(&[9, 8, 7, 6]);
    b.consume(2);
    assert_eq!(b.available_space(), 4);
    b.shift();
    assert_eq!(b.data(), &[7, 6]);
    assert_eq!(b.available_space(), 6);
}

#[test]
fn grow_only_enlarges() {
    let mut b = Buffer::with_capacity(4);
    b.write(&[1, 2, 3, 4]);
    assert!(!b.grow(4));
    assert!(!b.grow(2));
    assert_eq!(b.capacity(), 4);
    assert!(b.grow(9));
    assert_eq!(b.capacity(), 9);
    assert_eq!(b.data(), &[1, 2, 3, 4]);
    assert_eq!(b.available_space(), 5);
}

#[test]
fn reset_drops_everything() {
    let mut b = Buffer::with_capacity(4);
    b.write(&[1, 2]);
    b.reset();
    assert!(b.empty());
    assert_eq!(b.available_space(), 4);
}

#[test]
fn first_in_first_out() {
    let mut b = Buffer::with_capacity(16);
    b.write(&[1, 2, 3]);
    b.write(&[4, 5]);
    b.consume(2);
    assert_eq!(b.data(), &[3, 4, 5]);
}
