use vstd::prelude::*;
use vstd::utf8::{encode_utf8, valid_utf8};

verus! {

/// No byte of `s` is the zero byte.
pub open spec fn no_zero(s: Seq<u8>) -> bool {
    forall|i: int| 0 <= i < s.len() ==> s[i] != 0u8
}

/// `p` is the index of the first zero byte of `s`.
pub open spec fn first_zero_at(s: Seq<u8>, p: int) -> bool {
    &&& 0 <= p < s.len()
    &&& s[p] == 0u8
    &&& no_zero(s.take(p))
}

/// A message on the wire: its bytes followed by one zero byte.
pub open spec fn encode_frame(msg: Seq<u8>) -> Seq<u8> {
    msg.push(0u8)
}

/// The first complete message of `s` and the bytes after its zero byte, or
/// `None` when `s` holds no zero byte.
pub open spec fn next_frame(s: Seq<u8>) -> Option<(Seq<u8>, Seq<u8>)> {
    if exists|p: int| first_zero_at(s, p) {
        let p = choose|p: int| first_zero_at(s, p);
        Some((s.take(p), s.skip(p + 1)))
    } else {
        None
    }
}

/// The messages written one after another on the wire.
pub open spec fn encode_frames(msgs: Seq<Seq<u8>>) -> Seq<u8>
    decreases msgs.len(),
{
    if msgs.len() == 0 {
        Seq::<u8>::empty()
    } else {
        encode_frame(msgs[0]) + encode_frames(msgs.drop_first())
    }
}

/// The complete messages of `s`, in order, and the bytes after the last one.
pub open spec fn decode_frames(s: Seq<u8>) -> (Seq<Seq<u8>>, Seq<u8>)
    decreases s.len(),
{
    match next_frame(s) {
        Some((m, rest)) => if rest.len() < s.len() {
            let (ms, tail) = decode_frames(rest);
            (seq![m] + ms, tail)
        } else {
            (Seq::empty(), s)
        },
        None => (Seq::empty(), s),
    }
}

/// Every message of `msgs` is free of zero bytes.
pub open spec fn all_no_zero(msgs: Seq<Seq<u8>>) -> bool {
    forall|i: int| 0 <= i < msgs.len() ==> no_zero(#[trigger] msgs[i])
}

/// A sequence has at most one first zero byte.
pub proof fn lemma_first_zero_unique(s: Seq<u8>, p: int, q: int)
    requires
        first_zero_at(s, p),
        first_zero_at(s, q),
    ensures
        p == q,
{
    if p < q {
        assert(s.take(q)[p] == s[p]);
    } else if q < p {
        assert(s.take(p)[q] == s[q]);
    }
}

/// `next_frame` cuts `s` at its first zero byte.
pub proof fn lemma_next_frame_at(s: Seq<u8>, p: int)
    requires
        first_zero_at(s, p),
    ensures
        next_frame(s) == Some((s.take(p), s.skip(p + 1))),
{
    let q = choose|q: int| first_zero_at(s, q);
    lemma_first_zero_unique(s, p, q);
}

/// A message free of zero bytes, framed and followed by any bytes, is cut
/// back out whole, and what follows it is left as it was.
pub proof fn lemma_frame_roundtrip(msg: Seq<u8>, rest: Seq<u8>)
    requires
        no_zero(msg),
    ensures
        next_frame(encode_frame(msg) + rest) == Some((msg, rest)),
{
    let s = encode_frame(msg) + rest;
    let p = msg.len() as int;
    assert(s.take(p) =~= msg);
    assert(first_zero_at(s, p));
    lemma_next_frame_at(s, p);
    assert(s.skip(p + 1) =~= rest);
}

/// Bytes without a zero byte hold no complete message.
pub proof fn lemma_no_frame_without_zero(s: Seq<u8>)
    ensures
        next_frame(s) is None <==> no_zero(s),
{
    if !no_zero(s) {
        let i = choose|i: int| 0 <= i < s.len() && s[i] == 0u8;
        lemma_exists_first_zero(s, i);
    }
}

/// A sequence with a zero byte at `i` has a first zero byte.
proof fn lemma_exists_first_zero(s: Seq<u8>, i: int)
    requires
        0 <= i < s.len(),
        s[i] == 0u8,
    ensures
        exists|p: int| first_zero_at(s, p),
    decreases i,
{
    if no_zero(s.take(i)) {
        assert(first_zero_at(s, i));
    } else {
        let j = choose|j: int| 0 <= j < s.take(i).len() && s.take(i)[j] == 0u8;
        lemma_exists_first_zero(s, j);
    }
}

/// Messages free of zero bytes, written one after another and followed by
/// a partial message without a zero byte, read back as the same messages
/// in the same order, with the partial message left over.
pub proof fn lemma_frames_roundtrip(msgs: Seq<Seq<u8>>, partial: Seq<u8>)
    requires
        all_no_zero(msgs),
        no_zero(partial),
    ensures
        decode_frames(encode_frames(msgs) + partial) == (msgs, partial),
    decreases msgs.len(),
{
    let s = encode_frames(msgs) + partial;
    if msgs.len() == 0 {
        assert(s =~= partial);
        lemma_no_frame_without_zero(partial);
        assert(decode_frames(s) == (Seq::<Seq<u8>>::empty(), s));
        assert(msgs =~= Seq::<Seq<u8>>::empty());
    } else {
        let tail = msgs.drop_first();
        assert(all_no_zero(tail)) by {
            assert forall|i: int| 0 <= i < tail.len() implies no_zero(#[trigger] tail[i]) by {
                assert(tail[i] == msgs[i + 1]);
            }
        }
        assert(no_zero(msgs[0]));
        let rest = encode_frames(tail) + partial;
        assert(s =~= encode_frame(msgs[0]) + rest);
        lemma_frame_roundtrip(msgs[0], rest);
        lemma_frames_roundtrip(tail, partial);
        assert(seq![msgs[0]] + tail =~= msgs);
    }
}

/// Cutting the first message out of `s` is unaffected by bytes appended
/// after it.
pub proof fn lemma_next_frame_append(s: Seq<u8>, t: Seq<u8>)
    requires
        next_frame(s) is Some,
    ensures
        next_frame(s + t) == Some((next_frame(s).unwrap().0, next_frame(s).unwrap().1 + t)),
{
    let p = choose|p: int| first_zero_at(s, p);
    lemma_next_frame_at(s, p);
    let st = s + t;
    assert(st.take(p) =~= s.take(p));
    assert(first_zero_at(st, p));
    lemma_next_frame_at(st, p);
    assert(st.skip(p + 1) =~= s.skip(p + 1) + t);
}

/// Bytes that hold only complete messages, followed by one more framed
/// message free of zero bytes, hold the same messages and then that one.
pub proof fn lemma_decode_append_frame(s: Seq<u8>, msg: Seq<u8>)
    requires
        decode_frames(s).1.len() == 0,
        no_zero(msg),
    ensures
        decode_frames(s + encode_frame(msg)) == (decode_frames(s).0.push(msg), Seq::<u8>::empty()),
    decreases s.len(),
{
    let t = encode_frame(msg);
    match next_frame(s) {
        Some((m0, r)) => {
            let p = choose|p: int| first_zero_at(s, p);
            lemma_next_frame_at(s, p);
            assert(r.len() < s.len());
            lemma_next_frame_append(s, t);
            lemma_decode_append_frame(r, msg);
            assert((s + t).len() > (r + t).len());
            let (ms, _tail) = decode_frames(r);
            assert(seq![m0] + ms.push(msg) =~= (seq![m0] + ms).push(msg));
        },
        None => {
            assert(s =~= Seq::<u8>::empty());
            assert(s + t =~= t);
            lemma_frame_roundtrip(msg, Seq::<u8>::empty());
            assert(t + Seq::<u8>::empty() =~= t);
            let e = Seq::<u8>::empty();
            assert(next_frame(e) is None) by {
                lemma_no_frame_without_zero(e);
            }
            assert(decode_frames(e) == (Seq::<Seq<u8>>::empty(), e));
            assert(Seq::<Seq<u8>>::empty().push(msg) =~= seq![msg] + Seq::<Seq<u8>>::empty());
        },
    }
}

/// Index of the first zero byte of `data`, if any.
pub fn find_zero(data: &[u8]) -> (r: Option<usize>)
    ensures
        r matches Some(p) ==> first_zero_at(data@, p as int),
        r is None ==> no_zero(data@),
{
    let mut i: usize = 0;
    while i < data.len()
        invariant
            i <= data@.len(),
            no_zero(data@.take(i as int)),
        decreases data@.len() - i,
    {
        if data[i] == 0u8 {
            return Some(i);
        }
        assert(data@.take(i + 1) =~= data@.take(i as int).push(data@[i as int]));
        i = i + 1;
    }
    assert(data@.take(i as int) =~= data@);
    None
}

/// Calls `std::str::from_utf8`, which returns the bytes as a string slice
/// exactly when they are valid UTF-8. Claimed here: the result is present
/// exactly when vstd's `valid_utf8` holds of the bytes, and then its UTF-8
/// encoding is the bytes themselves.
#[verifier::external_body]
fn utf8_str(bytes: &[u8]) -> (r: Option<&str>)
    ensures
        r is Some <==> valid_utf8(bytes@),
        r matches Some(s) ==> encode_utf8(s@) == bytes@,
{
    match std::str::from_utf8(bytes) {
        Ok(s) => Some(s),
        Err(_) => None,
    }
}

/// The bytes as an owned string when they are valid UTF-8.
pub fn utf8_string(bytes: &[u8]) -> (r: Option<String>)
    ensures
        r is Some <==> valid_utf8(bytes@),
        r matches Some(s) ==> encode_utf8(s@) == bytes@,
{
    match utf8_str(bytes) {
        Some(s) => Some(s.to_owned()),
        None => None,
    }
}

} // verus!
