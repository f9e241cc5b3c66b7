use vstd::prelude::*;

verus! {

/// Where data that lay from `start` to `end` in memory of `cap` bytes lies
/// once `n` more bytes are taken after it: the end moves by `n`, and when
/// the free space left is smaller than the data plus `n`, the data moves to
/// the start of memory.
pub open spec fn fill_layout(start: nat, end: nat, cap: nat, n: nat) -> (nat, nat) {
    let e = end + n;
    if cap - e < (e - start) + n && start > 0 {
        (0, (e - start) as nat)
    } else {
        (start, e)
    }
}

/// A growable byte buffer: the bytes between `position` and `end` of
/// `memory` are the data; the bytes from `end` to `capacity` are free space.
pub struct Buffer {
    memory: Vec<u8>,
    capacity: usize,
    position: usize,
    end: usize,
}

impl View for Buffer {
    type V = Seq<u8>;

    /// The data held, oldest byte first.
    closed spec fn view(&self) -> Seq<u8> {
        self.memory@.subrange(self.position as int, self.end as int)
    }
}

impl Buffer {
    /// Index in memory of the first byte of data.
    pub closed spec fn start_index(&self) -> nat {
        self.position as nat
    }

    /// Index in memory just past the last byte of data.
    pub closed spec fn end_index(&self) -> nat {
        self.end as nat
    }

    /// Number of bytes of memory.
    pub closed spec fn cap(&self) -> nat {
        self.capacity as nat
    }

    /// The memory is exactly `capacity` bytes long.
    pub closed spec fn memory_sized(&self) -> bool {
        self.memory@.len() == self.capacity
    }

    /// The buffer's invariant.
    pub open spec fn wf(&self) -> bool {
        &&& self.memory_sized()
        &&& self.start_index() <= self.end_index() <= self.cap()
        &&& self@.len() == self.end_index() - self.start_index()
    }

    /// Free bytes after the data.
    pub open spec fn space_spec(&self) -> nat {
        (self.cap() - self.end_index()) as nat
    }

    /// `after` is `self` with its data moved to the start of memory.
    pub open spec fn shift_spec(self, after: Buffer) -> bool {
        &&& after.wf()
        &&& after@ == self@
        &&& after.cap() == self.cap()
        &&& after.start_index() == 0
        &&& after.end_index() == self@.len()
    }

    /// `after` is `self` once `consume(count)` has dropped `cnt` bytes.
    pub open spec fn consume_spec(self, count: nat, cnt: nat, after: Buffer) -> bool {
        &&& after.wf()
        &&& cnt == if count < self@.len() { count } else { self@.len() }
        &&& after@ == self@.skip(cnt as int)
        &&& after.cap() == self.cap()
        &&& if self.start_index() + cnt > self.cap() / 2 {
            after.start_index() == 0 && after.end_index() == after@.len()
        } else {
            after.start_index() == self.start_index() + cnt && after.end_index() == self.end_index()
        }
    }

    /// `after` is `self` once `write(bytes)` has appended the first `n` of
    /// them.
    pub open spec fn write_spec(self, bytes: Seq<u8>, n: nat, after: Buffer) -> bool {
        &&& after.wf()
        &&& n == if bytes.len() < self.space_spec() { bytes.len() } else { self.space_spec() }
        &&& after@ == self@ + bytes.subrange(0, n as int)
        &&& after.cap() == self.cap()
        &&& (after.start_index(), after.end_index()) == fill_layout(
            self.start_index(),
            self.end_index(),
            self.cap(),
            n,
        )
    }

    /// `after` is `self` once `grow(new_size)` has run and returned `grown`.
    pub open spec fn grow_spec(self, new_size: nat, grown: bool, after: Buffer) -> bool {
        &&& after.wf()
        &&& grown == (self.cap() < new_size)
        &&& after@ == self@
        &&& after.start_index() == self.start_index()
        &&& after.end_index() == self.end_index()
        &&& after.cap() == if grown { new_size } else { self.cap() }
    }

    /// A buffer of `capacity` zeroed bytes that holds no data.
    pub fn with_capacity(capacity: usize) -> (b: Buffer)
        ensures
            b.wf(),
            b@ == Seq::<u8>::empty(),
            b.start_index() == 0,
            b.end_index() == 0,
            b.cap() == capacity,
    {
        let memory: Vec<u8> = vec![0u8; capacity];
        let b = Buffer { memory, capacity, position: 0, end: 0 };
        assert(b@ =~= Seq::<u8>::empty());
        b
    }

    /// Number of bytes of data.
    pub fn available_data(&self) -> (n: usize)
        requires
            self.wf(),
        ensures
            n == self@.len(),
    {
        self.end - self.position
    }

    /// Number of free bytes after the data.
    pub fn available_space(&self) -> (n: usize)
        requires
            self.wf(),
        ensures
            n == self.space_spec(),
    {
        self.capacity - self.end
    }

    /// Number of bytes of memory.
    pub fn capacity(&self) -> (n: usize)
        ensures
            n == self.cap(),
    {
        self.capacity
    }

    /// The buffer holds no data.
    pub fn empty(&self) -> (b: bool)
        requires
            self.wf(),
        ensures
            b == (self@.len() == 0),
    {
        self.position == self.end
    }

    /// The data held.
    pub fn data(&self) -> (d: &[u8])
        requires
            self.wf(),
        ensures
            d@ == self@,
    {
        let d = &self.memory.as_slice()[self.position..self.end];
        d
    }

    /// Drops all data.
    pub fn reset(&mut self)
        requires
            old(self).wf(),
        ensures
            final(self).wf(),
            final(self)@ == Seq::<u8>::empty(),
            final(self).start_index() == 0,
            final(self).end_index() == 0,
            final(self).cap() == old(self).cap(),
    {
        self.position = 0;
        self.end = 0;
        assert(self@ =~= Seq::<u8>::empty());
    }

    /// Moves the data to the start of memory; the data itself is unchanged.
    pub fn shift(&mut self)
        requires
            old(self).wf(),
        ensures
            old(self).shift_spec(*final(self)),
            final(self).wf(),
            final(self)@ == old(self)@,
            final(self).cap() == old(self).cap(),
            final(self).start_index() == 0,
            final(self).end_index() == old(self)@.len(),
    {
        let pos = self.position;
        let end = self.end;
        if pos > 0 {
            let length = end - pos;
            let ghost data = self@;
            let mut i: usize = 0;
            while i < length
                invariant
                    old(self).wf(),
                    old(self).position == pos,
                    old(self).end == end,
                    pos > 0,
                    length == end - pos,
                    pos <= end <= self.capacity,
                    self.memory@.len() == self.capacity,
                    data == old(self).memory@.subrange(pos as int, end as int),
                    i <= length,
                    forall|j: int| 0 <= j < i ==> #[trigger] self.memory@[j] == data[j],
                    forall|j: int|
                        i <= j < self.memory@.len() ==> #[trigger] self.memory@[j] == old(
                            self,
                        ).memory@[j],
                    self.position == pos,
                    self.end == end,
                    self.capacity == old(self).capacity,
                decreases length - i,
            {
                let byte = self.memory[pos + i];
                assert(byte == data[i as int]);
                self.memory[i] = byte;
                i = i + 1;
            }
            self.position = 0;
            self.end = length;
            assert(self@ =~= data);
        }
    }

    /// Drops up to `count` bytes from the front of the data and returns how
    /// many were dropped; when more than half the memory lies before the
    /// data, the data is shifted to the start.
    pub fn consume(&mut self, count: usize) -> (cnt: usize)
        requires
            old(self).wf(),
        ensures
            old(self).consume_spec(count as nat, cnt as nat, *final(self)),
            final(self).wf(),
            cnt == if count < old(self)@.len() { count as nat } else { old(self)@.len() },
            final(self)@ == old(self)@.skip(cnt as int),
            old(self)@ == old(self)@.take(cnt as int) + final(self)@,
            final(self).cap() == old(self).cap(),
            old(self).start_index() + cnt > old(self).cap() / 2 ==> final(self).start_index() == 0
                && final(self).end_index() == final(self)@.len(),
            old(self).start_index() + cnt <= old(self).cap() / 2 ==> final(self).start_index()
                == old(self).start_index() + cnt && final(self).end_index()
                == old(self).end_index(),
    {
        let avail = self.end - self.position;
        let cnt = if count < avail {
            count
        } else {
            avail
        };
        self.position = self.position + cnt;
        assert(self@ =~= old(self)@.skip(cnt as int));
        if self.position > self.capacity / 2 {
            self.shift();
        }
        cnt
    }

    /// Takes up to `count` free bytes after the data into the data and
    /// returns how many were taken; when the free space left is smaller than
    /// the data plus the bytes taken, the data is shifted to the start.
    fn fill(&mut self, count: usize) -> (cnt: usize)
        requires
            old(self).wf(),
        ensures
            final(self).wf(),
            cnt == if count < old(self).space_spec() { count as nat } else { old(self).space_spec() },
            final(self)@ == old(self).memory@.subrange(
                old(self).start_index() as int,
                old(self).end_index() + cnt,
            ),
            final(self).cap() == old(self).cap(),
            (final(self).start_index(), final(self).end_index()) == fill_layout(
                old(self).start_index(),
                old(self).end_index(),
                old(self).cap(),
                cnt as nat,
            ),
    {
        let space = self.capacity - self.end;
        let cnt = if count < space {
            count
        } else {
            space
        };
        self.end = self.end + cnt;
        let space = self.capacity - self.end;
        let data = self.end - self.position;
        if space < data || space - data < cnt {
            self.shift();
        }
        cnt
    }

    /// Copies as many bytes of `buf` as fit after the data, appends them to
    /// the data, and returns how many were copied.
    pub fn write(&mut self, buf: &[u8]) -> (n: usize)
        requires
            old(self).wf(),
        ensures
            old(self).write_spec(buf@, n as nat, *final(self)),
            final(self).wf(),
            n == if buf@.len() < old(self).space_spec() { buf@.len() } else { old(self).space_spec() },
            final(self)@ == old(self)@ + buf@.subrange(0, n as int),
            final(self).cap() == old(self).cap(),
            ({
                let e = old(self).end_index() + n;
                let p = old(self).start_index();
                if old(self).cap() - e < (e - p) + n && p > 0 {
                    final(self).start_index() == 0 && final(self).end_index() == e - p
                } else {
                    final(self).start_index() == p && final(self).end_index() == e
                }
            }),
    {
        let space = self.capacity - self.end;
        let n = if buf.len() < space {
            buf.len()
        } else {
            space
        };
        let end = self.end;
        let mut i: usize = 0;
        while i < n
            invariant
                n <= buf@.len(),
                end + n <= self.capacity,
                end == self.end,
                self.position == old(self).position,
                self.end == old(self).end,
                self.capacity == old(self).capacity,
                self.memory@.len() == self.capacity,
                self.position <= self.end,
                i <= n,
                forall|j: int| 0 <= j < end ==> #[trigger] self.memory@[j] == old(self).memory@[j],
                forall|j: int| 0 <= j < i ==> #[trigger] self.memory@[end + j] == buf@[j],
            decreases n - i,
        {
            self.memory[end + i] = buf[i];
            i = i + 1;
        }
        let ghost mid = *self;
        assert(mid.memory@.subrange(mid.position as int, (end + n) as int) =~= old(self)@
            + buf@.subrange(0, n as int)) by {
            assert forall|k: int| 0 <= k < (end + n) - mid.position implies mid.memory@.subrange(
                mid.position as int,
                (end + n) as int,
            )[k] == (old(self)@ + buf@.subrange(0, n as int))[k] by {
                if k < end - mid.position {
                } else {
                    let j = k - (end - mid.position);
                    assert(mid.memory@[end + j] == buf@[j]);
                }
            }
        }
        let filled = self.fill(n);
        assert(filled == n);
        n
    }

    /// Enlarges the memory to `new_size` bytes when it is smaller and tells
    /// whether it did; the data and its place in memory are unchanged.
    pub fn grow(&mut self, new_size: usize) -> (grown: bool)
        requires
            old(self).wf(),
        ensures
            old(self).grow_spec(new_size as nat, grown, *final(self)),
            final(self).wf(),
            grown == (old(self).cap() < new_size),
            final(self)@ == old(self)@,
            final(self).start_index() == old(self).start_index(),
            final(self).end_index() == old(self).end_index(),
            final(self).cap() == if old(self).cap() < new_size { new_size as nat } else { old(self).cap() },
    {
        if self.capacity >= new_size {
            return false;
        }
        let ghost before = self.memory@;
        self.memory.resize(new_size, 0u8);
        self.capacity = new_size;
        assert(self.memory@.subrange(0, before.len() as int) == before);
        assert(self@ =~= old(self)@) by {
            assert forall|k: int| 0 <= k < self.end - self.position implies self@[k] == old(self)@[k] by {
                assert(self.memory@.subrange(0, before.len() as int)[self.position + k] == before[self.position + k]);
            }
        }
        true
    }
}

/// Bytes come out of a buffer in the order they went in: appending bytes
/// and then dropping no more bytes than it held before leaves the rest of
/// the earlier data followed by the appended bytes.
pub proof fn lemma_first_in_first_out(
    b0: Buffer,
    bytes: Seq<u8>,
    n: nat,
    b1: Buffer,
    k: nat,
    b2: Buffer,
)
    requires
        b0.write_spec(bytes, n, b1),
        b1.consume_spec(k, k, b2),
        k <= b0@.len(),
    ensures
        b2@ == b0@.skip(k as int) + bytes.subrange(0, n as int),
{
    assert(b2@ =~= b0@.skip(k as int) + bytes.subrange(0, n as int));
}

/// What `consume` leaves: the old data is the dropped bytes followed by the
/// data left, and either every byte asked for was dropped or no data is
/// left; the buffer keeps its size.
pub proof fn lemma_consume_drops_prefix(b: Buffer, count: nat, cnt: nat, after: Buffer)
    requires
        b.consume_spec(count, cnt, after),
    ensures
        after.wf(),
        b@ == b@.take(cnt as int) + after@,
        after@ == b@.skip(cnt as int),
        cnt <= count,
        cnt <= b@.len(),
        cnt == count || after@.len() == 0,
        after@.len() == b@.len() - cnt,
        after.cap() == b.cap(),
{
    assert(b@ =~= b@.take(cnt as int) + after@);
}

/// What `write` leaves: the old data followed by the first `n` given bytes,
/// where `n` is every given byte or else all the free space there was; the
/// buffer keeps its size, and the free space shrinks by at most `n`.
pub proof fn lemma_write_appends(b: Buffer, bytes: Seq<u8>, n: nat, after: Buffer)
    requires
        b.wf(),
        b.write_spec(bytes, n, after),
    ensures
        after.wf(),
        n <= bytes.len(),
        n <= b.space_spec(),
        n == bytes.len() || n == b.space_spec(),
        after@.len() == b@.len() + n,
        after@.take(b@.len() as int) == b@,
        after@.skip(b@.len() as int) == bytes.take(n as int),
        after.cap() == b.cap(),
        after.space_spec() + n >= b.space_spec(),
        after.start_index() == 0 || after.start_index() == b.start_index(),
{
    assert(after@.take(b@.len() as int) =~= b@);
    assert(after@.skip(b@.len() as int) =~= bytes.take(n as int));
}

/// What `grow` leaves: the same data in the same place, in a buffer of the
/// larger of its former size and the size asked for.
pub proof fn lemma_grow_keeps_data(b: Buffer, new_size: nat, grown: bool, after: Buffer)
    requires
        b.wf(),
        b.grow_spec(new_size, grown, after),
    ensures
        after.wf(),
        after@ == b@,
        after.cap() == if b.cap() < new_size { new_size } else { b.cap() },
        grown <==> after.cap() > b.cap(),
        after.space_spec() == b.space_spec() + (after.cap() - b.cap()),
{
}

/// What `shift` leaves: the same data, with all the free space after it.
pub proof fn lemma_shift_keeps_data(b: Buffer, after: Buffer)
    requires
        b.wf(),
        b.shift_spec(after),
    ensures
        after.wf(),
        after@ == b@,
        after.cap() == b.cap(),
        after.space_spec() == b.cap() - b@.len(),
        after.space_spec() >= b.space_spec(),
{
}

} // verus!
