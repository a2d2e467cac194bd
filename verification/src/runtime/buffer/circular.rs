//! Host circular buffer: one contiguous allocation with a read and a write
//! cursor, measured in items of a fixed byte size.

use vstd::prelude::*;
use vstd::slice::slice_subrange;

verus! {

/// Why a circular buffer could not be built.
#[derive(Debug, Clone, Copy, PartialEq, Eq, Structural)]
pub enum BufferError {
    /// Items must occupy at least one byte.
    ZeroItemSize,
    /// A buffer must hold at least one item.
    ZeroCapacity,
    /// The byte size of the region exceeds what one allocation can hold.
    TooLarge,
}

/// One operation on the cursors of a circular buffer.
pub enum CursorOp {
    /// The writer commits this many items.
    Produce(nat),
    /// The reader releases this many items.
    Consume(nat),
}

/// Abstract state of a circular buffer.
///
/// The cursors count items since the buffer was created and never wrap.
pub struct BufferState {
    /// Bytes per item.
    pub item_size: nat,
    /// Items the region holds.
    pub capacity: nat,
    /// Every byte produced so far, in production order.
    pub stream: Seq<u8>,
    /// Items consumed so far.
    pub read_cursor: nat,
    /// Items produced so far.
    pub write_cursor: nat,
    /// Current content of the contiguous region open for production.
    pub staged: Seq<u8>,
    /// The writer announced that it will never produce again.
    pub writer_finished: bool,
    /// The reader announced that it will never consume again.
    pub reader_finished: bool,
}

impl BufferState {
    /// Items produced and not yet consumed.
    pub open spec fn available(self) -> nat {
        (self.write_cursor - self.read_cursor) as nat
    }

    /// Items that can be produced before the buffer is full.
    pub open spec fn space(self) -> nat {
        (self.capacity - self.available()) as nat
    }

    /// Items readable in one slice: all that are available. The region is
    /// kept twice, so that no slice is cut short where the ring wraps.
    pub open spec fn read_window(self) -> nat {
        self.available()
    }

    /// Items writable in one region: all that there is space for.
    pub open spec fn write_window(self) -> nat {
        self.space()
    }

    /// The bytes exposed to the reader: every unconsumed item, oldest first.
    pub open spec fn readable(self) -> Seq<u8> {
        self.stream.subrange(
            (self.read_cursor * self.item_size) as int,
            ((self.read_cursor + self.read_window()) * self.item_size) as int,
        )
    }

    /// The cursor invariant together with the sizes it relates.
    pub open spec fn valid(self) -> bool {
        &&& self.item_size > 0
        &&& self.capacity > 0
        &&& self.read_cursor <= self.write_cursor <= self.read_cursor + self.capacity
        &&& self.stream.len() == self.write_cursor * self.item_size
        &&& self.staged.len() == self.write_window() * self.item_size
    }

    /// What the reader observes as "finished": the writer is done and
    /// everything it produced has been consumed.
    pub open spec fn finished(self) -> bool {
        self.writer_finished && self.available() == 0
    }

    /// `next` is this state after the reader released `n` items.
    pub open spec fn consumed_to(self, next: BufferState, n: nat) -> bool {
        &&& next.item_size == self.item_size
        &&& next.capacity == self.capacity
        &&& next.stream == self.stream
        &&& next.read_cursor == self.read_cursor + n
        &&& next.write_cursor == self.write_cursor
        &&& next.writer_finished == self.writer_finished
        &&& next.reader_finished == self.reader_finished
    }

    /// `next` is this state after the writer committed the first `n` staged items.
    pub open spec fn produced_to(self, next: BufferState, n: nat) -> bool {
        &&& next.item_size == self.item_size
        &&& next.capacity == self.capacity
        &&& next.stream == self.stream + self.staged.subrange(0, (n * self.item_size) as int)
        &&& next.read_cursor == self.read_cursor
        &&& next.write_cursor == self.write_cursor + n
        &&& next.writer_finished == self.writer_finished
        &&& next.reader_finished == self.reader_finished
    }

    /// This state with `src` staged `offset` bytes into the region open for production.
    pub open spec fn stage(self, offset: nat, src: Seq<u8>) -> BufferState {
        BufferState {
            staged: self.staged.subrange(0, offset as int) + src + self.staged.subrange(
                (offset + src.len()) as int,
                self.staged.len() as int,
            ),
            ..self
        }
    }
}

/// The cursor pair `(read, write)` of a buffer of `capacity` items is ordered
/// when the reader is not ahead of the writer and the writer is at most one
/// capacity ahead of the reader.
pub open spec fn cursors_ordered(cursors: (nat, nat), capacity: nat) -> bool {
    cursors.0 <= cursors.1 <= cursors.0 + capacity
}

/// Whether `op` respects `capacity` at `cursors`.
pub open spec fn cursors_permit(cursors: (nat, nat), capacity: nat, op: CursorOp) -> bool {
    match op {
        CursorOp::Produce(n) => cursors.1 + n <= cursors.0 + capacity,
        CursorOp::Consume(n) => cursors.0 + n <= cursors.1,
    }
}

/// The cursors after `op`.
pub open spec fn cursors_step(cursors: (nat, nat), op: CursorOp) -> (nat, nat) {
    match op {
        CursorOp::Produce(n) => (cursors.0, cursors.1 + n),
        CursorOp::Consume(n) => (cursors.0 + n, cursors.1),
    }
}

/// The cursors after the first `k` operations of `ops`.
pub open spec fn cursors_after(cursors: (nat, nat), ops: Seq<CursorOp>, k: nat) -> (nat, nat)
    decreases k,
{
    if k == 0 || k > ops.len() {
        cursors
    } else {
        cursors_step(cursors_after(cursors, ops, (k - 1) as nat), ops[k - 1])
    }
}

/// Every operation of `ops` respects the capacity at the point where it is applied.
pub open spec fn ops_permitted(cursors: (nat, nat), capacity: nat, ops: Seq<CursorOp>) -> bool {
    forall|k: nat|
        k < ops.len() ==> cursors_permit(
            #[trigger] cursors_after(cursors, ops, k),
            capacity,
            ops[k as int],
        )
}

/// For every sequence of produce and consume operations that respects the
/// capacity, the cursors stay ordered at every point of the sequence:
/// `read <= write <= read + capacity`.
pub proof fn lemma_cursors_stay_ordered(
    cursors: (nat, nat),
    capacity: nat,
    ops: Seq<CursorOp>,
    k: nat,
)
    requires
        cursors_ordered(cursors, capacity),
        ops_permitted(cursors, capacity, ops),
        k <= ops.len(),
    ensures
        cursors_ordered(cursors_after(cursors, ops, k), capacity),
    decreases k,
{
    if k > 0 {
        let prev = (k - 1) as nat;
        lemma_cursors_stay_ordered(cursors, capacity, ops, prev);
        assert(cursors_permit(cursors_after(cursors, ops, prev), capacity, ops[prev as int]));
    }
}

/// In a valid state the bytes exposed to the reader lie inside the stream
/// produced so far, and the windows never exceed what is available or free.
pub proof fn lemma_readable_is_produced(s: BufferState)
    requires
        s.valid(),
    ensures
        s.read_window() <= s.available(),
        s.write_window() <= s.space(),
        s.read_cursor + s.read_window() <= s.write_cursor,
        (s.read_cursor + s.read_window()) * s.item_size <= s.stream.len(),
        s.readable().len() == s.read_window() * s.item_size,
        s.available() > 0 <==> s.read_window() > 0,
        s.space() > 0 <==> s.write_window() > 0,
{
    let k = s.item_size as int;
    let r = s.read_cursor as int;
    let w = s.write_cursor as int;
    lemma_scale(r, w, k);
}

/// The reader sees a valid buffer as finished exactly when the writer is
/// done and the buffer is drained: then nothing is left to read.
pub proof fn lemma_finished_when_drained(s: BufferState)
    requires
        s.valid(),
    ensures
        s.finished() <==> s.writer_finished && s.read_cursor == s.write_cursor,
        s.finished() ==> s.read_window() == 0 && s.readable().len() == 0,
{
    lemma_readable_is_produced(s);
}

proof fn lemma_scale(a: int, b: int, k: int)
    requires
        0 <= a <= b,
        0 <= k,
    ensures
        0 <= a * k <= b * k,
        (b - a) * k == b * k - a * k,
        a < b ==> a * k + k <= b * k,
{
    assert(0 <= a * k <= b * k) by (nonlinear_arith)
        requires
            0 <= a <= b,
            0 <= k,
    ;
    assert((b - a) * k == b * k - a * k) by (nonlinear_arith);
    if a < b {
        assert((a + 1) * k <= b * k) by (nonlinear_arith)
            requires
                0 <= a + 1 <= b,
                0 <= k,
        ;
        assert((a + 1) * k == a * k + k) by (nonlinear_arith);
    }
}

/// Position in a ring of `size` slots of the offset `x`, for `0 <= x < 2 * size`.
spec fn ring(x: int, size: int) -> int {
    if x < size {
        x
    } else {
        x - size
    }
}

/// A host circular buffer shared by the writer of one output port and the
/// reader of one input port.
///
/// The region is held twice, one copy behind the other, and every byte is
/// written to both copies. A run of bytes that wraps around the end of the
/// ring is therefore found in one piece, starting in the first copy and
/// running into the second.
pub struct CircularBuffer {
    data: Vec<u8>,
    item_size: usize,
    capacity_items: usize,
    read_index: usize,
    available: usize,
    writer_finished: bool,
    reader_finished: bool,
    produced: Ghost<Seq<u8>>,
    consumed: Ghost<nat>,
}

impl CircularBuffer {
    spec fn cap_bytes(&self) -> int {
        self.capacity_items * self.item_size
    }

    spec fn read_byte(&self) -> int {
        self.read_index * self.item_size
    }

    spec fn avail_bytes(&self) -> int {
        self.available * self.item_size
    }

    spec fn consumed_bytes(&self) -> int {
        self.consumed@ * self.item_size
    }

    spec fn write_index(&self) -> int {
        ring(self.read_index + self.available, self.capacity_items as int)
    }

    spec fn write_byte(&self) -> int {
        self.write_index() * self.item_size
    }

    spec fn space_bytes(&self) -> int {
        (self.capacity_items - self.available) * self.item_size
    }

    /// Position in the first copy of the `b`-th byte that is produced and
    /// not consumed.
    spec fn pending_pos(&self, b: int) -> int {
        ring(self.read_byte() + b, self.cap_bytes())
    }

    /// Position in the second copy of the byte at `x` in the first.
    spec fn twin(&self, x: int) -> int {
        x + self.cap_bytes()
    }

    /// The abstract state of the buffer.
    pub closed spec fn view(&self) -> BufferState {
        BufferState {
            item_size: self.item_size as nat,
            capacity: self.capacity_items as nat,
            stream: self.produced@,
            read_cursor: self.consumed@,
            write_cursor: self.consumed@ + self.available as nat,
            staged: self.data@.subrange(self.write_byte(), self.write_byte() + self.space_bytes()),
            writer_finished: self.writer_finished,
            reader_finished: self.reader_finished,
        }
    }

    /// Representation invariant: the two copies of the region are equal,
    /// and the ring holds the unconsumed tail of the stream from the read
    /// index on.
    pub closed spec fn wf(&self) -> bool {
        &&& self.item_size > 0
        &&& self.capacity_items > 0
        &&& self.data.len() == 2 * self.cap_bytes()
        &&& self.read_index < self.capacity_items
        &&& self.available <= self.capacity_items
        &&& self.produced@.len() == self.consumed_bytes() + self.avail_bytes()
        &&& forall|x: int| 0 <= x < self.cap_bytes() ==> self.data@[x] == self.data@[#[trigger] self.twin(x)]
        &&& forall|b: int|
            0 <= b < self.avail_bytes() ==> self.data@[#[trigger] self.pending_pos(b)]
                == self.produced@[self.consumed_bytes() + b]
    }

    /// Linear facts about the byte layout that follow from the invariant.
    proof fn lemma_layout(&self)
        requires
            self.wf(),
        ensures
            self@.valid(),
            2 * self.cap_bytes() == self.data@.len(),
            self.capacity_items <= self.cap_bytes(),
            0 <= self.read_byte(),
            self.read_byte() + self.item_size <= self.cap_bytes(),
            0 <= self.avail_bytes() <= self.cap_bytes(),
            0 <= self.consumed_bytes(),
            self.write_byte() == ring(self.read_byte() + self.avail_bytes(), self.cap_bytes()),
            self.space_bytes() == self.cap_bytes() - self.avail_bytes(),
            0 <= self.write_index() < self.capacity_items,
            self@.available() == self.available,
            self@.read_cursor * self@.item_size == self.consumed_bytes(),
            self@.staged.len() == self.space_bytes(),
    {
        let k = self.item_size as int;
        let c = self.capacity_items as int;
        let ri = self.read_index as int;
        let a = self.available as int;
        let wi = self.write_index();
        lemma_scale(ri + 1, c, k);
        lemma_scale(ri, ri + 1, k);
        lemma_scale(a, c, k);
        lemma_scale(0, self.consumed@ as int, k);
        lemma_scale(wi, c, k);
        lemma_scale(ri, c, k);
        assert(c <= c * k) by (nonlinear_arith)
            requires
                0 < c,
                1 <= k,
        ;
        assert((ri + a) * k == ri * k + a * k) by (nonlinear_arith);
        assert((ri + a - c) * k == ri * k + a * k - c * k) by (nonlinear_arith);
        assert((self.consumed@ + a) * k == self.consumed@ * k + a * k) by (nonlinear_arith);
        if ri + a < c {
            lemma_scale(ri + a, c, k);
        } else {
            lemma_scale(c, ri + a, k);
        }
    }

    /// The invariant does not depend on the two finished flags.
    proof fn lemma_flags_irrelevant(&self, other: &CircularBuffer)
        requires
            self.wf(),
            other.data == self.data,
            other.item_size == self.item_size,
            other.capacity_items == self.capacity_items,
            other.read_index == self.read_index,
            other.available == self.available,
            other.produced == self.produced,
            other.consumed == self.consumed,
        ensures
            other.wf(),
            other@.staged == self@.staged,
    {
        assert forall|b: int| 0 <= b < other.avail_bytes() implies other.data@[#[trigger] other.pending_pos(
            b,
        )] == other.produced@[other.consumed_bytes() + b] by {
            assert(other.pending_pos(b) == self.pending_pos(b));
        }
        assert forall|x: int| 0 <= x < other.cap_bytes() implies other.data@[x] == other.data@[#[trigger] other.twin(
            x,
        )] by {
            assert(other.twin(x) == self.twin(x));
        }
    }

    /// The invariant of the representation implies the cursor invariant of
    /// the abstract state: `read_cursor <= write_cursor <= read_cursor + capacity`.
    pub proof fn lemma_valid(&self)
        requires
            self.wf(),
        ensures
            self@.valid(),
            cursors_ordered((self@.read_cursor, self@.write_cursor), self@.capacity),
            self@.staged.len() <= usize::MAX,
    {
        self.lemma_layout();
    }

    /// Creates an empty buffer for `capacity_items` items of `item_size`
    /// bytes. The region is held twice, so twice its bytes must fit one
    /// allocation.
    pub fn new(item_size: usize, capacity_items: usize) -> (r: Result<CircularBuffer, BufferError>)
        ensures
            item_size == 0 ==> r == Err::<CircularBuffer, BufferError>(BufferError::ZeroItemSize),
            item_size > 0 && capacity_items == 0 ==> r == Err::<CircularBuffer, BufferError>(
                BufferError::ZeroCapacity,
            ),
            item_size > 0 && capacity_items > 0 && 2 * item_size * capacity_items > isize::MAX ==> r
                == Err::<CircularBuffer, BufferError>(BufferError::TooLarge),
            item_size > 0 && capacity_items > 0 && 2 * item_size * capacity_items <= isize::MAX
                ==> r is Ok,
            r matches Ok(b) ==> {
                &&& b.wf()
                &&& b@.item_size == item_size
                &&& b@.capacity == capacity_items
                &&& b@.stream == Seq::<u8>::empty()
                &&& b@.read_cursor == 0
                &&& b@.write_cursor == 0
                &&& b@.staged == Seq::new((item_size * capacity_items) as nat, |i: int| 0u8)
                &&& !b@.writer_finished
                &&& !b@.reader_finished
            },
    {
        if item_size == 0 {
            return Err(BufferError::ZeroItemSize);
        }
        if capacity_items == 0 {
            return Err(BufferError::ZeroCapacity);
        }
        proof {
            assert(item_size * capacity_items == capacity_items * item_size) by (nonlinear_arith);
            assert(2 * item_size * capacity_items == 2 * (capacity_items * item_size)) by (nonlinear_arith);
        }
        let bytes = match capacity_items.checked_mul(item_size) {
            Some(b) => b,
            None => {
                return Err(BufferError::TooLarge);
            },
        };
        if bytes > (isize::MAX as usize) / 2 {
            return Err(BufferError::TooLarge);
        }
        let data = vec![0u8; 2 * bytes];
        let b = CircularBuffer {
            data,
            item_size,
            capacity_items,
            read_index: 0,
            available: 0,
            writer_finished: false,
            reader_finished: false,
            produced: Ghost(Seq::empty()),
            consumed: Ghost(0),
        };
        proof {
            assert(0 * (item_size as int) == 0) by (nonlinear_arith);
            assert(b.write_index() == 0);
            assert(b.space_bytes() == bytes);
            assert(b@.staged =~= Seq::new((item_size * capacity_items) as nat, |i: int| 0u8));
            assert forall|x: int| 0 <= x < b.cap_bytes() implies b.data@[x] == b.data@[#[trigger] b.twin(
                x,
            )] by {}
        }
        Ok(b)
    }

    /// Bytes per item.
    pub fn item_size(&self) -> (n: usize)
        ensures
            n == self@.item_size,
    {
        self.item_size
    }

    /// Bytes in the region open for production.
    pub fn staged_len(&self) -> (n: usize)
        requires
            self.wf(),
        ensures
            n == self@.staged.len(),
            n == self@.write_window() * self@.item_size,
    {
        proof {
            self.lemma_layout();
        }
        (self.capacity_items - self.available) * self.item_size
    }

    /// Items the region holds.
    pub fn capacity(&self) -> (n: usize)
        ensures
            n == self@.capacity,
    {
        self.capacity_items
    }

    /// Items produced and not yet consumed.
    pub fn available(&self) -> (n: usize)
        requires
            self.wf(),
        ensures
            n == self@.available(),
    {
        self.available
    }

    /// Items that can still be produced before the buffer is full.
    pub fn space(&self) -> (n: usize)
        requires
            self.wf(),
        ensures
            n == self@.space(),
    {
        self.capacity_items - self.available
    }

    /// Items readable in one slice.
    pub fn read_window(&self) -> (n: usize)
        requires
            self.wf(),
        ensures
            n == self@.read_window(),
    {
        self.available
    }

    /// Items writable in one region.
    pub fn write_window(&self) -> (n: usize)
        requires
            self.wf(),
        ensures
            n == self@.write_window(),
    {
        self.capacity_items - self.available
    }

    fn exec_write_index(&self) -> (wi: usize)
        requires
            self.wf(),
        ensures
            wi == self.write_index(),
    {
        let to_end = self.capacity_items - self.read_index;
        if self.available < to_end {
            self.read_index + self.available
        } else {
            self.available - to_end
        }
    }

    /// The region available for consumption: every unconsumed item, oldest
    /// first, in one slice.
    pub fn read_slice(&self) -> (s: &[u8])
        requires
            self.wf(),
        ensures
            s@ == self@.readable(),
            s@.len() == self@.read_window() * self@.item_size,
    {
        proof {
            self.lemma_layout();
            lemma_readable_is_produced(self@);
            assert((self.consumed@ + self.available) * self.item_size == self.consumed@
                * self.item_size + self.available * self.item_size) by (nonlinear_arith);
        }
        let start = self.read_index * self.item_size;
        let end = start + self.available * self.item_size;
        let s = slice_subrange(self.data.as_slice(), start, end);
        proof {
            assert forall|i: int| 0 <= i < s@.len() implies s@[i] == self@.readable()[i] by {
                let p = self.pending_pos(i);
                assert(self.data@[p] == self.produced@[self.consumed_bytes() + i]);
                if start + i >= self.cap_bytes() {
                    assert(self.twin(p) == start + i);
                }
            }
            assert(s@ =~= self@.readable());
        }
        s
    }

    /// Advances the read cursor by `n` items.
    pub fn consume(&mut self, n: usize)
        requires
            old(self).wf(),
            n <= old(self)@.read_window(),
        ensures
            final(self).wf(),
            old(self)@.consumed_to(final(self)@, n as nat),
            (final(self)@.read_cursor, final(self)@.write_cursor) == cursors_step(
                (old(self)@.read_cursor, old(self)@.write_cursor),
                CursorOp::Consume(n as nat),
            ),
    {
        proof {
            self.lemma_layout();
            lemma_scale(n as int, self.available as int, self.item_size as int);
            assert((self.read_index + n) * self.item_size == self.read_index * self.item_size + n
                * self.item_size) by (nonlinear_arith);
            assert((self.read_index + n - self.capacity_items) * self.item_size == self.read_index
                * self.item_size + n * self.item_size - self.capacity_items * self.item_size)
                by (nonlinear_arith);
            assert((self.consumed@ + n) * self.item_size == self.consumed@ * self.item_size + n
                * self.item_size) by (nonlinear_arith);
            assert((self.available - n) * self.item_size == self.available * self.item_size - n
                * self.item_size) by (nonlinear_arith);
        }
        let ghost shift = n * self.item_size;
        let to_end = self.capacity_items - self.read_index;
        if n >= to_end {
            self.read_index = n - to_end;
        } else {
            self.read_index = self.read_index + n;
        }
        self.available = self.available - n;
        self.consumed = Ghost((self.consumed@ + n) as nat);
        proof {
            assert forall|b: int| 0 <= b < self.avail_bytes() implies self.data@[#[trigger] self.pending_pos(
                b,
            )] == self.produced@[self.consumed_bytes() + b] by {
                assert(self.pending_pos(b) == old(self).pending_pos(b + shift));
            }
            assert forall|x: int| 0 <= x < self.cap_bytes() implies self.data@[x] == self.data@[#[trigger] self.twin(
                x,
            )] by {
                assert(self.twin(x) == old(self).twin(x));
            }
        }
    }

    /// Copies `src` into the region open for production, `offset` bytes from
    /// its start. Nothing is visible to the reader until `produce`.
    pub fn write(&mut self, offset: usize, src: &[u8])
        requires
            old(self).wf(),
            offset + src@.len() <= old(self)@.staged.len(),
        ensures
            final(self).wf(),
            final(self)@ == old(self)@.stage(offset as nat, src@),
    {
        proof {
            self.lemma_layout();
        }
        let wi = self.exec_write_index();
        proof {
            lemma_scale(wi as int, self.capacity_items as int, self.item_size as int);
        }
        let cap_bytes = self.capacity_items * self.item_size;
        let base = wi * self.item_size + offset;
        let len = src.len();
        let mut i: usize = 0;
        while i < len
            invariant
                i <= len,
                len == src@.len(),
                old(self).wf(),
                cap_bytes == old(self).cap_bytes(),
                base == old(self).write_byte() + offset,
                0 <= old(self).write_byte() < cap_bytes,
                offset + len <= old(self).space_bytes(),
                old(self).space_bytes() == cap_bytes - old(self).avail_bytes(),
                0 <= old(self).avail_bytes(),
                self.data@.len() == 2 * cap_bytes,
                self.data@.len() == old(self).data@.len(),
                self.item_size == old(self).item_size,
                self.capacity_items == old(self).capacity_items,
                self.read_index == old(self).read_index,
                self.available == old(self).available,
                self.writer_finished == old(self).writer_finished,
                self.reader_finished == old(self).reader_finished,
                self.produced == old(self).produced,
                self.consumed == old(self).consumed,
                forall|j: int|
                    0 <= j < self.data@.len() && !(base <= j < base + i) && !(base <= ring(
                        j + cap_bytes,
                        2 * cap_bytes,
                    ) < base + i) ==> self.data@[j] == old(self).data@[j],
                forall|j: int| 0 <= j < i ==> self.data@[base + j] == src@[j],
                forall|j: int|
                    0 <= j < i ==> self.data@[ring(base + j + cap_bytes, 2 * cap_bytes)] == src@[j],
            decreases len - i,
        {
            let x = base + i;
            let value = src[i];
            self.data[x] = value;
            if x < cap_bytes {
                self.data[x + cap_bytes] = value;
            } else {
                self.data[x - cap_bytes] = value;
            }
            i += 1;
        }
        proof {
            old(self).lemma_layout();
            let c = cap_bytes as int;
            assert forall|b: int| 0 <= b < self.avail_bytes() implies self.data@[#[trigger] self.pending_pos(
                b,
            )] == self.produced@[self.consumed_bytes() + b] by {
                assert(self.pending_pos(b) == old(self).pending_pos(b));
            }
            assert forall|x: int| 0 <= x < self.cap_bytes() implies self.data@[x] == self.data@[#[trigger] self.twin(
                x,
            )] by {
                assert(self.twin(x) == x + c);
                assert(old(self).twin(x) == x + c);
                assert(old(self).data@[x] == old(self).data@[old(self).twin(x)]);
                if base <= x < base + i {
                    let j = x - base;
                    assert(ring(base + j + c, 2 * c) == x + c);
                    assert(self.data@[base + j] == src@[j]);
                    assert(self.data@[ring(base + j + c, 2 * c)] == src@[j]);
                } else if base <= x + c < base + i {
                    let j = x + c - base;
                    assert(ring(base + j + c, 2 * c) == x);
                    assert(self.data@[base + j] == src@[j]);
                    assert(self.data@[ring(base + j + c, 2 * c)] == src@[j]);
                } else {
                    assert(ring(x + c, 2 * c) == x + c);
                    assert(ring(x + c + c, 2 * c) == x);
                    assert(self.data@[x] == old(self).data@[x]);
                    assert(self.data@[x + c] == old(self).data@[x + c]);
                }
            }
            assert(self@.staged =~= old(self)@.staged.subrange(0, offset as int) + src@ + old(
                self,
            )@.staged.subrange(offset + src@.len(), old(self)@.staged.len() as int));
        }
    }

    /// Advances the write cursor by `n` items: the first `n` staged items
    /// join the stream and become visible to the reader.
    pub fn produce(&mut self, n: usize)
        requires
            old(self).wf(),
            n <= old(self)@.write_window(),
        ensures
            final(self).wf(),
            old(self)@.produced_to(final(self)@, n as nat),
            (final(self)@.read_cursor, final(self)@.write_cursor) == cursors_step(
                (old(self)@.read_cursor, old(self)@.write_cursor),
                CursorOp::Produce(n as nat),
            ),
    {
        proof {
            self.lemma_layout();
            lemma_scale(n as int, self.capacity_items - self.available, self.item_size as int);
            assert((self.available + n) * self.item_size == self.available * self.item_size + n
                * self.item_size) by (nonlinear_arith);
        }
        let ghost added = self@.staged.subrange(0, n * self.item_size);
        let ghost start = self.write_byte();
        self.available = self.available + n;
        self.produced = Ghost(self.produced@ + added);
        proof {
            assert forall|b: int| 0 <= b < self.avail_bytes() implies self.data@[#[trigger] self.pending_pos(
                b,
            )] == self.produced@[self.consumed_bytes() + b] by {
                if b < old(self).avail_bytes() {
                    assert(self.pending_pos(b) == old(self).pending_pos(b));
                } else {
                    let k = b - old(self).avail_bytes();
                    let x = start + k;
                    assert(added[k] == old(self).data@[x]);
                    assert(self.produced@[self.consumed_bytes() + b] == added[k]);
                    if x >= self.cap_bytes() {
                        let p = x - self.cap_bytes();
                        assert(self.pending_pos(b) == p);
                        assert(old(self).twin(p) == x);
                        assert(old(self).data@[p] == old(self).data@[old(self).twin(p)]);
                    } else {
                        assert(self.pending_pos(b) == x);
                    }
                }
            }
            assert forall|x: int| 0 <= x < self.cap_bytes() implies self.data@[x] == self.data@[#[trigger] self.twin(
                x,
            )] by {
                assert(self.twin(x) == old(self).twin(x));
            }
        }
    }

    /// Marks the writer side as never producing again.
    pub fn finish(&mut self)
        requires
            old(self).wf(),
        ensures
            final(self).wf(),
            final(self)@ == (BufferState { writer_finished: true, ..old(self)@ }),
    {
        self.writer_finished = true;
        proof {
            old(self).lemma_flags_irrelevant(self);
        }
    }

    /// Whether the reader has seen everything the writer will ever produce:
    /// the writer finished and the buffer is drained.
    pub fn finished(&self) -> (b: bool)
        requires
            self.wf(),
        ensures
            b == self@.finished(),
    {
        self.writer_finished && self.available == 0
    }

    /// Whether the writer announced that it will never produce again.
    pub fn writer_finished(&self) -> (b: bool)
        ensures
            b == self@.writer_finished,
    {
        self.writer_finished
    }

    /// Marks the reader side as never consuming again.
    pub fn finish_reader(&mut self)
        requires
            old(self).wf(),
        ensures
            final(self).wf(),
            final(self)@ == (BufferState { reader_finished: true, ..old(self)@ }),
    {
        self.reader_finished = true;
        proof {
            old(self).lemma_flags_irrelevant(self);
        }
    }

    /// Whether the reader announced that it will never consume again.
    pub fn reader_finished(&self) -> (b: bool)
        ensures
            b == self@.reader_finished,
    {
        self.reader_finished
    }
}

} // verus!
