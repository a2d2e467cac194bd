//! Exchange mechanisms for one stream edge.

pub mod circular;
pub mod d2h;

use crate::runtime::buffer::circular::BufferError;
use crate::runtime::buffer::circular::BufferState;
use crate::runtime::buffer::circular::CircularBuffer;
use crate::runtime::buffer::d2h::BufferEmpty;
use crate::runtime::buffer::d2h::BufferFull;
use crate::runtime::buffer::d2h::ChunkOwner;
use crate::runtime::buffer::d2h::Pools;
use crate::runtime::buffer::d2h::PoolsState;
use crate::runtime::buffer::d2h::ReaderD2H;
use crate::runtime::buffer::d2h::ReaderView;
use crate::runtime::buffer::d2h::SubmitError;
use crate::runtime::buffer::d2h::WriterD2H;
use crate::runtime::buffer::d2h::WriterView;
use vstd::prelude::*;

verus! {

/// Which exchange mechanism backs a stream edge.
#[derive(Debug, Clone, Copy, PartialEq, Eq, Structural)]
pub enum BufferKind {
    /// A host circular buffer for this many items.
    Circular { capacity_items: usize },
    /// A device-to-host custom buffer.
    D2H,
}

/// Abstract state of the buffer of one edge.
pub enum BufferView {
    /// A host circular buffer.
    Host(BufferState),
    /// A device-to-host custom buffer: its pools and its two halves.
    Custom { pools: PoolsState, writer: WriterView, reader: ReaderView },
}

/// Abstract state of one stream edge.
pub struct ChannelView {
    /// The buffer.
    pub buffer: BufferView,
    /// The consumer is owed a `Notify`: data was produced for it.
    pub notify_reader: bool,
    /// The producer is owed a `Notify`: space was freed for it.
    pub notify_writer: bool,
}

impl ChannelView {
    /// Bytes per item.
    pub open spec fn item_size(self) -> nat {
        match self.buffer {
            BufferView::Host(s) => s.item_size,
            BufferView::Custom { reader, .. } => reader.item_size,
        }
    }

    /// The edge once the reader has taken the oldest full chunk, if it
    /// drains none. A host buffer has nothing to take.
    pub open spec fn loaded(self) -> ChannelView {
        match self.buffer {
            BufferView::Host(_) => self,
            BufferView::Custom { pools, writer, reader } => ChannelView {
                buffer: BufferView::Custom {
                    pools: reader.load_pools(pools),
                    writer,
                    reader: reader.load(pools),
                },
                ..self
            },
        }
    }

    /// The bytes the consumer sees.
    pub open spec fn readable(self) -> Seq<u8> {
        match self.loaded().buffer {
            BufferView::Host(s) => s.readable(),
            BufferView::Custom { reader, .. } => reader.readable(),
        }
    }

    /// The items the consumer may consume.
    pub open spec fn readable_items(self) -> nat {
        match self.loaded().buffer {
            BufferView::Host(s) => s.read_window(),
            BufferView::Custom { reader, .. } => reader.remaining(),
        }
    }

    /// The producer is done and everything it produced was consumed.
    pub open spec fn finished(self) -> bool {
        match self.buffer {
            BufferView::Host(s) => s.finished(),
            BufferView::Custom { pools, reader, .. } => reader.finished_with(pools),
        }
    }

    /// The producer announced that it will never produce again.
    pub open spec fn writer_finished(self) -> bool {
        match self.buffer {
            BufferView::Host(s) => s.writer_finished,
            BufferView::Custom { reader, .. } => reader.finished,
        }
    }

    /// The consumer announced that it will never consume again.
    pub open spec fn reader_finished(self) -> bool {
        match self.buffer {
            BufferView::Host(s) => s.reader_finished,
            BufferView::Custom { writer, .. } => writer.finished,
        }
    }

    /// Items the producer may commit through the host interface. A custom
    /// buffer takes whole chunks instead.
    pub open spec fn space(self) -> nat {
        match self.buffer {
            BufferView::Host(s) => s.write_window(),
            BufferView::Custom { .. } => 0,
        }
    }

    /// Bytes of the region open for production through the host interface.
    pub open spec fn staged_len(self) -> nat {
        match self.buffer {
            BufferView::Host(s) => s.staged.len(),
            BufferView::Custom { .. } => 0,
        }
    }

    /// `next` is this edge after the consumer consumed `n` items.
    pub open spec fn consumed_to(self, next: ChannelView, n: nat) -> bool {
        &&& next.notify_reader == self.notify_reader
        &&& match self.loaded().buffer {
            BufferView::Host(s) => {
                &&& next.buffer matches BufferView::Host(t)
                &&& s.consumed_to(t, n)
                &&& next.notify_writer == (self.notify_writer || n > 0)
            },
            BufferView::Custom { pools, writer, reader } => {
                &&& next.buffer == BufferView::Custom {
                    pools: reader.consume_pools(pools, n),
                    writer,
                    reader: reader.consume(pools, n),
                }
                &&& next.notify_writer == (self.notify_writer || reader.drains(n))
            },
        }
    }

    /// This edge with `src` staged `offset` bytes into the region open for
    /// production.
    pub open spec fn stage(self, offset: nat, src: Seq<u8>) -> ChannelView {
        match self.buffer {
            BufferView::Host(s) => ChannelView {
                buffer: BufferView::Host(s.stage(offset, src)),
                ..self
            },
            BufferView::Custom { .. } => self,
        }
    }

    /// `next` is this edge after the producer committed `n` staged items.
    pub open spec fn produced_to(self, next: ChannelView, n: nat) -> bool {
        &&& next.notify_writer == self.notify_writer
        &&& next.notify_reader == (self.notify_reader || n > 0)
        &&& match self.buffer {
            BufferView::Host(s) => next.buffer matches BufferView::Host(t) && s.produced_to(t, n),
            BufferView::Custom { .. } => next.buffer == self.buffer,
        }
    }

    /// This edge after a new chunk was registered with its pools. A host
    /// buffer has no pools and stays as it is.
    pub open spec fn registered(self) -> ChannelView {
        match self.buffer {
            BufferView::Host(_) => self,
            BufferView::Custom { pools, writer, reader } => ChannelView {
                buffer: BufferView::Custom {
                    pools: PoolsState { owners: pools.owners.push(ChunkOwner::Producer), ..pools },
                    writer,
                    reader,
                },
                ..self
            },
        }
    }

    /// Whether the filled chunk `buffer` can be handed to the consumer: only
    /// a custom buffer takes chunks, and only those its producer holds.
    pub open spec fn submit_result(self, buffer: BufferFull) -> Result<(), SubmitError> {
        match self.buffer {
            BufferView::Host(_) => Err(SubmitError::UnknownChunk),
            BufferView::Custom { pools, .. } => if buffer.chunk_id() >= pools.owners.len() {
                Err(SubmitError::UnknownChunk)
            } else if !pools.owned_by(buffer.chunk_id(), ChunkOwner::Producer) {
                Err(SubmitError::NotHeld)
            } else {
                Ok(())
            },
        }
    }

    /// This edge after the filled chunk `buffer` was submitted: if it can
    /// be, it waits behind the other full chunks and the consumer is owed a
    /// `Notify`.
    pub open spec fn submitted(self, buffer: BufferFull) -> ChannelView {
        match self.buffer {
            BufferView::Custom { pools, writer, reader } => if self.submit_result(buffer) is Ok {
                ChannelView {
                    buffer: BufferView::Custom {
                        pools: PoolsState {
                            owners: pools.hand_over(buffer.chunk_id(), ChunkOwner::PoolFull),
                            pool_full: pools.pool_full.push(buffer),
                            ..pools
                        },
                        writer,
                        reader,
                    },
                    notify_reader: true,
                    ..self
                }
            } else {
                self
            },
            BufferView::Host(_) => self,
        }
    }

    /// The chunks that wait for the producer.
    pub open spec fn empties(self) -> Seq<BufferEmpty> {
        match self.buffer {
            BufferView::Host(_) => Seq::empty(),
            BufferView::Custom { pools, .. } => pools.pool_empty,
        }
    }

    /// `next` is this edge after the producer took every chunk that waited
    /// for it: it holds them now.
    pub open spec fn emptied_to(self, next: ChannelView) -> bool {
        &&& next.notify_reader == self.notify_reader
        &&& next.notify_writer == self.notify_writer
        &&& match self.buffer {
            BufferView::Host(_) => next == self,
            BufferView::Custom { pools, writer, reader } => {
                &&& next.buffer matches BufferView::Custom { pools: p, writer: w, reader: r }
                &&& w == writer
                &&& r == reader
                &&& p.pool_empty.len() == 0
                &&& p.pool_full == pools.pool_full
                &&& p.owners.len() == pools.owners.len()
                &&& forall|id: nat|
                    id < pools.owners.len() ==> #[trigger] p.owners[id as int] == (if pools.in_empty(id) {
                        ChunkOwner::Producer
                    } else {
                        pools.owners[id as int]
                    })
            },
        }
    }

    /// This edge after the producer announced that it will never produce
    /// again: the reader side knows.
    pub open spec fn finish_writer(self) -> ChannelView {
        ChannelView {
            buffer: match self.buffer {
                BufferView::Host(s) => BufferView::Host(BufferState { writer_finished: true, ..s }),
                BufferView::Custom { pools, writer, reader } => BufferView::Custom {
                    pools,
                    writer,
                    reader: ReaderView { finished: true, ..reader },
                },
            },
            ..self
        }
    }

    /// This edge after the consumer announced that it will never consume
    /// again: the writer side knows.
    pub open spec fn finish_reader(self) -> ChannelView {
        ChannelView {
            buffer: match self.buffer {
                BufferView::Host(s) => BufferView::Host(BufferState { reader_finished: true, ..s }),
                BufferView::Custom { pools, writer, reader } => BufferView::Custom {
                    pools,
                    writer: WriterView { finished: true, ..writer },
                    reader,
                },
            },
            ..self
        }
    }
}

/// The halves and the pools of one device-to-host edge.
pub struct CustomBuffer {
    pools: Pools,
    writer: WriterD2H,
    reader: ReaderD2H,
}

/// The buffer of one edge.
pub enum Buffer {
    /// A host circular buffer.
    Host(CircularBuffer),
    /// A device-to-host custom buffer.
    Custom(CustomBuffer),
}

/// One stream edge: its buffer and the notifications it owes to the two
/// blocks at its ends.
pub struct Channel {
    buffer: Buffer,
    notify_reader: bool,
    notify_writer: bool,
}

impl Channel {
    /// The abstract state of the edge.
    pub closed spec fn view(&self) -> ChannelView {
        ChannelView {
            buffer: match self.buffer {
                Buffer::Host(b) => BufferView::Host(b@),
                Buffer::Custom(c) => BufferView::Custom {
                    pools: c.pools@,
                    writer: c.writer@,
                    reader: c.reader@,
                },
            },
            notify_reader: self.notify_reader,
            notify_writer: self.notify_writer,
        }
    }

    /// Representation invariant: the buffer is well formed, and the chunk a
    /// custom reader drains is recorded as held by the consumer.
    pub closed spec fn wf(&self) -> bool {
        match self.buffer {
            Buffer::Host(b) => b.wf(),
            Buffer::Custom(c) => {
                &&& c.pools.wf()
                &&& c.reader.wf()
                &&& c.reader.attached(&c.pools)
                &&& c.writer@.item_size == c.reader@.item_size
                &&& c.writer@.reader_input_id is Some
            },
        }
    }

    /// In a well-formed edge items have at least one byte, and a host
    /// buffer satisfies its cursor invariant.
    pub proof fn lemma_wf(&self)
        requires
            self.wf(),
        ensures
            self@.item_size() > 0,
            self@.staged_len() <= usize::MAX,
            self@.buffer matches BufferView::Host(s) ==> s.valid(),
            self@.buffer matches BufferView::Custom { pools, writer, reader } ==> pools.valid()
                && reader.valid(),
    {
        match self.buffer {
            Buffer::Host(b) => {
                b.lemma_valid();
            },
            Buffer::Custom(c) => {},
        }
    }

    /// Builds the edge between output port `writer_output_id` of the
    /// producer and input port `reader_input_id` of the consumer, for items
    /// of `item_size` bytes.
    pub fn new(kind: BufferKind, item_size: usize, writer_output_id: usize, reader_input_id: usize) -> (r:
        Result<Channel, BufferError>)
        ensures
            item_size == 0 ==> r == Err::<Channel, BufferError>(BufferError::ZeroItemSize),
            item_size > 0 ==> match kind {
                BufferKind::Circular { capacity_items } => {
                    &&& capacity_items == 0 ==> r == Err::<Channel, BufferError>(
                        BufferError::ZeroCapacity,
                    )
                    &&& capacity_items > 0 && 2 * item_size * capacity_items > isize::MAX ==> r == Err::<
                        Channel,
                        BufferError,
                    >(BufferError::TooLarge)
                    &&& capacity_items > 0 && 2 * item_size * capacity_items <= isize::MAX ==> r is Ok
                    &&& r matches Ok(c) ==> c@.buffer matches BufferView::Host(s) && s.capacity
                        == capacity_items && s.stream == Seq::<u8>::empty() && s.read_cursor == 0
                        && s.write_cursor == 0 && !s.writer_finished && !s.reader_finished
                },
                BufferKind::D2H => {
                    &&& r is Ok
                    &&& r matches Ok(c) ==> c@.buffer == BufferView::Custom {
                        pools: PoolsState {
                            owners: Seq::empty(),
                            pool_empty: Seq::empty(),
                            pool_full: Seq::empty(),
                        },
                        writer: WriterView {
                            item_size: item_size as nat,
                            finished: false,
                            writer_output_id: writer_output_id as nat,
                            reader_input_id: Some(reader_input_id as nat),
                        },
                        reader: ReaderView {
                            item_size: item_size as nat,
                            current: None,
                            writer_output_id: writer_output_id as nat,
                            finished: false,
                        },
                    }
                },
            },
            r matches Ok(c) ==> c.wf() && c@.item_size() == item_size && !c@.notify_reader
                && !c@.notify_writer,
    {
        if item_size == 0 {
            return Err(BufferError::ZeroItemSize);
        }
        match kind {
            BufferKind::Circular { capacity_items } => {
                match CircularBuffer::new(item_size, capacity_items) {
                    Ok(b) => Ok(
                        Channel { buffer: Buffer::Host(b), notify_reader: false, notify_writer: false },
                    ),
                    Err(e) => Err(e),
                }
            },
            BufferKind::D2H => {
                let mut writer = WriterD2H::new(item_size, writer_output_id);
                let pools = Pools::new();
                match writer.add_reader(reader_input_id) {
                    Some(reader) => {
                        let c = Channel {
                            buffer: Buffer::Custom(CustomBuffer { pools, writer, reader }),
                            notify_reader: false,
                            notify_writer: false,
                        };
                        Ok(c)
                    },
                    None => Err(BufferError::ZeroItemSize),
                }
            },
        }
    }

    /// Bytes per item.
    pub fn item_size(&self) -> (n: usize)
        ensures
            n == self@.item_size(),
    {
        match &self.buffer {
            Buffer::Host(b) => b.item_size(),
            Buffer::Custom(c) => c.reader.item_size(),
        }
    }

    /// The contiguous bytes available for consumption. A custom reader that
    /// drains no chunk takes the oldest full chunk first.
    pub fn read_slice(&mut self) -> (s: &[u8])
        requires
            old(self).wf(),
        ensures
            final(self).wf(),
            final(self)@ == old(self)@.loaded(),
            s@ == old(self)@.readable(),
            s@.len() == old(self)@.readable_items() * old(self)@.item_size(),
    {
        match &mut self.buffer {
            Buffer::Host(b) => b.read_slice(),
            Buffer::Custom(c) => {
                let s = c.reader.bytes(&mut c.pools);
                s
            },
        }
    }

    /// Items available for consumption in one slice.
    pub fn readable_items(&mut self) -> (n: usize)
        requires
            old(self).wf(),
        ensures
            final(self).wf(),
            final(self)@ == old(self)@.loaded(),
            n == old(self)@.readable_items(),
    {
        match &mut self.buffer {
            Buffer::Host(b) => b.read_window(),
            Buffer::Custom(c) => {
                let _ = c.reader.bytes(&mut c.pools);
                c.reader.remaining()
            },
        }
    }

    /// Consumes `n` items of what `read_slice` exposes.
    pub fn consume(&mut self, n: usize)
        requires
            old(self).wf(),
            n <= old(self)@.readable_items(),
        ensures
            final(self).wf(),
            old(self)@.consumed_to(final(self)@, n as nat),
    {
        match &mut self.buffer {
            Buffer::Host(b) => {
                b.consume(n);
                if n > 0 {
                    self.notify_writer = true;
                }
            },
            Buffer::Custom(c) => {
                let _ = c.reader.bytes(&mut c.pools);
                if c.reader.draining() {
                    if c.reader.consume(&mut c.pools, n).is_some() {
                        self.notify_writer = true;
                    }
                }
            },
        }
    }

    /// Whether the consumer has seen everything the producer will ever supply.
    pub fn finished(&self) -> (b: bool)
        requires
            self.wf(),
        ensures
            b == self@.finished(),
    {
        match &self.buffer {
            Buffer::Host(b) => b.finished(),
            Buffer::Custom(c) => c.reader.finished(&c.pools),
        }
    }

    /// Items the producer may commit through the host interface.
    pub fn space(&self) -> (n: usize)
        requires
            self.wf(),
        ensures
            n == self@.space(),
    {
        match &self.buffer {
            Buffer::Host(b) => b.write_window(),
            Buffer::Custom(_) => 0,
        }
    }

    /// Bytes of the region open for production through the host interface.
    pub fn staged_len(&self) -> (n: usize)
        requires
            self.wf(),
        ensures
            n == self@.staged_len(),
            n == self@.space() * self@.item_size(),
    {
        match &self.buffer {
            Buffer::Host(b) => b.staged_len(),
            Buffer::Custom(_) => {
                assert(0 * self@.item_size() == 0) by (nonlinear_arith);
                0
            },
        }
    }

    /// Copies `src` into the region open for production, `offset` bytes
    /// from its start.
    pub fn write(&mut self, offset: usize, src: &[u8])
        requires
            old(self).wf(),
            offset + src@.len() <= old(self)@.staged_len(),
        ensures
            final(self).wf(),
            final(self)@ == old(self)@.stage(offset as nat, src@),
    {
        match &mut self.buffer {
            Buffer::Host(b) => {
                b.write(offset, src);
            },
            Buffer::Custom(_) => {},
        }
    }

    /// Commits the first `n` staged items.
    pub fn produce(&mut self, n: usize)
        requires
            old(self).wf(),
            n <= old(self)@.space(),
        ensures
            final(self).wf(),
            old(self)@.produced_to(final(self)@, n as nat),
    {
        match &mut self.buffer {
            Buffer::Host(b) => {
                b.produce(n);
                if n > 0 {
                    self.notify_reader = true;
                }
            },
            Buffer::Custom(_) => {},
        }
    }

    /// Marks the producer as never producing again.
    pub fn finish_writer(&mut self)
        requires
            old(self).wf(),
        ensures
            final(self).wf(),
            final(self)@ == old(self)@.finish_writer(),
    {
        match &mut self.buffer {
            Buffer::Host(b) => {
                b.finish();
            },
            Buffer::Custom(c) => {
                c.reader.finish();
            },
        }
    }

    /// Marks the consumer as never consuming again.
    pub fn finish_reader(&mut self)
        requires
            old(self).wf(),
        ensures
            final(self).wf(),
            final(self)@ == old(self)@.finish_reader(),
    {
        match &mut self.buffer {
            Buffer::Host(b) => {
                b.finish_reader();
            },
            Buffer::Custom(c) => {
                c.writer.finish();
            },
        }
    }

    /// Whether the producer announced that it will never produce again.
    pub fn writer_finished(&self) -> (b: bool)
        ensures
            b == self@.writer_finished(),
    {
        match &self.buffer {
            Buffer::Host(b) => b.writer_finished(),
            Buffer::Custom(c) => c.reader.producer_done(),
        }
    }

    /// Whether the consumer announced that it will never consume again.
    pub fn reader_finished(&self) -> (b: bool)
        ensures
            b == self@.reader_finished(),
    {
        match &self.buffer {
            Buffer::Host(b) => b.reader_finished(),
            Buffer::Custom(c) => c.writer.finished(),
        }
    }

    /// Registers a new chunk of `capacity` bytes with a custom buffer; the
    /// producer holds it. A host buffer has no chunks.
    pub fn register(&mut self, capacity: usize) -> (r: Option<BufferEmpty>)
        requires
            old(self).wf(),
        ensures
            final(self).wf(),
            final(self)@ == old(self)@.registered(),
            match old(self)@.buffer {
                BufferView::Host(_) => r.is_none(),
                BufferView::Custom { pools, .. } => r matches Some(chunk) && chunk.chunk_id()
                    == pools.owners.len() && chunk.chunk_capacity() == capacity,
            },
    {
        match &mut self.buffer {
            Buffer::Host(_) => None,
            Buffer::Custom(c) => {
                let chunk = c.pools.register(capacity);
                Some(chunk)
            },
        }
    }

    /// Takes every chunk the consumer has returned to a custom buffer.
    pub fn empty_buffers(&mut self) -> (taken: Vec<BufferEmpty>)
        requires
            old(self).wf(),
        ensures
            final(self).wf(),
            taken@ == old(self)@.empties(),
            old(self)@.emptied_to(final(self)@),
    {
        match &mut self.buffer {
            Buffer::Host(_) => {
                let taken: Vec<BufferEmpty> = Vec::new();
                assert(taken@ =~= old(self)@.empties());
                taken
            },
            Buffer::Custom(c) => {
                let taken = c.writer.buffers(&mut c.pools);
                taken
            },
        }
    }

    /// Hands a filled chunk to the consumer of a custom buffer. A host
    /// buffer refuses every chunk as unknown.
    pub fn submit(&mut self, buffer: BufferFull) -> (r: Result<(), SubmitError>)
        requires
            old(self).wf(),
            buffer.wf(),
        ensures
            final(self).wf(),
            r == old(self)@.submit_result(buffer),
            final(self)@ == old(self)@.submitted(buffer),
    {
        match &mut self.buffer {
            Buffer::Host(_) => Err(SubmitError::UnknownChunk),
            Buffer::Custom(c) => {
                match c.writer.submit(&mut c.pools, buffer) {
                    Ok(_) => {
                        self.notify_reader = true;
                        Ok(())
                    },
                    Err(e) => Err(e),
                }
            },
        }
    }

    /// Whether the consumer is owed a `Notify`; the debt is cleared.
    pub fn take_notify_reader(&mut self) -> (b: bool)
        requires
            old(self).wf(),
        ensures
            final(self).wf(),
            b == old(self)@.notify_reader,
            final(self)@ == (ChannelView { notify_reader: false, ..old(self)@ }),
    {
        let b = self.notify_reader;
        self.notify_reader = false;
        b
    }

    /// Whether the producer is owed a `Notify`; the debt is cleared.
    pub fn take_notify_writer(&mut self) -> (b: bool)
        requires
            old(self).wf(),
        ensures
            final(self).wf(),
            b == old(self)@.notify_writer,
            final(self)@ == (ChannelView { notify_writer: false, ..old(self)@ }),
    {
        let b = self.notify_writer;
        self.notify_writer = false;
        b
    }
}

} // verus!
