//! Device-to-host custom buffer: chunks filled on a device travel to a host
//! reader through two pools and come back empty. A chunk is owned by exactly
//! one party at any time; handing it over is the only synchronisation.

use crate::runtime::inbox::AsyncMessage;
use vstd::arithmetic::div_mod::lemma_fundamental_div_mod;
use vstd::prelude::*;
use vstd::slice::slice_subrange;

verus! {

/// Who owns a chunk.
#[derive(Debug, Clone, Copy, PartialEq, Eq, Structural)]
pub enum ChunkOwner {
    /// Waiting in `pool_empty` for the producer.
    PoolEmpty,
    /// Held by the producer, which may fill it.
    Producer,
    /// Waiting in `pool_full` for the consumer.
    PoolFull,
    /// Held by the consumer, which drains it.
    Consumer,
}

/// Why a chunk was not accepted by a pool.
#[derive(Debug, Clone, Copy, PartialEq, Eq, Structural)]
pub enum SubmitError {
    /// The chunk was not registered with these pools.
    UnknownChunk,
    /// The chunk is not held by the party that submits it; it was submitted
    /// before.
    NotHeld,
}

/// A chunk without payload, ready to be filled.
#[derive(Debug)]
pub struct BufferEmpty {
    id: usize,
    capacity: usize,
}

/// A chunk with payload, ready to be drained. The payload may be shorter
/// than the capacity of the chunk.
#[derive(Debug)]
pub struct BufferFull {
    id: usize,
    capacity: usize,
    data: Vec<u8>,
}

impl BufferEmpty {
    /// Identity of the chunk within its pools.
    pub closed spec fn chunk_id(&self) -> nat {
        self.id as nat
    }

    /// Bytes the chunk can hold.
    pub closed spec fn chunk_capacity(&self) -> nat {
        self.capacity as nat
    }

    /// Identity of the chunk within its pools.
    pub fn id(&self) -> (id: usize)
        ensures
            id == self.chunk_id(),
    {
        self.id
    }

    /// Bytes the chunk can hold.
    pub fn capacity(&self) -> (n: usize)
        ensures
            n == self.chunk_capacity(),
    {
        self.capacity
    }

    /// Attaches `data` as the payload of the chunk. A payload larger than
    /// the chunk is refused and the chunk handed back.
    pub fn fill(self, data: Vec<u8>) -> (r: Result<BufferFull, BufferEmpty>)
        ensures
            data@.len() <= self.chunk_capacity() ==> r is Ok && r->Ok_0.wf() && r->Ok_0.chunk_id()
                == self.chunk_id() && r->Ok_0.chunk_capacity() == self.chunk_capacity()
                && r->Ok_0.bytes() == data@,
            data@.len() > self.chunk_capacity() ==> r == Err::<BufferFull, BufferEmpty>(self),
    {
        if data.len() <= self.capacity {
            Ok(BufferFull { id: self.id, capacity: self.capacity, data })
        } else {
            Err(self)
        }
    }
}

impl BufferFull {
    /// Identity of the chunk within its pools.
    pub closed spec fn chunk_id(&self) -> nat {
        self.id as nat
    }

    /// Bytes the chunk can hold.
    pub closed spec fn chunk_capacity(&self) -> nat {
        self.capacity as nat
    }

    /// The payload.
    pub closed spec fn bytes(&self) -> Seq<u8> {
        self.data@
    }

    /// The payload fits the chunk.
    pub closed spec fn wf(&self) -> bool {
        self.data@.len() <= self.capacity
    }

    /// Whole items of `item_size` bytes in the payload.
    pub open spec fn items(&self, item_size: nat) -> nat {
        if item_size == 0 {
            0
        } else {
            self.bytes().len() / item_size
        }
    }

    /// Identity of the chunk within its pools.
    pub fn id(&self) -> (id: usize)
        ensures
            id == self.chunk_id(),
    {
        self.id
    }

    /// Bytes of payload.
    pub fn used_bytes(&self) -> (n: usize)
        ensures
            n == self.bytes().len(),
    {
        self.data.len()
    }

    /// The payload.
    pub fn payload(&self) -> (s: &[u8])
        ensures
            s@ == self.bytes(),
    {
        self.data.as_slice()
    }

    /// The chunk without its payload.
    pub closed spec fn emptied(&self) -> BufferEmpty {
        BufferEmpty { id: self.id, capacity: self.capacity }
    }

    /// Drops the payload.
    pub fn clear(self) -> (e: BufferEmpty)
        ensures
            e == self.emptied(),
            e.chunk_id() == self.chunk_id(),
            e.chunk_capacity() == self.chunk_capacity(),
    {
        BufferEmpty { id: self.id, capacity: self.capacity }
    }
}

/// Abstract state of the two pools of one edge.
pub struct PoolsState {
    /// Owner of each registered chunk, by chunk id.
    pub owners: Seq<ChunkOwner>,
    /// Chunks the consumer returned, ready for the producer.
    pub pool_empty: Seq<BufferEmpty>,
    /// Chunks the producer filled, oldest first.
    pub pool_full: Seq<BufferFull>,
}

impl PoolsState {
    /// Whether the chunk `id` waits in `pool_empty`.
    pub open spec fn in_empty(self, id: nat) -> bool {
        exists|i: int| 0 <= i < self.pool_empty.len() && #[trigger] self.pool_empty[i].chunk_id() == id
    }

    /// Whether the chunk `id` waits in `pool_full`.
    pub open spec fn in_full(self, id: nat) -> bool {
        exists|i: int| 0 <= i < self.pool_full.len() && #[trigger] self.pool_full[i].chunk_id() == id
    }

    /// Whether `id` names a registered chunk owned by `owner`.
    pub open spec fn owned_by(self, id: nat, owner: ChunkOwner) -> bool {
        id < self.owners.len() && self.owners[id as int] == owner
    }

    /// Every pooled chunk is registered and recorded as owned by its pool,
    /// and no chunk occurs twice in a pool.
    pub open spec fn valid(self) -> bool {
        &&& forall|i: int|
            0 <= i < self.pool_empty.len() ==> self.owned_by(
                #[trigger] self.pool_empty[i].chunk_id(),
                ChunkOwner::PoolEmpty,
            )
        &&& forall|i: int|
            0 <= i < self.pool_full.len() ==> self.owned_by(
                #[trigger] self.pool_full[i].chunk_id(),
                ChunkOwner::PoolFull,
            ) && self.pool_full[i].wf()
        &&& forall|i: int, j: int|
            0 <= i < j < self.pool_empty.len() ==> #[trigger] self.pool_empty[i].chunk_id()
                != #[trigger] self.pool_empty[j].chunk_id()
        &&& forall|i: int, j: int|
            0 <= i < j < self.pool_full.len() ==> #[trigger] self.pool_full[i].chunk_id()
                != #[trigger] self.pool_full[j].chunk_id()
    }

    /// The owner table after chunk `id` passed to `owner`.
    pub open spec fn hand_over(self, id: nat, owner: ChunkOwner) -> Seq<ChunkOwner> {
        self.owners.update(id as int, owner)
    }
}

/// Single-owner invariant: in valid pools a chunk never waits in both pools
/// at once, and a chunk held by the producer or the consumer waits in neither.
pub proof fn lemma_single_owner(s: PoolsState, id: nat)
    requires
        s.valid(),
    ensures
        !(s.in_empty(id) && s.in_full(id)),
        s.in_empty(id) ==> s.owned_by(id, ChunkOwner::PoolEmpty),
        s.in_full(id) ==> s.owned_by(id, ChunkOwner::PoolFull),
        s.owned_by(id, ChunkOwner::Producer) || s.owned_by(id, ChunkOwner::Consumer) ==> !s.in_empty(
            id,
        ) && !s.in_full(id),
{
}

/// The two pools of one edge together with the record of who owns each chunk.
pub struct Pools {
    empty: Vec<BufferEmpty>,
    full: Vec<BufferFull>,
    owners: Vec<ChunkOwner>,
}

impl Pools {
    /// The abstract state of the pools.
    pub closed spec fn view(&self) -> PoolsState {
        PoolsState { owners: self.owners@, pool_empty: self.empty@, pool_full: self.full@ }
    }

    /// Representation invariant.
    pub open spec fn wf(&self) -> bool {
        self@.valid()
    }

    /// Pools without chunks.
    pub fn new() -> (p: Pools)
        ensures
            p.wf(),
            p@ == (PoolsState {
                owners: Seq::empty(),
                pool_empty: Seq::empty(),
                pool_full: Seq::empty(),
            }),
    {
        let p = Pools { empty: Vec::new(), full: Vec::new(), owners: Vec::new() };
        assert(p@.owners =~= Seq::empty());
        assert(p@.pool_empty =~= Seq::empty());
        assert(p@.pool_full =~= Seq::empty());
        p
    }

    /// Number of chunks registered.
    pub fn chunks(&self) -> (n: usize)
        ensures
            n == self@.owners.len(),
    {
        self.owners.len()
    }

    /// Number of chunks waiting in `pool_empty`.
    pub fn empty_len(&self) -> (n: usize)
        ensures
            n == self@.pool_empty.len(),
    {
        self.empty.len()
    }

    /// Number of chunks waiting in `pool_full`.
    pub fn full_len(&self) -> (n: usize)
        ensures
            n == self@.pool_full.len(),
    {
        self.full.len()
    }

    /// Owner of chunk `id`, if it is registered.
    pub fn owner(&self, id: usize) -> (o: Option<ChunkOwner>)
        ensures
            id < self@.owners.len() ==> o == Some(self@.owners[id as int]),
            id >= self@.owners.len() ==> o.is_none(),
    {
        if id < self.owners.len() {
            Some(self.owners[id])
        } else {
            None
        }
    }

    /// Registers a new chunk of `capacity` bytes. The producer holds it.
    pub fn register(&mut self, capacity: usize) -> (chunk: BufferEmpty)
        requires
            old(self).wf(),
        ensures
            final(self).wf(),
            chunk.chunk_id() == old(self)@.owners.len(),
            chunk.chunk_capacity() == capacity,
            final(self)@.owners == old(self)@.owners.push(ChunkOwner::Producer),
            final(self)@.pool_empty == old(self)@.pool_empty,
            final(self)@.pool_full == old(self)@.pool_full,
    {
        let id = self.owners.len();
        self.owners.push(ChunkOwner::Producer);
        proof {
            assert(self@.pool_empty == old(self)@.pool_empty);
            assert(self@.pool_full == old(self)@.pool_full);
            assert(old(self)@.valid());
            assert(self@.valid());
        }
        BufferEmpty { id, capacity }
    }

    /// Moves a chunk held by the producer into `pool_full`, behind the
    /// chunks that wait there.
    pub fn push_full(&mut self, buffer: BufferFull) -> (r: Result<(), SubmitError>)
        requires
            old(self).wf(),
            buffer.wf(),
        ensures
            final(self).wf(),
            buffer.chunk_id() >= old(self)@.owners.len() ==> r == Err::<(), SubmitError>(
                SubmitError::UnknownChunk,
            ),
            buffer.chunk_id() < old(self)@.owners.len() && !old(self)@.owned_by(
                buffer.chunk_id(),
                ChunkOwner::Producer,
            ) ==> r == Err::<(), SubmitError>(SubmitError::NotHeld),
            old(self)@.owned_by(buffer.chunk_id(), ChunkOwner::Producer) ==> r is Ok,
            r is Ok ==> final(self)@ == (PoolsState {
                owners: old(self)@.hand_over(buffer.chunk_id(), ChunkOwner::PoolFull),
                pool_full: old(self)@.pool_full.push(buffer),
                ..old(self)@
            }),
            r is Err ==> final(self)@ == old(self)@,
    {
        let id = buffer.id;
        if id >= self.owners.len() {
            return Err(SubmitError::UnknownChunk);
        }
        if self.owners[id] != ChunkOwner::Producer {
            return Err(SubmitError::NotHeld);
        }
        self.owners[id] = ChunkOwner::PoolFull;
        self.full.push(buffer);
        proof {
            assert(self@.pool_empty == old(self)@.pool_empty);
            assert(self@.pool_full == old(self)@.pool_full.push(buffer));
            assert(self@.owners == old(self)@.hand_over(buffer.chunk_id(), ChunkOwner::PoolFull));
            assert(old(self)@.valid());
            assert(self@.valid());
        }
        Ok(())
    }

    /// Takes the oldest chunk out of `pool_full`. The consumer holds it.
    pub fn pop_full(&mut self) -> (r: Option<BufferFull>)
        requires
            old(self).wf(),
        ensures
            final(self).wf(),
            old(self)@.pool_full.len() == 0 ==> r.is_none() && final(self)@ == old(self)@,
            old(self)@.pool_full.len() > 0 ==> r == Some(old(self)@.pool_full[0]) && r.unwrap().wf()
                && final(self)@ == (PoolsState {
                owners: old(self)@.hand_over(
                    old(self)@.pool_full[0].chunk_id(),
                    ChunkOwner::Consumer,
                ),
                pool_full: old(self)@.pool_full.remove(0),
                ..old(self)@
            }) && !final(self)@.in_full(r.unwrap().chunk_id()) && !final(self)@.in_empty(
                r.unwrap().chunk_id(),
            ),
    {
        if self.full.len() == 0 {
            return None;
        }
        assert(old(self)@.valid());
        assert(old(self)@.owned_by(old(self)@.pool_full[0].chunk_id(), ChunkOwner::PoolFull));
        let buffer = self.full.remove(0);
        self.owners[buffer.id] = ChunkOwner::Consumer;
        proof {
            assert(self@.pool_empty == old(self)@.pool_empty);
            assert(self@.pool_full == old(self)@.pool_full.remove(0));
            assert(self@.owners == old(self)@.hand_over(buffer.chunk_id(), ChunkOwner::Consumer));
            assert forall|i: int| 0 <= i < self@.pool_full.len() implies self@.owned_by(
                #[trigger] self@.pool_full[i].chunk_id(),
                ChunkOwner::PoolFull,
            ) && self@.pool_full[i].wf() by {
                assert(self@.pool_full[i] == old(self)@.pool_full[i + 1]);
                assert(old(self)@.pool_full[0].chunk_id() != old(self)@.pool_full[i + 1].chunk_id());
            }
            assert forall|i: int, j: int| 0 <= i < j < self@.pool_full.len() implies #[trigger] self@.pool_full[i].chunk_id()
                != #[trigger] self@.pool_full[j].chunk_id() by {
                assert(old(self)@.pool_full[i + 1].chunk_id() != old(self)@.pool_full[j + 1].chunk_id());
            }
            assert(self@.valid());
            lemma_single_owner(self@, buffer.chunk_id());
        }
        Some(buffer)
    }

    /// Moves a chunk held by the consumer into `pool_empty`.
    pub fn push_empty(&mut self, buffer: BufferEmpty) -> (r: Result<(), SubmitError>)
        requires
            old(self).wf(),
        ensures
            final(self).wf(),
            buffer.chunk_id() >= old(self)@.owners.len() ==> r == Err::<(), SubmitError>(
                SubmitError::UnknownChunk,
            ),
            buffer.chunk_id() < old(self)@.owners.len() && !old(self)@.owned_by(
                buffer.chunk_id(),
                ChunkOwner::Consumer,
            ) ==> r == Err::<(), SubmitError>(SubmitError::NotHeld),
            old(self)@.owned_by(buffer.chunk_id(), ChunkOwner::Consumer) ==> r is Ok,
            r is Ok ==> final(self)@ == (PoolsState {
                owners: old(self)@.hand_over(buffer.chunk_id(), ChunkOwner::PoolEmpty),
                pool_empty: old(self)@.pool_empty.push(buffer),
                ..old(self)@
            }),
            r is Err ==> final(self)@ == old(self)@,
    {
        let id = buffer.id;
        if id >= self.owners.len() {
            return Err(SubmitError::UnknownChunk);
        }
        if self.owners[id] != ChunkOwner::Consumer {
            return Err(SubmitError::NotHeld);
        }
        self.owners[id] = ChunkOwner::PoolEmpty;
        self.empty.push(buffer);
        proof {
            assert(self@.pool_full == old(self)@.pool_full);
            assert(self@.pool_empty == old(self)@.pool_empty.push(buffer));
            assert(self@.owners == old(self)@.hand_over(buffer.chunk_id(), ChunkOwner::PoolEmpty));
            assert(old(self)@.valid());
            assert(self@.valid());
        }
        Ok(())
    }

    /// Takes every chunk out of `pool_empty`. The producer holds them.
    pub fn take_empty(&mut self) -> (taken: Vec<BufferEmpty>)
        requires
            old(self).wf(),
        ensures
            final(self).wf(),
            taken@ == old(self)@.pool_empty,
            final(self)@.pool_empty.len() == 0,
            final(self)@.pool_full == old(self)@.pool_full,
            final(self)@.owners.len() == old(self)@.owners.len(),
            forall|id: nat|
                id < old(self)@.owners.len() ==> #[trigger] final(self)@.owners[id as int] == (if old(
                    self,
                )@.in_empty(id) {
                    ChunkOwner::Producer
                } else {
                    old(self)@.owners[id as int]
                }),
    {
        let mut taken: Vec<BufferEmpty> = Vec::new();
        std::mem::swap(&mut taken, &mut self.empty);
        let mut i: usize = 0;
        while i < taken.len()
            invariant
                i <= taken.len(),
                old(self).wf(),
                taken@ == old(self)@.pool_empty,
                self.empty@.len() == 0,
                self.full@ == old(self).full@,
                self.owners@.len() == old(self)@.owners.len(),
                forall|id: int|
                    0 <= id < self.owners@.len() ==> #[trigger] self.owners@[id] == (if exists|j: int|
                        0 <= j < i && #[trigger] taken@[j].chunk_id() == id {
                        ChunkOwner::Producer
                    } else {
                        old(self)@.owners[id]
                    }),
            decreases taken.len() - i,
        {
            let id = taken[i].id;
            assert(old(self)@.owned_by(taken@[i as int].chunk_id(), ChunkOwner::PoolEmpty));
            self.owners[id] = ChunkOwner::Producer;
            i += 1;
        }
        proof {
            assert(old(self)@.valid());
            assert(self@.pool_full == old(self)@.pool_full);
            assert(self@.pool_empty.len() == 0);
            assert forall|k: int| 0 <= k < self@.pool_full.len() implies self@.owned_by(
                #[trigger] self@.pool_full[k].chunk_id(),
                ChunkOwner::PoolFull,
            ) && self@.pool_full[k].wf() by {
                let id = old(self)@.pool_full[k].chunk_id();
                assert(old(self)@.owned_by(id, ChunkOwner::PoolFull));
                if exists|j: int| 0 <= j < i && #[trigger] taken@[j].chunk_id() == id {
                    let j = choose|j: int| 0 <= j < i && #[trigger] taken@[j].chunk_id() == id;
                    assert(old(self)@.owned_by(old(self)@.pool_empty[j].chunk_id(), ChunkOwner::PoolEmpty));
                }
            }
            assert forall|a: int, b: int| 0 <= a < b < self@.pool_full.len() implies #[trigger] self@.pool_full[a].chunk_id()
                != #[trigger] self@.pool_full[b].chunk_id() by {
                assert(old(self)@.pool_full[a].chunk_id() != old(self)@.pool_full[b].chunk_id());
            }
            assert(self@.valid());
            assert forall|id: nat| id < old(self)@.owners.len() implies #[trigger] self@.owners[id as int] == (if old(
                self,
            )@.in_empty(id) {
                ChunkOwner::Producer
            } else {
                old(self)@.owners[id as int]
            }) by {
                if old(self)@.in_empty(id) {
                    let j = choose|j: int| 0 <= j < old(self)@.pool_empty.len() && #[trigger] old(self)@.pool_empty[j].chunk_id() == id;
                    assert(taken@[j].chunk_id() == id);
                }
            }
        }
        taken
    }
}

/// Builder of device-to-host buffers.
#[derive(Debug, PartialEq, Eq, Hash)]
pub struct D2H;

impl D2H {
    /// A builder of device-to-host buffers.
    pub fn new() -> D2H {
        D2H
    }

    /// Builds the writer half of a buffer for items of `item_size` bytes,
    /// attached to output port `writer_output_id` of the producing block.
    pub fn build(&self, item_size: usize, writer_output_id: usize) -> (w: WriterD2H)
        ensures
            w@ == (WriterView {
                item_size: item_size as nat,
                finished: false,
                writer_output_id: writer_output_id as nat,
                reader_input_id: None,
            }),
    {
        WriterD2H::new(item_size, writer_output_id)
    }
}

impl Default for D2H {
    fn default() -> D2H {
        D2H::new()
    }
}

/// Abstract state of the writer half.
pub struct WriterView {
    /// Bytes per item.
    pub item_size: nat,
    /// The writer was told that the consumer will never accept another chunk.
    pub finished: bool,
    /// Output port of the producing block.
    pub writer_output_id: nat,
    /// Input port of the consuming block, once a reader was added.
    pub reader_input_id: Option<nat>,
}

/// Writer half of a device-to-host buffer: the producer takes empty chunks
/// and submits full ones.
#[derive(Debug)]
pub struct WriterD2H {
    item_size: usize,
    finished: bool,
    writer_output_id: usize,
    reader_input_id: Option<usize>,
}

impl WriterD2H {
    /// The abstract state of the writer half.
    pub closed spec fn view(&self) -> WriterView {
        WriterView {
            item_size: self.item_size as nat,
            finished: self.finished,
            writer_output_id: self.writer_output_id as nat,
            reader_input_id: match self.reader_input_id {
                Some(id) => Some(id as nat),
                None => None,
            },
        }
    }

    /// A writer for items of `item_size` bytes on output port
    /// `writer_output_id`, with no reader yet.
    pub fn new(item_size: usize, writer_output_id: usize) -> (w: WriterD2H)
        ensures
            w@ == (WriterView {
                item_size: item_size as nat,
                finished: false,
                writer_output_id: writer_output_id as nat,
                reader_input_id: None,
            }),
    {
        WriterD2H { item_size, finished: false, writer_output_id, reader_input_id: None }
    }

    /// Takes every chunk the consumer has returned.
    pub fn buffers(&mut self, pools: &mut Pools) -> (taken: Vec<BufferEmpty>)
        requires
            old(pools).wf(),
        ensures
            final(self)@ == old(self)@,
            final(pools).wf(),
            taken@ == old(pools)@.pool_empty,
            final(pools)@.pool_empty.len() == 0,
            final(pools)@.pool_full == old(pools)@.pool_full,
            final(pools)@.owners.len() == old(pools)@.owners.len(),
            forall|id: nat|
                id < old(pools)@.owners.len() ==> #[trigger] final(pools)@.owners[id as int] == (if old(
                    pools,
                )@.in_empty(id) {
                    ChunkOwner::Producer
                } else {
                    old(pools)@.owners[id as int]
                }),
    {
        pools.take_empty()
    }

    /// Hands a filled chunk to the consumer. On success the chunk waits in
    /// `pool_full` and the result is the message that wakes the consumer.
    /// A writer submits only once it has a reader.
    pub fn submit(&mut self, pools: &mut Pools, buffer: BufferFull) -> (r: Result<
        AsyncMessage,
        SubmitError,
    >)
        requires
            old(self)@.reader_input_id is Some,
            old(pools).wf(),
            buffer.wf(),
        ensures
            final(self)@ == old(self)@,
            final(pools).wf(),
            buffer.chunk_id() >= old(pools)@.owners.len() ==> r == Err::<AsyncMessage, SubmitError>(
                SubmitError::UnknownChunk,
            ),
            buffer.chunk_id() < old(pools)@.owners.len() && !old(pools)@.owned_by(
                buffer.chunk_id(),
                ChunkOwner::Producer,
            ) ==> r == Err::<AsyncMessage, SubmitError>(SubmitError::NotHeld),
            old(pools)@.owned_by(buffer.chunk_id(), ChunkOwner::Producer) ==> r == Ok::<
                AsyncMessage,
                SubmitError,
            >(AsyncMessage::Notify),
            r is Ok ==> final(pools)@ == (PoolsState {
                owners: old(pools)@.hand_over(buffer.chunk_id(), ChunkOwner::PoolFull),
                pool_full: old(pools)@.pool_full.push(buffer),
                ..old(pools)@
            }),
            r is Err ==> final(pools)@ == old(pools)@,
    {
        match pools.push_full(buffer) {
            Ok(()) => Ok(AsyncMessage::Notify),
            Err(e) => Err(e),
        }
    }

    /// Creates the reader half for input port `reader_input_id` of the
    /// consuming block. A writer has one reader: a second one is refused.
    pub fn add_reader(&mut self, reader_input_id: usize) -> (r: Option<ReaderD2H>)
        ensures
            old(self)@.reader_input_id is Some ==> r.is_none() && final(self)@ == old(self)@,
            old(self)@.reader_input_id is None ==> r.is_some() && final(self)@ == (WriterView {
                reader_input_id: Some(reader_input_id as nat),
                ..old(self)@
            }) && r.unwrap()@ == (ReaderView {
                item_size: old(self)@.item_size,
                current: None,
                writer_output_id: old(self)@.writer_output_id,
                finished: false,
            }),
    {
        if self.reader_input_id.is_some() {
            return None;
        }
        self.reader_input_id = Some(reader_input_id);
        Some(
            ReaderD2H {
                buffer: None,
                item_size: self.item_size,
                writer_output_id: self.writer_output_id,
                finished: false,
            },
        )
    }

    /// The message that tells the consumer that no more chunks will come:
    /// none once the writer was told that the consumer is done. A writer
    /// that was not told so has a reader to notify.
    pub fn notify_finished(&mut self) -> (r: Option<AsyncMessage>)
        requires
            old(self)@.finished || old(self)@.reader_input_id is Some,
        ensures
            final(self)@ == old(self)@,
            r == (if old(self)@.finished {
                None
            } else {
                Some(
                    AsyncMessage::StreamInputDone {
                        input_id: old(self)@.reader_input_id->Some_0 as usize,
                    },
                )
            }),
    {
        if self.finished {
            return None;
        }
        match self.reader_input_id {
            Some(input_id) => Some(AsyncMessage::StreamInputDone { input_id }),
            None => None,
        }
    }

    /// Whether a reader was added.
    pub fn has_reader(&self) -> (b: bool)
        ensures
            b == (self@.reader_input_id is Some),
    {
        self.reader_input_id.is_some()
    }

    /// Bytes per item.
    pub fn item_size(&self) -> (n: usize)
        ensures
            n == self@.item_size,
    {
        self.item_size
    }

    /// Takes note that the consumer will never accept another chunk.
    pub fn finish(&mut self)
        ensures
            final(self)@ == (WriterView { finished: true, ..old(self)@ }),
    {
        self.finished = true;
    }

    /// Whether the consumer will never accept another chunk.
    pub fn finished(&self) -> (b: bool)
        ensures
            b == self@.finished,
    {
        self.finished
    }
}

/// Abstract state of the reader half.
pub struct ReaderView {
    /// Bytes per item.
    pub item_size: nat,
    /// The chunk being drained and the items of it already consumed.
    pub current: Option<(BufferFull, nat)>,
    /// Output port of the producing block.
    pub writer_output_id: nat,
    /// The reader was told that the producer will never supply another chunk.
    pub finished: bool,
}

impl ReaderView {
    /// The offset stays within the whole items of the current chunk.
    pub open spec fn valid(self) -> bool {
        &&& self.item_size > 0
        &&& self.current matches Some((b, offset)) ==> b.wf() && offset <= b.items(self.item_size)
    }

    /// The part of the current chunk not yet consumed, in whole items.
    pub open spec fn readable(self) -> Seq<u8> {
        match self.current {
            Some((b, offset)) => b.bytes().subrange(
                (offset * self.item_size) as int,
                (b.items(self.item_size) * self.item_size) as int,
            ),
            None => Seq::empty(),
        }
    }

    /// What the reader observes as finished: the producer is done and
    /// every chunk it supplied is drained.
    pub open spec fn finished_with(self, p: PoolsState) -> bool {
        self.finished && p.pool_full.len() == 0 && self.current is None
    }

    /// Items of the current chunk not yet consumed.
    pub open spec fn remaining(self) -> nat {
        match self.current {
            Some((b, offset)) => (b.items(self.item_size) - offset) as nat,
            None => 0,
        }
    }

    /// The reader after it tried to take the oldest full chunk: it does so
    /// only when it drains none.
    pub open spec fn load(self, p: PoolsState) -> ReaderView {
        if self.current is None && p.pool_full.len() > 0 {
            ReaderView { current: Some((p.pool_full[0], 0nat)), ..self }
        } else {
            self
        }
    }

    /// The pools after the reader tried to take the oldest full chunk.
    pub open spec fn load_pools(self, p: PoolsState) -> PoolsState {
        if self.current is None && p.pool_full.len() > 0 {
            PoolsState {
                owners: p.hand_over(p.pool_full[0].chunk_id(), ChunkOwner::Consumer),
                pool_full: p.pool_full.remove(0),
                ..p
            }
        } else {
            p
        }
    }

    /// Whether consuming `amount` more items drains the current chunk.
    pub open spec fn drains(self, amount: nat) -> bool {
        self.current matches Some((b, offset)) && offset + amount == b.items(self.item_size)
    }

    /// The pools after the drained current chunk went back to `pool_empty`.
    pub open spec fn recycle_pools(self, p: PoolsState) -> PoolsState {
        match self.current {
            Some((b, _)) => PoolsState {
                owners: p.hand_over(b.chunk_id(), ChunkOwner::PoolEmpty),
                pool_empty: p.pool_empty.push(b.emptied()),
                ..p
            },
            None => p,
        }
    }

    /// The reader after `amount` more items of the current chunk were consumed.
    pub open spec fn consume(self, p: PoolsState, amount: nat) -> ReaderView {
        match self.current {
            Some((b, offset)) => if self.drains(amount) {
                (ReaderView { current: None, ..self }).load(self.recycle_pools(p))
            } else {
                ReaderView { current: Some((b, offset + amount)), ..self }
            },
            None => self,
        }
    }

    /// The pools after `amount` more items of the current chunk were consumed.
    pub open spec fn consume_pools(self, p: PoolsState, amount: nat) -> PoolsState {
        if self.drains(amount) {
            (ReaderView { current: None, ..self }).load_pools(self.recycle_pools(p))
        } else {
            p
        }
    }
}

/// The chunk a reader drains, with the number of items already consumed.
#[derive(Debug)]
struct CurrentBuffer {
    buffer: BufferFull,
    offset: usize,
}

/// Reader half of a device-to-host buffer: the consumer sees the payload of
/// one chunk at a time as host bytes.
#[derive(Debug)]
pub struct ReaderD2H {
    buffer: Option<CurrentBuffer>,
    item_size: usize,
    writer_output_id: usize,
    finished: bool,
}

/// The whole items in `len` bytes take up at most `len` bytes.
pub proof fn lemma_whole_items(len: int, item_size: int)
    requires
        0 <= len,
        0 < item_size,
    ensures
        0 <= (len / item_size) * item_size <= len,
        0 <= len / item_size,
{
    lemma_fundamental_div_mod(len, item_size);
    assert((len / item_size) * item_size == item_size * (len / item_size)) by (nonlinear_arith);
    assert(0 <= len / item_size) by (nonlinear_arith)
        requires
            0 <= len,
            0 < item_size,
    ;
}

proof fn lemma_offset_bytes(offset: int, items: int, item_size: int)
    requires
        0 <= offset <= items,
        0 < item_size,
    ensures
        0 <= offset * item_size <= items * item_size,
{
    assert(0 <= offset * item_size <= items * item_size) by (nonlinear_arith)
        requires
            0 <= offset <= items,
            0 < item_size,
    ;
}

impl ReaderD2H {
    /// The abstract state of the reader half.
    pub closed spec fn view(&self) -> ReaderView {
        ReaderView {
            item_size: self.item_size as nat,
            current: match self.buffer {
                Some(c) => Some((c.buffer, c.offset as nat)),
                None => None,
            },
            writer_output_id: self.writer_output_id as nat,
            finished: self.finished,
        }
    }

    /// Representation invariant.
    pub open spec fn wf(&self) -> bool {
        self@.valid()
    }

    /// The chunk being drained, if any, is recorded in `pools` as held by
    /// the consumer.
    pub open spec fn attached(&self, pools: &Pools) -> bool {
        self@.current matches Some((b, _)) ==> pools@.owned_by(b.chunk_id(), ChunkOwner::Consumer)
    }

    fn load(&mut self, pools: &mut Pools)
        requires
            old(self).wf(),
            old(pools).wf(),
            old(self).attached(old(pools)),
        ensures
            final(self).wf(),
            final(pools).wf(),
            final(self).attached(final(pools)),
            final(self)@ == old(self)@.load(old(pools)@),
            final(pools)@ == old(self)@.load_pools(old(pools)@),
    {
        if self.buffer.is_none() {
            if let Some(b) = pools.pop_full() {
                proof {
                    lemma_whole_items(b.bytes().len() as int, self.item_size as int);
                }
                self.buffer = Some(CurrentBuffer { buffer: b, offset: 0 });
            }
        }
    }

    /// The bytes available for consumption: the rest of the chunk being
    /// drained. When no chunk is being drained the oldest full chunk is
    /// taken first; when there is none either, the slice is empty.
    pub fn bytes(&mut self, pools: &mut Pools) -> (s: &[u8])
        requires
            old(self).wf(),
            old(pools).wf(),
            old(self).attached(old(pools)),
        ensures
            final(self).wf(),
            final(pools).wf(),
            final(self).attached(final(pools)),
            final(self)@ == old(self)@.load(old(pools)@),
            final(pools)@ == old(self)@.load_pools(old(pools)@),
            s@ == final(self)@.readable(),
            s@.len() == final(self)@.remaining() * final(self)@.item_size,
    {
        self.load(pools);
        match &self.buffer {
            Some(c) => {
                let capacity = c.buffer.data.len() / self.item_size;
                proof {
                    lemma_whole_items(c.buffer.data@.len() as int, self.item_size as int);
                    lemma_offset_bytes(c.offset as int, capacity as int, self.item_size as int);
                    assert((capacity - c.offset) * self.item_size == capacity * self.item_size
                        - c.offset * self.item_size) by (nonlinear_arith);
                }
                slice_subrange(
                    c.buffer.data.as_slice(),
                    c.offset * self.item_size,
                    capacity * self.item_size,
                )
            },
            None => {
                assert(0 * (self.item_size as int) == 0) by (nonlinear_arith);
                let e: &[u8] = &[];
                e
            },
        }
    }

    /// Consumes `amount` items of the chunk being drained. When that was
    /// the rest of it, the chunk goes back to `pool_empty`, the oldest full
    /// chunk (if any) becomes the one being drained, and the result is the
    /// message that wakes the producer.
    pub fn consume(&mut self, pools: &mut Pools, amount: usize) -> (r: Option<AsyncMessage>)
        requires
            old(self).wf(),
            old(pools).wf(),
            old(self).attached(old(pools)),
            old(self)@.current matches Some((b, offset)) && offset + amount <= b.items(
                old(self)@.item_size,
            ),
        ensures
            final(self).wf(),
            final(pools).wf(),
            final(self).attached(final(pools)),
            final(self)@ == old(self)@.consume(old(pools)@, amount as nat),
            final(pools)@ == old(self)@.consume_pools(old(pools)@, amount as nat),
            r == (if old(self)@.drains(amount as nat) {
                Some(AsyncMessage::Notify)
            } else {
                None
            }),
    {
        let current = self.buffer.take().unwrap();
        let capacity = current.buffer.data.len() / self.item_size;
        proof {
            lemma_whole_items(current.buffer.data@.len() as int, self.item_size as int);
        }
        let offset = current.offset + amount;
        if offset == capacity {
            let empty = current.buffer.clear();
            let pushed = pools.push_empty(empty);
            assert(pushed is Ok);
            self.load(pools);
            Some(AsyncMessage::Notify)
        } else {
            self.buffer = Some(CurrentBuffer { buffer: current.buffer, offset });
            None
        }
    }

    /// Whether a chunk is being drained.
    pub fn draining(&self) -> (b: bool)
        ensures
            b == (self@.current is Some),
    {
        self.buffer.is_some()
    }

    /// Items of the chunk being drained that are not consumed yet.
    pub fn remaining(&self) -> (n: usize)
        requires
            self.wf(),
        ensures
            n == self@.remaining(),
    {
        match &self.buffer {
            Some(c) => {
                let capacity = c.buffer.data.len() / self.item_size;
                capacity - c.offset
            },
            None => 0,
        }
    }

    /// Bytes per item.
    pub fn item_size(&self) -> (n: usize)
        ensures
            n == self@.item_size,
    {
        self.item_size
    }

    /// The message that tells the producer that no more chunks will be
    /// drained: none once the reader was told that the producer is done.
    pub fn notify_finished(&mut self) -> (r: Option<AsyncMessage>)
        ensures
            final(self)@ == old(self)@,
            r == (if old(self)@.finished {
                None
            } else {
                Some(AsyncMessage::StreamOutputDone { output_id: old(self)@.writer_output_id as usize })
            }),
    {
        if self.finished {
            return None;
        }
        Some(AsyncMessage::StreamOutputDone { output_id: self.writer_output_id })
    }

    /// Takes note that the producer will never supply another chunk.
    pub fn finish(&mut self)
        ensures
            final(self)@ == (ReaderView { finished: true, ..old(self)@ }),
    {
        self.finished = true;
    }

    /// Whether the producer will never supply another chunk. Chunks it
    /// supplied may still wait.
    pub fn producer_done(&self) -> (b: bool)
        ensures
            b == self@.finished,
    {
        self.finished
    }

    /// Whether the reader has seen everything the producer will ever
    /// supply: the producer is done, no full chunk waits in `pools` and
    /// none is being drained.
    pub fn finished(&self, pools: &Pools) -> (b: bool)
        ensures
            b == self@.finished_with(pools@),
    {
        self.finished && pools.full_len() == 0 && self.buffer.is_none()
    }
}

} // verus!
