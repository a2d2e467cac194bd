use std::cell::RefCell;
use std::rc::Rc;

use futuresdr::runtime::block::Block;
use futuresdr::runtime::block::BlockMeta;
use futuresdr::runtime::block::BlockMetaBuilder;
use futuresdr::runtime::block::Kernel;
use futuresdr::runtime::block::KernelError;
use futuresdr::runtime::block::WorkIo;
use futuresdr::runtime::buffer::d2h::BufferEmpty;
use futuresdr::runtime::buffer::d2h::ChunkOwner;
use futuresdr::runtime::buffer::d2h::Pools;
use futuresdr::runtime::buffer::d2h::SubmitError;
use futuresdr::runtime::buffer::d2h::WriterD2H;
use futuresdr::runtime::buffer::d2h::D2H;
use futuresdr::runtime::buffer::BufferKind;
use futuresdr::runtime::buffer::Channel;
use futuresdr::runtime::inbox::AsyncMessage;
use futuresdr::runtime::message_io::MessageIo;
use futuresdr::runtime::message_io::MessageIoBuilder;
use futuresdr::runtime::run::Runtime;
use futuresdr::runtime::scheduler::BlockState;
use futuresdr::runtime::scheduler::Scheduler;
use futuresdr::runtime::scheduler::Step;
use futuresdr::runtime::stream_io::StreamIo;
use futuresdr::runtime::stream_io::StreamIoBuilder;
use futuresdr::runtime::topology::Topology;

#[test]
fn a_chunk_has_one_owner_at_a_time() {
    let mut pools = Pools::new();
    let a = pools.register(8);
    let b = pools.register(8);
    assert_eq!((a.id(), b.id()), (0, 1));
    assert_eq!(pools.chunks(), 2);
    assert_eq!(pools.owner(0), Some(ChunkOwner::Producer));
    assert_eq!(pools.owner(2), None);

    let full = a.fill(vec![1, 2, 3, 4]).unwrap();
    assert_eq!(full.used_bytes(), 4);
    assert_eq!(full.payload(), &[1, 2, 3, 4]);
    assert_eq!(pools.push_full(full), Ok(()));
    assert_eq!(pools.owner(0), Some(ChunkOwner::PoolFull));
    assert_eq!((pools.full_len(), pools.empty_len()), (1, 0));

    let popped = pools.pop_full().unwrap();
    assert_eq!(popped.id(), 0);
    assert_eq!(pools.owner(0), Some(ChunkOwner::Consumer));
    assert_eq!((pools.full_len(), pools.empty_len()), (0, 0));

    assert_eq!(pools.push_empty(popped.clear()), Ok(()));
    assert_eq!(pools.owner(0), Some(ChunkOwner::PoolEmpty));
    assert_eq!((pools.full_len(), pools.empty_len()), (0, 1));

    let taken = pools.take_empty();
    assert_eq!(taken.len(), 1);
    assert_eq!(taken[0].id(), 0);
    assert_eq!(taken[0].capacity(), 8);
    assert_eq!(pools.owner(0), Some(ChunkOwner::Producer));
    assert_eq!(pools.owner(1), Some(ChunkOwner::Producer));
    assert_eq!(pools.empty_len(), 0);
    assert!(pools.pop_full().is_none());
    drop(b);
}

#[test]
fn chunks_of_other_pools_and_chunks_not_held_are_refused() {
    let mut pools = Pools::new();
    let mut other = Pools::new();
    let mine = pools.register(4);
    let _ = other.register(4);
    let foreign = other.register(4);

    // unknown: the pools have one chunk, the foreign chunk is number 1
    assert_eq!(pools.push_full(foreign.fill(vec![1]).unwrap()), Err(SubmitError::UnknownChunk));

    // the consumer cannot return what the producer holds
    let twin = other.take_empty();
    assert!(twin.is_empty());
    assert_eq!(pools.push_full(mine.fill(vec![1, 2]).unwrap()), Ok(()));
    let again = Pools::new().register(4);
    assert_eq!(again.id(), 0);
    // chunk 0 waits in pool_full: a second chunk with its number is not held by the producer
    assert_eq!(pools.push_full(again.fill(vec![3]).unwrap()), Err(SubmitError::NotHeld));
    let again = Pools::new().register(4);
    assert_eq!(pools.push_empty(again), Err(SubmitError::NotHeld));
    assert_eq!((pools.full_len(), pools.empty_len()), (1, 0));
}

#[test]
fn a_payload_larger_than_the_chunk_is_handed_back() {
    let mut pools = Pools::new();
    let chunk = pools.register(2);
    let back: BufferEmpty = chunk.fill(vec![1, 2, 3]).unwrap_err();
    assert_eq!(back.id(), 0);
    assert_eq!(back.capacity(), 2);
    assert!(back.fill(vec![1, 2]).is_ok());
}

#[test]
fn full_chunks_are_drained_oldest_first() {
    let mut pools = Pools::new();
    let mut writer = D2H::new().build(2, 7);
    assert_eq!(writer.item_size(), 2);
    assert!(!writer.has_reader());
    let mut reader = writer.add_reader(3).unwrap();
    assert!(writer.has_reader());
    assert!(writer.add_reader(4).is_none());

    let a = pools.register(8);
    let b = pools.register(8);
    assert_eq!(writer.submit(&mut pools, a.fill(vec![1, 2, 3, 4]).unwrap()), Ok(AsyncMessage::Notify));
    // five bytes hold two whole items
    assert_eq!(writer.submit(&mut pools, b.fill(vec![5, 6, 7, 8, 9]).unwrap()), Ok(AsyncMessage::Notify));

    assert!(!reader.draining());
    assert_eq!(reader.bytes(&mut pools), &[1, 2, 3, 4]);
    assert!(reader.draining());
    assert_eq!(reader.remaining(), 2);
    assert_eq!(pools.owner(0), Some(ChunkOwner::Consumer));
    assert_eq!(reader.consume(&mut pools, 1), None);
    assert_eq!(reader.bytes(&mut pools), &[3, 4]);
    assert_eq!(pools.full_len(), 1);

    // the rest of the first chunk: it goes back and the second is taken
    assert_eq!(reader.consume(&mut pools, 1), Some(AsyncMessage::Notify));
    assert_eq!(pools.owner(0), Some(ChunkOwner::PoolEmpty));
    assert_eq!(pools.owner(1), Some(ChunkOwner::Consumer));
    assert_eq!(reader.bytes(&mut pools), &[5, 6, 7, 8]);
    assert_eq!(reader.consume(&mut pools, 2), Some(AsyncMessage::Notify));
    assert!(!reader.draining());
    assert!(reader.bytes(&mut pools).is_empty());
    assert_eq!(pools.empty_len(), 2);

    assert_eq!(writer.notify_finished(), Some(AsyncMessage::StreamInputDone { input_id: 3 }));
    assert_eq!(reader.notify_finished(), Some(AsyncMessage::StreamOutputDone { output_id: 7 }));
    writer.finish();
    reader.finish();
    assert!(writer.finished() && reader.producer_done() && reader.finished(&pools));
    assert_eq!(writer.notify_finished(), None);
    assert_eq!(reader.notify_finished(), None);
}

#[test]
fn a_reader_is_finished_only_after_the_drain() {
    let mut pools = Pools::new();
    let mut writer = WriterD2H::new(1, 0);
    let mut reader = writer.add_reader(0).unwrap();
    let a = pools.register(4);
    let b = pools.register(4);
    writer.submit(&mut pools, a.fill(vec![1, 2]).unwrap()).unwrap();
    writer.submit(&mut pools, b.fill(vec![3]).unwrap()).unwrap();
    assert!(!reader.finished(&pools));

    // the producer is done: two chunks still wait
    reader.finish();
    assert!(reader.producer_done());
    assert!(!reader.finished(&pools));
    assert_eq!(reader.bytes(&mut pools), &[1, 2]);
    assert!(!reader.finished(&pools));
    reader.consume(&mut pools, 2);
    // the second chunk is being drained
    assert!(!reader.finished(&pools));
    reader.consume(&mut pools, 1);
    assert!(reader.finished(&pools));
    assert!(!writer.finished());
}

#[test]
fn with_two_chunks_the_producer_stalls_until_one_comes_back() {
    let mut pools = Pools::new();
    let mut writer = WriterD2H::new(1, 0);
    let mut reader = writer.add_reader(0).unwrap();
    let mut stock = vec![pools.register(4), pools.register(4)];

    let mut fills = 0;
    while let Some(chunk) = stock.pop() {
        writer.submit(&mut pools, chunk.fill(vec![fills as u8; 4]).unwrap()).unwrap();
        fills += 1;
    }
    assert_eq!(fills, 2);
    assert_eq!(pools.full_len(), 2);

    // no chunk is free: there is no third fill
    assert!(writer.buffers(&mut pools).is_empty());
    assert!(writer.buffers(&mut pools).is_empty());

    // the consumer drains one chunk and hands it back
    assert_eq!(reader.bytes(&mut pools).len(), 4);
    assert_eq!(reader.consume(&mut pools, 4), Some(AsyncMessage::Notify));

    let free = writer.buffers(&mut pools);
    assert_eq!(free.len(), 1);
    assert!(writer.buffers(&mut pools).is_empty());
}

#[test]
fn a_custom_channel_has_no_host_region() {
    let mut channel = Channel::new(BufferKind::D2H, 4, 0, 0).unwrap();
    assert_eq!(channel.item_size(), 4);
    assert_eq!(channel.space(), 0);
    assert_eq!(channel.staged_len(), 0);
    channel.write(0, &[]);
    channel.produce(0);
    assert!(channel.read_slice().is_empty());
    let chunk = channel.register(8).unwrap();
    assert_eq!(channel.submit(chunk.fill(vec![1, 0, 0, 0, 2, 0, 0, 0]).unwrap()), Ok(()));
    assert!(channel.take_notify_reader());
    assert!(!channel.take_notify_reader());
    assert_eq!(channel.readable_items(), 2);
    channel.consume(2);
    assert!(channel.take_notify_writer());
    assert_eq!(channel.empty_buffers().len(), 1);
    assert!(!channel.finished());
    channel.finish_writer();
    assert!(channel.finished());

    let mut host = Channel::new(BufferKind::Circular { capacity_items: 2 }, 4, 0, 0).unwrap();
    assert!(host.register(8).is_none());
    assert!(host.empty_buffers().is_empty());
    let stray = Pools::new().register(4).fill(vec![]).unwrap();
    assert_eq!(host.submit(stray), Err(SubmitError::UnknownChunk));
    assert_eq!(host.space(), 2);
}

/// Fills every free chunk with four counted bytes and submits it.
struct ChunkProducer {
    stock: Vec<BufferEmpty>,
    total: u8,
    sent: u8,
    fills_per_call: Rc<RefCell<Vec<usize>>>,
}

impl Kernel for ChunkProducer {
    fn init(&mut self, _now: u64, sio: &mut StreamIo, _mio: &mut MessageIo, _meta: &mut BlockMeta) -> Result<(), KernelError> {
        for _ in 0..2 {
            self.stock.push(sio.register_buffer(0, 4).unwrap());
        }
        Ok(())
    }

    fn work(
        &mut self,
        io: &mut WorkIo,
        sio: &mut StreamIo,
        _mio: &mut MessageIo,
        _meta: &mut BlockMeta,
    ) -> Result<(), KernelError> {
        self.stock.extend(sio.empty_buffers(0));
        let mut fills = 0;
        while self.sent < self.total {
            let chunk = match self.stock.pop() {
                Some(chunk) => chunk,
                None => break,
            };
            let payload = vec![self.sent, self.sent + 1, self.sent + 2, self.sent + 3];
            sio.submit(0, chunk.fill(payload).unwrap()).unwrap();
            self.sent += 4;
            fills += 1;
        }
        self.fills_per_call.borrow_mut().push(fills);
        if self.sent == self.total {
            io.finished = true;
        }
        Ok(())
    }
}

/// Collects bytes, at most `per_call` of them per call.
struct ByteSink {
    out: Rc<RefCell<Vec<u8>>>,
    per_call: usize,
}

impl Kernel for ByteSink {
    fn init(&mut self, _now: u64, _sio: &mut StreamIo, _mio: &mut MessageIo, _meta: &mut BlockMeta) -> Result<(), KernelError> {
        Ok(())
    }

    fn work(
        &mut self,
        io: &mut WorkIo,
        sio: &mut StreamIo,
        _mio: &mut MessageIo,
        _meta: &mut BlockMeta,
    ) -> Result<(), KernelError> {
        let input = sio.input_slice(0).to_vec();
        let n = input.len().min(self.per_call);
        self.out.borrow_mut().extend_from_slice(&input[..n]);
        sio.consume(0, n);
        if sio.input_finished(0) {
            io.finished = true;
        } else if n > 0 {
            io.call_again = true;
        }
        Ok(())
    }
}

fn custom_graph(total: u8, per_call: usize) -> (Topology, Rc<RefCell<Vec<usize>>>, Rc<RefCell<Vec<u8>>>) {
    let fills = Rc::new(RefCell::new(Vec::new()));
    let out = Rc::new(RefCell::new(Vec::new()));
    let mut fg = Topology::new();
    let producer = fg.add_block(Block::new_sync(
        BlockMetaBuilder::new("ChunkProducer").build(),
        StreamIoBuilder::new().add_output("out", 1).build(),
        MessageIoBuilder::new().build(),
        ChunkProducer { stock: Vec::new(), total, sent: 0, fills_per_call: fills.clone() },
    ));
    let sink = fg.add_block(Block::new_sync(
        BlockMetaBuilder::new("ByteSink").build(),
        StreamIoBuilder::new().add_input("in", 1).build(),
        MessageIoBuilder::new().build(),
        ByteSink { out: out.clone(), per_call },
    ));
    fg.connect_stream_with_type(producer, "out", sink, "in", BufferKind::D2H).unwrap();
    (fg, fills, out)
}

#[test]
fn two_blocks_over_a_pool_of_two_chunks() {
    let (fg, fills, out) = custom_graph(20, 4);
    let mut scheduler = Scheduler::new(fg);
    scheduler.start().unwrap();

    // the producer fills both chunks and has no third
    assert_eq!(scheduler.step().unwrap(), Step::Worked { block: 0, wait: None });
    assert_eq!(*fills.borrow(), vec![2]);
    assert_eq!(scheduler.state(0), BlockState::Idle);
    assert_eq!(scheduler.inbox_len(1), 1);

    // the consumer drains one chunk and hands it back: the producer is woken
    assert_eq!(scheduler.step().unwrap(), Step::Worked { block: 1, wait: None });
    assert_eq!(*out.borrow(), vec![0, 1, 2, 3]);
    assert_eq!(scheduler.state(0), BlockState::Runnable);
    assert_eq!(scheduler.inbox_len(0), 1);

    assert_eq!(scheduler.step().unwrap(), Step::Worked { block: 0, wait: None });
    assert_eq!(*fills.borrow(), vec![2, 1]);

    scheduler.run_to_quiescence(1000).unwrap();
    assert_eq!(*out.borrow(), (0..20).collect::<Vec<u8>>());
    assert_eq!(fills.borrow().iter().sum::<usize>(), 5);
    assert!(fills.borrow().iter().all(|n| *n <= 2));
    assert_eq!(scheduler.state(0), BlockState::Finished);
    assert_eq!(scheduler.state(1), BlockState::Finished);
}

#[test]
fn a_run_over_a_custom_buffer_ends() {
    let (fg, _fills, out) = custom_graph(40, 3);
    let fg = Runtime::new().run(fg).unwrap();
    assert_eq!(*out.borrow(), (0..40).collect::<Vec<u8>>());
    assert!(fg.channel(0).finished());
}
