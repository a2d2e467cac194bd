use std::cell::RefCell;
use std::rc::Rc;

use futuresdr::runtime::block::Block;
use futuresdr::runtime::block::BlockMeta;
use futuresdr::runtime::block::BlockMetaBuilder;
use futuresdr::runtime::block::Kernel;
use futuresdr::runtime::block::KernelError;
use futuresdr::runtime::block::WorkIo;
use futuresdr::runtime::buffer::BufferKind;
use futuresdr::runtime::message_io::MessageIo;
use futuresdr::runtime::message_io::MessageIoBuilder;
use futuresdr::runtime::run::RunError;
use futuresdr::runtime::run::Runtime;
use futuresdr::runtime::scheduler::BlockState;
use futuresdr::runtime::scheduler::RunEnd;
use futuresdr::runtime::scheduler::Scheduler;
use futuresdr::runtime::scheduler::Step;
use futuresdr::runtime::stream_io::StreamIo;
use futuresdr::runtime::stream_io::StreamIoBuilder;
use futuresdr::runtime::topology::Topology;
use futuresdr::runtime::topology::TopologyError;

/// Emits the items of `items` in order, then finishes.
struct VecSource {
    items: Vec<u32>,
    next: usize,
    calls: Rc<RefCell<usize>>,
}

impl Kernel for VecSource {
    fn init(&mut self, _now: u64, _sio: &mut StreamIo, _mio: &mut MessageIo, _meta: &mut BlockMeta) -> Result<(), KernelError> {
        Ok(())
    }

    fn work(
        &mut self,
        io: &mut WorkIo,
        sio: &mut StreamIo,
        _mio: &mut MessageIo,
        _meta: &mut BlockMeta,
    ) -> Result<(), KernelError> {
        *self.calls.borrow_mut() += 1;
        let space = sio.output_space(0);
        let n = space.min(self.items.len() - self.next);
        for k in 0..n {
            sio.write(0, 4 * k, &self.items[self.next + k].to_le_bytes());
        }
        sio.produce(0, n);
        self.next += n;
        if self.next == self.items.len() {
            io.finished = true;
        } else if n > 0 {
            io.call_again = true;
        }
        Ok(())
    }
}

/// Emits what `next` yields until it yields nothing.
struct FiniteSource<F: FnMut() -> Option<u32>> {
    next: F,
}

impl<F: FnMut() -> Option<u32>> Kernel for FiniteSource<F> {
    fn init(&mut self, _now: u64, _sio: &mut StreamIo, _mio: &mut MessageIo, _meta: &mut BlockMeta) -> Result<(), KernelError> {
        Ok(())
    }

    fn work(
        &mut self,
        io: &mut WorkIo,
        sio: &mut StreamIo,
        _mio: &mut MessageIo,
        _meta: &mut BlockMeta,
    ) -> Result<(), KernelError> {
        if sio.output_finished(0) {
            io.finished = true;
            return Ok(());
        }
        let space = sio.output_space(0);
        let mut n = 0;
        while n < space {
            match (self.next)() {
                Some(v) => {
                    sio.write(0, 4 * n, &v.to_le_bytes());
                    n += 1;
                }
                None => {
                    io.finished = true;
                    break;
                }
            }
        }
        sio.produce(0, n);
        if !io.finished && n > 0 {
            io.call_again = true;
        }
        Ok(())
    }
}

/// Passes on the first `left` items and finishes.
struct Head {
    left: usize,
}

impl Kernel for Head {
    fn init(&mut self, _now: u64, _sio: &mut StreamIo, _mio: &mut MessageIo, _meta: &mut BlockMeta) -> Result<(), KernelError> {
        Ok(())
    }

    fn work(
        &mut self,
        io: &mut WorkIo,
        sio: &mut StreamIo,
        _mio: &mut MessageIo,
        _meta: &mut BlockMeta,
    ) -> Result<(), KernelError> {
        let space = sio.output_space(0);
        let input = sio.input_slice(0).to_vec();
        let n = (input.len() / 4).min(space).min(self.left);
        sio.write(0, 0, &input[..4 * n]);
        sio.consume(0, n);
        sio.produce(0, n);
        self.left -= n;
        if self.left == 0 || sio.input_finished(0) {
            io.finished = true;
        } else if n > 0 {
            io.call_again = true;
        }
        Ok(())
    }
}

/// Doubles every item.
struct Doubler;

impl Kernel for Doubler {
    fn init(&mut self, _now: u64, _sio: &mut StreamIo, _mio: &mut MessageIo, _meta: &mut BlockMeta) -> Result<(), KernelError> {
        Ok(())
    }

    fn work(
        &mut self,
        io: &mut WorkIo,
        sio: &mut StreamIo,
        _mio: &mut MessageIo,
        _meta: &mut BlockMeta,
    ) -> Result<(), KernelError> {
        let space = sio.output_space(0);
        let input = sio.input_slice(0).to_vec();
        let n = (input.len() / 4).min(space);
        for k in 0..n {
            let v = u32::from_le_bytes([input[4 * k], input[4 * k + 1], input[4 * k + 2], input[4 * k + 3]]);
            sio.write(0, 4 * k, &(2 * v).to_le_bytes());
        }
        sio.consume(0, n);
        sio.produce(0, n);
        if sio.input_finished(0) {
            io.finished = true;
        } else if n > 0 {
            io.call_again = true;
        }
        Ok(())
    }
}

/// Collects items, at most `per_call` of them per call.
struct VecSink {
    out: Rc<RefCell<Vec<u32>>>,
    per_call: usize,
    calls: Rc<RefCell<usize>>,
}

impl Kernel for VecSink {
    fn init(&mut self, _now: u64, _sio: &mut StreamIo, _mio: &mut MessageIo, _meta: &mut BlockMeta) -> Result<(), KernelError> {
        Ok(())
    }

    fn work(
        &mut self,
        io: &mut WorkIo,
        sio: &mut StreamIo,
        _mio: &mut MessageIo,
        _meta: &mut BlockMeta,
    ) -> Result<(), KernelError> {
        *self.calls.borrow_mut() += 1;
        let input = sio.input_slice(0).to_vec();
        let n = (input.len() / 4).min(self.per_call);
        for k in 0..n {
            let v = u32::from_le_bytes([input[4 * k], input[4 * k + 1], input[4 * k + 2], input[4 * k + 3]]);
            self.out.borrow_mut().push(v);
        }
        sio.consume(0, n);
        if sio.input_finished(0) {
            io.finished = true;
        } else if n > 0 {
            io.call_again = true;
        }
        Ok(())
    }
}

/// Fails in the hook it is told to fail in.
struct Failing {
    in_init: bool,
}

impl Kernel for Failing {
    fn init(&mut self, _now: u64, _sio: &mut StreamIo, _mio: &mut MessageIo, _meta: &mut BlockMeta) -> Result<(), KernelError> {
        if self.in_init {
            Err(KernelError { message: String::from("init failed") })
        } else {
            Ok(())
        }
    }

    fn work(
        &mut self,
        _io: &mut WorkIo,
        _sio: &mut StreamIo,
        _mio: &mut MessageIo,
        _meta: &mut BlockMeta,
    ) -> Result<(), KernelError> {
        Err(KernelError { message: String::from("work failed") })
    }
}

/// Never makes progress and never finishes.
struct Waiting;

impl Kernel for Waiting {
    fn init(&mut self, _now: u64, _sio: &mut StreamIo, _mio: &mut MessageIo, _meta: &mut BlockMeta) -> Result<(), KernelError> {
        Ok(())
    }

    fn work(
        &mut self,
        _io: &mut WorkIo,
        _sio: &mut StreamIo,
        _mio: &mut MessageIo,
        _meta: &mut BlockMeta,
    ) -> Result<(), KernelError> {
        Ok(())
    }
}

fn source_block(items: Vec<u32>, calls: Rc<RefCell<usize>>) -> Block {
    Block::new_sync(
        BlockMetaBuilder::new("VecSource").build(),
        StreamIoBuilder::new().add_output("out", 4).build(),
        MessageIoBuilder::new().build(),
        VecSource { items, next: 0, calls },
    )
}

fn finite_source_block<F: FnMut() -> Option<u32> + 'static>(next: F) -> Block {
    Block::new_sync(
        BlockMetaBuilder::new("FiniteSource").build(),
        StreamIoBuilder::new().add_output("out", 4).build(),
        MessageIoBuilder::new().build(),
        FiniteSource { next },
    )
}

fn head_block(item_size: usize, n: usize) -> Block {
    Block::new_sync(
        BlockMetaBuilder::new("Head").build(),
        StreamIoBuilder::new().add_input("in", item_size).add_output("out", item_size).build(),
        MessageIoBuilder::new().build(),
        Head { left: n },
    )
}

fn doubler_block() -> Block {
    Block::new_sync(
        BlockMetaBuilder::new("Doubler").build(),
        StreamIoBuilder::new().add_input("in", 4).add_output("out", 4).build(),
        MessageIoBuilder::new().build(),
        Doubler,
    )
}

fn sink_block(out: Rc<RefCell<Vec<u32>>>, per_call: usize, calls: Rc<RefCell<usize>>) -> Block {
    Block::new_sync(
        BlockMetaBuilder::new("VecSink").build(),
        StreamIoBuilder::new().add_input("in", 4).build(),
        MessageIoBuilder::new().build(),
        VecSink { out, per_call, calls },
    )
}

fn counter() -> Rc<RefCell<usize>> {
    Rc::new(RefCell::new(0))
}

#[test]
fn finite_source_const_fn() {
    let mut fg = Topology::new();
    let out = Rc::new(RefCell::new(Vec::new()));

    let src = fg.add_block(finite_source_block(|| Some(123u32)));
    let head = fg.add_block(head_block(4, 10));
    let snk = fg.add_block(sink_block(out.clone(), usize::MAX, counter()));

    fg.connect_stream(src, "out", head, "in").unwrap();
    fg.connect_stream(head, "out", snk, "in").unwrap();

    let fg = Runtime::new().run(fg).unwrap();
    assert_eq!(fg.block_count(), 3);

    let v = out.borrow();
    assert_eq!(v.len(), 10);
    for i in v.iter() {
        assert_eq!(*i, 123u32);
    }
}

#[test]
fn finite_source_mut_fn() {
    let mut fg = Topology::new();
    let out = Rc::new(RefCell::new(Vec::new()));

    let mut v = vec![0, 1, 2, 3].into_iter();
    let src = fg.add_block(finite_source_block(move || v.next()));
    let snk = fg.add_block(sink_block(out.clone(), usize::MAX, counter()));

    fg.connect_stream(src, "out", snk, "in").unwrap();

    let fg = Runtime::new().run(fg).unwrap();
    assert_eq!(fg.block_count(), 2);

    let v = out.borrow();
    assert_eq!(v.len(), 4);
    for (i, n) in v.iter().enumerate() {
        assert_eq!(i as u32, *n);
    }
}

#[test]
fn source_filter_sink_doubles_items() {
    let mut fg = Topology::new();
    let out = Rc::new(RefCell::new(Vec::new()));
    let src = fg.add_block(source_block(vec![1, 2, 3], counter()));
    let filter = fg.add_block(doubler_block());
    let snk = fg.add_block(sink_block(out.clone(), usize::MAX, counter()));
    fg.connect_stream(src, "out", filter, "in").unwrap();
    fg.connect_stream(filter, "out", snk, "in").unwrap();

    let fg = Runtime::new().run(fg).unwrap();

    assert_eq!(*out.borrow(), vec![2, 4, 6]);
    for b in 0..fg.block_count() {
        assert!(fg.block(b).work_calls() >= 1);
    }
    for e in 0..fg.stream_edge_count() {
        assert!(fg.channel(e).writer_finished());
        assert!(fg.channel(e).reader_finished());
        assert!(fg.channel(e).finished());
    }
}

#[test]
fn small_buffer_and_slow_sink_lose_nothing() {
    let mut fg = Topology::new();
    let out = Rc::new(RefCell::new(Vec::new()));
    let sink_calls = counter();
    let items: Vec<u32> = (0..100).collect();
    let src = fg.add_block(source_block(items.clone(), counter()));
    let snk = fg.add_block(sink_block(out.clone(), 1, sink_calls.clone()));
    fg.connect_stream_with_type(src, "out", snk, "in", BufferKind::Circular { capacity_items: 4 }).unwrap();

    let fg = Runtime::new().run(fg).unwrap();

    assert_eq!(*out.borrow(), items);
    assert!(*sink_calls.borrow() >= 100);
    assert!(fg.channel(0).finished());
}

#[test]
fn source_without_inputs_is_scheduled_without_any_message() {
    let mut fg = Topology::new();
    let calls = counter();
    let src = fg.add_block(source_block(vec![7], calls.clone()));
    let mut scheduler = Scheduler::new(fg);
    assert_eq!(scheduler.state(src), BlockState::Idle);
    scheduler.start().unwrap();
    assert_eq!(scheduler.state(src), BlockState::Runnable);
    assert_eq!(scheduler.inbox_len(src), 0);
    assert_eq!(scheduler.work_count(src), 0);

    assert_eq!(scheduler.graph().block(src).work_calls(), 0);
    let step = scheduler.step().unwrap();

    assert_eq!(step, Step::Worked { block: src, wait: None });
    assert_eq!(scheduler.work_count(src), 1);
    assert_eq!(scheduler.graph().block(src).work_calls(), 1);
    assert_eq!(*calls.borrow(), 1);
    assert_eq!(scheduler.state(src), BlockState::Finished);
}

#[test]
fn finished_block_is_never_worked_again() {
    let mut fg = Topology::new();
    let out = Rc::new(RefCell::new(Vec::new()));
    let source_calls = counter();
    let src = fg.add_block(source_block(vec![1, 2], source_calls.clone()));
    let snk = fg.add_block(sink_block(out.clone(), 1, counter()));
    fg.connect_stream(src, "out", snk, "in").unwrap();
    let mut scheduler = Scheduler::new(fg);
    scheduler.start().unwrap();

    assert_eq!(scheduler.step().unwrap(), Step::Worked { block: src, wait: None });
    assert_eq!(scheduler.state(src), BlockState::Finished);
    assert!(scheduler.graph().channel(0).writer_finished());
    assert!(!scheduler.graph().channel(0).finished());

    assert_eq!(scheduler.run_to_quiescence(1000).unwrap(), RunEnd::Finished);

    assert_eq!(scheduler.work_count(src), 1);
    assert_eq!(*source_calls.borrow(), 1);
    assert_eq!(scheduler.state(src), BlockState::Finished);
    assert_eq!(scheduler.state(snk), BlockState::Finished);
    assert_eq!(*out.borrow(), vec![1, 2]);
    assert!(scheduler.graph().channel(0).finished());
    assert_eq!(scheduler.step().unwrap(), Step::Quiescent);
}

#[test]
fn missing_mandatory_input_is_refused() {
    let mut fg = Topology::new();
    let calls = counter();
    fg.add_block(source_block(vec![1], calls.clone()));
    let snk = fg.add_block(sink_block(Rc::new(RefCell::new(Vec::new())), 1, counter()));

    match Runtime::new().run(fg) {
        Err(RunError::Topology(e)) => assert_eq!(e, TopologyError::MissingInput { block: snk, port: 0 }),
        _ => panic!("the run should have been refused"),
    }
    assert_eq!(*calls.borrow(), 0);
}

#[test]
fn kernel_errors_end_the_run() {
    let mut fg = Topology::new();
    fg.add_block(Block::new_sync(
        BlockMetaBuilder::new("Failing").build(),
        StreamIoBuilder::new().build(),
        MessageIoBuilder::new().build(),
        Failing { in_init: false },
    ));
    match Runtime::new().run(fg) {
        Err(RunError::Kernel(e)) => assert_eq!(e.message, "work failed"),
        _ => panic!("the run should have failed"),
    }

    let mut fg = Topology::new();
    fg.add_block(Block::new_sync(
        BlockMetaBuilder::new("Failing").build(),
        StreamIoBuilder::new().build(),
        MessageIoBuilder::new().build(),
        Failing { in_init: true },
    ));
    match Runtime::new().run(fg) {
        Err(RunError::Kernel(e)) => assert_eq!(e.message, "init failed"),
        _ => panic!("the run should have failed"),
    }
}

#[test]
fn stall_and_step_limit_are_reported() {
    let mut fg = Topology::new();
    fg.add_block(Block::new_sync(
        BlockMetaBuilder::new("Waiting").build(),
        StreamIoBuilder::new().build(),
        MessageIoBuilder::new().build(),
        Waiting,
    ));
    assert!(matches!(Runtime::new().run(fg), Err(RunError::Stalled)));

    let mut fg = Topology::new();
    let src = fg.add_block(source_block((0..100).collect(), counter()));
    let snk = fg.add_block(sink_block(Rc::new(RefCell::new(Vec::new())), 1, counter()));
    fg.connect_stream_with_type(src, "out", snk, "in", BufferKind::Circular { capacity_items: 4 }).unwrap();
    assert!(matches!(Runtime::with_step_limit(5).run(fg), Err(RunError::StepLimit)));
}
