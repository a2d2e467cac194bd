use std::cell::RefCell;
use std::rc::Rc;

use futuresdr::blocks::message_source::MessageSource;
use futuresdr::blocks::message_source::MessageSourceBuilder;
use futuresdr::blocks::message_source::Tick;
use futuresdr::runtime::block::Block;
use futuresdr::runtime::block::BlockMeta;
use futuresdr::runtime::block::BlockMetaBuilder;
use futuresdr::runtime::block::Direction;
use futuresdr::runtime::block::Kernel;
use futuresdr::runtime::block::KernelError;
use futuresdr::runtime::block::KernelKind;
use futuresdr::runtime::block::PortKind;
use futuresdr::runtime::block::WorkIo;
use futuresdr::runtime::inbox::AsyncMessage;
use futuresdr::runtime::message_io::find_name;
use futuresdr::runtime::message_io::MessageIo;
use futuresdr::runtime::message_io::MessageIoBuilder;
use futuresdr::runtime::pmt::Pmt;
use futuresdr::runtime::run::Runtime;
use futuresdr::runtime::scheduler::BlockState;
use futuresdr::runtime::scheduler::RunEnd;
use futuresdr::runtime::scheduler::Scheduler;
use futuresdr::runtime::scheduler::Step;
use futuresdr::runtime::stream_io::StreamIo;
use futuresdr::runtime::stream_io::StreamIoBuilder;
use futuresdr::runtime::topology::ConnectError;
use futuresdr::runtime::topology::Topology;

fn nested() -> Pmt {
    Pmt::Mapping(vec![
        (String::from("gain"), Pmt::Float(2.5f64.to_bits())),
        (
            String::from("taps"),
            Pmt::Sequence(vec![Pmt::Integer(-3), Pmt::Bool(true), Pmt::Null, Pmt::Blob(vec![1, 2, 3])]),
        ),
        (String::from("name"), Pmt::String(String::from("rx"))),
    ])
}

#[test]
fn a_payload_is_copied_in_depth() {
    let first = nested();
    let copy = first.duplicate();
    assert_eq!(copy, first);
    assert_eq!(first.clone(), first);
    assert!(Pmt::Null.duplicate().is_null());
    assert!(!first.is_null());
    assert_ne!(Pmt::Integer(1).duplicate(), Pmt::Integer(2));
    match copy {
        Pmt::Mapping(entries) => {
            assert_eq!(entries.len(), 3);
            assert_eq!(entries[0].1, Pmt::Float(2.5f64.to_bits()));
        }
        _ => panic!("a mapping is copied as a mapping"),
    }
}

#[test]
fn names_are_found_by_their_first_occurrence() {
    let names = vec![String::from("a"), String::from("b"), String::from("a")];
    assert_eq!(find_name(&names, "a"), Some(0));
    assert_eq!(find_name(&names, "b"), Some(1));
    assert_eq!(find_name(&names, "c"), None);
    assert_eq!(find_name(&Vec::new(), "a"), None);
}

#[test]
fn mailboxes_and_outboxes_are_queues() {
    let mut mio = MessageIoBuilder::new().add_input("cmd").add_input("cfg").add_output("out").build();
    assert_eq!((mio.inputs(), mio.outputs()), (2, 1));
    assert_eq!(mio.input_name(1), "cfg");
    assert_eq!(mio.output_name(0), "out");
    assert_eq!(mio.input_name_to_id("cfg"), Some(1));
    assert_eq!(mio.input_name_to_id("out"), None);
    assert_eq!(mio.output_name_to_id("out"), Some(0));

    assert_eq!(mio.receive(0), None);
    mio.deliver(0, Pmt::Integer(1));
    mio.deliver_all(0, vec![Pmt::Integer(2), Pmt::Integer(3)]);
    mio.deliver(1, Pmt::Bool(false));
    assert_eq!((mio.pending(0), mio.pending(1)), (3, 1));
    assert_eq!(mio.receive(0), Some(Pmt::Integer(1)));
    assert_eq!(mio.receive(0), Some(Pmt::Integer(2)));
    assert_eq!(mio.receive(1), Some(Pmt::Bool(false)));
    assert_eq!(mio.receive(0), Some(Pmt::Integer(3)));
    assert_eq!(mio.receive(0), None);

    mio.post(0, Pmt::Null);
    mio.post(0, Pmt::Integer(7));
    assert_eq!(mio.posted(0), 2);
    assert_eq!(mio.take_posted(0), vec![Pmt::Null, Pmt::Integer(7)]);
    assert_eq!(mio.posted(0), 0);
    assert!(mio.take_posted(0).is_empty());
}

fn started(mut source: MessageSource, now: u64) -> MessageSource {
    let mut sio = StreamIoBuilder::new().build();
    let mut mio = MessageIoBuilder::new().add_output("out").build();
    let mut meta = BlockMetaBuilder::new("MessageSource").build();
    source.init(now, &mut sio, &mut mio, &mut meta).unwrap();
    source
}

#[test]
fn a_message_source_posts_once_per_interval() {
    let mut source = started(MessageSource::kernel(Pmt::Integer(1), 100, Some(2)), 1000);
    assert_eq!(source.tick(1000), Tick { post: false, finished: false, sleep: 100 });
    assert_eq!(source.tick(1040), Tick { post: false, finished: false, sleep: 60 });
    assert_eq!(source.tick(1099), Tick { post: false, finished: false, sleep: 1 });
    assert_eq!(source.tick(1100), Tick { post: true, finished: false, sleep: 100 });
    assert_eq!(source.tick(1100), Tick { post: false, finished: false, sleep: 100 });
    // a late call posts once and starts the interval anew
    assert_eq!(source.tick(1350), Tick { post: true, finished: true, sleep: 100 });
    // no message is left: a call before the interval has passed changes nothing
    assert!(!source.overdrawn(1400));
    assert_eq!(source.tick(1400), Tick { post: false, finished: false, sleep: 50 });
    assert_eq!(source.tick(1449), Tick { post: false, finished: false, sleep: 1 });
    assert!(source.overdrawn(1450));
    assert!(source.overdrawn(2000));
}

#[test]
fn a_message_source_copes_with_odd_clocks_and_counts() {
    let mut endless = started(MessageSourceBuilder::new(Pmt::Null, 10).build_kernel(), 500);
    assert_eq!(endless.tick(500), Tick { post: false, finished: false, sleep: 10 });
    // the clock went back: the wait ends one interval after the start
    assert_eq!(endless.tick(400), Tick { post: false, finished: false, sleep: 110 });
    assert_eq!(endless.tick(510), Tick { post: true, finished: false, sleep: 10 });
    for k in 1..50 {
        assert!(!endless.overdrawn(510 + 10 * k));
        assert_eq!(endless.tick(510 + 10 * k), Tick { post: true, finished: false, sleep: 10 });
    }

    let mut none = started(MessageSourceBuilder::new(Pmt::Null, 10).n_messages(0).build_kernel(), 0);
    assert_eq!(none.tick(5), Tick { post: false, finished: false, sleep: 5 });
    assert!(none.overdrawn(10));

    let mut at_once = started(MessageSource::kernel(Pmt::Null, 0, Some(1)), 5);
    assert_eq!(at_once.tick(5), Tick { post: true, finished: true, sleep: 0 });
    assert!(at_once.overdrawn(5));

    let mut far = started(MessageSource::kernel(Pmt::Null, u64::MAX, None), u64::MAX);
    assert_eq!(far.tick(u64::MAX), Tick { post: false, finished: false, sleep: u64::MAX });
    assert_eq!(far.tick(3), Tick { post: false, finished: false, sleep: u64::MAX });

    // until init the interval counts from time 0
    let mut early = MessageSource::kernel(Pmt::Null, 100, None);
    assert_eq!(early.tick(99), Tick { post: false, finished: false, sleep: 1 });
    assert_eq!(early.tick(1000), Tick { post: true, finished: false, sleep: 100 });
}

#[test]
fn a_message_source_block_has_one_message_output() {
    let block = MessageSourceBuilder::new(Pmt::Null, 10).n_messages(3).build();
    assert_eq!(block.kind(), KernelKind::Suspendable);
    assert_eq!(block.meta().name(), "MessageSource");
    assert!(!block.meta().is_blocking());
    assert_eq!(block.stream_io().inputs(), 0);
    assert_eq!(block.stream_io().outputs(), 0);
    assert_eq!(block.message_io().inputs(), 0);
    assert_eq!(block.message_io().output_name_to_id("out"), Some(0));
    let ports = block.ports();
    assert_eq!(ports.len(), 1);
    assert_eq!(ports[0].name, "out");
    assert_eq!(ports[0].kind, PortKind::Message);
    assert_eq!(ports[0].direction, Direction::Out);

    let block = MessageSource::new(Pmt::Null, 10, None);
    assert_eq!(block.kind(), KernelKind::Suspendable);
    assert_eq!(block.message_io().outputs(), 1);
}

/// Collects the payloads of its mailbox `in` and finishes after `expected` of them.
struct MessageSink {
    got: Rc<RefCell<Vec<Pmt>>>,
    expected: usize,
}

impl Kernel for MessageSink {
    fn init(&mut self, _now: u64, _sio: &mut StreamIo, _mio: &mut MessageIo, _meta: &mut BlockMeta) -> Result<(), KernelError> {
        Ok(())
    }

    fn work(
        &mut self,
        io: &mut WorkIo,
        _sio: &mut StreamIo,
        mio: &mut MessageIo,
        _meta: &mut BlockMeta,
    ) -> Result<(), KernelError> {
        while let Some(m) = mio.receive(0) {
            self.got.borrow_mut().push(m);
        }
        if self.got.borrow().len() >= self.expected {
            io.finished = true;
        }
        Ok(())
    }
}

fn message_sink(got: Rc<RefCell<Vec<Pmt>>>, expected: usize) -> Block {
    Block::new_sync(
        BlockMetaBuilder::new("MessageSink").blocking().build(),
        StreamIoBuilder::new().build(),
        MessageIoBuilder::new().add_input("in").build(),
        MessageSink { got, expected },
    )
}

#[test]
fn messages_travel_along_message_edges() {
    let got = Rc::new(RefCell::new(Vec::new()));
    let mut fg = Topology::new();
    let src = fg.add_block(MessageSourceBuilder::new(nested(), 1_000_000).n_messages(3).build());
    let snk = fg.add_block(message_sink(got.clone(), 3));
    assert!(fg.block(snk).meta().is_blocking());
    fg.connect_message(src, "out", snk, "in").unwrap();
    assert_eq!(fg.message_edge_count(), 1);
    assert_eq!(fg.message_edge(0).dst_port, 0);

    let mut scheduler = Scheduler::new(fg);
    scheduler.start().unwrap();
    // the first call of the source starts the interval and asks for a wake-up
    assert_eq!(scheduler.step().unwrap(), Step::Worked { block: src, wait: Some(1_000_000) });
    assert_eq!(scheduler.state(src), BlockState::Runnable);
    assert!(got.borrow().is_empty());

    assert_eq!(scheduler.run_to_quiescence(100).unwrap(), RunEnd::Finished);

    assert_eq!(*got.borrow(), vec![nested(), nested(), nested()]);
    // the clock was put forward by each wait
    assert!(scheduler.now() >= 3_000_000);
    assert_eq!(scheduler.state(src), BlockState::Finished);
}

#[test]
fn a_delivery_wakes_the_receiver_with_a_mail_message() {
    let got = Rc::new(RefCell::new(Vec::new()));
    let mut fg = Topology::new();
    let snk = fg.add_block(message_sink(got.clone(), 1));
    let src = fg.add_block(MessageSource::new(Pmt::Integer(9), 10, Some(1)));
    fg.connect_message(src, "out", snk, "in").unwrap();
    let mut scheduler = Scheduler::new(fg);
    scheduler.set_clock(77);
    scheduler.start().unwrap();

    // nothing has come yet
    assert_eq!(scheduler.step().unwrap(), Step::Worked { block: snk, wait: None });
    assert_eq!(scheduler.state(snk), BlockState::Idle);
    // the interval started at init, at time 77
    assert_eq!(scheduler.step().unwrap(), Step::Worked { block: src, wait: Some(10) });
    assert_eq!(scheduler.inbox_len(snk), 0);
    scheduler.set_clock(87);
    // the source posts: the sink gets the payload and one control message
    assert_eq!(scheduler.step().unwrap(), Step::Worked { block: src, wait: None });
    assert_eq!(scheduler.state(src), BlockState::Finished);
    assert_eq!(scheduler.graph().block(snk).message_io().pending(0), 1);
    assert_eq!(scheduler.inbox_len(snk), 1);
    assert_eq!(scheduler.state(snk), BlockState::Runnable);
    assert_eq!(scheduler.step().unwrap(), Step::Worked { block: snk, wait: None });
    assert_eq!(*got.borrow(), vec![Pmt::Integer(9)]);
    assert_eq!(scheduler.step().unwrap(), Step::Quiescent);
    assert_eq!(scheduler.now(), 87);
    let _ = AsyncMessage::Mail { port_id: 0 };
}

#[test]
fn a_due_call_with_no_message_left_fails() {
    let mut fg = Topology::new();
    fg.add_block(MessageSource::new(Pmt::Null, 0, Some(0)));
    match Runtime::new().run(fg) {
        Err(futuresdr::runtime::run::RunError::Kernel(e)) => {
            assert_eq!(e.message, "MessageSource has no message left to post")
        }
        _ => panic!("the run should have failed"),
    }
}

#[test]
fn message_edges_join_existing_ports_once() {
    let mut fg = Topology::new();
    let src = fg.add_block(MessageSource::new(Pmt::Null, 1, Some(1)));
    let snk = fg.add_block(message_sink(Rc::new(RefCell::new(Vec::new())), 1));
    let other = fg.add_block(message_sink(Rc::new(RefCell::new(Vec::new())), 1));
    assert_eq!(fg.connect_message(src, "out", 9, "in"), Err(ConnectError::UnknownBlock));
    assert_eq!(fg.connect_message(9, "out", snk, "in"), Err(ConnectError::UnknownBlock));
    assert_eq!(fg.connect_message(src, "nope", snk, "in"), Err(ConnectError::UnknownPort));
    assert_eq!(fg.connect_message(src, "out", snk, "out"), Err(ConnectError::UnknownPort));
    assert_eq!(fg.connect_message(src, "out", snk, "in"), Ok(()));
    assert_eq!(fg.connect_message(src, "out", other, "in"), Err(ConnectError::AlreadyConnected));
    let second = fg.add_block(MessageSource::new(Pmt::Null, 1, Some(1)));
    assert_eq!(fg.connect_message(second, "out", snk, "in"), Err(ConnectError::AlreadyConnected));
    assert_eq!(fg.connect_message(second, "out", other, "in"), Ok(()));
    assert_eq!(fg.message_edge_count(), 2);
}

#[test]
fn a_run_with_messages_ends() {
    let got = Rc::new(RefCell::new(Vec::new()));
    let mut fg = Topology::new();
    let src = fg.add_block(MessageSourceBuilder::new(Pmt::Bool(true), 5).n_messages(10).build());
    let snk = fg.add_block(message_sink(got.clone(), 10));
    fg.connect_message(src, "out", snk, "in").unwrap();
    assert!(Runtime::new().run(fg).is_ok());
    assert_eq!(got.borrow().len(), 10);
}

#[test]
fn a_message_source_without_message_output_fails() {
    let mut fg = Topology::new();
    fg.add_block(Block::new_async(
        BlockMetaBuilder::new("Mute").build(),
        StreamIoBuilder::new().build(),
        MessageIoBuilder::new().build(),
        MessageSource::kernel(Pmt::Null, 1, None),
    ));
    match Runtime::new().run(fg) {
        Err(futuresdr::runtime::run::RunError::Kernel(e)) => {
            assert_eq!(e.message, "MessageSource has no message output")
        }
        _ => panic!("the run should have failed"),
    }
}

#[test]
fn hints_start_empty() {
    let mut io = WorkIo::new(42);
    assert_eq!(io, WorkIo { call_again: false, finished: false, block_on: None, now: 42 });
    io.block_on(7);
    assert_eq!(io, WorkIo { call_again: false, finished: false, block_on: Some(7), now: 42 });
    assert_eq!(Runtime::default(), Runtime::new());
    assert_ne!(Runtime::with_step_limit(3), Runtime::new());
}
