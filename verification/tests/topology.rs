use futuresdr::runtime::block::Block;
use futuresdr::runtime::block::BlockMeta;
use futuresdr::runtime::block::BlockMetaBuilder;
use futuresdr::runtime::block::Direction;
use futuresdr::runtime::block::Kernel;
use futuresdr::runtime::block::KernelError;
use futuresdr::runtime::block::PortKind;
use futuresdr::runtime::block::WorkIo;
use futuresdr::runtime::buffer::circular::BufferError;
use futuresdr::runtime::buffer::BufferKind;
use futuresdr::runtime::message_io::MessageIo;
use futuresdr::runtime::message_io::MessageIoBuilder;
use futuresdr::runtime::run::Runtime;
use futuresdr::runtime::scheduler::find_runnable;
use futuresdr::runtime::scheduler::BlockState::Finished;
use futuresdr::runtime::scheduler::BlockState::Idle;
use futuresdr::runtime::scheduler::BlockState::Runnable;
use futuresdr::runtime::scheduler::BlockState::Running;
use futuresdr::runtime::scheduler::SchedEvent;
use futuresdr::runtime::stream_io::find_port;
use futuresdr::runtime::stream_io::StreamIo;
use futuresdr::runtime::stream_io::StreamIoBuilder;
use futuresdr::runtime::stream_io::StreamPort;
use futuresdr::runtime::topology::ConnectError;
use futuresdr::runtime::topology::Edge;
use futuresdr::runtime::topology::Topology;
use futuresdr::runtime::topology::TopologyError;
use futuresdr::runtime::topology::DEFAULT_BUFFER_ITEMS;

/// Finishes at once.
struct Done;

impl Kernel for Done {
    fn init(&mut self, _now: u64, _sio: &mut StreamIo, _mio: &mut MessageIo, _meta: &mut BlockMeta) -> Result<(), KernelError> {
        Ok(())
    }

    fn work(
        &mut self,
        io: &mut WorkIo,
        _sio: &mut StreamIo,
        _mio: &mut MessageIo,
        _meta: &mut BlockMeta,
    ) -> Result<(), KernelError> {
        io.finished = true;
        Ok(())
    }
}

fn block(sio: StreamIo) -> Block {
    Block::new_sync(BlockMetaBuilder::new("Done").build(), sio, MessageIoBuilder::new().build(), Done)
}

fn two_blocks(out_size: usize, in_size: usize) -> (Topology, usize, usize) {
    let mut fg = Topology::new();
    let a = fg.add_block(block(StreamIoBuilder::new().add_output("out", out_size).add_output("aux", out_size).build()));
    let b = fg.add_block(block(
        StreamIoBuilder::new().add_input("in", in_size).add_optional_input("side", in_size).build(),
    ));
    (fg, a, b)
}

#[test]
fn blocks_are_numbered_in_the_order_they_are_added() {
    let (fg, a, b) = two_blocks(4, 4);
    assert_eq!((a, b), (0, 1));
    assert_eq!(fg.block_count(), 2);
    assert_eq!(fg.stream_edge_count(), 0);
    assert_eq!(fg.message_edge_count(), 0);
    assert_eq!(fg.block(b).stream_io().input_name_to_id("side"), Some(1));
    assert_eq!(fg.block(a).stream_io().output_name_to_id("side"), None);
    let ports = fg.block(b).ports();
    assert_eq!(ports.len(), 2);
    assert_eq!(ports[0].name, "in");
    assert_eq!(ports[0].kind, PortKind::Stream { item_size: 4 });
    assert_eq!(ports[0].direction, Direction::In);
    assert_eq!(fg.block(a).ports()[1].direction, Direction::Out);
}

#[test]
fn a_stream_edge_binds_both_ports_to_a_fresh_buffer() {
    let (mut fg, a, b) = two_blocks(4, 4);
    assert_eq!(fg.connect_stream(a, "out", b, "in"), Ok(()));
    assert_eq!(fg.stream_edge_count(), 1);
    assert_eq!(fg.stream_edge(0), Edge { src: a, src_port: 0, dst: b, dst_port: 0 });
    assert_eq!(fg.block(a).stream_io().output(0).edge, Some(0));
    assert_eq!(fg.block(a).stream_io().output(1).edge, None);
    assert_eq!(fg.block(b).stream_io().input(0).edge, Some(0));
    assert_eq!(fg.channel(0).item_size(), 4);
    assert_eq!(fg.channel(0).space(), DEFAULT_BUFFER_ITEMS);
    assert!(!fg.channel(0).writer_finished());

    assert_eq!(fg.connect_stream_with_type(a, "aux", b, "side", BufferKind::D2H), Ok(()));
    assert_eq!(fg.stream_edge(1), Edge { src: a, src_port: 1, dst: b, dst_port: 1 });
    assert_eq!(fg.channel(1).space(), 0);
    assert_eq!(fg.block(b).stream_io().input(1).edge, Some(1));
}

#[test]
fn every_reason_to_refuse_a_stream_edge() {
    let (mut fg, a, b) = two_blocks(4, 4);
    assert_eq!(fg.connect_stream(2, "out", b, "in"), Err(ConnectError::UnknownBlock));
    assert_eq!(fg.connect_stream(a, "out", 2, "in"), Err(ConnectError::UnknownBlock));
    assert_eq!(fg.connect_stream(a, "in", b, "in"), Err(ConnectError::UnknownPort));
    assert_eq!(fg.connect_stream(a, "out", b, "out"), Err(ConnectError::UnknownPort));
    assert_eq!(
        fg.connect_stream_with_type(a, "out", b, "in", BufferKind::Circular { capacity_items: 0 }),
        Err(ConnectError::Buffer(BufferError::ZeroCapacity))
    );
    assert_eq!(
        fg.connect_stream_with_type(a, "out", b, "in", BufferKind::Circular { capacity_items: usize::MAX }),
        Err(ConnectError::Buffer(BufferError::TooLarge))
    );
    assert_eq!(fg.stream_edge_count(), 0);
    assert_eq!(fg.connect_stream(a, "out", b, "in"), Ok(()));
    assert_eq!(fg.connect_stream(a, "out", b, "side"), Err(ConnectError::AlreadyConnected));
    assert_eq!(fg.connect_stream(a, "aux", b, "in"), Err(ConnectError::AlreadyConnected));
    assert_eq!(fg.stream_edge_count(), 1);

    let (mut fg, a, b) = two_blocks(4, 8);
    assert_eq!(fg.connect_stream(a, "out", b, "in"), Err(ConnectError::ItemSizeMismatch));

    let (mut fg, a, b) = two_blocks(0, 0);
    assert_eq!(fg.connect_stream(a, "out", b, "in"), Err(ConnectError::Buffer(BufferError::ZeroItemSize)));
    assert_eq!(
        fg.connect_stream_with_type(a, "out", b, "in", BufferKind::D2H),
        Err(ConnectError::Buffer(BufferError::ZeroItemSize))
    );
}

#[test]
fn a_block_may_feed_itself() {
    let mut fg = Topology::new();
    let a = fg.add_block(block(StreamIoBuilder::new().add_input("in", 2).add_output("out", 2).build()));
    assert_eq!(fg.connect_stream(a, "out", a, "in"), Ok(()));
    assert_eq!(fg.validate(), Ok(()));
    assert!(Runtime::new().run(fg).is_ok());
}

#[test]
fn the_first_unconnected_mandatory_input_is_named() {
    let (mut fg, a, b) = two_blocks(4, 4);
    let c = fg.add_block(block(StreamIoBuilder::new().add_input("x", 4).add_input("y", 4).build()));
    assert_eq!(fg.validate(), Err(TopologyError::MissingInput { block: b, port: 0 }));
    fg.connect_stream(a, "out", b, "in").unwrap();
    assert_eq!(fg.validate(), Err(TopologyError::MissingInput { block: c, port: 0 }));
    fg.connect_stream(a, "aux", c, "x").unwrap();
    assert_eq!(fg.validate(), Err(TopologyError::MissingInput { block: c, port: 1 }));
    assert_eq!(Topology::new().validate(), Ok(()));
}

#[test]
fn ports_are_found_by_their_first_name() {
    let port = |name: &str| StreamPort { name: String::from(name), item_size: 1, mandatory: true, edge: None };
    let ports = vec![port("a"), port("b"), port("a")];
    assert_eq!(find_port(&ports, "a"), Some(0));
    assert_eq!(find_port(&ports, "b"), Some(1));
    assert_eq!(find_port(&ports, ""), None);
}

#[test]
fn the_state_of_a_block_follows_the_events() {
    let done = SchedEvent::WorkDone { finished: true, again: false };
    let again = SchedEvent::WorkDone { finished: false, again: true };
    let rest = SchedEvent::WorkDone { finished: false, again: false };
    assert_eq!(Idle.step(SchedEvent::Start), Runnable);
    assert_eq!(Idle.step(SchedEvent::Message), Runnable);
    assert_eq!(Idle.step(SchedEvent::Dispatch), Idle);
    assert_eq!(Idle.step(done), Idle);
    assert_eq!(Runnable.step(SchedEvent::Message), Runnable);
    assert_eq!(Runnable.step(SchedEvent::Start), Runnable);
    assert_eq!(Runnable.step(SchedEvent::Dispatch), Running);
    assert_eq!(Running.step(SchedEvent::Message), Running);
    assert_eq!(Running.step(rest), Idle);
    assert_eq!(Running.step(again), Runnable);
    assert_eq!(Running.step(done), Finished);
    assert_eq!(Running.step(SchedEvent::WorkDone { finished: true, again: true }), Finished);
    for event in [SchedEvent::Start, SchedEvent::Message, SchedEvent::Dispatch, done, again, rest] {
        assert_eq!(Finished.step(event), Finished);
    }
}

#[test]
fn the_next_runnable_block_is_searched_in_order() {
    let states = vec![Idle, Runnable, Finished, Runnable];
    assert_eq!(find_runnable(&states, 0, 4), Some(1));
    assert_eq!(find_runnable(&states, 2, 4), Some(3));
    assert_eq!(find_runnable(&states, 2, 3), None);
    assert_eq!(find_runnable(&states, 4, 4), None);
    assert_eq!(find_runnable(&states, 0, 1), None);
}

#[test]
fn a_flowgraph_without_blocks_is_at_rest_at_once() {
    let fg = Runtime::new().run(Topology::new()).unwrap();
    assert_eq!(fg.block_count(), 0);
    assert!(Runtime::with_step_limit(0).run(Topology::new()).is_ok());
}
