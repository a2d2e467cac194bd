//! The flowgraph: blocks, stream edges with their buffers, message edges.

use crate::runtime::block::bump;
use crate::runtime::block::Block;
use crate::runtime::block::KernelError;
use crate::runtime::block::WorkIo;
use crate::runtime::buffer::circular::BufferError;
use crate::runtime::buffer::BufferKind;
use crate::runtime::buffer::BufferView;
use crate::runtime::buffer::ChannelView;
use crate::runtime::message_io::name_index;
use crate::runtime::buffer::Channel;
use crate::runtime::pmt::Pmt;
use crate::runtime::stream_io::bound_port;
use crate::runtime::stream_io::edges_wf;
use crate::runtime::stream_io::port_index;
use crate::runtime::stream_io::same_edges;
use vstd::prelude::*;

verus! {

/// Items a circular buffer holds when the edge names no capacity.
pub const DEFAULT_BUFFER_ITEMS: usize = 8192;

/// An edge from output port `src_port` of block `src` to input port
/// `dst_port` of block `dst`.
#[derive(Debug, Clone, Copy, PartialEq, Eq, Structural)]
pub struct Edge {
    pub src: usize,
    pub src_port: usize,
    pub dst: usize,
    pub dst_port: usize,
}

/// Why two ports were not connected.
#[derive(Debug, Clone, Copy, PartialEq, Eq, Structural)]
pub enum ConnectError {
    /// A block index names no block of the flowgraph.
    UnknownBlock,
    /// A port name names no port of its block.
    UnknownPort,
    /// One of the ports is connected already.
    AlreadyConnected,
    /// The two ports carry items of different byte sizes.
    ItemSizeMismatch,
    /// The buffer of the edge could not be built.
    Buffer(BufferError),
}

/// Why a flowgraph cannot run.
#[derive(Debug, Clone, Copy, PartialEq, Eq, Structural)]
pub enum TopologyError {
    /// Mandatory input `port` of block `block` is not connected.
    MissingInput { block: usize, port: usize },
}

/// Why no buffer of kind `kind` can be built for items of `item_size`
/// bytes, if there is a reason.
pub open spec fn buffer_refusal(kind: BufferKind, item_size: usize) -> Option<BufferError> {
    if item_size == 0 {
        Some(BufferError::ZeroItemSize)
    } else {
        match kind {
            BufferKind::Circular { capacity_items } => if capacity_items == 0 {
                Some(BufferError::ZeroCapacity)
            } else if 2 * item_size * capacity_items > isize::MAX {
                Some(BufferError::TooLarge)
            } else {
                None
            },
            BufferKind::D2H => None,
        }
    }
}

/// The flowgraph.
pub struct Topology {
    blocks: Vec<Block>,
    stream_edges: Vec<Edge>,
    channels: Vec<Channel>,
    message_edges: Vec<Edge>,
}

/// Whether `edges` holds an edge that starts at output `src_port` of `src`
/// or ends at input `dst_port` of `dst`.
pub open spec fn touches(edges: Seq<Edge>, src: usize, src_port: usize, dst: usize, dst_port: usize) -> bool {
    exists|m: int|
        0 <= m < edges.len() && (((#[trigger] edges[m]).src == src && edges[m].src_port == src_port)
            || (edges[m].dst == dst && edges[m].dst_port == dst_port))
}

impl Topology {
    /// The blocks, by index.
    pub closed spec fn blocks(&self) -> Seq<Block> {
        self.blocks@
    }

    /// The stream edges, by index.
    pub closed spec fn stream_edges(&self) -> Seq<Edge> {
        self.stream_edges@
    }

    /// The buffer of each stream edge, with the notifications it owes.
    pub closed spec fn channels(&self) -> Seq<Channel> {
        self.channels@
    }

    /// The message edges.
    pub closed spec fn message_edges(&self) -> Seq<Edge> {
        self.message_edges@
    }

    /// Block `b` is at rest and each of its bound stream ports is the end
    /// of the edge it names.
    pub open spec fn block_ok(&self, b: int) -> bool {
        let blk = self.blocks()[b];
        &&& blk.mio().wf()
        &&& blk.sio().channels().len() == 0
        &&& forall|i: int|
            0 <= i < blk.sio().input_ports().len() ==> ((#[trigger] blk.sio().input_ports()[i]).edge matches Some(
                e,
            ) ==> e < self.stream_edges().len() && self.stream_edges()[e as int].dst == b
                && self.stream_edges()[e as int].dst_port == i)
        &&& forall|i: int|
            0 <= i < blk.sio().output_ports().len() ==> ((#[trigger] blk.sio().output_ports()[i]).edge matches Some(
                e,
            ) ==> e < self.stream_edges().len() && self.stream_edges()[e as int].src == b
                && self.stream_edges()[e as int].src_port == i)
    }

    /// Stream edge `e` joins two existing ports that are bound to it and
    /// carry items of the size of its buffer.
    pub open spec fn edge_ok(&self, e: int) -> bool {
        let edge = self.stream_edges()[e];
        &&& edge.src < self.blocks().len()
        &&& edge.dst < self.blocks().len()
        &&& edge.src_port < self.blocks()[edge.src as int].sio().output_ports().len()
        &&& edge.dst_port < self.blocks()[edge.dst as int].sio().input_ports().len()
        &&& self.blocks()[edge.src as int].sio().output_ports()[edge.src_port as int].edge == Some(
            e as usize,
        )
        &&& self.blocks()[edge.dst as int].sio().input_ports()[edge.dst_port as int].edge == Some(
            e as usize,
        )
        &&& self.blocks()[edge.src as int].sio().output_ports()[edge.src_port as int].item_size
            == self.channels()[e]@.item_size()
        &&& self.blocks()[edge.dst as int].sio().input_ports()[edge.dst_port as int].item_size
            == self.channels()[e]@.item_size()
    }

    /// Message edge `m` joins an existing message output and an existing
    /// mailbox, and no earlier message edge starts or ends where it does.
    pub open spec fn message_edge_ok(&self, m: int) -> bool {
        let edge = self.message_edges()[m];
        &&& edge.src < self.blocks().len()
        &&& edge.dst < self.blocks().len()
        &&& edge.src_port < self.blocks()[edge.src as int].mio().output_names().len()
        &&& edge.dst_port < self.blocks()[edge.dst as int].mio().input_names().len()
        &&& !touches(
            self.message_edges().subrange(0, m),
            edge.src,
            edge.src_port,
            edge.dst,
            edge.dst_port,
        )
    }

    /// The flowgraph is consistently wired: every stream edge has its
    /// buffer, joins two ports of equal item size and is the only edge of
    /// each; every block is at rest.
    pub open spec fn wf(&self) -> bool {
        &&& self.stream_edges().len() == self.channels().len()
        &&& edges_wf(self.channels())
        &&& forall|b: int| 0 <= b < self.blocks().len() ==> #[trigger] self.block_ok(b)
        &&& forall|e: int| 0 <= e < self.stream_edges().len() ==> #[trigger] self.edge_ok(e)
        &&& forall|m: int| 0 <= m < self.message_edges().len() ==> #[trigger] self.message_edge_ok(m)
    }

    /// The blocks, their ports and the edges are those of `before`, and
    /// each buffer has the item size and the finished marks it had.
    pub open spec fn same_wiring(&self, before: &Topology) -> bool {
        &&& self.stream_edges() == before.stream_edges()
        &&& self.message_edges() == before.message_edges()
        &&& same_edges(self.channels(), before.channels())
        &&& self.blocks().len() == before.blocks().len()
        &&& forall|b: int|
            0 <= b < self.blocks().len() ==> {
                &&& (#[trigger] self.blocks()[b]).sio().input_ports() == before.blocks()[b].sio().input_ports()
                &&& self.blocks()[b].sio().output_ports() == before.blocks()[b].sio().output_ports()
                &&& self.blocks()[b].mio().same_ports(&before.blocks()[b].mio())
                &&& self.blocks()[b].kind_spec() == before.blocks()[b].kind_spec()
            }
    }

    /// The blocks, their ports and the edges are those of `before`, and
    /// each buffer has the item size it had.
    pub open spec fn same_graph(&self, before: &Topology) -> bool {
        &&& self.stream_edges() == before.stream_edges()
        &&& self.message_edges() == before.message_edges()
        &&& self.channels().len() == before.channels().len()
        &&& forall|e: int|
            0 <= e < self.channels().len() ==> (#[trigger] self.channels()[e])@.item_size()
                == before.channels()[e]@.item_size()
        &&& self.blocks().len() == before.blocks().len()
        &&& forall|b: int|
            0 <= b < self.blocks().len() ==> {
                &&& (#[trigger] self.blocks()[b]).sio().input_ports() == before.blocks()[b].sio().input_ports()
                &&& self.blocks()[b].sio().output_ports() == before.blocks()[b].sio().output_ports()
                &&& self.blocks()[b].mio().same_ports(&before.blocks()[b].mio())
                &&& self.blocks()[b].kind_spec() == before.blocks()[b].kind_spec()
            }
    }

    /// `same_graph` composes.
    pub proof fn lemma_same_graph_trans(&self, mid: &Topology, before: &Topology)
        requires
            self.same_graph(mid),
            mid.same_graph(before),
        ensures
            self.same_graph(before),
    {
        assert forall|b: int| 0 <= b < self.blocks().len() implies {
            &&& (#[trigger] self.blocks()[b]).sio().input_ports() == before.blocks()[b].sio().input_ports()
            &&& self.blocks()[b].sio().output_ports() == before.blocks()[b].sio().output_ports()
            &&& self.blocks()[b].mio().same_ports(&before.blocks()[b].mio())
            &&& self.blocks()[b].kind_spec() == before.blocks()[b].kind_spec()
        } by {
            assert(mid.blocks()[b].kind_spec() == before.blocks()[b].kind_spec());
        }
        assert forall|e: int| 0 <= e < self.channels().len() implies (#[trigger] self.channels()[e])@.item_size()
            == before.channels()[e]@.item_size() by {
            assert(mid.channels()[e]@.item_size() == before.channels()[e]@.item_size());
        }
    }

    /// Every block was called as often as in `before`.
    pub open spec fn same_calls(&self, before: &Topology) -> bool {
        &&& self.blocks().len() == before.blocks().len()
        &&& forall|b: int|
            0 <= b < self.blocks().len() ==> (#[trigger] self.blocks()[b]).calls() == before.blocks()[b].calls()
    }

    /// `same_calls` composes.
    pub proof fn lemma_same_calls_trans(&self, mid: &Topology, before: &Topology)
        requires
            self.same_calls(mid),
            mid.same_calls(before),
        ensures
            self.same_calls(before),
    {
        assert forall|b: int| 0 <= b < self.blocks().len() implies (#[trigger] self.blocks()[b]).calls()
            == before.blocks()[b].calls() by {
            assert(mid.blocks()[b].calls() == before.blocks()[b].calls());
        }
    }

    /// In a consistently wired flowgraph every block can be given the
    /// buffers of the flowgraph to work on.
    pub proof fn lemma_block_fits(&self, b: int)
        requires
            self.wf(),
            0 <= b < self.blocks().len(),
        ensures
            self.blocks()[b].fits(self.channels()),
    {
        let blk = self.blocks()[b];
        assert(self.block_ok(b));
        assert forall|i: int| 0 <= i < blk.sio().input_ports().len() implies ((#[trigger] blk.sio().input_ports()[i]).edge matches Some(
            e,
        ) ==> e < self.channels().len() && self.channels()[e as int]@.item_size()
            == blk.sio().input_ports()[i].item_size) by {
            if let Some(e) = blk.sio().input_ports()[i].edge {
                assert(self.edge_ok(e as int));
            }
        }
        assert forall|i: int| 0 <= i < blk.sio().output_ports().len() implies ((#[trigger] blk.sio().output_ports()[i]).edge matches Some(
            e,
        ) ==> e < self.channels().len() && self.channels()[e as int]@.item_size()
            == blk.sio().output_ports()[i].item_size) by {
            if let Some(e) = blk.sio().output_ports()[i].edge {
                assert(self.edge_ok(e as int));
            }
        }
    }

    /// Wiring that is the same and buffers that are well formed keep a
    /// flowgraph consistently wired, as long as every block is at rest.
    pub proof fn lemma_same_wiring_wf(&self, before: &Topology)
        requires
            before.wf(),
            self.same_wiring(before),
            edges_wf(self.channels()),
            forall|b: int|
                0 <= b < self.blocks().len() ==> (#[trigger] self.blocks()[b]).mio().wf()
                    && self.blocks()[b].sio().channels().len() == 0,
        ensures
            self.wf(),
    {
        assert forall|b: int| 0 <= b < self.blocks().len() implies #[trigger] self.block_ok(b) by {
            assert(before.block_ok(b));
        }
        assert forall|e: int| 0 <= e < self.stream_edges().len() implies #[trigger] self.edge_ok(e) by {
            assert(before.edge_ok(e));
        }
        assert forall|m: int| 0 <= m < self.message_edges().len() implies #[trigger] self.message_edge_ok(
            m,
        ) by {
            assert(before.message_edge_ok(m));
        }
    }

    /// A flowgraph without blocks.
    pub fn new() -> (t: Topology)
        ensures
            t.wf(),
            t.blocks().len() == 0,
            t.stream_edges().len() == 0,
            t.message_edges().len() == 0,
    {
        Topology {
            blocks: Vec::new(),
            stream_edges: Vec::new(),
            channels: Vec::new(),
            message_edges: Vec::new(),
        }
    }

    /// Number of blocks.
    pub fn block_count(&self) -> (n: usize)
        ensures
            n == self.blocks().len(),
    {
        self.blocks.len()
    }

    /// Number of stream edges.
    pub fn stream_edge_count(&self) -> (n: usize)
        ensures
            n == self.stream_edges().len(),
    {
        self.stream_edges.len()
    }

    /// Number of message edges.
    pub fn message_edge_count(&self) -> (n: usize)
        ensures
            n == self.message_edges().len(),
    {
        self.message_edges.len()
    }

    /// Block `b`.
    pub fn block(&self, b: usize) -> (blk: &Block)
        requires
            b < self.blocks().len(),
        ensures
            *blk == self.blocks()[b as int],
    {
        &self.blocks[b]
    }

    /// Stream edge `e`.
    pub fn stream_edge(&self, e: usize) -> (edge: Edge)
        requires
            e < self.stream_edges().len(),
        ensures
            edge == self.stream_edges()[e as int],
    {
        self.stream_edges[e]
    }

    /// Message edge `m`.
    pub fn message_edge(&self, m: usize) -> (edge: Edge)
        requires
            m < self.message_edges().len(),
        ensures
            edge == self.message_edges()[m as int],
    {
        self.message_edges[m]
    }

    /// The buffer of stream edge `e`.
    pub fn channel(&self, e: usize) -> (c: &Channel)
        requires
            e < self.channels().len(),
        ensures
            *c == self.channels()[e as int],
    {
        &self.channels[e]
    }

    /// Adds a block that is not wired yet and returns its index.
    pub fn add_block(&mut self, block: Block) -> (id: usize)
        requires
            old(self).wf(),
            block.mio().wf(),
            block.sio().unwired(),
        ensures
            final(self).wf(),
            id == old(self).blocks().len(),
            final(self).blocks() == old(self).blocks().push(block),
            final(self).stream_edges() == old(self).stream_edges(),
            final(self).channels() == old(self).channels(),
            final(self).message_edges() == old(self).message_edges(),
    {
        let id = self.blocks.len();
        self.blocks.push(block);
        proof {
            assert(self.blocks() == old(self).blocks().push(block));
            assert(self.stream_edges() == old(self).stream_edges());
            assert(self.channels() == old(self).channels());
            assert(self.message_edges() == old(self).message_edges());
            assert forall|b: int| 0 <= b < self.blocks().len() implies #[trigger] self.block_ok(b) by {
                if b < id {
                    assert(old(self).block_ok(b));
                }
            }
            assert forall|e: int| 0 <= e < self.stream_edges().len() implies #[trigger] self.edge_ok(
                e,
            ) by {
                assert(old(self).edge_ok(e));
            }
            assert forall|m: int| 0 <= m < self.message_edges().len() implies #[trigger] self.message_edge_ok(
                m,
            ) by {
                assert(old(self).message_edge_ok(m));
            }
        }
        id
    }
    /// The ports a stream connection would join: output `.0` of `src` and
    /// input `.1` of `dst`; or why the two cannot be joined.
    pub open spec fn stream_connection(
        &self,
        src: usize,
        src_port: Seq<char>,
        dst: usize,
        dst_port: Seq<char>,
    ) -> Result<(usize, usize), ConnectError> {
        if src >= self.blocks().len() || dst >= self.blocks().len() {
            Err(ConnectError::UnknownBlock)
        } else {
            let outs = self.blocks()[src as int].sio().output_ports();
            let ins = self.blocks()[dst as int].sio().input_ports();
            match (port_index(outs, src_port), port_index(ins, dst_port)) {
                (Some(o), Some(i)) => if outs[o].edge is Some || ins[i].edge is Some {
                    Err(ConnectError::AlreadyConnected)
                } else if outs[o].item_size != ins[i].item_size {
                    Err(ConnectError::ItemSizeMismatch)
                } else {
                    Ok((o as usize, i as usize))
                },
                _ => Err(ConnectError::UnknownPort),
            }
        }
    }

    /// `self` is `before` with one more stream edge, from output `o` of
    /// `src` to input `i` of `dst`, and a fresh buffer of kind `kind` for it.
    pub open spec fn connected_from(
        &self,
        before: &Topology,
        src: usize,
        o: usize,
        dst: usize,
        i: usize,
        kind: BufferKind,
    ) -> bool {
        let e = before.stream_edges().len();
        let c = self.channels()[e as int]@;
        &&& self.stream_edges() == before.stream_edges().push(
            Edge { src, src_port: o, dst, dst_port: i },
        )
        &&& self.message_edges() == before.message_edges()
        &&& self.channels().len() == e + 1
        &&& self.channels().drop_last() == before.channels()
        &&& !c.notify_reader && !c.notify_writer
        &&& !c.writer_finished() && !c.reader_finished()
        &&& match kind {
            BufferKind::Circular { capacity_items } => c.buffer matches BufferView::Host(s)
                && s.capacity == capacity_items && s.stream.len() == 0 && s.read_cursor == 0
                && s.write_cursor == 0,
            BufferKind::D2H => c.buffer matches BufferView::Custom { pools, writer, reader }
                && pools.owners.len() == 0 && pools.pool_empty.len() == 0 && pools.pool_full.len()
                == 0 && reader.current is None,
        }
        &&& self.blocks().len() == before.blocks().len()
        &&& forall|b: int|
            0 <= b < self.blocks().len() ==> {
                &&& (#[trigger] self.blocks()[b]).mio() == before.blocks()[b].mio()
                &&& self.blocks()[b].kind_spec() == before.blocks()[b].kind_spec()
                &&& self.blocks()[b].calls() == before.blocks()[b].calls()
                &&& self.blocks()[b].sio().output_ports() == (if b == src {
                    before.blocks()[b].sio().output_ports().update(
                        o as int,
                        bound_port(before.blocks()[b].sio().output_ports()[o as int], e as usize),
                    )
                } else {
                    before.blocks()[b].sio().output_ports()
                })
                &&& self.blocks()[b].sio().input_ports() == (if b == dst {
                    before.blocks()[b].sio().input_ports().update(
                        i as int,
                        bound_port(before.blocks()[b].sio().input_ports()[i as int], e as usize),
                    )
                } else {
                    before.blocks()[b].sio().input_ports()
                })
            }
    }

    /// Connects output `src_port` of block `src` to input `dst_port` of
    /// block `dst` through a circular buffer of the default capacity.
    pub fn connect_stream(&mut self, src: usize, src_port: &str, dst: usize, dst_port: &str) -> (r:
        Result<(), ConnectError>)
        requires
            old(self).wf(),
        ensures
            final(self).wf(),
            match old(self).stream_connection(src, src_port@, dst, dst_port@) {
                Err(e) => r == Err::<(), ConnectError>(e),
                Ok((o, i)) => match buffer_refusal(
                    BufferKind::Circular { capacity_items: DEFAULT_BUFFER_ITEMS },
                    old(self).blocks()[src as int].sio().output_ports()[o as int].item_size,
                ) {
                    Some(e) => r == Err::<(), ConnectError>(ConnectError::Buffer(e)),
                    None => r is Ok && final(self).connected_from(
                        old(self),
                        src,
                        o,
                        dst,
                        i,
                        BufferKind::Circular { capacity_items: DEFAULT_BUFFER_ITEMS },
                    ),
                },
            },
            r is Err ==> final(self).same_wiring(old(self)) && final(self).channels() == old(
                self,
            ).channels(),
    {
        self.connect_stream_with_type(
            src,
            src_port,
            dst,
            dst_port,
            BufferKind::Circular { capacity_items: DEFAULT_BUFFER_ITEMS },
        )
    }

    /// Connects output `src_port` of block `src` to input `dst_port` of
    /// block `dst` through a buffer of kind `kind`.
    pub fn connect_stream_with_type(
        &mut self,
        src: usize,
        src_port: &str,
        dst: usize,
        dst_port: &str,
        kind: BufferKind,
    ) -> (r: Result<(), ConnectError>)
        requires
            old(self).wf(),
        ensures
            final(self).wf(),
            match old(self).stream_connection(src, src_port@, dst, dst_port@) {
                Err(e) => r == Err::<(), ConnectError>(e),
                Ok((o, i)) => match buffer_refusal(
                    kind,
                    old(self).blocks()[src as int].sio().output_ports()[o as int].item_size,
                ) {
                    Some(e) => r == Err::<(), ConnectError>(ConnectError::Buffer(e)),
                    None => r is Ok && final(self).connected_from(old(self), src, o, dst, i, kind),
                },
            },
            r is Err ==> final(self).same_wiring(old(self)) && final(self).channels() == old(
                self,
            ).channels(),
    {
        let n = self.blocks.len();
        if src >= n || dst >= n {
            return Err(ConnectError::UnknownBlock);
        }
        let found_o = self.blocks[src].stream_io().output_name_to_id(src_port);
        let found_i = self.blocks[dst].stream_io().input_name_to_id(dst_port);
        let (o, i) = match (found_o, found_i) {
            (Some(o), Some(i)) => (o, i),
            _ => {
                return Err(ConnectError::UnknownPort);
            },
        };
        let out_port = self.blocks[src].stream_io().output(o);
        let in_port = self.blocks[dst].stream_io().input(i);
        if out_port.edge.is_some() || in_port.edge.is_some() {
            return Err(ConnectError::AlreadyConnected);
        }
        if out_port.item_size != in_port.item_size {
            return Err(ConnectError::ItemSizeMismatch);
        }
        let item_size = out_port.item_size;
        let channel = match Channel::new(kind, item_size, o, i) {
            Ok(c) => c,
            Err(e) => {
                return Err(ConnectError::Buffer(e));
            },
        };
        let e = self.stream_edges.len();
        assert(old(self).block_ok(src as int));
        assert(old(self).block_ok(dst as int));
        self.stream_edges.push(Edge { src, src_port: o, dst, dst_port: i });
        self.channels.push(channel);
        self.blocks[src].bind_output(o, e);
        let ghost mid = self.blocks@;
        self.blocks[dst].bind_input(i, e);
        proof {
            assert(self.stream_edges() == old(self).stream_edges().push(
                Edge { src, src_port: o, dst, dst_port: i },
            ));
            assert(self.message_edges() == old(self).message_edges());
            assert(self.channels() == old(self).channels().push(channel));
            assert(self.channels().drop_last() =~= old(self).channels());
            assert(mid == old(self).blocks().update(src as int, mid[src as int]));
            assert(self.blocks() == mid.update(dst as int, self.blocks()[dst as int]));
            channel.lemma_wf();
            assert forall|b: int| 0 <= b < self.blocks().len() implies {
                &&& (#[trigger] self.blocks()[b]).mio() == old(self).blocks()[b].mio()
                &&& self.blocks()[b].kind_spec() == old(self).blocks()[b].kind_spec()
                &&& self.blocks()[b].calls() == old(self).blocks()[b].calls()
                &&& self.blocks()[b].sio().channels().len() == 0
                &&& self.blocks()[b].sio().output_ports() == (if b == src {
                    old(self).blocks()[b].sio().output_ports().update(
                        o as int,
                        bound_port(old(self).blocks()[b].sio().output_ports()[o as int], e as usize),
                    )
                } else {
                    old(self).blocks()[b].sio().output_ports()
                })
                &&& self.blocks()[b].sio().input_ports() == (if b == dst {
                    old(self).blocks()[b].sio().input_ports().update(
                        i as int,
                        bound_port(old(self).blocks()[b].sio().input_ports()[i as int], e as usize),
                    )
                } else {
                    old(self).blocks()[b].sio().input_ports()
                })
            } by {
                assert(old(self).block_ok(b));
            }
            assert forall|b: int| 0 <= b < self.blocks().len() implies #[trigger] self.block_ok(b) by {
                assert(old(self).block_ok(b));
                let blk = self.blocks()[b];
                let was = old(self).blocks()[b];
                assert forall|p: int| 0 <= p < blk.sio().input_ports().len() implies ((#[trigger] blk.sio().input_ports()[p]).edge matches Some(
                    x,
                ) ==> x < self.stream_edges().len() && self.stream_edges()[x as int].dst == b
                    && self.stream_edges()[x as int].dst_port == p) by {
                    if b == dst && p == i {
                    } else {
                        assert(blk.sio().input_ports()[p] == was.sio().input_ports()[p]);
                    }
                }
                assert forall|p: int| 0 <= p < blk.sio().output_ports().len() implies ((#[trigger] blk.sio().output_ports()[p]).edge matches Some(
                    x,
                ) ==> x < self.stream_edges().len() && self.stream_edges()[x as int].src == b
                    && self.stream_edges()[x as int].src_port == p) by {
                    if b == src && p == o {
                    } else {
                        assert(blk.sio().output_ports()[p] == was.sio().output_ports()[p]);
                    }
                }
            }
            assert forall|x: int| 0 <= x < self.stream_edges().len() implies #[trigger] self.edge_ok(
                x,
            ) by {
                if x < e {
                    assert(old(self).edge_ok(x));
                    let edge = old(self).stream_edges()[x];
                    assert(self.stream_edges()[x] == edge);
                    assert(self.channels()[x] == old(self).channels()[x]);
                }
            }
            assert forall|m: int| 0 <= m < self.message_edges().len() implies #[trigger] self.message_edge_ok(
                m,
            ) by {
                assert(old(self).message_edge_ok(m));
            }
            assert forall|x: int| 0 <= x < self.channels().len() implies (#[trigger] self.channels()[x]).wf() by {
                if x < e {
                    assert(self.channels()[x] == old(self).channels()[x]);
                }
            }
        }
        Ok(())
    }
    /// The ports a message connection would join: message output `.0` of
    /// `src` and mailbox `.1` of `dst`; or why the two cannot be joined.
    pub open spec fn message_connection(
        &self,
        src: usize,
        src_port: Seq<char>,
        dst: usize,
        dst_port: Seq<char>,
    ) -> Result<(usize, usize), ConnectError> {
        if src >= self.blocks().len() || dst >= self.blocks().len() {
            Err(ConnectError::UnknownBlock)
        } else {
            let outs = self.blocks()[src as int].mio().output_names();
            let ins = self.blocks()[dst as int].mio().input_names();
            match (name_index(outs, src_port), name_index(ins, dst_port)) {
                (Some(o), Some(i)) => if touches(
                    self.message_edges(),
                    src,
                    o as usize,
                    dst,
                    i as usize,
                ) {
                    Err(ConnectError::AlreadyConnected)
                } else {
                    Ok((o as usize, i as usize))
                },
                _ => Err(ConnectError::UnknownPort),
            }
        }
    }

    /// Connects message output `src_port` of block `src` to mailbox
    /// `dst_port` of block `dst`.
    pub fn connect_message(&mut self, src: usize, src_port: &str, dst: usize, dst_port: &str) -> (r:
        Result<(), ConnectError>)
        requires
            old(self).wf(),
        ensures
            final(self).wf(),
            final(self).blocks() == old(self).blocks(),
            final(self).stream_edges() == old(self).stream_edges(),
            final(self).channels() == old(self).channels(),
            match old(self).message_connection(src, src_port@, dst, dst_port@) {
                Err(e) => r == Err::<(), ConnectError>(e) && final(self).message_edges() == old(
                    self,
                ).message_edges(),
                Ok((o, i)) => r is Ok && final(self).message_edges() == old(self).message_edges().push(
                    Edge { src, src_port: o, dst, dst_port: i },
                ),
            },
    {
        let n = self.blocks.len();
        if src >= n || dst >= n {
            return Err(ConnectError::UnknownBlock);
        }
        let found_o = self.blocks[src].message_io().output_name_to_id(src_port);
        let found_i = self.blocks[dst].message_io().input_name_to_id(dst_port);
        let (o, i) = match (found_o, found_i) {
            (Some(o), Some(i)) => (o, i),
            _ => {
                return Err(ConnectError::UnknownPort);
            },
        };
        let mut m: usize = 0;
        while m < self.message_edges.len()
            invariant
                m <= self.message_edges@.len(),
                *self == *old(self),
                old(self).wf(),
                src < self.blocks().len(),
                dst < self.blocks().len(),
                name_index(self.blocks()[src as int].mio().output_names(), src_port@) == Some(
                    o as int,
                ),
                name_index(self.blocks()[dst as int].mio().input_names(), dst_port@) == Some(i as int),
                !touches(self.message_edges@.subrange(0, m as int), src, o, dst, i),
            decreases self.message_edges@.len() - m,
        {
            let edge = self.message_edges[m];
            if (edge.src == src && edge.src_port == o) || (edge.dst == dst && edge.dst_port == i) {
                assert(self.message_edges()[m as int] == edge);
                assert(touches(self.message_edges(), src, o, dst, i));
                return Err(ConnectError::AlreadyConnected);
            }
            proof {
                let upto = self.message_edges@.subrange(0, m as int);
                let next = self.message_edges@.subrange(0, m + 1);
                assert forall|k: int| 0 <= k < next.len() implies !(((#[trigger] next[k]).src == src
                    && next[k].src_port == o) || (next[k].dst == dst && next[k].dst_port == i)) by {
                    if k < m {
                        assert(upto[k] == next[k]);
                    }
                }
            }
            m += 1;
        }
        assert(self.message_edges@.subrange(0, m as int) =~= self.message_edges@);
        self.message_edges.push(Edge { src, src_port: o, dst, dst_port: i });
        proof {
            assert(self.blocks() == old(self).blocks());
            assert(self.stream_edges() == old(self).stream_edges());
            assert(self.channels() == old(self).channels());
            assert forall|b: int| 0 <= b < self.blocks().len() implies #[trigger] self.block_ok(b) by {
                assert(old(self).block_ok(b));
            }
            assert forall|e: int| 0 <= e < self.stream_edges().len() implies #[trigger] self.edge_ok(
                e,
            ) by {
                assert(old(self).edge_ok(e));
            }
            assert forall|k: int| 0 <= k < self.message_edges().len() implies #[trigger] self.message_edge_ok(
                k,
            ) by {
                if k < old(self).message_edges().len() {
                    assert(old(self).message_edge_ok(k));
                }
            }
        }
        Ok(())
    }

    /// Whether input `port` of block `b` is mandatory and not connected.
    pub open spec fn missing_input(&self, b: int, port: int) -> bool {
        &&& 0 <= b < self.blocks().len()
        &&& 0 <= port < self.blocks()[b].sio().input_ports().len()
        &&& self.blocks()[b].sio().input_ports()[port].mandatory
        &&& self.blocks()[b].sio().input_ports()[port].edge is None
    }

    /// Whether no mandatory input before input `port` of block `b`, in the
    /// order of blocks and then of ports, is left unconnected.
    pub open spec fn none_missing_before(&self, b: int, port: int) -> bool {
        forall|c: int, q: int| (c < b || (c == b && q < port)) ==> !#[trigger] self.missing_input(c, q)
    }

    /// Checks that every mandatory input is connected. The error names the
    /// first input that is not, in the order of blocks and then of ports.
    pub fn validate(&self) -> (r: Result<(), TopologyError>)
        ensures
            match r {
                Ok(()) => forall|b: int, port: int| !#[trigger] self.missing_input(b, port),
                Err(TopologyError::MissingInput { block, port }) => self.missing_input(
                    block as int,
                    port as int,
                ) && self.none_missing_before(block as int, port as int),
            },
    {
        let mut b: usize = 0;
        while b < self.blocks.len()
            invariant
                b <= self.blocks().len(),
                self.none_missing_before(b as int, 0),
            decreases self.blocks().len() - b,
        {
            let sio = self.blocks[b].stream_io();
            let mut p: usize = 0;
            while p < sio.inputs()
                invariant
                    b < self.blocks().len(),
                    *sio == self.blocks()[b as int].sio(),
                    p <= sio.input_ports().len(),
                    self.none_missing_before(b as int, p as int),
                decreases sio.input_ports().len() - p,
            {
                let port = sio.input(p);
                if port.mandatory && port.edge.is_none() {
                    return Err(TopologyError::MissingInput { block: b, port: p });
                }
                p += 1;
            }
            b += 1;
        }
        Ok(())
    }

    /// A change of the buffer of one stream edge that keeps its item size
    /// keeps the flowgraph consistently wired.
    pub proof fn lemma_channel_update_wf(&self, before: &Topology, e: int)
        requires
            before.wf(),
            0 <= e < before.channels().len(),
            self.blocks() == before.blocks(),
            self.stream_edges() == before.stream_edges(),
            self.message_edges() == before.message_edges(),
            self.channels() == before.channels().update(e, self.channels()[e]),
            self.channels()[e].wf(),
            self.channels()[e]@.item_size() == before.channels()[e]@.item_size(),
        ensures
            self.wf(),
    {
        assert forall|b: int| 0 <= b < self.blocks().len() implies #[trigger] self.block_ok(b) by {
            assert(before.block_ok(b));
        }
        assert forall|x: int| 0 <= x < self.stream_edges().len() implies #[trigger] self.edge_ok(x) by {
            assert(before.edge_ok(x));
        }
        assert forall|m: int| 0 <= m < self.message_edges().len() implies #[trigger] self.message_edge_ok(
            m,
        ) by {
            assert(before.message_edge_ok(m));
        }
        assert forall|x: int| 0 <= x < self.channels().len() implies (#[trigger] self.channels()[x]).wf() by {
            if x != e {
                assert(self.channels()[x] == before.channels()[x]);
            }
        }
    }

    /// A change of one block that keeps its ports and leaves it at rest
    /// keeps the flowgraph consistently wired.
    pub proof fn lemma_block_update_wf(&self, before: &Topology, b: int)
        requires
            before.wf(),
            0 <= b < before.blocks().len(),
            self.blocks() == before.blocks().update(b, self.blocks()[b]),
            self.stream_edges() == before.stream_edges(),
            self.message_edges() == before.message_edges(),
            edges_wf(self.channels()),
            same_edges(self.channels(), before.channels()),
            self.blocks()[b].rested_from(&before.blocks()[b]),
        ensures
            self.wf(),
            self.same_wiring(before),
    {
        assert forall|c: int| 0 <= c < self.blocks().len() implies {
            &&& (#[trigger] self.blocks()[c]).sio().input_ports() == before.blocks()[c].sio().input_ports()
            &&& self.blocks()[c].sio().output_ports() == before.blocks()[c].sio().output_ports()
            &&& self.blocks()[c].mio().same_ports(&before.blocks()[c].mio())
            &&& self.blocks()[c].kind_spec() == before.blocks()[c].kind_spec()
            &&& self.blocks()[c].mio().wf()
            &&& self.blocks()[c].sio().channels().len() == 0
        } by {
            assert(before.block_ok(c));
            if c != b {
                assert(self.blocks()[c] == before.blocks()[c]);
            }
        }
        self.lemma_same_wiring_wf(before);
    }

    /// Runs the `init` hook of block `b` at time `now`.
    pub fn init_block(&mut self, b: usize, now: u64) -> (r: Result<(), KernelError>)
        requires
            old(self).wf(),
            b < old(self).blocks().len(),
        ensures
            final(self).wf(),
            final(self).same_wiring(old(self)),
            final(self).same_blocks_but(old(self), b as int),
            final(self).same_calls(old(self)),
    {
        proof {
            self.lemma_block_fits(b as int);
        }
        let r = self.blocks[b].init(now, &mut self.channels);
        proof {
            assert(self.stream_edges() == old(self).stream_edges());
            assert(self.message_edges() == old(self).message_edges());
            assert(self.blocks() == old(self).blocks().update(b as int, self.blocks()[b as int]));
            self.lemma_block_update_wf(old(self), b as int);
        }
        r
    }

    /// Runs the `work` function of block `b` once and counts the call. No
    /// other block is touched.
    pub fn work_block(&mut self, b: usize, io: &mut WorkIo) -> (r: Result<(), KernelError>)
        requires
            old(self).wf(),
            b < old(self).blocks().len(),
        ensures
            final(self).wf(),
            final(self).same_wiring(old(self)),
            final(self).same_blocks_but(old(self), b as int),
            final(self).blocks()[b as int].calls() == bump(old(self).blocks()[b as int].calls()),
    {
        proof {
            self.lemma_block_fits(b as int);
        }
        let r = self.blocks[b].work(io, &mut self.channels);
        proof {
            assert(self.stream_edges() == old(self).stream_edges());
            assert(self.message_edges() == old(self).message_edges());
            assert(self.blocks() == old(self).blocks().update(b as int, self.blocks()[b as int]));
            self.lemma_block_update_wf(old(self), b as int);
        }
        r
    }

    /// `self` is `before` but for the buffer of stream edge `e`.
    pub open spec fn same_but_channel(&self, before: &Topology, e: int) -> bool {
        &&& self.blocks() == before.blocks()
        &&& self.stream_edges() == before.stream_edges()
        &&& self.message_edges() == before.message_edges()
        &&& self.channels() == before.channels().update(e, self.channels()[e])
    }

    /// Whether the consumer of stream edge `e` is owed a `Notify`; the debt
    /// is cleared.
    pub fn take_notify_reader(&mut self, e: usize) -> (owed: bool)
        requires
            old(self).wf(),
            e < old(self).channels().len(),
        ensures
            final(self).wf(),
            final(self).same_wiring(old(self)),
            final(self).same_but_channel(old(self), e as int),
            owed == old(self).channels()[e as int]@.notify_reader,
            final(self).channels()[e as int]@ == (ChannelView {
                notify_reader: false,
                ..old(self).channels()[e as int]@
            }),
    {
        let owed = self.channels[e].take_notify_reader();
        proof {
            assert(self.blocks() == old(self).blocks());
            assert(self.stream_edges() == old(self).stream_edges());
            assert(self.message_edges() == old(self).message_edges());
            assert(self.channels() == old(self).channels().update(e as int, self.channels()[e as int]));
            self.lemma_channel_update_wf(old(self), e as int);
        }
        owed
    }

    /// Whether the producer of stream edge `e` is owed a `Notify`; the debt
    /// is cleared.
    pub fn take_notify_writer(&mut self, e: usize) -> (owed: bool)
        requires
            old(self).wf(),
            e < old(self).channels().len(),
        ensures
            final(self).wf(),
            final(self).same_wiring(old(self)),
            final(self).same_but_channel(old(self), e as int),
            owed == old(self).channels()[e as int]@.notify_writer,
            final(self).channels()[e as int]@ == (ChannelView {
                notify_writer: false,
                ..old(self).channels()[e as int]@
            }),
    {
        let owed = self.channels[e].take_notify_writer();
        proof {
            assert(self.blocks() == old(self).blocks());
            assert(self.stream_edges() == old(self).stream_edges());
            assert(self.message_edges() == old(self).message_edges());
            assert(self.channels() == old(self).channels().update(e as int, self.channels()[e as int]));
            self.lemma_channel_update_wf(old(self), e as int);
        }
        owed
    }

    /// Marks the producer of stream edge `e` as never producing again.
    pub fn finish_writer(&mut self, e: usize)
        requires
            old(self).wf(),
            e < old(self).channels().len(),
        ensures
            final(self).wf(),
            final(self).same_but_channel(old(self), e as int),
            final(self).channels()[e as int]@ == old(self).channels()[e as int]@.finish_writer(),
    {
        self.channels[e].finish_writer();
        proof {
            assert(self.blocks() == old(self).blocks());
            assert(self.stream_edges() == old(self).stream_edges());
            assert(self.message_edges() == old(self).message_edges());
            assert(self.channels() == old(self).channels().update(e as int, self.channels()[e as int]));
            self.lemma_channel_update_wf(old(self), e as int);
        }
    }

    /// Marks the consumer of stream edge `e` as never consuming again.
    pub fn finish_reader(&mut self, e: usize)
        requires
            old(self).wf(),
            e < old(self).channels().len(),
        ensures
            final(self).wf(),
            final(self).same_but_channel(old(self), e as int),
            final(self).channels()[e as int]@ == old(self).channels()[e as int]@.finish_reader(),
    {
        self.channels[e].finish_reader();
        proof {
            assert(self.blocks() == old(self).blocks());
            assert(self.stream_edges() == old(self).stream_edges());
            assert(self.message_edges() == old(self).message_edges());
            assert(self.channels() == old(self).channels().update(e as int, self.channels()[e as int]));
            self.lemma_channel_update_wf(old(self), e as int);
        }
    }

    /// Every block but `b` is what it was in `before`.
    pub open spec fn same_blocks_but(&self, before: &Topology, b: int) -> bool {
        &&& self.blocks().len() == before.blocks().len()
        &&& forall|c: int|
            0 <= c < self.blocks().len() && c != b ==> #[trigger] self.blocks()[c] == before.blocks()[c]
    }

    /// Takes every payload the kernel of block `b` posted on message output
    /// `port`, oldest first.
    pub fn take_posted(&mut self, b: usize, port: usize) -> (posted: Vec<Pmt>)
        requires
            old(self).wf(),
            b < old(self).blocks().len(),
            port < old(self).blocks()[b as int].mio().output_names().len(),
        ensures
            final(self).wf(),
            final(self).same_wiring(old(self)),
            final(self).channels() == old(self).channels(),
            final(self).same_blocks_but(old(self), b as int),
            final(self).same_calls(old(self)),
            posted@ == old(self).blocks()[b as int].mio().outbox(port as int),
            final(self).blocks()[b as int].mio().outbox(port as int).len() == 0,
            final(self).blocks()[b as int].mio().same_outboxes_but(
                &old(self).blocks()[b as int].mio(),
                port as int,
            ),
            final(self).blocks()[b as int].mio().same_mailboxes_but(
                &old(self).blocks()[b as int].mio(),
                -1,
            ),
    {
        assert(self.block_ok(b as int));
        let posted = self.blocks[b].take_posted(port);
        proof {
            assert(self.stream_edges() == old(self).stream_edges());
            assert(self.message_edges() == old(self).message_edges());
            assert(self.channels() == old(self).channels());
            assert(self.blocks() == old(self).blocks().update(b as int, self.blocks()[b as int]));
            self.lemma_block_update_wf(old(self), b as int);
        }
        posted
    }

    /// Queues `messages` in mailbox `port` of block `b`, in their order.
    pub fn deliver_all(&mut self, b: usize, port: usize, messages: Vec<Pmt>)
        requires
            old(self).wf(),
            b < old(self).blocks().len(),
            port < old(self).blocks()[b as int].mio().input_names().len(),
        ensures
            final(self).wf(),
            final(self).same_wiring(old(self)),
            final(self).channels() == old(self).channels(),
            final(self).same_blocks_but(old(self), b as int),
            final(self).same_calls(old(self)),
            final(self).blocks()[b as int].mio().mailbox(port as int) == old(self).blocks()[b as int].mio().mailbox(
                port as int,
            ) + messages@,
            final(self).blocks()[b as int].mio().same_mailboxes_but(
                &old(self).blocks()[b as int].mio(),
                port as int,
            ),
            final(self).blocks()[b as int].mio().same_outboxes_but(
                &old(self).blocks()[b as int].mio(),
                -1,
            ),
    {
        assert(self.block_ok(b as int));
        self.blocks[b].deliver_all(port, messages);
        proof {
            assert(self.stream_edges() == old(self).stream_edges());
            assert(self.message_edges() == old(self).message_edges());
            assert(self.channels() == old(self).channels());
            assert(self.blocks() == old(self).blocks().update(b as int, self.blocks()[b as int]));
            self.lemma_block_update_wf(old(self), b as int);
        }
    }
    /// `same_wiring` composes.
    pub proof fn lemma_same_wiring_trans(&self, mid: &Topology, before: &Topology)
        requires
            self.same_wiring(mid),
            mid.same_wiring(before),
        ensures
            self.same_wiring(before),
    {
        assert forall|b: int| 0 <= b < self.blocks().len() implies {
            &&& (#[trigger] self.blocks()[b]).sio().input_ports() == before.blocks()[b].sio().input_ports()
            &&& self.blocks()[b].sio().output_ports() == before.blocks()[b].sio().output_ports()
            &&& self.blocks()[b].mio().same_ports(&before.blocks()[b].mio())
            &&& self.blocks()[b].kind_spec() == before.blocks()[b].kind_spec()
        } by {
            assert(mid.blocks()[b].kind_spec() == before.blocks()[b].kind_spec());
        }
        assert forall|e: int| 0 <= e < self.channels().len() implies {
            &&& (#[trigger] self.channels()[e])@.item_size() == before.channels()[e]@.item_size()
            &&& self.channels()[e]@.writer_finished() == before.channels()[e]@.writer_finished()
            &&& self.channels()[e]@.reader_finished() == before.channels()[e]@.reader_finished()
        } by {
            assert(mid.channels()[e]@.item_size() == before.channels()[e]@.item_size());
        }
    }
}

} // verus!
