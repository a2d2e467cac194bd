//! Stream ports of a block and the handles through which its kernel reaches
//! the buffers bound to them.

use crate::runtime::buffer::d2h::BufferEmpty;
use crate::runtime::buffer::d2h::BufferFull;
use crate::runtime::buffer::d2h::SubmitError;
use crate::runtime::buffer::BufferView;
use crate::runtime::buffer::Channel;
use vstd::prelude::*;

verus! {

/// One stream port: its static description and the edge it is bound to.
#[derive(Debug)]
pub struct StreamPort {
    /// Name of the port, unique among the ports of its direction.
    pub name: String,
    /// Bytes per item.
    pub item_size: usize,
    /// Whether the port must be connected before a run. Outputs never must.
    pub mandatory: bool,
    /// Index of the stream edge bound to the port.
    pub edge: Option<usize>,
}

/// Index of the first port called `name`.
pub open spec fn port_index(ports: Seq<StreamPort>, name: Seq<char>) -> Option<int> {
    if exists|i: int| 0 <= i < ports.len() && (#[trigger] ports[i]).name@ == name {
        Some(
            choose|i: int|
                0 <= i < ports.len() && (#[trigger] ports[i]).name@ == name && forall|j: int|
                    0 <= j < i ==> (#[trigger] ports[j]).name@ != name,
        )
    } else {
        None
    }
}

/// `port_index` is the index that has the name and is preceded by no port
/// with the name.
pub proof fn lemma_port_index(ports: Seq<StreamPort>, name: Seq<char>, i: int)
    requires
        0 <= i < ports.len(),
        ports[i].name@ == name,
        forall|j: int| 0 <= j < i ==> (#[trigger] ports[j]).name@ != name,
    ensures
        port_index(ports, name) == Some(i),
{
    let c = choose|c: int|
        0 <= c < ports.len() && (#[trigger] ports[c]).name@ == name && forall|j: int|
            0 <= j < c ==> (#[trigger] ports[j]).name@ != name;
    assert(ports[i].name@ == name);
    if c < i {
        assert(ports[c].name@ != name);
    }
    if i < c {
        assert(ports[i].name@ != name);
    }
}

/// Finds the first port called `name`.
pub fn find_port(ports: &Vec<StreamPort>, name: &str) -> (r: Option<usize>)
    ensures
        r.is_some() == port_index(ports@, name@).is_some(),
        r matches Some(i) ==> port_index(ports@, name@) == Some(i as int),
        match r {
            Some(i) => i < ports@.len() && ports@[i as int].name@ == name@ && forall|j: int|
                0 <= j < i ==> (#[trigger] ports@[j]).name@ != name@,
            None => forall|j: int| 0 <= j < ports@.len() ==> (#[trigger] ports@[j]).name@ != name@,
        },
{
    let key = name.to_owned();
    let mut i: usize = 0;
    while i < ports.len()
        invariant
            i <= ports@.len(),
            key@ == name@,
            forall|j: int| 0 <= j < i ==> (#[trigger] ports@[j]).name@ != name@,
        decreases ports@.len() - i,
    {
        if ports[i].name == key {
            proof {
                lemma_port_index(ports@, name@, i as int);
            }
            return Some(i);
        }
        i += 1;
    }
    None
}

/// The port `p` bound to edge `e`.
pub open spec fn bound_port(p: StreamPort, e: usize) -> StreamPort {
    StreamPort { edge: Some(e), ..p }
}

/// No port of `ports` is bound to an edge.
pub open spec fn ports_unbound(ports: Seq<StreamPort>) -> bool {
    forall|i: int| 0 <= i < ports.len() ==> (#[trigger] ports[i]).edge.is_none()
}

/// Builder of the stream ports of a block.
pub struct StreamIoBuilder {
    inputs: Vec<StreamPort>,
    outputs: Vec<StreamPort>,
}

impl StreamIoBuilder {
    /// Input ports added so far.
    pub closed spec fn input_ports(&self) -> Seq<StreamPort> {
        self.inputs@
    }

    /// Output ports added so far.
    pub closed spec fn output_ports(&self) -> Seq<StreamPort> {
        self.outputs@
    }

    /// A builder without ports.
    pub fn new() -> (b: StreamIoBuilder)
        ensures
            b.input_ports() == Seq::<StreamPort>::empty(),
            b.output_ports() == Seq::<StreamPort>::empty(),
            ports_unbound(b.input_ports()),
            ports_unbound(b.output_ports()),
    {
        StreamIoBuilder { inputs: Vec::new(), outputs: Vec::new() }
    }

    /// Adds a mandatory input port for items of `item_size` bytes.
    pub fn add_input(self, name: &str, item_size: usize) -> (b: StreamIoBuilder)
        ensures
            ports_unbound(self.input_ports()) ==> ports_unbound(b.input_ports()),
            ports_unbound(self.output_ports()) ==> ports_unbound(b.output_ports()),
            b.output_ports() == self.output_ports(),
            b.input_ports().len() == self.input_ports().len() + 1,
            b.input_ports().drop_last() == self.input_ports(),
            b.input_ports().last().name@ == name@,
            b.input_ports().last().item_size == item_size,
            b.input_ports().last().mandatory,
            b.input_ports().last().edge.is_none(),
    {
        let mut b = self;
        b.inputs.push(StreamPort { name: name.to_owned(), item_size, mandatory: true, edge: None });
        assert(b.inputs@.drop_last() =~= self.inputs@);
        b
    }

    /// Adds an input port that may stay unconnected.
    pub fn add_optional_input(self, name: &str, item_size: usize) -> (b: StreamIoBuilder)
        ensures
            ports_unbound(self.input_ports()) ==> ports_unbound(b.input_ports()),
            ports_unbound(self.output_ports()) ==> ports_unbound(b.output_ports()),
            b.output_ports() == self.output_ports(),
            b.input_ports().len() == self.input_ports().len() + 1,
            b.input_ports().drop_last() == self.input_ports(),
            b.input_ports().last().name@ == name@,
            b.input_ports().last().item_size == item_size,
            !b.input_ports().last().mandatory,
            b.input_ports().last().edge.is_none(),
    {
        let mut b = self;
        b.inputs.push(StreamPort { name: name.to_owned(), item_size, mandatory: false, edge: None });
        assert(b.inputs@.drop_last() =~= self.inputs@);
        b
    }

    /// Adds an output port for items of `item_size` bytes.
    pub fn add_output(self, name: &str, item_size: usize) -> (b: StreamIoBuilder)
        ensures
            ports_unbound(self.input_ports()) ==> ports_unbound(b.input_ports()),
            ports_unbound(self.output_ports()) ==> ports_unbound(b.output_ports()),
            b.input_ports() == self.input_ports(),
            b.output_ports().len() == self.output_ports().len() + 1,
            b.output_ports().drop_last() == self.output_ports(),
            b.output_ports().last().name@ == name@,
            b.output_ports().last().item_size == item_size,
            !b.output_ports().last().mandatory,
            b.output_ports().last().edge.is_none(),
    {
        let mut b = self;
        b.outputs.push(StreamPort { name: name.to_owned(), item_size, mandatory: false, edge: None });
        assert(b.outputs@.drop_last() =~= self.outputs@);
        b
    }

    /// The ports, bound to no edge.
    pub fn build(self) -> (sio: StreamIo)
        ensures
            sio.wf(),
            sio.input_ports() == self.input_ports(),
            sio.output_ports() == self.output_ports(),
            sio.channels().len() == 0,
            ports_unbound(self.input_ports()) && ports_unbound(self.output_ports())
                ==> sio.unwired(),
    {
        StreamIo { inputs: self.inputs, outputs: self.outputs, channels: Vec::new() }
    }
}

/// Whether every bound port of `ports` names an edge of `channels` whose
/// item size is that of the port.
pub open spec fn ports_bound(ports: Seq<StreamPort>, channels: Seq<Channel>) -> bool {
    forall|i: int|
        0 <= i < ports.len() ==> ((#[trigger] ports[i]).edge matches Some(e) ==> e < channels.len()
            && channels[e as int]@.item_size() == ports[i].item_size)
}

/// The edges `now` are as many as the edges `before`, and each has the item
/// size and the finished marks it had.
pub open spec fn same_edges(now: Seq<Channel>, before: Seq<Channel>) -> bool {
    &&& now.len() == before.len()
    &&& forall|e: int|
        0 <= e < now.len() ==> {
            &&& (#[trigger] now[e])@.item_size() == before[e]@.item_size()
            &&& now[e]@.writer_finished() == before[e]@.writer_finished()
            &&& now[e]@.reader_finished() == before[e]@.reader_finished()
        }
}

/// Every edge of `channels` is well formed.
pub open spec fn edges_wf(channels: Seq<Channel>) -> bool {
    forall|e: int| 0 <= e < channels.len() ==> (#[trigger] channels[e]).wf()
}

/// The stream ports of a block. While the kernel of the block works, the
/// ports give access to the edges of the flowgraph they are bound to.
pub struct StreamIo {
    inputs: Vec<StreamPort>,
    outputs: Vec<StreamPort>,
    channels: Vec<Channel>,
}

impl StreamIo {
    /// The input ports.
    pub closed spec fn input_ports(&self) -> Seq<StreamPort> {
        self.inputs@
    }

    /// The output ports.
    pub closed spec fn output_ports(&self) -> Seq<StreamPort> {
        self.outputs@
    }

    /// The edges within reach: those of the flowgraph while the kernel
    /// works, none otherwise.
    pub closed spec fn channels(&self) -> Seq<Channel> {
        self.channels@
    }

    /// Every edge within reach is well formed and, when edges are within
    /// reach, every bound port names one of them with its own item size.
    pub open spec fn wf(&self) -> bool {
        &&& edges_wf(self.channels())
        &&& self.channels().len() > 0 ==> ports_bound(self.input_ports(), self.channels())
            && ports_bound(self.output_ports(), self.channels())
    }

    /// No port is bound and no edge is within reach: the state in which a
    /// block enters a flowgraph.
    pub open spec fn unwired(&self) -> bool {
        &&& self.channels().len() == 0
        &&& ports_unbound(self.input_ports())
        &&& ports_unbound(self.output_ports())
    }

    /// The ports, the number of edges and, of each edge, the item size and
    /// the two finished marks are those of `before`.
    pub open spec fn same_shape(&self, before: &StreamIo) -> bool {
        &&& self.input_ports() == before.input_ports()
        &&& self.output_ports() == before.output_ports()
        &&& same_edges(self.channels(), before.channels())
    }

    /// Only the edge `e` may differ from `before`.
    pub open spec fn same_but(&self, before: &StreamIo, e: int) -> bool {
        &&& self.same_shape(before)
        &&& forall|j: int|
            0 <= j < self.channels().len() && j != e ==> #[trigger] self.channels()[j]
                == before.channels()[j]
    }

    /// The edge bound to input `port`, when edges are within reach.
    pub open spec fn input_edge(&self, port: int) -> Option<int> {
        match self.input_ports()[port].edge {
            Some(e) => if self.channels().len() > 0 {
                Some(e as int)
            } else {
                None
            },
            None => None,
        }
    }

    /// The edge bound to output `port`, when edges are within reach.
    pub open spec fn output_edge(&self, port: int) -> Option<int> {
        match self.output_ports()[port].edge {
            Some(e) => if self.channels().len() > 0 {
                Some(e as int)
            } else {
                None
            },
            None => None,
        }
    }

    /// The bytes input `port` exposes: none when it is bound to no edge.
    pub open spec fn readable(&self, port: int) -> Seq<u8> {
        match self.input_edge(port) {
            Some(e) => self.channels()[e]@.readable(),
            None => Seq::empty(),
        }
    }

    /// The items input `port` exposes.
    pub open spec fn readable_items(&self, port: int) -> nat {
        match self.input_edge(port) {
            Some(e) => self.channels()[e]@.readable_items(),
            None => 0,
        }
    }

    /// Bytes of the region open for production on output `port`. An output
    /// bound to no edge drops what is written: it has no region.
    pub open spec fn staged_len(&self, port: int) -> nat {
        match self.output_edge(port) {
            Some(e) => self.channels()[e]@.staged_len(),
            None => 0,
        }
    }

    /// The region open for production on a bound output holds as many
    /// whole items as the output has room for.
    pub proof fn lemma_staged_len(&self, port: int)
        requires
            self.wf(),
            0 <= port < self.output_ports().len(),
        ensures
            self.staged_len(port) <= usize::MAX,
            self.output_edge(port) matches Some(e) ==> self.staged_len(port) == self.channels()[e]@.space()
                * self.output_ports()[port].item_size,
    {
        match self.output_edge(port) {
            Some(e) => {
                self.channels()[e].lemma_wf();
            },
            None => {},
        }
    }

    /// Number of input ports.
    pub fn inputs(&self) -> (n: usize)
        ensures
            n == self.input_ports().len(),
    {
        self.inputs.len()
    }

    /// Number of output ports.
    pub fn outputs(&self) -> (n: usize)
        ensures
            n == self.output_ports().len(),
    {
        self.outputs.len()
    }

    /// Number of edges within reach.
    pub fn reach(&self) -> (n: usize)
        ensures
            n == self.channels().len(),
    {
        self.channels.len()
    }

    /// The input port `port`.
    pub fn input(&self, port: usize) -> (p: &StreamPort)
        requires
            port < self.input_ports().len(),
        ensures
            *p == self.input_ports()[port as int],
    {
        &self.inputs[port]
    }

    /// The output port `port`.
    pub fn output(&self, port: usize) -> (p: &StreamPort)
        requires
            port < self.output_ports().len(),
        ensures
            *p == self.output_ports()[port as int],
    {
        &self.outputs[port]
    }

    /// Index of the first input port called `name`.
    pub fn input_name_to_id(&self, name: &str) -> (r: Option<usize>)
        ensures
            r.is_some() == port_index(self.input_ports(), name@).is_some(),
            r matches Some(i) ==> port_index(self.input_ports(), name@) == Some(i as int),
            match r {
                Some(i) => i < self.input_ports().len() && self.input_ports()[i as int].name@
                    == name@ && forall|j: int|
                    0 <= j < i ==> (#[trigger] self.input_ports()[j]).name@ != name@,
                None => forall|j: int|
                    0 <= j < self.input_ports().len() ==> (#[trigger] self.input_ports()[j]).name@
                        != name@,
            },
    {
        find_port(&self.inputs, name)
    }

    /// Index of the first output port called `name`.
    pub fn output_name_to_id(&self, name: &str) -> (r: Option<usize>)
        ensures
            r.is_some() == port_index(self.output_ports(), name@).is_some(),
            r matches Some(i) ==> port_index(self.output_ports(), name@) == Some(i as int),
            match r {
                Some(i) => i < self.output_ports().len() && self.output_ports()[i as int].name@
                    == name@ && forall|j: int|
                    0 <= j < i ==> (#[trigger] self.output_ports()[j]).name@ != name@,
                None => forall|j: int|
                    0 <= j < self.output_ports().len() ==> (#[trigger] self.output_ports()[j]).name@
                        != name@,
            },
    {
        find_port(&self.outputs, name)
    }

    /// Binds input `port` to edge `edge`.
    pub(crate) fn bind_input(&mut self, port: usize, edge: usize)
        requires
            port < old(self).input_ports().len(),
            old(self).channels().len() == 0,
        ensures
            final(self).wf(),
            final(self).channels().len() == 0,
            final(self).output_ports() == old(self).output_ports(),
            final(self).input_ports() == old(self).input_ports().update(
                port as int,
                StreamPort { edge: Some(edge), ..old(self).input_ports()[port as int] },
            ),
    {
        self.inputs[port].edge = Some(edge);
    }

    /// Binds output `port` to edge `edge`.
    pub(crate) fn bind_output(&mut self, port: usize, edge: usize)
        requires
            port < old(self).output_ports().len(),
            old(self).channels().len() == 0,
        ensures
            final(self).wf(),
            final(self).channels().len() == 0,
            final(self).input_ports() == old(self).input_ports(),
            final(self).output_ports() == old(self).output_ports().update(
                port as int,
                StreamPort { edge: Some(edge), ..old(self).output_ports()[port as int] },
            ),
    {
        self.outputs[port].edge = Some(edge);
    }

    /// Exchanges the edges within reach with `channels`: a scheduler brings
    /// the edges of the flowgraph within reach before the kernel works and
    /// takes them back afterwards.
    pub(crate) fn exchange(&mut self, channels: &mut Vec<Channel>)
        ensures
            final(self).input_ports() == old(self).input_ports(),
            final(self).output_ports() == old(self).output_ports(),
            final(self).channels() == old(channels)@,
            final(channels)@ == old(self).channels(),
    {
        std::mem::swap(&mut self.channels, channels);
    }

    /// The contiguous bytes available on input `port`.
    pub fn input_slice(&mut self, port: usize) -> (s: &[u8])
        requires
            old(self).wf(),
            port < old(self).input_ports().len(),
        ensures
            final(self).wf(),
            s@ == old(self).readable(port as int),
            s@.len() == old(self).readable_items(port as int) * old(self).input_ports()[port as int].item_size,
            match old(self).input_edge(port as int) {
                Some(e) => final(self).same_but(old(self), e) && final(self).channels()[e]@ == old(
                    self,
                ).channels()[e]@.loaded(),
                None => *final(self) == *old(self),
            },
    {
        if self.channels.len() == 0 {
            let e: &[u8] = &[];
            return e;
        }
        match self.inputs[port].edge {
            Some(e) => {
                let s = self.channels[e].read_slice();
                s
            },
            None => {
                    let e: &[u8] = &[];
                e
            },
        }
    }

    /// Items available on input `port` in one slice.
    pub fn input_items(&mut self, port: usize) -> (n: usize)
        requires
            old(self).wf(),
            port < old(self).input_ports().len(),
        ensures
            final(self).wf(),
            n == old(self).readable_items(port as int),
            match old(self).input_edge(port as int) {
                Some(e) => final(self).same_but(old(self), e) && final(self).channels()[e]@ == old(
                    self,
                ).channels()[e]@.loaded(),
                None => *final(self) == *old(self),
            },
    {
        if self.channels.len() == 0 {
            return 0;
        }
        match self.inputs[port].edge {
            Some(e) => self.channels[e].readable_items(),
            None => 0,
        }
    }

    /// Consumes `n` items of input `port`.
    pub fn consume(&mut self, port: usize, n: usize)
        requires
            old(self).wf(),
            port < old(self).input_ports().len(),
            n <= old(self).readable_items(port as int),
        ensures
            final(self).wf(),
            match old(self).input_edge(port as int) {
                Some(e) => final(self).same_but(old(self), e) && old(self).channels()[e]@.consumed_to(
                    final(self).channels()[e]@,
                    n as nat,
                ),
                None => *final(self) == *old(self),
            },
    {
        if self.channels.len() == 0 {
            return ;
        }
        match self.inputs[port].edge {
            Some(e) => {
                self.channels[e].consume(n);
            },
            None => {},
        }
    }

    /// Whether input `port` will never see data again: its producer is done
    /// and everything produced was consumed. An input bound to no edge has
    /// no producer and is finished.
    pub fn input_finished(&self, port: usize) -> (b: bool)
        requires
            self.wf(),
            port < self.input_ports().len(),
        ensures
            b == match self.input_edge(port as int) {
                Some(e) => self.channels()[e]@.finished(),
                None => true,
            },
    {
        if self.channels.len() == 0 {
            return true;
        }
        match self.inputs[port].edge {
            Some(e) => self.channels[e].finished(),
            None => true,
        }
    }

    /// Whether the producer of input `port` will never supply more data.
    /// Data it supplied may still wait. An input bound to no edge has no
    /// producer: there is none to wait for.
    pub fn input_done(&self, port: usize) -> (b: bool)
        requires
            self.wf(),
            port < self.input_ports().len(),
        ensures
            b == match self.input_edge(port as int) {
                Some(e) => self.channels()[e]@.writer_finished(),
                None => true,
            },
    {
        if self.channels.len() == 0 {
            return true;
        }
        match self.inputs[port].edge {
            Some(e) => self.channels[e].writer_finished(),
            None => true,
        }
    }

    /// Items output `port` accepts in one region. An output bound to no
    /// edge drops its data and accepts any number of items.
    pub fn output_space(&self, port: usize) -> (n: usize)
        requires
            self.wf(),
            port < self.output_ports().len(),
        ensures
            n == match self.output_edge(port as int) {
                Some(e) => self.channels()[e]@.space(),
                None => usize::MAX as nat,
            },
    {
        if self.channels.len() == 0 {
            return usize::MAX;
        }
        match self.outputs[port].edge {
            Some(e) => self.channels[e].space(),
            None => usize::MAX,
        }
    }

    /// Bytes of the region open for production on output `port`.
    pub fn output_bytes(&self, port: usize) -> (n: usize)
        requires
            self.wf(),
            port < self.output_ports().len(),
        ensures
            n == self.staged_len(port as int),
            self.output_edge(port as int) matches Some(e) ==> n == self.channels()[e]@.space()
                * self.output_ports()[port as int].item_size,
    {
        if self.channels.len() == 0 {
            return 0;
        }
        match self.outputs[port].edge {
            Some(e) => self.channels[e].staged_len(),
            None => 0,
        }
    }

    /// Copies `src` into the region open for production on output `port`,
    /// `offset` bytes from its start. On an output bound to no edge the
    /// bytes are dropped.
    pub fn write(&mut self, port: usize, offset: usize, src: &[u8])
        requires
            old(self).wf(),
            port < old(self).output_ports().len(),
            old(self).output_edge(port as int) is Some ==> offset + src@.len() <= old(self).staged_len(
                port as int,
            ),
        ensures
            final(self).wf(),
            match old(self).output_edge(port as int) {
                Some(e) => final(self).same_but(old(self), e) && final(self).channels()[e]@ == old(
                    self,
                ).channels()[e]@.stage(offset as nat, src@),
                None => *final(self) == *old(self),
            },
    {
        if self.channels.len() == 0 {
            return ;
        }
        match self.outputs[port].edge {
            Some(e) => {
                self.channels[e].write(offset, src);
            },
            None => {},
        }
    }

    /// Commits the first `n` staged items of output `port`.
    pub fn produce(&mut self, port: usize, n: usize)
        requires
            old(self).wf(),
            port < old(self).output_ports().len(),
            old(self).output_edge(port as int) matches Some(e) ==> n <= old(self).channels()[e]@.space(),
        ensures
            final(self).wf(),
            match old(self).output_edge(port as int) {
                Some(e) => final(self).same_but(old(self), e) && old(self).channels()[e]@.produced_to(
                    final(self).channels()[e]@,
                    n as nat,
                ),
                None => *final(self) == *old(self),
            },
    {
        if self.channels.len() == 0 {
            return ;
        }
        match self.outputs[port].edge {
            Some(e) => {
                self.channels[e].produce(n);
            },
            None => {},
        }
    }

    /// Whether the consumer of output `port` will never accept data again.
    pub fn output_finished(&self, port: usize) -> (b: bool)
        requires
            self.wf(),
            port < self.output_ports().len(),
        ensures
            b == match self.output_edge(port as int) {
                Some(e) => self.channels()[e]@.reader_finished(),
                None => false,
            },
    {
        if self.channels.len() == 0 {
            return false;
        }
        match self.outputs[port].edge {
            Some(e) => self.channels[e].reader_finished(),
            None => false,
        }
    }

    /// Registers a new chunk of `capacity` bytes with the custom buffer of
    /// output `port`. Other outputs have no chunks.
    pub fn register_buffer(&mut self, port: usize, capacity: usize) -> (r: Option<BufferEmpty>)
        requires
            old(self).wf(),
            port < old(self).output_ports().len(),
        ensures
            final(self).wf(),
            match old(self).output_edge(port as int) {
                Some(e) => {
                    &&& final(self).same_but(old(self), e)
                    &&& final(self).channels()[e]@ == old(self).channels()[e]@.registered()
                    &&& match old(self).channels()[e]@.buffer {
                        BufferView::Host(_) => r.is_none(),
                        BufferView::Custom { pools, .. } => r matches Some(chunk) && chunk.chunk_id()
                            == pools.owners.len() && chunk.chunk_capacity() == capacity,
                    }
                },
                None => r.is_none() && *final(self) == *old(self),
            },
    {
        if self.channels.len() == 0 {
            return None;
        }
        match self.outputs[port].edge {
            Some(e) => {
                let r = self.channels[e].register(capacity);
                r
            },
            None => None,
        }
    }

    /// Takes every chunk the consumer has returned to the custom buffer of
    /// output `port`.
    pub fn empty_buffers(&mut self, port: usize) -> (taken: Vec<BufferEmpty>)
        requires
            old(self).wf(),
            port < old(self).output_ports().len(),
        ensures
            final(self).wf(),
            match old(self).output_edge(port as int) {
                Some(e) => {
                    &&& final(self).same_but(old(self), e)
                    &&& taken@ == old(self).channels()[e]@.empties()
                    &&& old(self).channels()[e]@.emptied_to(final(self).channels()[e]@)
                },
                None => taken@.len() == 0 && *final(self) == *old(self),
            },
    {
        if self.channels.len() == 0 {
            return Vec::new();
        }
        match self.outputs[port].edge {
            Some(e) => {
                let taken = self.channels[e].empty_buffers();
                taken
            },
            None => Vec::new(),
        }
    }

    /// Hands a filled chunk to the consumer of output `port`. An output
    /// without custom buffer refuses every chunk as unknown.
    pub fn submit(&mut self, port: usize, buffer: BufferFull) -> (r: Result<(), SubmitError>)
        requires
            old(self).wf(),
            port < old(self).output_ports().len(),
            buffer.wf(),
        ensures
            final(self).wf(),
            match old(self).output_edge(port as int) {
                Some(e) => {
                    &&& final(self).same_but(old(self), e)
                    &&& r == old(self).channels()[e]@.submit_result(buffer)
                    &&& final(self).channels()[e]@ == old(self).channels()[e]@.submitted(buffer)
                },
                None => r == Err::<(), SubmitError>(SubmitError::UnknownChunk) && *final(self) == *old(
                    self,
                ),
            },
    {
        if self.channels.len() == 0 {
            return Err(SubmitError::UnknownChunk);
        }
        match self.outputs[port].edge {
            Some(e) => {
                let r = self.channels[e].submit(buffer);
                r
            },
            None => Err(SubmitError::UnknownChunk),
        }
    }
}

} // verus!
