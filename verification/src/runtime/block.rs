//! Blocks: a kernel together with its stream ports, its message ports and
//! its metadata.

use crate::runtime::buffer::Channel;
use crate::runtime::message_io::MessageIo;
use crate::runtime::pmt::Pmt;
use crate::runtime::stream_io::edges_wf;
use crate::runtime::stream_io::ports_bound;
use crate::runtime::stream_io::same_edges;
use crate::runtime::stream_io::StreamIo;
use crate::runtime::stream_io::StreamPort;
use vstd::prelude::*;

verus! {

/// How a message or stream endpoint is used.
#[derive(Debug, Clone, Copy, PartialEq, Eq, Structural)]
pub enum Direction {
    In,
    Out,
}

/// What travels through a port.
#[derive(Debug, Clone, Copy, PartialEq, Eq, Structural)]
pub enum PortKind {
    /// Items of a fixed byte size.
    Stream { item_size: usize },
    /// Message payloads.
    Message,
}

/// Static description of one port of a block.
#[derive(Debug)]
pub struct PortDescriptor {
    pub name: String,
    pub kind: PortKind,
    pub direction: Direction,
}

/// Metadata of a block.
#[derive(Debug)]
pub struct BlockMeta {
    name: String,
    is_blocking: bool,
}

impl BlockMeta {
    /// Name of the block.
    pub closed spec fn name_spec(&self) -> Seq<char> {
        self.name@
    }

    /// Whether the kernel may hold its worker for long.
    pub closed spec fn blocking_spec(&self) -> bool {
        self.is_blocking
    }

    /// Name of the block.
    pub fn name(&self) -> (n: &String)
        ensures
            n@ == self.name_spec(),
    {
        &self.name
    }

    /// Whether the kernel may hold its worker for long.
    pub fn is_blocking(&self) -> (b: bool)
        ensures
            b == self.blocking_spec(),
    {
        self.is_blocking
    }
}

/// Builder of block metadata.
pub struct BlockMetaBuilder {
    name: String,
    blocking: bool,
}

impl BlockMetaBuilder {
    /// Name chosen so far.
    pub closed spec fn name_spec(&self) -> Seq<char> {
        self.name@
    }

    /// Whether the block was declared blocking.
    pub closed spec fn blocking_spec(&self) -> bool {
        self.blocking
    }

    /// Metadata of a non-blocking block called `name`.
    pub fn new(name: &str) -> (b: BlockMetaBuilder)
        ensures
            b.name_spec() == name@,
            !b.blocking_spec(),
    {
        BlockMetaBuilder { name: name.to_owned(), blocking: false }
    }

    /// Declares the block blocking.
    pub fn blocking(self) -> (b: BlockMetaBuilder)
        ensures
            b.name_spec() == self.name_spec(),
            b.blocking_spec(),
    {
        BlockMetaBuilder { name: self.name, blocking: true }
    }

    /// The metadata.
    pub fn build(self) -> (m: BlockMeta)
        ensures
            m.name_spec() == self.name_spec(),
            m.blocking_spec() == self.blocking_spec(),
    {
        BlockMeta { name: self.name, is_blocking: self.blocking }
    }
}

/// Scheduling hints a kernel leaves for the scheduler.
#[derive(Debug, Clone, Copy, PartialEq, Eq, Structural)]
pub struct WorkIo {
    /// The kernel wants to run again although no control message arrived.
    pub call_again: bool,
    /// The kernel is done for good.
    pub finished: bool,
    /// The kernel would block: it asks to be called again once this many
    /// nanoseconds have passed.
    pub block_on: Option<u64>,
    /// Time of the call, in nanoseconds on the clock of the scheduler.
    pub now: u64,
}

impl WorkIo {
    /// Hints of a call at time `now`: nothing requested.
    pub fn new(now: u64) -> (io: WorkIo)
        ensures
            io == (WorkIo { call_again: false, finished: false, block_on: None, now }),
    {
        WorkIo { call_again: false, finished: false, block_on: None, now }
    }

    /// Asks to be called again once `nanos` nanoseconds have passed.
    pub fn block_on(&mut self, nanos: u64)
        ensures
            *final(self) == (WorkIo { block_on: Some(nanos), ..*old(self) }),
    {
        self.block_on = Some(nanos);
    }
}

/// Failure of a kernel hook.
#[derive(Debug)]
pub struct KernelError {
    /// What went wrong, for the caller of the run.
    pub message: String,
}

/// Whether a kernel runs to completion on every call or may ask to be
/// resumed after an event.
#[derive(Debug, Clone, Copy, PartialEq, Eq, Structural)]
pub enum KernelKind {
    /// `work` never asks to be resumed.
    RunToCompletion,
    /// `work` may ask to be resumed after a delay.
    Suspendable,
}

/// The processing unit of a block.
///
/// A kernel reaches buffers and mailboxes only through the ports handed to
/// it: it must leave the ports and the shape of the edges as it found them.
pub trait Kernel {
    /// Called once before the first `work`, with all edges wired, at time
    /// `now` on the clock of the scheduler.
    fn init(
        &mut self,
        now: u64,
        sio: &mut StreamIo,
        mio: &mut MessageIo,
        meta: &mut BlockMeta,
    ) -> (r: Result<(), KernelError>)
        requires
            old(sio).wf(),
            old(mio).wf(),
        ensures
            final(sio).wf(),
            final(sio).same_shape(old(sio)),
            final(mio).wf(),
            final(mio).same_ports(old(mio)),
    ;

    /// Consumes from the inputs, produces on the outputs, posts messages,
    /// and leaves its scheduling hints in `io`.
    fn work(
        &mut self,
        io: &mut WorkIo,
        sio: &mut StreamIo,
        mio: &mut MessageIo,
        meta: &mut BlockMeta,
    ) -> (r: Result<(), KernelError>)
        requires
            old(sio).wf(),
            old(mio).wf(),
        ensures
            final(sio).wf(),
            final(sio).same_shape(old(sio)),
            final(mio).wf(),
            final(mio).same_ports(old(mio)),
    ;
}

/// A count of calls after one more call. The count saturates.
pub open spec fn bump(calls: u64) -> u64 {
    if calls < u64::MAX {
        (calls + 1) as u64
    } else {
        calls
    }
}

/// A unit of computation in the flowgraph.
pub struct Block {
    meta: BlockMeta,
    stream_io: StreamIo,
    message_io: MessageIo,
    kind: KernelKind,
    kernel: Box<dyn Kernel>,
    calls: u64,
}

impl Block {
    /// The stream ports.
    pub closed spec fn sio(&self) -> StreamIo {
        self.stream_io
    }

    /// The message ports.
    pub closed spec fn mio(&self) -> MessageIo {
        self.message_io
    }

    /// The metadata.
    pub closed spec fn meta_spec(&self) -> BlockMeta {
        self.meta
    }

    /// The capability of the kernel.
    pub closed spec fn kind_spec(&self) -> KernelKind {
        self.kind
    }

    /// Whether the kernel of the block is `kernel`, in the state given.
    pub closed spec fn holds<K: Kernel + 'static>(&self, kernel: K) -> bool {
        let boxed: Box<dyn Kernel> = Box::new(kernel);
        self.kernel == boxed
    }

    /// How often the `work` function of the kernel was called. The count
    /// saturates.
    pub closed spec fn calls(&self) -> u64 {
        self.calls
    }

    /// The ports are well formed.
    pub open spec fn wf(&self) -> bool {
        self.sio().wf() && self.mio().wf()
    }

    /// A block whose kernel runs to completion on every call.
    pub fn new_sync<K: Kernel + 'static>(
        meta: BlockMeta,
        stream_io: StreamIo,
        message_io: MessageIo,
        kernel: K,
    ) -> (b: Block)
        ensures
            b.meta_spec() == meta,
            b.sio() == stream_io,
            b.mio() == message_io,
            b.kind_spec() == KernelKind::RunToCompletion,
            b.holds(kernel),
            b.calls() == 0,
    {
        Block { meta, stream_io, message_io, kind: KernelKind::RunToCompletion, kernel: Box::new(kernel), calls: 0 }
    }

    /// A block whose kernel may ask to be resumed after an event.
    pub fn new_async<K: Kernel + 'static>(
        meta: BlockMeta,
        stream_io: StreamIo,
        message_io: MessageIo,
        kernel: K,
    ) -> (b: Block)
        ensures
            b.meta_spec() == meta,
            b.sio() == stream_io,
            b.mio() == message_io,
            b.kind_spec() == KernelKind::Suspendable,
            b.holds(kernel),
            b.calls() == 0,
    {
        Block { meta, stream_io, message_io, kind: KernelKind::Suspendable, kernel: Box::new(kernel), calls: 0 }
    }

    /// The metadata.
    pub fn meta(&self) -> (m: &BlockMeta)
        ensures
            *m == self.meta_spec(),
    {
        &self.meta
    }

    /// The capability of the kernel.
    pub fn kind(&self) -> (k: KernelKind)
        ensures
            k == self.kind_spec(),
    {
        self.kind
    }

    /// The stream ports.
    pub fn stream_io(&self) -> (s: &StreamIo)
        ensures
            *s == self.sio(),
    {
        &self.stream_io
    }

    /// The message ports.
    pub fn message_io(&self) -> (m: &MessageIo)
        ensures
            *m == self.mio(),
    {
        &self.message_io
    }

    /// Binds stream input `port` to edge `edge`.
    pub(crate) fn bind_input(&mut self, port: usize, edge: usize)
        requires
            port < old(self).sio().input_ports().len(),
            old(self).sio().channels().len() == 0,
        ensures
            final(self).sio().wf(),
            final(self).sio().channels().len() == 0,
            final(self).sio().output_ports() == old(self).sio().output_ports(),
            final(self).sio().input_ports() == old(self).sio().input_ports().update(
                port as int,
                StreamPort { edge: Some(edge), ..old(self).sio().input_ports()[port as int] },
            ),
            final(self).mio() == old(self).mio(),
            final(self).meta_spec() == old(self).meta_spec(),
            final(self).kind_spec() == old(self).kind_spec(),
            final(self).calls() == old(self).calls(),
    {
        self.stream_io.bind_input(port, edge);
    }

    /// Binds stream output `port` to edge `edge`.
    pub(crate) fn bind_output(&mut self, port: usize, edge: usize)
        requires
            port < old(self).sio().output_ports().len(),
            old(self).sio().channels().len() == 0,
        ensures
            final(self).sio().wf(),
            final(self).sio().channels().len() == 0,
            final(self).sio().input_ports() == old(self).sio().input_ports(),
            final(self).sio().output_ports() == old(self).sio().output_ports().update(
                port as int,
                StreamPort { edge: Some(edge), ..old(self).sio().output_ports()[port as int] },
            ),
            final(self).mio() == old(self).mio(),
            final(self).meta_spec() == old(self).meta_spec(),
            final(self).kind_spec() == old(self).kind_spec(),
            final(self).calls() == old(self).calls(),
    {
        self.stream_io.bind_output(port, edge);
    }

    /// Queues `messages` in mailbox `port`, in their order, behind what
    /// waits there.
    pub fn deliver_all(&mut self, port: usize, messages: Vec<Pmt>)
        requires
            old(self).mio().wf(),
            port < old(self).mio().input_names().len(),
        ensures
            final(self).mio().wf(),
            final(self).mio().same_ports(&old(self).mio()),
            final(self).mio().same_mailboxes_but(&old(self).mio(), port as int),
            final(self).mio().same_outboxes_but(&old(self).mio(), -1),
            final(self).mio().mailbox(port as int) == old(self).mio().mailbox(port as int) + messages@,
            final(self).sio() == old(self).sio(),
            final(self).meta_spec() == old(self).meta_spec(),
            final(self).kind_spec() == old(self).kind_spec(),
            final(self).calls() == old(self).calls(),
    {
        self.message_io.deliver_all(port, messages);
    }

    /// Takes every payload the kernel posted on output `port`, oldest first.
    pub fn take_posted(&mut self, port: usize) -> (posted: Vec<Pmt>)
        requires
            old(self).mio().wf(),
            port < old(self).mio().output_names().len(),
        ensures
            final(self).mio().wf(),
            final(self).mio().same_ports(&old(self).mio()),
            final(self).mio().same_mailboxes_but(&old(self).mio(), -1),
            final(self).mio().same_outboxes_but(&old(self).mio(), port as int),
            final(self).mio().outbox(port as int).len() == 0,
            posted@ == old(self).mio().outbox(port as int),
            final(self).sio() == old(self).sio(),
            final(self).meta_spec() == old(self).meta_spec(),
            final(self).kind_spec() == old(self).kind_spec(),
            final(self).calls() == old(self).calls(),
    {
        self.message_io.take_posted(port)
    }

    /// Whether the block, at rest, can be given the edges `channels` to work on.
    pub open spec fn fits(&self, channels: Seq<Channel>) -> bool {
        &&& self.mio().wf()
        &&& self.sio().channels().len() == 0
        &&& edges_wf(channels)
        &&& ports_bound(self.sio().input_ports(), channels)
        &&& ports_bound(self.sio().output_ports(), channels)
    }

    /// The block after a hook worked on the edges `channels`: at rest again,
    /// with the ports and the capability it had.
    pub open spec fn rested_from(&self, before: &Block) -> bool {
        &&& self.mio().wf()
        &&& self.mio().same_ports(&before.mio())
        &&& self.sio().channels().len() == 0
        &&& self.sio().input_ports() == before.sio().input_ports()
        &&& self.sio().output_ports() == before.sio().output_ports()
        &&& self.kind_spec() == before.kind_spec()
    }

    /// Runs the `init` hook of the kernel at time `now` with the edges
    /// `channels` within reach. Whatever the hook returns, the ports and the shape of the
    /// edges are as before.
    pub fn init(&mut self, now: u64, channels: &mut Vec<Channel>) -> (r: Result<(), KernelError>)
        requires
            old(self).fits(old(channels)@),
        ensures
            final(self).rested_from(old(self)),
            final(self).calls() == old(self).calls(),
            edges_wf(final(channels)@),
            same_edges(final(channels)@, old(channels)@),
    {
        self.stream_io.exchange(channels);
        let r = self.kernel.init(now, &mut self.stream_io, &mut self.message_io, &mut self.meta);
        self.stream_io.exchange(channels);
        r
    }

    /// Runs the `work` function of the kernel once with the edges
    /// `channels` within reach, and counts the call. Whatever the kernel
    /// returns, the ports and the shape of the edges are as before.
    pub fn work(&mut self, io: &mut WorkIo, channels: &mut Vec<Channel>) -> (r: Result<
        (),
        KernelError,
    >)
        requires
            old(self).fits(old(channels)@),
        ensures
            final(self).rested_from(old(self)),
            final(self).calls() == bump(old(self).calls()),
            edges_wf(final(channels)@),
            same_edges(final(channels)@, old(channels)@),
    {
        if self.calls < u64::MAX {
            self.calls = self.calls + 1;
        }
        self.stream_io.exchange(channels);
        let r = self.kernel.work(io, &mut self.stream_io, &mut self.message_io, &mut self.meta);
        self.stream_io.exchange(channels);
        r
    }

    /// How often the `work` function of the kernel was called.
    pub fn work_calls(&self) -> (n: u64)
        ensures
            n == self.calls(),
    {
        self.calls
    }

    /// The description of port `i` in the order stream inputs, stream
    /// outputs, mailboxes, message outputs.
    pub open spec fn port_spec(&self, i: int) -> (Seq<char>, PortKind, Direction) {
        let a = self.sio().input_ports().len() as int;
        let b = a + self.sio().output_ports().len();
        let c = b + self.mio().input_names().len();
        if i < a {
            let p = self.sio().input_ports()[i];
            (p.name@, PortKind::Stream { item_size: p.item_size }, Direction::In)
        } else if i < b {
            let p = self.sio().output_ports()[i - a];
            (p.name@, PortKind::Stream { item_size: p.item_size }, Direction::Out)
        } else if i < c {
            (self.mio().input_names()[i - b]@, PortKind::Message, Direction::In)
        } else {
            (self.mio().output_names()[i - c]@, PortKind::Message, Direction::Out)
        }
    }

    /// The ports of the block: stream inputs, stream outputs, mailboxes and
    /// message outputs, in this order.
    pub fn ports(&self) -> (ports: Vec<PortDescriptor>)
        ensures
            ports@.len() == self.sio().input_ports().len() + self.sio().output_ports().len()
                + self.mio().input_names().len() + self.mio().output_names().len(),
            forall|i: int|
                0 <= i < ports@.len() ==> ((#[trigger] ports@[i]).name@, ports@[i].kind, ports@[i].direction)
                    == self.port_spec(i),
    {
        let mut ports: Vec<PortDescriptor> = Vec::new();
        let a = self.stream_io.inputs();
        let mut i: usize = 0;
        while i < a
            invariant
                i <= a,
                a == self.sio().input_ports().len(),
                ports@.len() == i,
                self.stream_io == self.sio(),
                forall|j: int|
                    0 <= j < ports@.len() ==> ((#[trigger] ports@[j]).name@, ports@[j].kind, ports@[j].direction)
                        == self.port_spec(j),
            decreases a - i,
        {
            let p = self.stream_io.input(i);
            ports.push(
                PortDescriptor {
                    name: p.name.clone(),
                    kind: PortKind::Stream { item_size: p.item_size },
                    direction: Direction::In,
                },
            );
            i += 1;
        }
        let b = self.stream_io.outputs();
        let mut i: usize = 0;
        while i < b
            invariant
                i <= b,
                a == self.sio().input_ports().len(),
                b == self.sio().output_ports().len(),
                ports@.len() == a + i,
                self.stream_io == self.sio(),
                forall|j: int|
                    0 <= j < ports@.len() ==> ((#[trigger] ports@[j]).name@, ports@[j].kind, ports@[j].direction)
                        == self.port_spec(j),
            decreases b - i,
        {
            let p = self.stream_io.output(i);
            ports.push(
                PortDescriptor {
                    name: p.name.clone(),
                    kind: PortKind::Stream { item_size: p.item_size },
                    direction: Direction::Out,
                },
            );
            i += 1;
        }
        let c = self.message_io.inputs();
        let mut i: usize = 0;
        while i < c
            invariant
                i <= c,
                a == self.sio().input_ports().len(),
                b == self.sio().output_ports().len(),
                c == self.mio().input_names().len(),
                ports@.len() == a + b + i,
                self.message_io == self.mio(),
                forall|j: int|
                    0 <= j < ports@.len() ==> ((#[trigger] ports@[j]).name@, ports@[j].kind, ports@[j].direction)
                        == self.port_spec(j),
            decreases c - i,
        {
            let name = self.message_io.input_name(i);
            ports.push(
                PortDescriptor { name: name.clone(), kind: PortKind::Message, direction: Direction::In },
            );
            i += 1;
        }
        let d = self.message_io.outputs();
        let mut i: usize = 0;
        while i < d
            invariant
                i <= d,
                a == self.sio().input_ports().len(),
                b == self.sio().output_ports().len(),
                c == self.mio().input_names().len(),
                d == self.mio().output_names().len(),
                ports@.len() == a + b + c + i,
                self.message_io == self.mio(),
                forall|j: int|
                    0 <= j < ports@.len() ==> ((#[trigger] ports@[j]).name@, ports@[j].kind, ports@[j].direction)
                        == self.port_spec(j),
            decreases d - i,
        {
            let name = self.message_io.output_name(i);
            ports.push(
                PortDescriptor { name: name.clone(), kind: PortKind::Message, direction: Direction::Out },
            );
            i += 1;
        }
        ports
    }
}

} // verus!
