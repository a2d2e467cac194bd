//! The scheduler: one state machine per block, woken by control messages.

use crate::runtime::block::bump;
use crate::runtime::block::KernelError;
use crate::runtime::block::WorkIo;
use crate::runtime::buffer::circular::lemma_finished_when_drained;
use crate::runtime::buffer::BufferView;
use crate::runtime::buffer::Channel;
use crate::runtime::buffer::ChannelView;
use crate::runtime::inbox::AsyncMessage;
use crate::runtime::message_io::MessageIo;
use crate::runtime::pmt::Pmt;
use crate::runtime::topology::Edge;
use crate::runtime::topology::Topology;
use vstd::prelude::*;

verus! {

/// Scheduling state of a block.
#[derive(Debug, Clone, Copy, PartialEq, Eq, Structural)]
pub enum BlockState {
    /// Waiting for a control message.
    Idle,
    /// Waiting for a worker.
    Runnable,
    /// Its kernel works.
    Running,
    /// Its kernel is done for good. Terminal.
    Finished,
}

/// What can happen to a block.
#[derive(Debug, Clone, Copy, PartialEq, Eq, Structural)]
pub enum SchedEvent {
    /// The run starts.
    Start,
    /// A control message arrived in the inbox of the block.
    Message,
    /// A worker is available for the block.
    Dispatch,
    /// `work` returned. `finished` tells whether the kernel is done for
    /// good, `again` whether it asked to be called again or has mail.
    WorkDone { finished: bool, again: bool },
}

impl BlockState {
    /// The state after `event`.
    pub open spec fn next(self, event: SchedEvent) -> BlockState {
        match (self, event) {
            (BlockState::Idle, SchedEvent::Start) => BlockState::Runnable,
            (BlockState::Idle, SchedEvent::Message) => BlockState::Runnable,
            (BlockState::Runnable, SchedEvent::Dispatch) => BlockState::Running,
            (BlockState::Running, SchedEvent::WorkDone { finished, again }) => if finished {
                BlockState::Finished
            } else if again {
                BlockState::Runnable
            } else {
                BlockState::Idle
            },
            _ => self,
        }
    }

    /// The state after `event`.
    pub fn step(self, event: SchedEvent) -> (r: BlockState)
        ensures
            r == self.next(event),
    {
        match (self, event) {
            (BlockState::Idle, SchedEvent::Start) => BlockState::Runnable,
            (BlockState::Idle, SchedEvent::Message) => BlockState::Runnable,
            (BlockState::Runnable, SchedEvent::Dispatch) => BlockState::Running,
            (BlockState::Running, SchedEvent::WorkDone { finished, again }) => if finished {
                BlockState::Finished
            } else if again {
                BlockState::Runnable
            } else {
                BlockState::Idle
            },
            _ => self,
        }
    }
}

/// `Finished` is terminal: no event leads out of it.
pub proof fn lemma_finished_is_terminal(event: SchedEvent)
    ensures
        BlockState::Finished.next(event) == BlockState::Finished,
{
}

/// A block is dispatched only from `Runnable`, so `work` runs only on a
/// block that was `Runnable`: never on one that is `Idle` or `Finished`.
pub proof fn lemma_running_comes_from_runnable(state: BlockState, event: SchedEvent)
    requires
        state.next(event) == BlockState::Running,
        state != BlockState::Running,
    ensures
        state == BlockState::Runnable,
        event == SchedEvent::Dispatch,
{
}

/// The start of the run makes an idle block runnable and the next free
/// worker runs it, whether or not a control message ever arrived for it.
pub proof fn lemma_start_schedules()
    ensures
        BlockState::Idle.next(SchedEvent::Start) == BlockState::Runnable,
        BlockState::Idle.next(SchedEvent::Start).next(SchedEvent::Dispatch) == BlockState::Running,
{
}

/// The state of a block after control messages arrived for it, if any did.
pub open spec fn woken(state: BlockState, any: bool) -> BlockState {
    if any {
        state.next(SchedEvent::Message)
    } else {
        state
    }
}

/// The `Notify` messages owed by the first `upto` stream edges, each with
/// the block it is addressed to: the producer of an edge on which space was
/// freed, the consumer of an edge on which data was produced.
pub open spec fn debt_notes(edges: Seq<Edge>, channels: Seq<Channel>, upto: int) -> Seq<
    (usize, AsyncMessage),
>
    decreases upto,
{
    if upto <= 0 {
        Seq::empty()
    } else {
        let rest = debt_notes(edges, channels, upto - 1);
        let edge = edges[upto - 1];
        let c = channels[upto - 1]@;
        let first = if c.notify_writer {
            rest.push((edge.src, AsyncMessage::Notify))
        } else {
            rest
        };
        if c.notify_reader {
            first.push((edge.dst, AsyncMessage::Notify))
        } else {
            first
        }
    }
}

/// The messages that tell the neighbours of block `b` over the first `upto`
/// stream edges that `b` is finished: `StreamInputDone` to the consumer of
/// each of its outputs, `StreamOutputDone` to the producer of each of its
/// inputs.
pub open spec fn finish_notes(edges: Seq<Edge>, b: usize, upto: int) -> Seq<(usize, AsyncMessage)>
    decreases upto,
{
    if upto <= 0 {
        Seq::empty()
    } else {
        let rest = finish_notes(edges, b, upto - 1);
        let edge = edges[upto - 1];
        let first = if edge.src == b {
            rest.push((edge.dst, AsyncMessage::StreamInputDone { input_id: edge.dst_port }))
        } else {
            rest
        };
        if edge.dst == b {
            first.push((edge.src, AsyncMessage::StreamOutputDone { output_id: edge.src_port }))
        } else {
            first
        }
    }
}

/// The edge `c` with both debts paid.
pub open spec fn settled(c: ChannelView) -> ChannelView {
    ChannelView { notify_reader: false, notify_writer: false, ..c }
}

/// The edge `c` after block `b` finished: marked on the side of `b`.
pub open spec fn closed_for(c: ChannelView, edge: Edge, b: usize) -> ChannelView {
    let first = if edge.src == b {
        c.finish_writer()
    } else {
        c
    };
    if edge.dst == b {
        first.finish_reader()
    } else {
        first
    }
}

/// Every note is addressed to one of `n` blocks.
pub open spec fn notes_in_range(notes: Seq<(usize, AsyncMessage)>, n: int) -> bool {
    forall|i: int| 0 <= i < notes.len() ==> (#[trigger] notes[i]).0 < n
}

/// The debts of the first `upto` edges are addressed to blocks of the flowgraph.
pub proof fn lemma_debt_notes_in_range(t: &Topology, upto: int)
    requires
        t.wf(),
        0 <= upto <= t.stream_edges().len(),
    ensures
        notes_in_range(debt_notes(t.stream_edges(), t.channels(), upto), t.blocks().len() as int),
    decreases upto,
{
    if upto > 0 {
        lemma_debt_notes_in_range(t, upto - 1);
        assert(t.edge_ok(upto - 1));
    }
}

/// The finish notes over the first `upto` edges are addressed to blocks of
/// the flowgraph.
pub proof fn lemma_finish_notes_in_range(t: &Topology, b: usize, upto: int)
    requires
        t.wf(),
        0 <= upto <= t.stream_edges().len(),
    ensures
        notes_in_range(finish_notes(t.stream_edges(), b, upto), t.blocks().len() as int),
    decreases upto,
{
    if upto > 0 {
        lemma_finish_notes_in_range(t, b, upto - 1);
        assert(t.edge_ok(upto - 1));
    }
}

/// Pays every debt of every stream edge: the notes are appended to `notes`
/// and the debts cleared.
pub fn settle_debts(t: &mut Topology, notes: &mut Vec<(usize, AsyncMessage)>)
    requires
        old(t).wf(),
    ensures
        final(t).wf(),
        final(t).same_wiring(old(t)),
        final(t).blocks() == old(t).blocks(),
        final(notes)@ == old(notes)@ + debt_notes(
            old(t).stream_edges(),
            old(t).channels(),
            old(t).stream_edges().len() as int,
        ),
        forall|e: int|
            0 <= e < final(t).channels().len() ==> (#[trigger] final(t).channels()[e])@ == settled(
                old(t).channels()[e]@,
            ),
{
    let n = t.stream_edge_count();
    let mut e: usize = 0;
    while e < n
        invariant
            e <= n,
            n == old(t).stream_edges().len(),
            t.wf(),
            t.same_wiring(old(t)),
            t.blocks() == old(t).blocks(),
            notes@ == old(notes)@ + debt_notes(old(t).stream_edges(), old(t).channels(), e as int),
            forall|x: int| 0 <= x < e ==> (#[trigger] t.channels()[x])@ == settled(old(t).channels()[x]@),
            forall|x: int| e <= x < n ==> #[trigger] t.channels()[x] == old(t).channels()[x],
        decreases n - e,
    {
        let ghost before = *t;
        let edge = t.stream_edge(e);
        let owed_writer = t.take_notify_writer(e);
        let ghost mid = *t;
        if owed_writer {
            notes.push((edge.src, AsyncMessage::Notify));
        }
        let owed_reader = t.take_notify_reader(e);
        if owed_reader {
            notes.push((edge.dst, AsyncMessage::Notify));
        }
        proof {
            mid.lemma_same_wiring_trans(&before, old(t));
            t.lemma_same_wiring_trans(&mid, old(t));
            assert(notes@ =~= old(notes)@ + debt_notes(
                old(t).stream_edges(),
                old(t).channels(),
                e + 1,
            ));
            assert forall|x: int| 0 <= x < e + 1 implies (#[trigger] t.channels()[x])@ == settled(
                old(t).channels()[x]@,
            ) by {
                if x < e {
                    assert(mid.channels()[x] == before.channels()[x]);
                    assert(t.channels()[x] == mid.channels()[x]);
                }
            }
            assert forall|x: int| e + 1 <= x < n implies #[trigger] t.channels()[x] == old(t).channels()[x] by {
                assert(mid.channels()[x] == before.channels()[x]);
                assert(t.channels()[x] == mid.channels()[x]);
            }
        }
        e += 1;
    }
}

/// Marks every stream edge of block `b` as finished on the side of `b`;
/// the notes for the neighbours are appended to `notes`.
pub fn finish_edges(t: &mut Topology, b: usize, notes: &mut Vec<(usize, AsyncMessage)>)
    requires
        old(t).wf(),
    ensures
        final(t).wf(),
        final(t).blocks() == old(t).blocks(),
        final(t).stream_edges() == old(t).stream_edges(),
        final(t).message_edges() == old(t).message_edges(),
        final(t).channels().len() == old(t).channels().len(),
        final(notes)@ == old(notes)@ + finish_notes(
            old(t).stream_edges(),
            b,
            old(t).stream_edges().len() as int,
        ),
        forall|e: int|
            0 <= e < final(t).channels().len() ==> (#[trigger] final(t).channels()[e])@ == closed_for(
                old(t).channels()[e]@,
                old(t).stream_edges()[e],
                b,
            ),
{
    let n = t.stream_edge_count();
    let mut e: usize = 0;
    while e < n
        invariant
            e <= n,
            n == old(t).stream_edges().len(),
            t.wf(),
            t.blocks() == old(t).blocks(),
            t.stream_edges() == old(t).stream_edges(),
            t.message_edges() == old(t).message_edges(),
            t.channels().len() == n,
            notes@ == old(notes)@ + finish_notes(old(t).stream_edges(), b, e as int),
            forall|x: int|
                0 <= x < e ==> (#[trigger] t.channels()[x])@ == closed_for(
                    old(t).channels()[x]@,
                    old(t).stream_edges()[x],
                    b,
                ),
            forall|x: int| e <= x < n ==> #[trigger] t.channels()[x] == old(t).channels()[x],
        decreases n - e,
    {
        let ghost before = *t;
        let edge = t.stream_edge(e);
        if edge.src == b {
            t.finish_writer(e);
            notes.push((edge.dst, AsyncMessage::StreamInputDone { input_id: edge.dst_port }));
        }
        let ghost mid = *t;
        if edge.dst == b {
            t.finish_reader(e);
            notes.push((edge.src, AsyncMessage::StreamOutputDone { output_id: edge.src_port }));
        }
        proof {
            assert(notes@ =~= old(notes)@ + finish_notes(old(t).stream_edges(), b, e + 1));
            assert forall|x: int| 0 <= x < e + 1 implies (#[trigger] t.channels()[x])@ == closed_for(
                old(t).channels()[x]@,
                old(t).stream_edges()[x],
                b,
            ) by {
                if x < e {
                    assert(mid.channels()[x] == before.channels()[x]);
                    assert(t.channels()[x] == mid.channels()[x]);
                }
            }
            assert forall|x: int| e + 1 <= x < n implies #[trigger] t.channels()[x] == old(t).channels()[x] by {
                assert(mid.channels()[x] == before.channels()[x]);
                assert(t.channels()[x] == mid.channels()[x]);
            }
        }
        e += 1;
    }
}

/// What the first `upto` message edges carry from the outboxes `from` of
/// block `b` into mailbox `q` of block `d`.
pub open spec fn inflow(edges: Seq<Edge>, from: MessageIo, b: usize, d: int, q: int, upto: int) -> Seq<
    Pmt,
>
    decreases upto,
{
    if upto <= 0 {
        Seq::empty()
    } else {
        let edge = edges[upto - 1];
        if edge.src == b && edge.dst == d && edge.dst_port == q {
            from.outbox(edge.src_port as int)
        } else {
            inflow(edges, from, b, d, q, upto - 1)
        }
    }
}

/// Whether one of the first `upto` message edges starts at output `port`
/// of block `b`.
pub open spec fn routed(edges: Seq<Edge>, b: usize, port: int, upto: int) -> bool
    decreases upto,
{
    if upto <= 0 {
        false
    } else {
        let edge = edges[upto - 1];
        (edge.src == b && edge.src_port == port) || routed(edges, b, port, upto - 1)
    }
}

/// The `Mail` messages for the mailboxes that the first `upto` message
/// edges feed from a non-empty outbox of block `b`.
pub open spec fn mail_notes(edges: Seq<Edge>, from: MessageIo, b: usize, upto: int) -> Seq<
    (usize, AsyncMessage),
>
    decreases upto,
{
    if upto <= 0 {
        Seq::empty()
    } else {
        let rest = mail_notes(edges, from, b, upto - 1);
        let edge = edges[upto - 1];
        if edge.src == b && from.outbox(edge.src_port as int).len() > 0 {
            rest.push((edge.dst, AsyncMessage::Mail { port_id: edge.dst_port }))
        } else {
            rest
        }
    }
}

proof fn lemma_not_routed(edges: Seq<Edge>, b: usize, port: int, upto: int)
    requires
        0 <= upto <= edges.len(),
        forall|k: int| 0 <= k < upto ==> !((#[trigger] edges[k]).src == b && edges[k].src_port == port),
    ensures
        !routed(edges, b, port, upto),
    decreases upto,
{
    if upto > 0 {
        lemma_not_routed(edges, b, port, upto - 1);
        assert(!(edges[upto - 1].src == b && edges[upto - 1].src_port == port));
    }
}

proof fn lemma_no_inflow(edges: Seq<Edge>, from: MessageIo, b: usize, d: int, q: int, upto: int)
    requires
        0 <= upto <= edges.len(),
        forall|k: int| 0 <= k < upto ==> !((#[trigger] edges[k]).dst == d && edges[k].dst_port == q),
    ensures
        inflow(edges, from, b, d, q, upto) == Seq::<Pmt>::empty(),
    decreases upto,
{
    if upto > 0 {
        lemma_no_inflow(edges, from, b, d, q, upto - 1);
        assert(!(edges[upto - 1].dst == d && edges[upto - 1].dst_port == q));
    }
}

/// The mail notes over the first `upto` message edges are addressed to
/// blocks of the flowgraph.
pub proof fn lemma_mail_notes_in_range(t: &Topology, from: MessageIo, b: usize, upto: int)
    requires
        t.wf(),
        0 <= upto <= t.message_edges().len(),
    ensures
        notes_in_range(mail_notes(t.message_edges(), from, b, upto), t.blocks().len() as int),
    decreases upto,
{
    if upto > 0 {
        lemma_mail_notes_in_range(t, from, b, upto - 1);
        assert(t.message_edge_ok(upto - 1));
    }
}

/// Whether mailbox `q` of block `d` exists in `t`.
pub open spec fn is_mailbox(t: &Topology, d: int, q: int) -> bool {
    0 <= d < t.blocks().len() && 0 <= q < t.blocks()[d].mio().input_names().len()
}

/// Whether message output `port` of block `c` exists in `t`.
pub open spec fn is_outbox(t: &Topology, c: int, port: int) -> bool {
    0 <= c < t.blocks().len() && 0 <= port < t.blocks()[c].mio().output_names().len()
}

/// Moves what the kernel of block `b` posted into the mailboxes its
/// message edges lead to, oldest first, and drops what it posted on outputs
/// without edge. The `Mail` notes for the fed mailboxes are appended to
/// `notes`.
pub fn route_mail(t: &mut Topology, b: usize, notes: &mut Vec<(usize, AsyncMessage)>)
    requires
        old(t).wf(),
        b < old(t).blocks().len(),
    ensures
        final(t).wf(),
        final(t).same_wiring(old(t)),
        final(t).same_calls(old(t)),
        final(t).channels() == old(t).channels(),
        final(notes)@ == old(notes)@ + mail_notes(
            old(t).message_edges(),
            old(t).blocks()[b as int].mio(),
            b,
            old(t).message_edges().len() as int,
        ),
        forall|d: int, q: int|
            is_mailbox(old(t), d, q) ==> #[trigger] final(t).blocks()[d].mio().mailbox(q) == old(
                t,
            ).blocks()[d].mio().mailbox(q) + inflow(
                old(t).message_edges(),
                old(t).blocks()[b as int].mio(),
                b,
                d,
                q,
                old(t).message_edges().len() as int,
            ),
        forall|c: int, port: int|
            is_outbox(old(t), c, port) ==> #[trigger] final(t).blocks()[c].mio().outbox(port) == (if c
                == b {
                Seq::<Pmt>::empty()
            } else {
                old(t).blocks()[c].mio().outbox(port)
            }),
{
    let ghost edges = t.message_edges();
    let ghost from = t.blocks()[b as int].mio();
    let n = t.message_edge_count();
    let mut m: usize = 0;
    while m < n
        invariant
            m <= n,
            n == edges.len(),
            b < old(t).blocks().len(),
            edges == old(t).message_edges(),
            from == old(t).blocks()[b as int].mio(),
            old(t).wf(),
            t.wf(),
            t.same_wiring(old(t)),
            t.same_calls(old(t)),
            t.channels() == old(t).channels(),
            notes@ == old(notes)@ + mail_notes(edges, from, b, m as int),
            forall|d: int, q: int|
                is_mailbox(old(t), d, q) ==> #[trigger] t.blocks()[d].mio().mailbox(q) == old(
                    t,
                ).blocks()[d].mio().mailbox(q) + inflow(edges, from, b, d, q, m as int),
            forall|c: int, port: int|
                is_outbox(old(t), c, port) ==> #[trigger] t.blocks()[c].mio().outbox(port) == (if c == b
                    && routed(edges, b, port, m as int) {
                    Seq::<Pmt>::empty()
                } else {
                    old(t).blocks()[c].mio().outbox(port)
                }),
        decreases n - m,
    {
        let ghost before = *t;
        let edge = t.message_edge(m);
        proof {
            assert(old(t).message_edge_ok(m as int));
            assert(t.message_edge_ok(m as int));
            let earlier = edges.subrange(0, m as int);
            assert forall|k: int| 0 <= k < m implies !((#[trigger] edges[k]).src == edge.src
                && edges[k].src_port == edge.src_port) && !(edges[k].dst == edge.dst
                && edges[k].dst_port == edge.dst_port) by {
                assert(earlier[k] == edges[k]);
            }
            lemma_not_routed(edges, edge.src, edge.src_port as int, m as int);
            lemma_no_inflow(edges, from, b, edge.dst as int, edge.dst_port as int, m as int);
            assert(is_mailbox(old(t), edge.dst as int, edge.dst_port as int));
            assert(is_outbox(old(t), edge.src as int, edge.src_port as int));
        }
        if edge.src == b {
            let posted = t.take_posted(b, edge.src_port);
            let ghost mid = *t;
            proof {
                assert(posted@ == from.outbox(edge.src_port as int));
                mid.lemma_same_wiring_trans(&before, old(t));
                mid.lemma_same_calls_trans(&before, old(t));
            }
            if posted.len() > 0 {
                t.deliver_all(edge.dst, edge.dst_port, posted);
                notes.push((edge.dst, AsyncMessage::Mail { port_id: edge.dst_port }));
                proof {
                    t.lemma_same_wiring_trans(&mid, old(t));
                    t.lemma_same_calls_trans(&mid, old(t));
                }
            }
            proof {
                assert(notes@ =~= old(notes)@ + mail_notes(edges, from, b, m + 1));
                assert forall|d: int, q: int| is_mailbox(old(t), d, q) implies #[trigger] t.blocks()[d].mio().mailbox(
                    q,
                ) == old(t).blocks()[d].mio().mailbox(q) + inflow(
                    edges,
                    from,
                    b,
                    d,
                    q,
                    m + 1,
                ) by {
                    assert(before.blocks()[d].mio().mailbox(q) == old(t).blocks()[d].mio().mailbox(q)
                        + inflow(edges, from, b, d, q, m as int));
                    assert(mid.blocks()[d].mio().mailbox(q) == before.blocks()[d].mio().mailbox(q)) by {
                        if d != b {
                            assert(mid.blocks()[d] == before.blocks()[d]);
                        }
                    }
                    if d == edge.dst && q == edge.dst_port {
                        assert(old(t).blocks()[d].mio().mailbox(q) + Seq::<Pmt>::empty() =~= old(
                            t,
                        ).blocks()[d].mio().mailbox(q));
                        if posted@.len() == 0 {
                            assert(t.blocks()[d].mio().mailbox(q) + posted@ =~= t.blocks()[d].mio().mailbox(
                                q,
                            ));
                        }
                    } else {
                        if posted@.len() > 0 {
                            if d != edge.dst {
                                assert(t.blocks()[d] == mid.blocks()[d]);
                            }
                        }
                    }
                }
                assert forall|c: int, port: int| is_outbox(old(t), c, port) implies #[trigger] t.blocks()[c].mio().outbox(
                    port,
                ) == (if c == b && routed(edges, b, port, m + 1) {
                    Seq::<Pmt>::empty()
                } else {
                    old(t).blocks()[c].mio().outbox(port)
                }) by {
                    assert(before.blocks()[c].mio().outbox(port) == (if c == b && routed(
                        edges,
                        b,
                        port,
                        m as int,
                    ) {
                        Seq::<Pmt>::empty()
                    } else {
                        old(t).blocks()[c].mio().outbox(port)
                    }));
                    if c != b {
                        assert(mid.blocks()[c] == before.blocks()[c]);
                    }
                    if posted@.len() > 0 {
                        if c != edge.dst {
                            assert(t.blocks()[c] == mid.blocks()[c]);
                        }
                    }
                    if c == b && port == edge.src_port {
                        assert(t.blocks()[c].mio().outbox(port) =~= Seq::<Pmt>::empty());
                    }
                }
            }
        } else {
            proof {
                assert(notes@ =~= old(notes)@ + mail_notes(edges, from, b, m + 1));
                assert forall|d: int, q: int| is_mailbox(old(t), d, q) implies #[trigger] t.blocks()[d].mio().mailbox(
                    q,
                ) == old(t).blocks()[d].mio().mailbox(q) + inflow(
                    edges,
                    from,
                    b,
                    d,
                    q,
                    m + 1,
                ) by {}
                assert forall|c: int, port: int| is_outbox(old(t), c, port) implies #[trigger] t.blocks()[c].mio().outbox(
                    port,
                ) == (if c == b && routed(edges, b, port, m + 1) {
                    Seq::<Pmt>::empty()
                } else {
                    old(t).blocks()[c].mio().outbox(port)
                }) by {}
            }
        }
        m += 1;
    }
    let outputs = t.block(b).message_io().outputs();
    let mut port: usize = 0;
    while port < outputs
        invariant
            port <= outputs,
            outputs == old(t).blocks()[b as int].mio().output_names().len(),
            n == edges.len(),
            b < old(t).blocks().len(),
            edges == old(t).message_edges(),
            from == old(t).blocks()[b as int].mio(),
            old(t).wf(),
            t.wf(),
            t.same_wiring(old(t)),
            t.same_calls(old(t)),
            t.channels() == old(t).channels(),
            forall|d: int, q: int|
                is_mailbox(old(t), d, q) ==> #[trigger] t.blocks()[d].mio().mailbox(q) == old(
                    t,
                ).blocks()[d].mio().mailbox(q) + inflow(edges, from, b, d, q, n as int),
            forall|c: int, p: int|
                is_outbox(old(t), c, p) ==> #[trigger] t.blocks()[c].mio().outbox(p) == (if c == b && (p
                    < port || routed(edges, b, p, n as int)) {
                    Seq::<Pmt>::empty()
                } else {
                    old(t).blocks()[c].mio().outbox(p)
                }),
        decreases outputs - port,
    {
        let ghost before = *t;
        let _ = t.take_posted(b, port);
        proof {
            t.lemma_same_wiring_trans(&before, old(t));
            t.lemma_same_calls_trans(&before, old(t));
            assert forall|d: int, q: int| is_mailbox(old(t), d, q) implies #[trigger] t.blocks()[d].mio().mailbox(
                q,
            ) == old(t).blocks()[d].mio().mailbox(q) + inflow(
                edges,
                from,
                b,
                d,
                q,
                n as int,
            ) by {
                assert(before.blocks()[d].mio().mailbox(q) == old(t).blocks()[d].mio().mailbox(q)
                    + inflow(edges, from, b, d, q, n as int));
                if d != b {
                    assert(t.blocks()[d] == before.blocks()[d]);
                }
            }
            assert forall|c: int, p: int| is_outbox(old(t), c, p) implies #[trigger] t.blocks()[c].mio().outbox(
                p,
            ) == (if c == b && (p < port + 1 || routed(edges, b, p, n as int)) {
                Seq::<Pmt>::empty()
            } else {
                old(t).blocks()[c].mio().outbox(p)
            }) by {
                assert(before.blocks()[c].mio().outbox(p) == (if c == b && (p < port || routed(
                    edges,
                    b,
                    p,
                    n as int,
                )) {
                    Seq::<Pmt>::empty()
                } else {
                    old(t).blocks()[c].mio().outbox(p)
                }));
                if c != b {
                    assert(t.blocks()[c] == before.blocks()[c]);
                }
                if c == b && p == port {
                    assert(t.blocks()[c].mio().outbox(p) =~= Seq::<Pmt>::empty());
                }
            }
        }
        port += 1;
    }
}

/// The messages of `notes` addressed to block `t`, in their order.
pub open spec fn addressed(notes: Seq<(usize, AsyncMessage)>, t: int) -> Seq<AsyncMessage>
    decreases notes.len(),
{
    if notes.len() == 0 {
        Seq::empty()
    } else {
        let rest = addressed(notes.drop_last(), t);
        if notes.last().0 == t {
            rest.push(notes.last().1)
        } else {
            rest
        }
    }
}

/// Puts every note into the inbox of the block it is addressed to and
/// wakes that block.
pub fn deliver_notes(
    states: &mut Vec<BlockState>,
    inboxes: &mut Vec<Vec<AsyncMessage>>,
    notes: &Vec<(usize, AsyncMessage)>,
)
    requires
        old(states)@.len() == old(inboxes)@.len(),
        notes_in_range(notes@, old(states)@.len() as int),
    ensures
        final(states)@.len() == old(states)@.len(),
        final(inboxes)@.len() == old(inboxes)@.len(),
        forall|t: int|
            0 <= t < old(states)@.len() ==> (#[trigger] final(inboxes)@[t])@ == old(inboxes)@[t]@
                + addressed(notes@, t),
        forall|t: int|
            0 <= t < old(states)@.len() ==> #[trigger] final(states)@[t] == woken(
                old(states)@[t],
                addressed(notes@, t).len() > 0,
            ),
{
    let mut k: usize = 0;
    proof {
        assert(notes@.take(0) =~= Seq::empty());
        assert forall|t: int| 0 <= t < old(states)@.len() implies (#[trigger] inboxes@[t])@ == old(
            inboxes,
        )@[t]@ + addressed(notes@.take(0), t) by {
            assert(old(inboxes)@[t]@ + Seq::<AsyncMessage>::empty() =~= old(inboxes)@[t]@);
        }
    }
    while k < notes.len()
        invariant
            k <= notes@.len(),
            states@.len() == old(states)@.len(),
            inboxes@.len() == old(inboxes)@.len(),
            old(states)@.len() == old(inboxes)@.len(),
            notes_in_range(notes@, old(states)@.len() as int),
            forall|t: int|
                0 <= t < old(states)@.len() ==> (#[trigger] inboxes@[t])@ == old(inboxes)@[t]@
                    + addressed(notes@.take(k as int), t),
            forall|t: int|
                0 <= t < old(states)@.len() ==> #[trigger] states@[t] == woken(
                    old(states)@[t],
                    addressed(notes@.take(k as int), t).len() > 0,
                ),
        decreases notes@.len() - k,
    {
        let ghost inboxes_before = inboxes@;
        let ghost states_before = states@;
        let target = notes[k].0;
        let message = notes[k].1;
        assert(notes@[k as int].0 < states@.len());
        inboxes[target].push(message);
        let woke = states[target].step(SchedEvent::Message);
        states[target] = woke;
        proof {
            let upto = notes@.take(k as int);
            let next = notes@.take(k + 1);
            assert(next.drop_last() =~= upto);
            assert(next.last() == notes@[k as int]);
            assert forall|t: int| 0 <= t < old(states)@.len() implies (#[trigger] inboxes@[t])@ == old(
                inboxes,
            )@[t]@ + addressed(next, t) by {
                assert(inboxes_before[t]@ == old(inboxes)@[t]@ + addressed(upto, t));
                if t == target {
                    assert(inboxes@[t]@ =~= old(inboxes)@[t]@ + addressed(next, t));
                } else {
                    assert(inboxes@[t] == inboxes_before[t]);
                }
            }
            assert forall|t: int| 0 <= t < old(states)@.len() implies #[trigger] states@[t] == woken(
                old(states)@[t],
                addressed(next, t).len() > 0,
            ) by {
                assert(states_before[t] == woken(
                    old(states)@[t],
                    addressed(upto, t).len() > 0,
                ));
            }
        }
        k += 1;
    }
    assert(notes@.take(k as int) =~= notes@);
}

/// The first runnable block with index in `from..to`.
pub open spec fn first_runnable(states: Seq<BlockState>, from: int, to: int) -> Option<int>
    decreases to - from,
{
    if from >= to {
        None
    } else if states[from] == BlockState::Runnable {
        Some(from)
    } else {
        first_runnable(states, from + 1, to)
    }
}

/// The block a free worker takes next: the first runnable block at or after
/// `cursor`, else the first runnable block before it. Blocks take turns.
pub open spec fn next_runnable(states: Seq<BlockState>, cursor: int) -> Option<int> {
    match first_runnable(states, cursor, states.len() as int) {
        Some(b) => Some(b),
        None => first_runnable(states, 0, cursor),
    }
}

/// `first_runnable` finds a runnable block of the range, and finds none
/// only if the range holds none.
pub proof fn lemma_first_runnable(states: Seq<BlockState>, from: int, to: int)
    requires
        0 <= from <= to <= states.len(),
    ensures
        match first_runnable(states, from, to) {
            Some(b) => from <= b < to && states[b] == BlockState::Runnable,
            None => forall|c: int| from <= c < to ==> states[c] != BlockState::Runnable,
        },
    decreases to - from,
{
    if from < to && states[from] != BlockState::Runnable {
        lemma_first_runnable(states, from + 1, to);
    }
}

/// Finds the first runnable block with index in `from..to`.
pub fn find_runnable(states: &Vec<BlockState>, from: usize, to: usize) -> (r: Option<usize>)
    requires
        from <= to <= states@.len(),
    ensures
        match r {
            Some(b) => first_runnable(states@, from as int, to as int) == Some(b as int),
            None => first_runnable(states@, from as int, to as int).is_none(),
        },
{
    let mut i = from;
    while i < to
        invariant
            from <= i <= to <= states@.len(),
            first_runnable(states@, from as int, to as int) == first_runnable(
                states@,
                i as int,
                to as int,
            ),
        decreases to - i,
    {
        if states[i] == BlockState::Runnable {
            return Some(i);
        }
        i += 1;
    }
    None
}

/// What one step of the scheduler did.
#[derive(Debug, Clone, Copy, PartialEq, Eq, Structural)]
pub enum Step {
    /// The kernel of `block` worked once. `wait` is the delay after which
    /// the kernel asked to be called again, if it asked.
    Worked { block: usize, wait: Option<u64> },
    /// No block is runnable.
    Quiescent,
}

/// How a run came to rest.
#[derive(Debug, Clone, Copy, PartialEq, Eq, Structural)]
pub enum RunEnd {
    /// Every block is finished.
    Finished,
    /// No block is runnable and some block is not finished: the blocks wait
    /// for each other.
    Stalled,
    /// The budget of steps is used up.
    StepLimit,
}

/// The mail effects of routing what block `b` posted in `before`.
pub open spec fn mail_routed(after: &Topology, before: &Topology, b: usize) -> bool {
    &&& forall|d: int, q: int|
        is_mailbox(before, d, q) ==> #[trigger] after.blocks()[d].mio().mailbox(q)
            == before.blocks()[d].mio().mailbox(q) + inflow(
            before.message_edges(),
            before.blocks()[b as int].mio(),
            b,
            d,
            q,
            before.message_edges().len() as int,
        )
    &&& forall|c: int, port: int|
        is_outbox(before, c, port) ==> #[trigger] after.blocks()[c].mio().outbox(port) == (if c == b {
            Seq::<Pmt>::empty()
        } else {
            before.blocks()[c].mio().outbox(port)
        })
}

/// The notes a block `b` causes when its kernel returned on the flowgraph
/// `t`: the debts of the edges, the mail, and, if it is `finishing`, the
/// notes that tell its neighbours.
pub open spec fn work_notes(t: &Topology, b: usize, finishing: bool) -> Seq<(usize, AsyncMessage)> {
    debt_notes(t.stream_edges(), t.channels(), t.stream_edges().len() as int) + mail_notes(
        t.message_edges(),
        t.blocks()[b as int].mio(),
        b,
        t.message_edges().len() as int,
    ) + (if finishing {
        finish_notes(t.stream_edges(), b, t.stream_edges().len() as int)
    } else {
        Seq::empty()
    })
}

/// The scheduler: the flowgraph with one state, one inbox and one count of
/// work calls per block.
pub struct Scheduler {
    topology: Topology,
    states: Vec<BlockState>,
    inboxes: Vec<Vec<AsyncMessage>>,
    work_calls: Vec<u64>,
    cursor: usize,
    clock: u64,
    started: bool,
    steps: Ghost<nat>,
}

impl Scheduler {
    /// The flowgraph.
    pub closed spec fn topology(&self) -> Topology {
        self.topology
    }

    /// The state of each block.
    pub closed spec fn states(&self) -> Seq<BlockState> {
        self.states@
    }

    /// Number of inboxes.
    pub closed spec fn inbox_count(&self) -> nat {
        self.inboxes@.len()
    }

    /// The control messages that arrived for block `b` since it last worked.
    pub closed spec fn inbox(&self, b: int) -> Seq<AsyncMessage> {
        self.inboxes@[b]@
    }

    /// How often the kernel of each block worked.
    pub closed spec fn work_calls(&self) -> Seq<u64> {
        self.work_calls@
    }

    /// Where the search for the next runnable block starts.
    pub closed spec fn cursor(&self) -> int {
        self.cursor as int
    }

    /// The time handed to kernels, in nanoseconds.
    pub closed spec fn clock(&self) -> u64 {
        self.clock
    }

    /// Whether the run has started.
    pub closed spec fn started(&self) -> bool {
        self.started
    }

    /// How many times a block was given to the worker.
    pub closed spec fn steps(&self) -> nat {
        self.steps@
    }

    /// A finished block has closed its side of stream edge `e`.
    pub open spec fn edge_closed_ok(&self, e: int) -> bool {
        let edge = self.topology().stream_edges()[e];
        let c = self.topology().channels()[e]@;
        &&& self.states()[edge.src as int] == BlockState::Finished ==> c.writer_finished()
        &&& self.states()[edge.dst as int] == BlockState::Finished ==> c.reader_finished()
    }

    /// The invariant that holds also while one kernel works: the flowgraph
    /// is consistently wired; every block has its state, inbox and count;
    /// before the start every block is idle and has never worked; after it
    /// a block that has never worked is runnable; a finished block has
    /// closed its side of each of its edges.
    pub open spec fn consistent(&self) -> bool {
        let n = self.topology().blocks().len();
        &&& self.topology().wf()
        &&& self.states().len() == n
        &&& self.inbox_count() == n
        &&& self.work_calls().len() == n
        &&& 0 <= self.cursor() <= n
        &&& !self.started() ==> forall|b: int|
            0 <= b < n ==> #[trigger] self.states()[b] == BlockState::Idle && self.work_calls()[b] == 0
        &&& self.started() ==> forall|b: int|
            0 <= b < n && #[trigger] self.work_calls()[b] == 0 ==> self.states()[b]
                == BlockState::Runnable
        &&& forall|e: int|
            0 <= e < self.topology().stream_edges().len() ==> #[trigger] self.edge_closed_ok(e)
    }

    /// Every block was called at least as often as the scheduler counted.
    pub open spec fn counted(&self) -> bool {
        forall|b: int|
            0 <= b < self.work_calls().len() ==> (#[trigger] self.topology().blocks()[b]).calls()
                >= self.work_calls()[b]
    }

    /// The invariant between steps: consistent, no kernel works, and every
    /// call the scheduler counted was made.
    pub open spec fn wf(&self) -> bool {
        &&& self.consistent()
        &&& self.counted()
        &&& forall|b: int| 0 <= b < self.states().len() ==> #[trigger] self.states()[b] != BlockState::Running
    }

    /// A block that is finished has worked at least once, and after the
    /// start so has every block that is not runnable.
    pub proof fn lemma_worked(&self, b: int)
        requires
            self.consistent(),
            self.started(),
            0 <= b < self.states().len(),
            self.states()[b] != BlockState::Runnable,
        ensures
            self.work_calls()[b] >= 1,
            self.counted() ==> self.topology().blocks()[b].calls() >= 1,
    {
    }

    /// A scheduler for `topology`: every block idle, every inbox empty.
    pub fn new(topology: Topology) -> (s: Scheduler)
        requires
            topology.wf(),
        ensures
            s.wf(),
            !s.started(),
            s.topology() == topology,
            s.cursor() == 0,
            s.clock() == 0,
            s.steps() == 0,
            forall|b: int| 0 <= b < s.states().len() ==> #[trigger] s.inbox(b) == Seq::<AsyncMessage>::empty(),
    {
        let n = topology.block_count();
        let mut states: Vec<BlockState> = Vec::new();
        let mut inboxes: Vec<Vec<AsyncMessage>> = Vec::new();
        let mut work_calls: Vec<u64> = Vec::new();
        let mut b: usize = 0;
        while b < n
            invariant
                b <= n,
                states@.len() == b,
                inboxes@.len() == b,
                work_calls@.len() == b,
                forall|c: int| 0 <= c < b ==> #[trigger] states@[c] == BlockState::Idle,
                forall|c: int| 0 <= c < b ==> (#[trigger] inboxes@[c])@ == Seq::<AsyncMessage>::empty(),
                forall|c: int| 0 <= c < b ==> #[trigger] work_calls@[c] == 0,
            decreases n - b,
        {
            states.push(BlockState::Idle);
            inboxes.push(Vec::new());
            work_calls.push(0);
            b += 1;
        }
        let s = Scheduler {
            topology,
            states,
            inboxes,
            work_calls,
            cursor: 0,
            clock: 0,
            started: false,
            steps: Ghost(0),
        };
        proof {
            assert forall|e: int| 0 <= e < s.topology().stream_edges().len() implies #[trigger] s.edge_closed_ok(
                e,
            ) by {
                assert(s.topology().edge_ok(e));
            }
        }
        s
    }

    /// Number of blocks.
    pub fn block_count(&self) -> (n: usize)
        requires
            self.consistent(),
        ensures
            n == self.states().len(),
    {
        self.states.len()
    }

    /// The state of block `b`.
    pub fn state(&self, b: usize) -> (s: BlockState)
        requires
            b < self.states().len(),
        ensures
            s == self.states()[b as int],
    {
        self.states[b]
    }

    /// How often the kernel of block `b` worked.
    pub fn work_count(&self, b: usize) -> (n: u64)
        requires
            b < self.work_calls().len(),
        ensures
            n == self.work_calls()[b as int],
    {
        self.work_calls[b]
    }

    /// Number of control messages in the inbox of block `b`.
    pub fn inbox_len(&self, b: usize) -> (n: usize)
        requires
            b < self.inbox_count(),
        ensures
            n == self.inbox(b as int).len(),
    {
        self.inboxes[b].len()
    }

    /// The flowgraph.
    pub fn graph(&self) -> (t: &Topology)
        ensures
            *t == self.topology(),
    {
        &self.topology
    }

    /// The time handed to kernels, in nanoseconds.
    pub fn now(&self) -> (t: u64)
        ensures
            t == self.clock(),
    {
        self.clock
    }

    /// Sets the time handed to kernels from now on.
    pub fn set_clock(&mut self, now: u64)
        ensures
            final(self).clock() == now,
            final(self).topology() == old(self).topology(),
            final(self).states() == old(self).states(),
            final(self).work_calls() == old(self).work_calls(),
            final(self).inbox_count() == old(self).inbox_count(),
            forall|b: int| final(self).inbox(b) == old(self).inbox(b),
            final(self).cursor() == old(self).cursor(),
            final(self).started() == old(self).started(),
            final(self).steps() == old(self).steps(),
            old(self).wf() ==> final(self).wf(),
    {
        self.clock = now;
        proof {
            if old(self).wf() {
                assert forall|e: int| 0 <= e < self.topology().stream_edges().len() implies #[trigger] self.edge_closed_ok(
                    e,
                ) by {
                    assert(old(self).edge_closed_ok(e));
                }
            }
        }
    }

    /// Gives the flowgraph back.
    pub fn into_topology(self) -> (t: Topology)
        ensures
            t == self.topology(),
    {
        self.topology
    }

    /// Starts the run: runs the `init` hook of every block, at the time of
    /// the clock, in the order of the blocks and then makes every block
    /// runnable, so that each gets a
    /// first call of `work` whether or not a message ever arrives for it.
    /// The first hook that fails ends the start: no block is made runnable.
    pub fn start(&mut self) -> (r: Result<(), KernelError>)
        requires
            old(self).wf(),
            !old(self).started(),
        ensures
            final(self).wf(),
            final(self).topology().same_wiring(&old(self).topology()),
            final(self).work_calls() == old(self).work_calls(),
            final(self).inbox_count() == old(self).inbox_count(),
            forall|b: int| final(self).inbox(b) == old(self).inbox(b),
            final(self).cursor() == old(self).cursor(),
            final(self).clock() == old(self).clock(),
            final(self).steps() == old(self).steps(),
            r is Ok ==> final(self).started() && forall|b: int|
                0 <= b < final(self).states().len() ==> #[trigger] final(self).states()[b]
                    == BlockState::Runnable,
            r is Err ==> !final(self).started() && final(self).states() == old(self).states(),
            old(self).states().len() == 0 ==> r is Ok,
    {
        let n = self.states.len();
        let mut b: usize = 0;
        while b < n
            invariant
                b <= n,
                n == self.states().len(),
                self.wf(),
                !self.started(),
                self.topology().same_wiring(&old(self).topology()),
                self.states() == old(self).states(),
                self.work_calls() == old(self).work_calls(),
                self.inboxes == old(self).inboxes,
                self.cursor == old(self).cursor,
                self.clock == old(self).clock,
                self.steps == old(self).steps,
            decreases n - b,
        {
            let ghost before = *self;
            let r = self.topology.init_block(b, self.clock);
            proof {
                self.topology().lemma_same_wiring_trans(&before.topology(), &old(self).topology());
                assert forall|e: int| 0 <= e < self.topology().stream_edges().len() implies #[trigger] self.edge_closed_ok(
                    e,
                ) by {
                    assert(before.edge_closed_ok(e));
                }
            }
            match r {
                Ok(()) => {},
                Err(e) => {
                    return Err(e);
                },
            }
            b += 1;
        }
        proof {
            assert forall|c: int| 0 <= c < n implies #[trigger] self.work_calls()[c] == 0
                && self.states()[c] == BlockState::Idle by {
                assert(self.states()[c] == BlockState::Idle && self.work_calls()[c] == 0);
            }
        }
        let mut b: usize = 0;
        while b < n
            invariant
                b <= n,
                n == self.states().len(),
                self.topology().wf(),
                self.topology().same_wiring(&old(self).topology()),
                self.states().len() == self.topology().blocks().len(),
                self.inbox_count() == n,
                self.work_calls().len() == n,
                0 <= self.cursor() <= n,
                !self.started(),
                forall|c: int| 0 <= c < b ==> #[trigger] self.states()[c] == BlockState::Runnable,
                forall|c: int| b <= c < n ==> #[trigger] self.states()[c] == BlockState::Idle,
                forall|c: int| 0 <= c < n ==> #[trigger] self.work_calls()[c] == 0,
                self.work_calls() == old(self).work_calls(),
                self.inboxes == old(self).inboxes,
                self.cursor == old(self).cursor,
                self.clock == old(self).clock,
                self.steps == old(self).steps,
            decreases n - b,
        {
            let next = self.states[b].step(SchedEvent::Start);
            self.states[b] = next;
            b += 1;
        }
        self.started = true;
        proof {
            assert forall|e: int| 0 <= e < self.topology().stream_edges().len() implies #[trigger] self.edge_closed_ok(
                e,
            ) by {
                assert(self.topology().edge_ok(e));
            }
        }
        Ok(())
    }
    /// Gives the next runnable block to the worker: the block is `Running`,
    /// its inbox is emptied and its count of work calls goes up. Blocks
    /// take turns: the search starts behind the block dispatched last.
    pub fn dispatch(&mut self) -> (r: Option<usize>)
        requires
            old(self).wf(),
            old(self).started(),
        ensures
            final(self).consistent(),
            final(self).started(),
            final(self).topology() == old(self).topology(),
            final(self).clock() == old(self).clock(),
            final(self).inbox_count() == old(self).inbox_count(),
            match next_runnable(old(self).states(), old(self).cursor()) {
                None => {
                    &&& r.is_none()
                    &&& final(self).states() == old(self).states()
                    &&& final(self).work_calls() == old(self).work_calls()
                    &&& final(self).steps() == old(self).steps()
                    &&& final(self).cursor() == old(self).cursor()
                    &&& forall|c: int| final(self).inbox(c) == old(self).inbox(c)
                },
                Some(b) => {
                    &&& r == Some(b as usize)
                    &&& 0 <= b < old(self).states().len()
                    &&& old(self).states()[b] == BlockState::Runnable
                    &&& final(self).states() == old(self).states().update(b, BlockState::Running)
                    &&& final(self).work_calls() == old(self).work_calls().update(
                        b,
                        bump(old(self).work_calls()[b]),
                    )
                    &&& final(self).cursor() == b + 1
                    &&& final(self).steps() == old(self).steps() + 1
                    &&& final(self).inbox(b) == Seq::<AsyncMessage>::empty()
                    &&& forall|c: int|
                        0 <= c < old(self).states().len() && c != b ==> #[trigger] final(self).inbox(c)
                            == old(self).inbox(c)
                },
            },
    {
        let n = self.states.len();
        proof {
            lemma_first_runnable(self.states(), self.cursor(), n as int);
            lemma_first_runnable(self.states(), 0, self.cursor());
        }
        let found = match find_runnable(&self.states, self.cursor, n) {
            Some(b) => Some(b),
            None => find_runnable(&self.states, 0, self.cursor),
        };
        match found {
            None => None,
            Some(b) => {
                let running = self.states[b].step(SchedEvent::Dispatch);
                self.states[b] = running;
                self.inboxes[b].clear();
                let calls = self.work_calls[b];
                self.work_calls[b] = if calls < u64::MAX {
                    calls + 1
                } else {
                    calls
                };
                self.cursor = b + 1;
                self.steps = Ghost(self.steps@ + 1);
                proof {
                    assert(self.states() == old(self).states().update(b as int, BlockState::Running));
                    assert(self.work_calls() == old(self).work_calls().update(
                        b as int,
                        bump(old(self).work_calls()[b as int]),
                    ));
                    assert forall|c: int| 0 <= c < n && #[trigger] self.work_calls()[c] == 0 implies self.states()[c]
                        == BlockState::Runnable by {
                        assert(old(self).work_calls()[c] == 0);
                    }
                    assert forall|e: int| 0 <= e < self.topology().stream_edges().len() implies #[trigger] self.edge_closed_ok(
                        e,
                    ) by {
                        assert(old(self).edge_closed_ok(e));
                        assert(self.topology().edge_ok(e));
                    }
                }
                Some(b)
            },
        }
    }

    /// Takes note of what the kernel of the running block `b` did: `io` is
    /// what it left as hints and `ok` tells whether it returned without
    /// error. A kernel that failed is treated as finished.
    ///
    /// The debts of the edges are paid, the mail is routed, and, if the
    /// block is finished, its edges are closed on its side and its
    /// neighbours told. Every note reaches the inbox of its block and wakes
    /// it. The block itself becomes `Finished`, or `Runnable` if it asked
    /// to be called again or has messages, or else `Idle`.
    pub fn complete(&mut self, b: usize, io: WorkIo, ok: bool) -> (wait: Option<u64>)
        requires
            old(self).consistent(),
            old(self).started(),
            b < old(self).states().len(),
            old(self).states()[b as int] == BlockState::Running,
            old(self).counted(),
            forall|c: int|
                0 <= c < old(self).states().len() && c != b ==> #[trigger] old(self).states()[c]
                    != BlockState::Running,
        ensures
            final(self).wf(),
            final(self).topology().same_calls(&old(self).topology()),
            final(self).started(),
            final(self).work_calls() == old(self).work_calls(),
            final(self).cursor() == old(self).cursor(),
            final(self).clock() == old(self).clock(),
            final(self).steps() == old(self).steps(),
            final(self).topology().same_graph(&old(self).topology()),
            forall|e: int|
                0 <= e < old(self).topology().channels().len() ==> (#[trigger] final(self).topology().channels()[e])@
                    == (if !ok || io.finished {
                    closed_for(
                        settled(old(self).topology().channels()[e]@),
                        old(self).topology().stream_edges()[e],
                        b,
                    )
                } else {
                    settled(old(self).topology().channels()[e]@)
                }),
            mail_routed(&final(self).topology(), &old(self).topology(), b),
            forall|c: int|
                0 <= c < old(self).states().len() ==> #[trigger] final(self).inbox(c) == old(self).inbox(c)
                    + addressed(work_notes(&old(self).topology(), b, !ok || io.finished), c),
            forall|c: int|
                0 <= c < old(self).states().len() && c != b ==> #[trigger] final(self).states()[c]
                    == woken(
                    old(self).states()[c],
                    addressed(work_notes(&old(self).topology(), b, !ok || io.finished), c).len() > 0,
                ),
            final(self).states().len() == old(self).states().len(),
            final(self).states()[b as int] == BlockState::Running.next(
                SchedEvent::WorkDone {
                    finished: !ok || io.finished,
                    again: io.call_again || io.block_on is Some || final(self).inbox(b as int).len() > 0,
                },
            ),
            wait == (if !ok || io.finished {
                None
            } else {
                io.block_on
            }),
    {
        let finishing = !ok || io.finished;
        let ghost t0 = self.topology;
        let mut notes: Vec<(usize, AsyncMessage)> = Vec::new();
        settle_debts(&mut self.topology, &mut notes);
        let ghost t1 = self.topology;
        let ghost notes1 = notes@;
        route_mail(&mut self.topology, b, &mut notes);
        let ghost t2 = self.topology;
        if finishing {
            finish_edges(&mut self.topology, b, &mut notes);
        }
        let ghost t3 = self.topology;
        proof {
            let n = t0.blocks().len() as int;
            lemma_debt_notes_in_range(&t0, t0.stream_edges().len() as int);
            lemma_mail_notes_in_range(&t1, t1.blocks()[b as int].mio(), b, t1.message_edges().len() as int);
            lemma_finish_notes_in_range(&t2, b, t2.stream_edges().len() as int);
            assert(notes1 =~= debt_notes(t0.stream_edges(), t0.channels(), t0.stream_edges().len() as int));
            assert(notes@ =~= work_notes(&t0, b, finishing));
            assert(notes_in_range(notes@, n));
            assert(t3.blocks() == t2.blocks());
            assert(t1.blocks() == t0.blocks());
            assert(t3.same_calls(&t0));
            assert(mail_routed(&t3, &t0, b));
            assert forall|c: int| 0 <= c < t3.blocks().len() implies {
                &&& (#[trigger] t3.blocks()[c]).sio().input_ports() == t0.blocks()[c].sio().input_ports()
                &&& t3.blocks()[c].sio().output_ports() == t0.blocks()[c].sio().output_ports()
                &&& t3.blocks()[c].mio().same_ports(&t0.blocks()[c].mio())
                &&& t3.blocks()[c].kind_spec() == t0.blocks()[c].kind_spec()
            } by {
                assert(t2.blocks()[c].kind_spec() == t1.blocks()[c].kind_spec());
            }
            assert forall|e: int| 0 <= e < t0.channels().len() implies (#[trigger] t3.channels()[e])@ == (if finishing {
                closed_for(settled(t0.channels()[e]@), t0.stream_edges()[e], b)
            } else {
                settled(t0.channels()[e]@)
            }) by {
                assert(t1.channels()[e]@ == settled(t0.channels()[e]@));
                assert(t2.channels()[e] == t1.channels()[e]);
            }
        }
        deliver_notes(&mut self.states, &mut self.inboxes, &notes);
        let again = io.call_again || io.block_on.is_some() || self.inboxes[b].len() > 0;
        let next = self.states[b].step(SchedEvent::WorkDone { finished: finishing, again });
        self.states[b] = next;
        proof {
            let n = t0.blocks().len() as int;
            assert forall|c: int| 0 <= c < n && c != b implies #[trigger] self.states()[c] == woken(
                old(self).states()[c],
                addressed(work_notes(&t0, b, finishing), c).len() > 0,
            ) by {}
            assert forall|c: int| 0 <= c < n && #[trigger] self.work_calls()[c] == 0 implies self.states()[c]
                == BlockState::Runnable by {
                assert(old(self).work_calls()[c] == 0);
                assert(old(self).states()[c] == BlockState::Runnable);
            }
            assert forall|c: int| 0 <= c < n implies #[trigger] self.states()[c] != BlockState::Running by {
                if c != b {
                    assert(old(self).states()[c] != BlockState::Running);
                }
            }
            assert forall|e: int| 0 <= e < self.topology().stream_edges().len() implies #[trigger] self.edge_closed_ok(
                e,
            ) by {
                assert(old(self).edge_closed_ok(e));
                assert(t0.edge_ok(e));
                let edge = t0.stream_edges()[e];
                assert(t3.channels()[e]@ == (if finishing {
                    closed_for(settled(t0.channels()[e]@), edge, b)
                } else {
                    settled(t0.channels()[e]@)
                }));
                if edge.src != b {
                    assert(self.states()[edge.src as int] == woken(
                        old(self).states()[edge.src as int],
                        addressed(work_notes(&t0, b, finishing), edge.src as int).len() > 0,
                    ));
                }
                if edge.dst != b {
                    assert(self.states()[edge.dst as int] == woken(
                        old(self).states()[edge.dst as int],
                        addressed(work_notes(&t0, b, finishing), edge.dst as int).len() > 0,
                    ));
                }
            }
        }
        if finishing {
            None
        } else {
            io.block_on
        }
    }

    /// One step of the run: the next runnable block, if there is one, works
    /// once and what it did is taken note of.
    ///
    /// Whatever the kernel does, only a block that was `Runnable` works, a
    /// finished block stays finished and is never worked again, and every
    /// other block either keeps its state or is woken by a message. The
    /// block that worked ends `Finished`, `Runnable` or `Idle`; it is
    /// `Runnable` when it asked to be called again after a delay, and asks
    /// for no delay when it is `Finished`. A kernel that fails is finished
    /// for good and its error is the result.
    pub fn step(&mut self) -> (r: Result<Step, KernelError>)
        requires
            old(self).wf(),
            old(self).started(),
        ensures
            final(self).wf(),
            final(self).started(),
            final(self).clock() == old(self).clock(),
            final(self).topology().same_graph(&old(self).topology()),
            final(self).states().len() == old(self).states().len(),
            match next_runnable(old(self).states(), old(self).cursor()) {
                None => {
                    &&& r == Ok::<Step, KernelError>(Step::Quiescent)
                    &&& final(self).states() == old(self).states()
                    &&& final(self).work_calls() == old(self).work_calls()
                    &&& final(self).cursor() == old(self).cursor()
                    &&& final(self).steps() == old(self).steps()
                    &&& final(self).topology() == old(self).topology()
                    &&& forall|b: int|
                        0 <= b < old(self).states().len() ==> old(self).states()[b]
                            != BlockState::Runnable
                },
                Some(b) => {
                    &&& 0 <= b < old(self).states().len()
                    &&& old(self).states()[b] == BlockState::Runnable
                    &&& r matches Ok(step) ==> step matches Step::Worked { block, wait } && block == b
                        && (wait is Some ==> final(self).states()[b] == BlockState::Runnable)
                    &&& r is Err ==> final(self).states()[b] == BlockState::Finished
                    &&& final(self).steps() == old(self).steps() + 1
                    &&& final(self).work_calls() == old(self).work_calls().update(
                        b,
                        bump(old(self).work_calls()[b]),
                    )
                    &&& forall|c: int|
                        0 <= c < old(self).states().len() && c != b ==> #[trigger] final(self).states()[c]
                            == old(self).states()[c] || final(self).states()[c] == old(
                            self,
                        ).states()[c].next(SchedEvent::Message)
                },
            },
            forall|c: int|
                0 <= c < old(self).states().len() && old(self).states()[c] == BlockState::Finished
                    ==> #[trigger] final(self).states()[c] == BlockState::Finished && final(self).work_calls()[c] == old(self).work_calls()[c],
    {
        proof {
            lemma_first_runnable(self.states(), self.cursor(), self.states().len() as int);
            lemma_first_runnable(self.states(), 0, self.cursor());
        }
        match self.dispatch() {
            None => Ok(Step::Quiescent),
            Some(b) => {
                let ghost dispatched = *self;
                let mut io = WorkIo::new(self.clock);
                let r = self.topology.work_block(b, &mut io);
                let ghost worked = *self;
                proof {
                    assert forall|e: int| 0 <= e < self.topology().stream_edges().len() implies #[trigger] self.edge_closed_ok(
                        e,
                    ) by {
                        assert(dispatched.edge_closed_ok(e));
                    }
                    assert forall|c: int| 0 <= c < self.states().len() && c != b implies #[trigger] self.states()[c]
                        != BlockState::Running by {
                        assert(old(self).states()[c] != BlockState::Running);
                    }
                }
                let result = match r {
                    Ok(()) => {
                        let wait = self.complete(b, io, true);
                        Ok(Step::Worked { block: b, wait })
                    },
                    Err(e) => {
                        let _ = self.complete(b, io, false);
                        Err(e)
                    },
                };
                proof {
                    self.topology().lemma_same_graph_trans(&worked.topology(), &old(self).topology());
                    assert forall|c: int|
                        0 <= c < old(self).states().len() && c != b implies #[trigger] self.states()[c]
                        == old(self).states()[c] || self.states()[c] == old(self).states()[c].next(
                        SchedEvent::Message,
                    ) by {
                        assert(worked.states()[c] == old(self).states()[c]);
                    }
                    assert forall|c: int|
                        0 <= c < old(self).states().len() && old(self).states()[c]
                            == BlockState::Finished implies #[trigger] self.states()[c]
                        == BlockState::Finished && self.work_calls()[c] == old(self).work_calls()[c] by {
                        assert(c != b);
                        assert(self.states()[c] == old(self).states()[c] || self.states()[c] == old(
                            self,
                        ).states()[c].next(SchedEvent::Message));
                    }
                }
                result
            },
        }
    }

    /// Whether every block is finished.
    pub fn all_finished(&self) -> (all: bool)
        ensures
            all == forall|b: int|
                0 <= b < self.states().len() ==> #[trigger] self.states()[b] == BlockState::Finished,
    {
        let mut b: usize = 0;
        while b < self.states.len()
            invariant
                b <= self.states().len(),
                forall|c: int| 0 <= c < b ==> #[trigger] self.states()[c] == BlockState::Finished,
            decreases self.states().len() - b,
        {
            if self.states[b] != BlockState::Finished {
                return false;
            }
            b += 1;
        }
        true
    }

    /// Runs steps until no block is runnable or `max_steps` steps are done.
    /// When a kernel asks to be called again after a delay, the clock
    /// handed to kernels is put forward by that delay.
    ///
    /// The run takes a step as long as a block is runnable and the budget
    /// lasts: it ends with `StepLimit` only after `max_steps` steps, and a
    /// block that is runnable at the start works if the budget allows one
    /// step. When the run comes to rest every block has worked at least
    /// once. A block that was finished before stays finished and is not
    /// worked again. The first kernel error ends the run and is the result.
    pub fn run_to_quiescence(&mut self, max_steps: usize) -> (r: Result<RunEnd, KernelError>)
        requires
            old(self).wf(),
            old(self).started(),
        ensures
            final(self).wf(),
            final(self).started(),
            final(self).topology().same_graph(&old(self).topology()),
            final(self).states().len() == old(self).states().len(),
            old(self).states().len() == 0 ==> r == Ok::<RunEnd, KernelError>(RunEnd::Finished),
            final(self).steps() <= old(self).steps() + max_steps,
            r == Ok::<RunEnd, KernelError>(RunEnd::StepLimit) ==> final(self).steps() == old(self).steps()
                + max_steps,
            final(self).work_calls().len() == old(self).work_calls().len(),
            forall|c: int|
                0 <= c < old(self).work_calls().len() ==> #[trigger] final(self).work_calls()[c]
                    >= old(self).work_calls()[c],
            max_steps > 0 ==> (next_runnable(old(self).states(), old(self).cursor()) matches Some(b)
                ==> final(self).work_calls()[b] >= bump(old(self).work_calls()[b])),
            r == Ok::<RunEnd, KernelError>(RunEnd::Finished) <==> r is Ok && forall|b: int|
                0 <= b < final(self).states().len() ==> #[trigger] final(self).states()[b]
                    == BlockState::Finished,
            r is Ok && r != Ok::<RunEnd, KernelError>(RunEnd::StepLimit) ==> forall|b: int|
                0 <= b < final(self).states().len() ==> #[trigger] final(self).states()[b]
                    != BlockState::Runnable && final(self).work_calls()[b] >= 1,
            r == Ok::<RunEnd, KernelError>(RunEnd::Finished) ==> forall|e: int|
                0 <= e < final(self).topology().channels().len() ==> (#[trigger] final(self).topology().channels()[e])@.writer_finished()
                    && final(self).topology().channels()[e]@.reader_finished(),
            forall|c: int|
                0 <= c < old(self).states().len() && old(self).states()[c] == BlockState::Finished
                    ==> #[trigger] final(self).states()[c] == BlockState::Finished && final(self).work_calls()[c] == old(self).work_calls()[c],
    {
        proof {
            lemma_first_runnable(self.states(), self.cursor(), self.states().len() as int);
            lemma_first_runnable(self.states(), 0, self.cursor());
        }
        let mut steps: usize = 0;
        let mut rest = false;
        while steps < max_steps && !rest
            invariant
                self.wf(),
                self.started(),
                self.topology().same_graph(&old(self).topology()),
                self.states().len() == old(self).states().len(),
                rest ==> forall|b: int|
                    0 <= b < self.states().len() ==> self.states()[b] != BlockState::Runnable,
                steps <= max_steps,
                self.steps() == old(self).steps() + steps,
                self.work_calls().len() == old(self).work_calls().len(),
                old(self).work_calls().len() == old(self).states().len(),
                forall|c: int|
                    0 <= c < old(self).work_calls().len() ==> #[trigger] self.work_calls()[c] >= old(
                        self,
                    ).work_calls()[c],
                steps == 0 ==> self.states() == old(self).states() && self.cursor() == old(
                    self,
                ).cursor() && self.work_calls() == old(self).work_calls(),
                steps == 0 && rest ==> next_runnable(old(self).states(), old(self).cursor()) is None,
                next_runnable(old(self).states(), old(self).cursor()) matches Some(b) ==> 0 <= b < old(
                    self,
                ).states().len(),
                steps > 0 ==> (next_runnable(old(self).states(), old(self).cursor()) matches Some(b)
                    && self.work_calls()[b] >= bump(old(self).work_calls()[b])),
                forall|c: int|
                    0 <= c < old(self).states().len() && old(self).states()[c]
                        == BlockState::Finished ==> #[trigger] self.states()[c] == BlockState::Finished
                        && self.work_calls()[c] == old(self).work_calls()[c],
            decreases max_steps - steps, (if rest { 0int } else { 1int }),
        {
            let ghost before = *self;
            let r = self.step();
            proof {
                let first = next_runnable(old(self).states(), old(self).cursor());
                let now = next_runnable(before.states(), before.cursor());
                assert forall|c: int| 0 <= c < old(self).work_calls().len() implies #[trigger] self.work_calls()[c]
                    >= old(self).work_calls()[c] by {
                    assert(before.work_calls()[c] >= old(self).work_calls()[c]);
                    if now is Some {
                        assert(self.work_calls() == before.work_calls().update(
                            now->Some_0,
                            bump(before.work_calls()[now->Some_0]),
                        ));
                    }
                }
                if steps == 0 {
                    assert(first == now);
                } else {
                    let b = first->Some_0;
                    assert(before.work_calls()[b] >= bump(old(self).work_calls()[b]));
                    assert(self.work_calls()[b] >= before.work_calls()[b]) by {
                        if now is Some {
                            assert(self.work_calls() == before.work_calls().update(
                                now->Some_0,
                                bump(before.work_calls()[now->Some_0]),
                            ));
                        }
                    }
                }
                self.topology().lemma_same_graph_trans(&before.topology(), &old(self).topology());
                assert forall|c: int|
                    0 <= c < old(self).states().len() && old(self).states()[c]
                        == BlockState::Finished implies #[trigger] self.states()[c]
                    == BlockState::Finished && self.work_calls()[c] == old(self).work_calls()[c] by {
                    assert(before.states()[c] == BlockState::Finished);
                }
            }
            match r {
                Err(e) => {
                    return Err(e);
                },
                Ok(Step::Quiescent) => {
                    rest = true;
                },
                Ok(Step::Worked { block, wait }) => {
                    match wait {
                        Some(delay) => {
                            let now = self.clock;
                            self.set_clock(now.saturating_add(delay));
                        },
                        None => {},
                    }
                    steps += 1;
                },
            }
        }
        if !rest {
            if self.all_finished() {
                proof {
                    self.lemma_all_closed();
                }
                assert forall|b: int| 0 <= b < self.states().len() implies #[trigger] self.states()[b]
                    != BlockState::Runnable && self.work_calls()[b] >= 1 by {
                    self.lemma_worked(b);
                }
                return Ok(RunEnd::Finished);
            }
            return Ok(RunEnd::StepLimit);
        }
        assert forall|b: int| 0 <= b < self.states().len() implies #[trigger] self.states()[b]
            != BlockState::Runnable && self.work_calls()[b] >= 1 by {
            self.lemma_worked(b);
        }
        if self.all_finished() {
            proof {
                self.lemma_all_closed();
            }
            Ok(RunEnd::Finished)
        } else {
            Ok(RunEnd::Stalled)
        }
    }

    /// Once a block is finished, the consumer of each of its outputs sees
    /// the edge as finished exactly when it has drained it: a host buffer
    /// when the read cursor has reached the write cursor, a custom buffer
    /// when no full chunk waits and none is being drained.
    pub proof fn lemma_downstream_sees_finished(&self, e: int)
        requires
            self.consistent(),
            0 <= e < self.topology().stream_edges().len(),
            self.states()[self.topology().stream_edges()[e].src as int] == BlockState::Finished,
        ensures
            self.topology().channels()[e]@.writer_finished(),
            match self.topology().channels()[e]@.buffer {
                BufferView::Host(s) => self.topology().channels()[e]@.finished() <==> s.read_cursor
                    == s.write_cursor,
                BufferView::Custom { pools, reader, .. } => self.topology().channels()[e]@.finished()
                    <==> pools.pool_full.len() == 0 && reader.current is None,
            },
    {
        assert(self.edge_closed_ok(e));
        assert(self.topology().edge_ok(e));
        let c = self.topology().channels()[e];
        c.lemma_wf();
        match c@.buffer {
            BufferView::Host(s) => {
                lemma_finished_when_drained(s);
            },
            BufferView::Custom { .. } => {},
        }
    }

    /// When every block is finished, every stream edge is closed on both sides.
    pub proof fn lemma_all_closed(&self)
        requires
            self.consistent(),
            forall|b: int|
                0 <= b < self.states().len() ==> #[trigger] self.states()[b] == BlockState::Finished,
        ensures
            forall|e: int|
                0 <= e < self.topology().channels().len() ==> (#[trigger] self.topology().channels()[e])@.writer_finished()
                    && self.topology().channels()[e]@.reader_finished(),
    {
        assert forall|e: int| 0 <= e < self.topology().channels().len() implies (#[trigger] self.topology().channels()[e])@.writer_finished()
            && self.topology().channels()[e]@.reader_finished() by {
            assert(self.edge_closed_ok(e));
            assert(self.topology().edge_ok(e));
        }
    }
}

} // verus!
