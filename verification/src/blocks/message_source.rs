//! A block that posts the same message at a fixed interval.

use crate::runtime::block::Block;
use crate::runtime::block::BlockMeta;
use crate::runtime::block::BlockMetaBuilder;
use crate::runtime::block::Kernel;
use crate::runtime::block::KernelError;
use crate::runtime::block::KernelKind;
use crate::runtime::block::WorkIo;
use crate::runtime::message_io::MessageIo;
use crate::runtime::message_io::MessageIoBuilder;
use crate::runtime::pmt::Pmt;
use crate::runtime::pmt::PmtValue;
use crate::runtime::stream_io::StreamIo;
use crate::runtime::stream_io::StreamIoBuilder;
use vstd::prelude::*;

verus! {

/// What a message source decides when it is called at some time.
#[derive(Debug, Clone, Copy, PartialEq, Eq, Structural)]
pub struct Tick {
    /// Post the message now.
    pub post: bool,
    /// This was the last message: the source is finished.
    pub finished: bool,
    /// Nanoseconds to wait before the next call.
    pub sleep: u64,
}

/// Abstract state of a message source.
pub struct SourceState {
    /// The value of the message.
    pub message: PmtValue,
    /// Nanoseconds between two messages.
    pub interval: u64,
    /// Time of the last message or, before the first, of the start.
    pub t_last: u64,
    /// Messages still to be posted; none for a source that never ends.
    pub n_messages: Option<usize>,
}

impl SourceState {
    /// Whether a full interval has passed at time `now`.
    pub open spec fn due(self, now: u64) -> bool {
        now >= self.t_last + self.interval
    }

    /// Whether a message is due at time `now` although none is left to
    /// post. Such a call fails.
    pub open spec fn overdrawn(self, now: u64) -> bool {
        self.due(now) && self.n_messages == Some(0usize)
    }

    /// The state after a call at time `now`: a due message is counted and
    /// the interval starts anew; otherwise nothing changes.
    pub open spec fn after(self, now: u64) -> SourceState {
        if self.due(now) && !self.overdrawn(now) {
            SourceState {
                t_last: now,
                n_messages: match self.n_messages {
                    Some(n) => Some((n - 1) as usize),
                    None => None,
                },
                ..self
            }
        } else {
            self
        }
    }

    /// What a call at time `now` decides. The message is posted when it is
    /// due; it was the last when the count reaches zero. The wait ends one
    /// interval after the last message; it is capped at the largest `u64`.
    pub open spec fn decide(self, now: u64) -> Tick {
        let next = self.after(now);
        let wake = next.t_last + self.interval;
        Tick {
            post: self.due(now),
            finished: self.due(now) && next.n_messages == Some(0usize),
            sleep: if wake <= now {
                0
            } else if wake - now > u64::MAX {
                u64::MAX
            } else {
                (wake - now) as u64
            },
        }
    }
}

/// Kernel that posts one message per interval on its message output `out`,
/// for ever or a given number of times.
pub struct MessageSource {
    message: Pmt,
    interval: u64,
    t_last: u64,
    n_messages: Option<usize>,
}

impl MessageSource {
    /// The abstract state of the source.
    pub closed spec fn view(&self) -> SourceState {
        SourceState {
            message: self.message@,
            interval: self.interval,
            t_last: self.t_last,
            n_messages: self.n_messages,
        }
    }

    /// A block that posts `message` every `interval` nanoseconds on its
    /// message output `out`: `n_messages` times, or for ever if that is
    /// `None`. The block has no stream ports and its kernel, which may ask
    /// to be resumed, is `MessageSource::kernel` of the same arguments.
    pub fn new(message: Pmt, interval: u64, n_messages: Option<usize>) -> (b: Block)
        ensures
            b.kind_spec() == KernelKind::Suspendable,
            b.meta_spec().name_spec() == "MessageSource"@,
            !b.meta_spec().blocking_spec(),
            b.sio().unwired(),
            b.sio().input_ports().len() == 0,
            b.sio().output_ports().len() == 0,
            b.mio().wf(),
            b.mio().input_names().len() == 0,
            b.mio().output_names().len() == 1,
            b.mio().output_names()[0]@ == "out"@,
            b.mio().outbox(0).len() == 0,
            exists|k: MessageSource|
                b.holds(k) && k@ == (SourceState {
                    message: message@,
                    interval,
                    t_last: 0,
                    n_messages,
                }),
    {
        let mio = MessageIoBuilder::new().add_output("out").build();
        assert(mio.output_names()[0] == mio.output_names().last());
        let kernel = MessageSource::kernel(message, interval, n_messages);
        let b = Block::new_async(
            BlockMetaBuilder::new("MessageSource").build(),
            StreamIoBuilder::new().build(),
            mio,
            kernel,
        );
        assert(b.holds(kernel));
        b
    }

    /// The kernel of such a block. Until `init` the interval counts from
    /// time 0.
    pub fn kernel(message: Pmt, interval: u64, n_messages: Option<usize>) -> (k: MessageSource)
        ensures
            k@ == (SourceState { message: message@, interval, t_last: 0, n_messages }),
    {
        MessageSource { message, interval, t_last: 0, n_messages }
    }

    /// Decides what a call at time `now` does and moves to the state after
    /// it. A call at which a message is due although none is left is not
    /// made.
    pub fn tick(&mut self, now: u64) -> (t: Tick)
        requires
            !old(self)@.overdrawn(now),
        ensures
            t == old(self)@.decide(now),
            final(self)@ == old(self)@.after(now),
    {
        let due = now >= self.t_last && now - self.t_last >= self.interval;
        if due {
            self.t_last = now;
            let finished = match self.n_messages {
                Some(n) => {
                    self.n_messages = Some(n - 1);
                    n - 1 == 0
                },
                None => false,
            };
            Tick { post: true, finished, sleep: self.interval }
        } else {
            let sleep = if now >= self.t_last {
                self.interval - (now - self.t_last)
            } else {
                match (self.t_last - now).checked_add(self.interval) {
                    Some(wait) => wait,
                    None => u64::MAX,
                }
            };
            Tick { post: false, finished: false, sleep }
        }
    }

    /// Whether a call at time `now` would find a message due although none
    /// is left to post.
    pub fn overdrawn(&self, now: u64) -> (b: bool)
        ensures
            b == self@.overdrawn(now),
    {
        let due = now >= self.t_last && now - self.t_last >= self.interval;
        due && match self.n_messages {
            Some(n) => n == 0,
            None => false,
        }
    }
}

impl Kernel for MessageSource {
    /// Starts the interval at time `now`.
    fn init(
        &mut self,
        now: u64,
        sio: &mut StreamIo,
        mio: &mut MessageIo,
        meta: &mut BlockMeta,
    ) -> (r: Result<(), KernelError>)
        ensures
            r is Ok,
            final(self)@ == (SourceState { t_last: now, ..old(self)@ }),
            *final(sio) == *old(sio),
            *final(mio) == *old(mio),
    {
        self.t_last = now;
        Ok(())
    }

    /// Posts the message on output 0 if it is due at time `io.now`, marks
    /// the block finished after the last message, and asks to be called
    /// again when the next message is due. A call before the message is due
    /// changes nothing but the wait it asks for. Without a message output,
    /// or when a message is due although none is left, the call fails and
    /// changes nothing.
    fn work(
        &mut self,
        io: &mut WorkIo,
        sio: &mut StreamIo,
        mio: &mut MessageIo,
        meta: &mut BlockMeta,
    ) -> (r: Result<(), KernelError>)
        ensures
            *final(sio) == *old(sio),
            r is Ok <==> old(mio).output_names().len() > 0 && !old(self)@.overdrawn(old(io).now),
            r is Err ==> *final(self) == *old(self) && *final(mio) == *old(mio) && *final(io) == *old(
                io,
            ),
            r is Ok ==> {
                let tick = old(self)@.decide(old(io).now);
                &&& final(self)@ == old(self)@.after(old(io).now)
                &&& *final(io) == (WorkIo {
                    finished: old(io).finished || tick.finished,
                    block_on: Some(tick.sleep),
                    ..*old(io)
                })
                &&& final(mio).same_mailboxes_but(old(mio), -1)
                &&& final(mio).same_outboxes_but(old(mio), 0)
                &&& !tick.post ==> final(mio).outbox(0) == old(mio).outbox(0)
                &&& tick.post ==> final(mio).outbox(0).len() == old(mio).outbox(0).len() + 1
                    && final(mio).outbox(0).drop_last() == old(mio).outbox(0) && final(mio).outbox(
                    0,
                ).last()@ == old(self)@.message
            },
    {
        if mio.outputs() == 0 {
            return Err(KernelError { message: "MessageSource has no message output".to_owned() });
        }
        if self.overdrawn(io.now) {
            return Err(
                KernelError { message: "MessageSource has no message left to post".to_owned() },
            );
        }
        let tick = self.tick(io.now);
        if tick.post {
            mio.post(0, self.message.duplicate());
            assert(mio.outbox(0).drop_last() =~= old(mio).outbox(0));
        }
        if tick.finished {
            io.finished = true;
        }
        io.block_on(tick.sleep);
        Ok(())
    }
}

/// Builder of message sources.
pub struct MessageSourceBuilder {
    message: Pmt,
    duration: u64,
    n_messages: Option<usize>,
}

impl MessageSourceBuilder {
    /// The value of the message the source will post.
    pub closed spec fn message(&self) -> PmtValue {
        self.message@
    }

    /// Nanoseconds between two messages.
    pub closed spec fn duration(&self) -> u64 {
        self.duration
    }

    /// Number of messages the source will post; none for a source that
    /// never ends.
    pub closed spec fn count(&self) -> Option<usize> {
        self.n_messages
    }

    /// A builder of a source that posts `message` every `duration`
    /// nanoseconds and never ends.
    pub fn new(message: Pmt, duration: u64) -> (b: MessageSourceBuilder)
        ensures
            b.message() == message@,
            b.duration() == duration,
            b.count().is_none(),
    {
        MessageSourceBuilder { message, duration, n_messages: None }
    }

    /// Lets the source end after `n` messages.
    #[must_use]
    pub fn n_messages(self, n: usize) -> (b: MessageSourceBuilder)
        ensures
            b.message() == self.message(),
            b.duration() == self.duration(),
            b.count() == Some(n),
    {
        let mut b = self;
        b.n_messages = Some(n);
        b
    }

    /// The kernel the builder describes.
    pub fn build_kernel(self) -> (k: MessageSource)
        ensures
            k@ == (SourceState {
                message: self.message(),
                interval: self.duration(),
                t_last: 0,
                n_messages: self.count(),
            }),
    {
        MessageSource::kernel(self.message, self.duration, self.n_messages)
    }

    /// The block: the kernel the builder describes, with one message
    /// output `out` and no stream ports.
    pub fn build(self) -> (b: Block)
        ensures
            b.kind_spec() == KernelKind::Suspendable,
            b.meta_spec().name_spec() == "MessageSource"@,
            !b.meta_spec().blocking_spec(),
            b.sio().unwired(),
            b.sio().input_ports().len() == 0,
            b.sio().output_ports().len() == 0,
            b.mio().wf(),
            b.mio().input_names().len() == 0,
            b.mio().output_names().len() == 1,
            b.mio().output_names()[0]@ == "out"@,
            b.mio().outbox(0).len() == 0,
            exists|k: MessageSource|
                b.holds(k) && k@ == (SourceState {
                    message: self.message(),
                    interval: self.duration(),
                    t_last: 0,
                    n_messages: self.count(),
                }),
    {
        MessageSource::new(self.message, self.duration, self.n_messages)
    }
}

} // verus!
