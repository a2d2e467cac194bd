//! Infinite impulse response filters over abstract sample arithmetic.

use crate::blocks::fir::dot;
use crate::blocks::fir::fir_count;
use crate::blocks::fir::HasFirImpl;
use crate::runtime::block::Block;
use crate::runtime::block::BlockMeta;
use crate::runtime::block::BlockMetaBuilder;
use crate::runtime::block::Kernel;
use crate::runtime::block::KernelError;
use crate::runtime::block::KernelKind;
use crate::runtime::block::WorkIo;
use crate::runtime::buffer::circular::BufferState;
use crate::runtime::buffer::BufferView;
use crate::runtime::buffer::ChannelView;
use crate::runtime::buffer::d2h::lemma_whole_items;
use crate::runtime::message_io::MessageIo;
use crate::runtime::message_io::MessageIoBuilder;
use crate::runtime::stream_io::StreamIo;
use crate::runtime::stream_io::StreamIoBuilder;
use vstd::prelude::*;

verus! {

/// The computing core of a filter block: it turns input samples into output
/// samples and says how many of each it used.
pub trait IirKernel<SampleType> {
    /// Whether a call of `work` on `input`, with a slice for the results
    /// that holds `before`, may leave the core as `after` and the slice as
    /// `output` and return `counts`. A core that leaves this as it is
    /// promises nothing about what it makes.
    open spec fn yields(
        &self,
        input: Seq<SampleType>,
        before: Seq<SampleType>,
        after: &Self,
        output: Seq<SampleType>,
        counts: (usize, usize),
    ) -> bool {
        true
    }

    /// Filters `input` into the front of `output`. Returns the number of
    /// samples consumed and the number of samples produced.
    fn work(&mut self, input: &[SampleType], output: &mut [SampleType]) -> (r: (usize, usize))
        ensures
            r.0 <= input@.len(),
            r.1 <= old(output)@.len(),
            final(output)@.len() == old(output)@.len(),
            old(self).yields(input@, old(output)@, final(self), final(output)@, r),
    ;
}

/// Read access to the taps of a filter.
pub trait TapsAccessor {
    type TapType;

    /// The taps. An implementation that leaves this as it is says that its
    /// taps are one fixed sequence, whatever it holds.
    open spec fn taps_spec(&self) -> Seq<Self::TapType> {
        arbitrary()
    }

    /// Number of taps.
    fn num_taps(&self) -> (n: usize)
        ensures
            n == self.taps_spec().len(),
    ;

    /// Tap `index`.
    fn get(&self, index: usize) -> (tap: Self::TapType)
        requires
            index < self.taps_spec().len(),
        ensures
            tap == self.taps_spec()[index as int],
    ;

    /// Number of taps.
    fn len(&self) -> (n: usize)
        ensures
            n == self.taps_spec().len(),
    {
        self.num_taps()
    }
}

impl<A: Copy> TapsAccessor for Vec<A> {
    type TapType = A;

    open spec fn taps_spec(&self) -> Seq<A> {
        self@
    }

    fn num_taps(&self) -> (n: usize) {
        self.len()
    }

    fn get(&self, index: usize) -> (tap: A) {
        self[index]
    }
}

impl<A: Copy, const N: usize> TapsAccessor for [A; N] {
    type TapType = A;

    open spec fn taps_spec(&self) -> Seq<A> {
        self@
    }

    fn num_taps(&self) -> (n: usize) {
        N
    }

    fn get(&self, index: usize) -> (tap: A) {
        self[index]
    }
}

/// The memory after the value `head` entered it: `head` is the newest
/// value, and every older place holds the value that was newest before.
pub open spec fn shifted<S>(memory: Seq<S>, head: S) -> Seq<S> {
    Seq::new(
        memory.len(),
        |k: int|
            if k == 0 {
                head
            } else {
                memory[0]
            },
    )
}

/// Output `n` of the filter: the sum of the products of the feed-forward
/// taps `b` with the samples from `n + b.len() - 1` down to `n`, plus the
/// products of the feedback taps `a` with the memory.
pub open spec fn iir_output<S: HasFirImpl>(b: Seq<S>, a: Seq<S>, memory: Seq<S>, input: Seq<S>, n: int) -> S {
    dot(
        dot(S::zero_spec(), input, n + b.len() - 1, -1, b, b.len() as int),
        memory,
        0,
        1,
        a,
        a.len() as int,
    )
}

/// The memory after `n` outputs.
pub open spec fn iir_memory<S: HasFirImpl>(b: Seq<S>, a: Seq<S>, memory: Seq<S>, input: Seq<S>, n: int) -> Seq<
    S,
>
    decreases n,
{
    if n <= 0 {
        memory
    } else {
        let before = iir_memory(b, a, memory, input, n - 1);
        shifted(before, iir_output(b, a, before, input, n - 1))
    }
}

/// The first `n` outputs.
pub open spec fn iir_outputs<S: HasFirImpl>(b: Seq<S>, a: Seq<S>, memory: Seq<S>, input: Seq<S>, n: int) -> Seq<
    S,
> {
    Seq::new(n as nat, |k: int| iir_output(b, a, iir_memory(b, a, memory, input, k), input, k))
}

/// Accumulates onto `acc` the products of `taps` with the samples at
/// `start`, `start - 1`, ...
fn dot_taps_backward<S: HasFirImpl, T: TapsAccessor<TapType = S>>(
    acc: S,
    samples: &[S],
    start: usize,
    taps: &T,
) -> (r: S)
    requires
        taps.taps_spec().len() > 0 ==> taps.taps_spec().len() - 1 <= start < samples@.len(),
    ensures
        r == dot(acc, samples@, start as int, -1, taps.taps_spec(), taps.taps_spec().len() as int),
{
    let n = taps.num_taps();
    let mut sum = acc;
    let mut t: usize = 0;
    while t < n
        invariant
            t <= n,
            n == taps.taps_spec().len(),
            n > 0 ==> n - 1 <= start < samples@.len(),
            sum == dot(acc, samples@, start as int, -1, taps.taps_spec(), t as int),
        decreases n - t,
    {
        sum = S::mul_add(sum, samples[start - t], taps.get(t));
        t += 1;
    }
    sum
}

/// Accumulates onto `acc` the products of `taps` with the first samples.
fn dot_taps_forward<S: HasFirImpl, T: TapsAccessor<TapType = S>>(acc: S, samples: &Vec<S>, taps: &T) -> (r:
    S)
    requires
        taps.taps_spec().len() <= samples@.len(),
    ensures
        r == dot(acc, samples@, 0, 1, taps.taps_spec(), taps.taps_spec().len() as int),
{
    let n = taps.num_taps();
    let mut sum = acc;
    let mut t: usize = 0;
    while t < n
        invariant
            t <= n,
            n == taps.taps_spec().len(),
            n <= samples@.len(),
            sum == dot(acc, samples@, 0, 1, taps.taps_spec(), t as int),
        decreases n - t,
    {
        sum = S::mul_add(sum, samples[t], taps.get(t));
        t += 1;
    }
    sum
}

/// A copy of `samples`.
fn copy_samples<S: Copy>(samples: &Vec<S>) -> (copy: Vec<S>)
    ensures
        copy@ == samples@,
{
    let mut copy: Vec<S> = Vec::new();
    let mut i: usize = 0;
    while i < samples.len()
        invariant
            i <= samples@.len(),
            copy@ == samples@.subrange(0, i as int),
        decreases samples@.len() - i,
    {
        copy.push(samples[i]);
        i += 1;
        assert(copy@ =~= samples@.subrange(0, i as int));
    }
    assert(copy@ =~= samples@);
    copy
}

/// Lets `head` enter `memory`.
fn shift_in<S: Copy>(memory: &mut Vec<S>, head: S)
    ensures
        final(memory)@ == shifted(old(memory)@, head),
{
    let len = memory.len();
    let mut idx: usize = 1;
    while idx < len
        invariant
            1 <= idx,
            len == memory@.len(),
            len == old(memory)@.len(),
            idx <= len || len == 0,
            memory@[0] == old(memory)@[0] || len == 0,
            forall|k: int| 1 <= k < idx && k < len ==> #[trigger] memory@[k] == old(memory)@[0],
        decreases len - idx,
    {
        let previous = memory[idx - 1];
        memory[idx] = previous;
        idx += 1;
    }
    if len > 0 {
        memory[0] = head;
    }
    assert(memory@ =~= shifted(old(memory)@, head));
}

/// A filter with feed-forward taps `b`, feedback taps `a` and a memory of
/// its last outputs.
#[verifier::reject_recursive_types(SampleType)]
pub struct IirKernelCore<SampleType: HasFirImpl, TapsType: TapsAccessor<TapType = SampleType>> {
    a_taps: TapsType,
    b_taps: TapsType,
    memory: Vec<SampleType>,
}

impl<SampleType: HasFirImpl, TapsType: TapsAccessor<TapType = SampleType>> IirKernelCore<
    SampleType,
    TapsType,
> {
    /// The feedback taps.
    pub closed spec fn a(&self) -> Seq<SampleType> {
        self.a_taps.taps_spec()
    }

    /// The feed-forward taps.
    pub closed spec fn b(&self) -> Seq<SampleType> {
        self.b_taps.taps_spec()
    }

    /// The memory, newest value first.
    pub closed spec fn memory(&self) -> Seq<SampleType> {
        self.memory@
    }

    /// Whether a call with `input` only fills the memory: the memory has
    /// not the length of the feedback taps yet and `input` reaches the
    /// sample that enters it.
    pub open spec fn warms_up(&self, input: Seq<SampleType>) -> bool {
        self.memory().len() != self.a().len() && input.len() > self.memory().len()
    }

    /// Whether a call with `input` filters: the memory is as long as the
    /// feedback taps and there is input.
    pub open spec fn filters(&self, input: Seq<SampleType>) -> bool {
        self.memory().len() == self.a().len() && input.len() > 0
    }

    /// A filter has at least one feed-forward tap.
    #[verifier::type_invariant]
    spec fn has_forward_taps(self) -> bool {
        self.b_taps.taps_spec().len() > 0
    }

    /// The filter with the given taps, of which at least one feeds
    /// forward, and an empty memory.
    pub fn new(a_taps: TapsType, b_taps: TapsType) -> (core: Self)
        requires
            b_taps.taps_spec().len() > 0,
        ensures
            core.a() == a_taps.taps_spec(),
            core.b() == b_taps.taps_spec(),
            core.memory() == Seq::<SampleType>::empty(),
    {
        IirKernelCore { a_taps, b_taps, memory: Vec::new() }
    }
}

impl<SampleType: HasFirImpl, TapsType: TapsAccessor<TapType = SampleType>> IirKernel<
    SampleType,
> for IirKernelCore<SampleType, TapsType> {
    open spec fn yields(
        &self,
        input: Seq<SampleType>,
        before: Seq<SampleType>,
        after: &Self,
        output: Seq<SampleType>,
        counts: (usize, usize),
    ) -> bool {
        &&& after.a() == self.a()
        &&& after.b() == self.b()
        &&& !self.warms_up(input) && !self.filters(input) ==> counts == (0usize, 0usize)
            && after.memory() == self.memory() && output == before
        &&& self.warms_up(input) ==> counts == (0usize, 0usize) && after.memory() == shifted(
            self.memory().push(SampleType::zero_spec()),
            input[self.memory().len() as int],
        ) && output == before
        &&& self.filters(input) ==> {
            let n = fir_count(self.b().len() as int, input.len() as int, before.len() as int);
            &&& counts.0 == n
            &&& counts.1 == n
            &&& after.memory() == iir_memory(self.b(), self.a(), self.memory(), input, n)
            &&& output == iir_outputs(self.b(), self.a(), self.memory(), input, n) + before.subrange(
                n,
                before.len() as int,
            )
        }
    }

    /// While the memory is shorter than the feedback taps, a call lets one
    /// more value enter it and consumes nothing. After that, a call makes
    /// one output per full window of the feed-forward taps, as far as
    /// `output` has room, and consumes one sample per output. A call that
    /// can do neither changes nothing.
    fn work(&mut self, input: &[SampleType], output: &mut [SampleType]) -> (r: (usize, usize)) {
        proof {
            use_type_invariant(&*self);
        }
        if input.len() == 0 {
            return (0, 0);
        }
        if self.memory.len() != self.a_taps.num_taps() {
            if input.len() <= self.memory.len() {
                return (0, 0);
            }
            let entering = input[self.memory.len()];
            let mut memory = copy_samples(&self.memory);
            memory.push(SampleType::zero());
            shift_in(&mut memory, entering);
            self.memory = memory;
            return (0, 0);
        }
        let b_len = self.b_taps.len();
        if input.len() < b_len {
            proof {
                assert(output@ =~= iir_outputs(self.b(), self.a(), self.memory(), input@, 0)
                    + output@.subrange(0, output@.len() as int));
            }
            return (0, 0);
        }
        let spare = input.len() - b_len;
        let n = if spare < output.len() {
            spare + 1
        } else {
            output.len()
        };
        assert(input@.len() == input.len());
        let mut memory = copy_samples(&self.memory);
        let mut k: usize = 0;
        while k < n
            invariant
                k <= n,
                n <= output@.len(),
                input@.len() <= usize::MAX,
                n + b_len <= input@.len() + 1,
                b_len > 0,
                b_len == self.b().len(),
                *self == *old(self),
                memory@.len() == self.a().len(),
                output@.len() == old(output)@.len(),
                memory@ == iir_memory(
                    old(self).b(),
                    old(self).a(),
                    old(self).memory(),
                    input@,
                    k as int,
                ),
                forall|j: int|
                    0 <= j < k ==> #[trigger] output@[j] == iir_output(
                        old(self).b(),
                        old(self).a(),
                        iir_memory(old(self).b(), old(self).a(), old(self).memory(), input@, j),
                        input@,
                        j,
                    ),
                forall|j: int| k <= j < output@.len() ==> #[trigger] output@[j] == old(output)@[j],
            decreases n - k,
        {
            let forward = dot_taps_backward(SampleType::zero(), input, k + (b_len - 1), &self.b_taps);
            let value = dot_taps_forward(forward, &memory, &self.a_taps);
            shift_in(&mut memory, value);
            output[k] = value;
            k += 1;
        }
        self.memory = memory;
        proof {
            assert(output@ =~= iir_outputs(
                old(self).b(),
                old(self).a(),
                old(self).memory(),
                input@,
                n as int,
            ) + old(output)@.subrange(n as int, old(output)@.len() as int));
        }
        (n, n)
    }
}

/// Whether `b` is a filter block called `name`: a block whose kernel runs
/// to completion, with one mandatory stream input `in` and one stream
/// output `out`, both for items of `item_size` bytes, no message ports,
/// and not wired yet.
pub open spec fn filter_block(b: Block, name: Seq<char>, item_size: nat) -> bool {
    &&& b.kind_spec() == KernelKind::RunToCompletion
    &&& b.meta_spec().name_spec() == name
    &&& !b.meta_spec().blocking_spec()
    &&& b.sio().unwired()
    &&& b.sio().input_ports().len() == 1
    &&& b.sio().input_ports()[0].name@ == "in"@
    &&& b.sio().input_ports()[0].item_size == item_size
    &&& b.sio().input_ports()[0].mandatory
    &&& b.sio().output_ports().len() == 1
    &&& b.sio().output_ports()[0].name@ == "out"@
    &&& b.sio().output_ports()[0].item_size == item_size
    &&& b.mio().wf()
    &&& b.mio().input_names().len() == 0
    &&& b.mio().output_names().len() == 0
}

/// When a filter block whose producer is done is finished itself.
#[derive(Debug, Clone, Copy, PartialEq, Eq, Structural)]
pub enum FinishRule {
    /// When no further full window of `taps` samples can be formed: the
    /// input holds fewer items than taps, or every window it holds was
    /// turned into an output. Without taps every item counts as a window.
    AllWindows { taps: usize },
    /// When the core consumed nothing.
    NothingConsumed,
}

/// Whether a filter block is finished after a call that found
/// `input_items` items, consumed `consumed` of them and produced
/// `produced`, and after which the producer of its input is done or not.
pub open spec fn finishes(
    rule: FinishRule,
    input_items: nat,
    consumed: nat,
    produced: nat,
    producer_done: bool,
) -> bool {
    producer_done && match rule {
        FinishRule::AllWindows { taps } => input_items < taps || produced == fir_count(
            taps as int,
            input_items as int,
            input_items as int,
        ),
        FinishRule::NothingConsumed => consumed == 0,
    }
}

/// Decides whether a filter block is finished after a call.
pub fn decide_finished(
    rule: FinishRule,
    input_items: usize,
    consumed: usize,
    produced: usize,
    producer_done: bool,
) -> (finished: bool)
    ensures
        finished == finishes(rule, input_items as nat, consumed as nat, produced as nat, producer_done),
{
    producer_done && match rule {
        FinishRule::AllWindows { taps } => input_items < taps || if taps == 0 {
            produced == input_items
        } else {
            produced > 0 && produced - 1 == input_items - taps
        },
        FinishRule::NothingConsumed => consumed == 0,
    }
}

/// `after` is `before` with `n` items of input `port` consumed.
pub open spec fn took(before: &StreamIo, after: &StreamIo, port: int, n: nat) -> bool {
    match before.input_edge(port) {
        Some(e) => after.same_but(before, e) && before.channels()[e]@.consumed_to(
            after.channels()[e]@,
            n,
        ),
        None => *after == *before,
    }
}

/// `after` is `before` with `bytes` staged at the start of the region open
/// for production on output `port` and `n` items committed. An output bound
/// to no edge drops them.
pub open spec fn gave(before: &StreamIo, after: &StreamIo, port: int, bytes: Seq<u8>, n: nat) -> bool {
    match before.output_edge(port) {
        Some(e) => after.same_but(before, e) && before.channels()[e]@.stage(0, bytes).produced_to(
            after.channels()[e]@,
            n,
        ),
        None => *after == *before,
    }
}

/// The kernel of a filter block: on every call it hands the samples its
/// stream input holds to a computing core, once, consumes what the core
/// consumed and commits what the core produced on its stream output.
#[verifier::reject_recursive_types(SampleType)]
pub struct Iir<SampleType: HasFirImpl, Core: IirKernel<SampleType>> {
    core: Core,
    group: usize,
    rule: FinishRule,
    _sampletype: std::marker::PhantomData<SampleType>,
}

impl<SampleType: HasFirImpl + 'static, Core: IirKernel<SampleType> + 'static> Iir<SampleType, Core> {
    /// Bytes per item of `group` samples, capped at the largest `usize`.
    pub open spec fn item_size(group: usize) -> nat {
        if group * SampleType::size_spec() <= usize::MAX {
            (group * SampleType::size_spec()) as nat
        } else {
            usize::MAX as nat
        }
    }

    /// A filter block around `core`, for one sample per item. It is
    /// finished when its producer is done and the core consumed nothing.
    /// Like every filter block made from a core alone it is called `Fir`.
    pub fn new(core: Core) -> (b: Block)
        ensures
            filter_block(b, "Fir"@, Self::item_size(1)),
            exists|k: Self|
                b.holds(k) && k.inner() == core && k.group() == 1 && k.rule()
                    == FinishRule::NothingConsumed,
    {
        Self::new_named("Fir", core, 1, FinishRule::NothingConsumed)
    }

    /// A filter block called `name` around `core`, for items of `group`
    /// samples, finished by `rule`.
    pub fn new_named(name: &str, core: Core, group: usize, rule: FinishRule) -> (b: Block)
        ensures
            filter_block(b, name@, Self::item_size(group)),
            exists|k: Self| b.holds(k) && k.inner() == core && k.group() == group && k.rule() == rule,
    {
        let size = SampleType::size();
        let item_size = match size.checked_mul(group) {
            Some(n) => n,
            None => usize::MAX,
        };
        proof {
            assert(size * group == group * size) by (nonlinear_arith);
        }
        let sio = StreamIoBuilder::new().add_input("in", item_size).add_output("out", item_size).build();
        let mio = MessageIoBuilder::new().build();
        proof {
            assert(sio.input_ports()[0] == sio.input_ports().last());
            assert(sio.output_ports()[0] == sio.output_ports().last());
        }
        let kernel = Iir { core, group, rule, _sampletype: std::marker::PhantomData };
        let b = Block::new_sync(BlockMetaBuilder::new(name).build(), sio, mio, kernel);
        assert(b.holds(kernel) && kernel.inner() == core && kernel.group() == group && kernel.rule()
            == rule);
        b
    }
}

/// `n` copies of the zero sample.
fn zeros<S: HasFirImpl>(n: usize) -> (v: Vec<S>)
    ensures
        v@ == zero_samples::<S>(n as nat),
{
    let mut v: Vec<S> = Vec::new();
    let mut i: usize = 0;
    while i < n
        invariant
            i <= n,
            v@.len() == i,
            forall|j: int| 0 <= j < i ==> #[trigger] v@[j] == S::zero_spec(),
        decreases n - i,
    {
        v.push(S::zero());
        i += 1;
    }
    assert(v@ =~= zero_samples::<S>(n as nat));
    v
}

/// `n` zero samples.
pub open spec fn zero_samples<S: HasFirImpl>(n: nat) -> Seq<S> {
    Seq::new(n, |j: int| S::zero_spec())
}

/// The samples that `count` runs of `size` bytes at the front of `bytes` encode.
pub open spec fn decoded<S: HasFirImpl>(bytes: Seq<u8>, size: int, count: int) -> Seq<S> {
    Seq::new(count as nat, |j: int| S::decode_spec(bytes.subrange(j * size, (j + 1) * size)))
}

/// Decodes `count` samples from the front of `bytes` and appends them to `samples`.
fn decode_into<S: HasFirImpl>(bytes: &[u8], count: usize, samples: &mut Vec<S>)
    requires
        count * S::size_spec() <= bytes@.len(),
    ensures
        final(samples)@ == old(samples)@ + decoded::<S>(bytes@, S::size_spec() as int, count as int),
{
    let size = S::size();
    assert(bytes@.len() == bytes.len());
    let mut j: usize = 0;
    while j < count
        invariant
            j <= count,
            size == S::size_spec(),
            size > 0,
            bytes@.len() <= usize::MAX,
            count * size <= bytes@.len(),
            samples@ == old(samples)@ + decoded::<S>(bytes@, size as int, j as int),
        decreases count - j,
    {
        proof {
            assert((j + 1) * size <= count * size) by (nonlinear_arith)
                requires
                    j + 1 <= count,
                    size > 0,
            ;
            assert((j + 1) * size == j * size + size) by (nonlinear_arith);
            assert(0 <= j * size) by (nonlinear_arith)
                requires
                    0 <= j,
                    size > 0,
            ;
        }
        let piece = vstd::slice::slice_subrange(bytes, j * size, (j + 1) * size);
        samples.push(S::decode(piece));
        j += 1;
        assert(samples@ =~= old(samples)@ + decoded::<S>(bytes@, size as int, j as int));
    }
}

proof fn lemma_times(a: int, b: int, k: int)
    requires
        0 <= a <= b,
        0 <= k,
    ensures
        0 <= a * k <= b * k,
        (a + 1) * k == a * k + k,
{
    assert(0 <= a * k <= b * k) by (nonlinear_arith)
        requires
            0 <= a <= b,
            0 <= k,
    ;
    assert((a + 1) * k == a * k + k) by (nonlinear_arith);
}

/// The bytes that encode the first `count` of `samples`, one after the other.
pub open spec fn encoded<S: HasFirImpl>(samples: Seq<S>, count: int) -> Seq<u8>
    decreases count,
{
    if count <= 0 {
        Seq::empty()
    } else {
        encoded(samples, count - 1) + samples[count - 1].encode_spec()
    }
}

/// The samples that input 0 of `sio` holds, for items of `group` samples.
pub open spec fn input_samples<S: HasFirImpl>(sio: &StreamIo, group: usize) -> Seq<S> {
    decoded::<S>(sio.readable(0), S::size_spec() as int, sio.readable_items(0) * group)
}

/// Whether the producer of input 0 of `sio` will never supply more data.
/// An input bound to no edge has no producer: there is none to wait for.
pub open spec fn producer_done(sio: &StreamIo) -> bool {
    match sio.input_edge(0) {
        Some(e) => sio.channels()[e]@.writer_finished(),
        None => true,
    }
}

/// Places for results a call offers the core, in items: as many as output
/// 0 has room for. An output bound to no edge drops what it is given; the
/// core then gets one place per item of input.
pub open spec fn result_room(sio: &StreamIo) -> nat {
    match sio.output_edge(0) {
        Some(e) => sio.channels()[e]@.space(),
        None => sio.readable_items(0),
    }
}

impl<SampleType: HasFirImpl, Core: IirKernel<SampleType>> Iir<SampleType, Core> {
    /// The computing core.
    pub closed spec fn inner(&self) -> Core {
        self.core
    }

    /// Samples per item.
    pub closed spec fn group(&self) -> usize {
        self.group
    }

    /// When the block is finished.
    pub closed spec fn rule(&self) -> FinishRule {
        self.rule
    }

    /// Decodes every sample that stream input 0 holds. Nothing is consumed;
    /// a custom reader that drains no chunk takes the oldest full chunk.
    fn pull(&self, sio: &mut StreamIo, item_size: usize) -> (input: Vec<SampleType>)
        requires
            old(sio).wf(),
            old(sio).input_ports().len() > 0,
            old(sio).input_ports()[0].item_size == item_size,
            self.group > 0,
            item_size == self.group * SampleType::size_spec(),
        ensures
            final(sio).wf(),
            final(sio).same_shape(old(sio)),
            input@ == input_samples::<SampleType>(old(sio), self.group),
            input@.len() == old(sio).readable_items(0) * self.group,
            match old(sio).input_edge(0) {
                Some(e) => final(sio).same_but(old(sio), e) && final(sio).channels()[e]@ == old(
                    sio,
                ).channels()[e]@.loaded(),
                None => *final(sio) == *old(sio),
            },
    {
        let size = SampleType::size();
        let group = self.group;
        proof {
            assert(group * size > 0) by (nonlinear_arith)
                requires
                    group > 0,
                    size > 0,
            ;
        }
        let ghost before = *sio;
        let bytes = sio.input_slice(0);
        proof {
            lemma_whole_items(bytes@.len() as int, item_size as int);
            vstd::arithmetic::div_mod::lemma_fundamental_div_mod_converse(
                bytes@.len() as int,
                item_size as int,
                before.readable_items(0) as int,
                0,
            );
        }
        let items = bytes.len() / item_size;
        proof {
            assert(items * group * size == items * item_size) by (nonlinear_arith)
                requires
                    item_size == group * size,
            ;
            assert(items * group <= items * item_size) by (nonlinear_arith)
                requires
                    item_size == group * size,
                    size > 0,
                    items >= 0,
                    group > 0,
            ;
        }
        let mut input: Vec<SampleType> = Vec::new();
        decode_into(bytes, items * group, &mut input);
        assert(input@ =~= input_samples::<SampleType>(&before, group));
        input
    }

    /// Encodes the first `items * group` samples of `out` into the region
    /// open for production on stream output 0, from its start, and commits
    /// them as `items` items. On an output bound to no edge the samples are
    /// dropped.
    fn push(&self, sio: &mut StreamIo, out: &Vec<SampleType>, item_size: usize, items: usize)
        requires
            old(sio).wf(),
            old(sio).output_ports().len() > 0,
            old(sio).output_ports()[0].item_size == item_size,
            self.group > 0,
            item_size == self.group * SampleType::size_spec(),
            items * self.group <= out@.len(),
            old(sio).output_edge(0) matches Some(e) ==> items <= old(sio).channels()[e]@.space(),
        ensures
            final(sio).wf(),
            final(sio).same_shape(old(sio)),
            gave(
                old(sio),
                final(sio),
                0,
                encoded::<SampleType>(out@, items * self.group),
                items as nat,
            ),
    {
        let size = SampleType::size();
        let group = self.group;
        let ghost edge = sio.output_edge(0);
        proof {
            sio.lemma_staged_len(0);
            assert(items * group * size == items * item_size) by (nonlinear_arith)
                requires
                    item_size == group * size,
            ;
            match edge {
                Some(e) => {
                    let c = sio.channels()[e]@;
                    lemma_times(items as int, c.space() as int, item_size as int);
                    assert(0 * SampleType::size_spec() == 0) by (nonlinear_arith);
                    match c.buffer {
                        BufferView::Host(b) => {
                            assert(b.staged.subrange(0, 0) =~= encoded::<SampleType>(out@, 0));
                        },
                        BufferView::Custom { .. } => {},
                    }
                    assert(staged_prefix::<SampleType>(c, c, out@, 0));
                },
                None => {},
            }
        }
        assert(out@.len() == out.len());
        let count = items * group;
        let mut j: usize = 0;
        while j < count
            invariant
                j <= count,
                count <= out@.len(),
                count == items * group,
                size == SampleType::size_spec(),
                size > 0,
                old(sio).wf(),
                sio.wf(),
                sio.same_shape(old(sio)),
                sio.output_ports().len() > 0,
                edge == old(sio).output_edge(0),
                sio.output_edge(0) == edge,
                edge is None ==> *sio == *old(sio),
                edge matches Some(e) ==> {
                    &&& sio.same_but(old(sio), e)
                    &&& count * size <= sio.staged_len(0) <= usize::MAX
                    &&& staged_prefix::<SampleType>(
                        old(sio).channels()[e]@,
                        sio.channels()[e]@,
                        out@,
                        j as int,
                    )
                },
            decreases count - j,
        {
            let bytes = out[j].encode();
            proof {
                lemma_times(j as int, (count - 1) as int, size as int);
                lemma_times((count - 1) as int, (count - 1) as int, size as int);
            }
            let ghost before = *sio;
            match j.checked_mul(size) {
                Some(offset) => {
                    sio.write(0, offset, bytes.as_slice());
                    proof {
                        match edge {
                            Some(e) => {
                                assert(sio.channels()[e]@ == before.channels()[e]@.stage(
                                    offset as nat,
                                    bytes@,
                                ));
                                lemma_staged_prefix_grows::<SampleType>(
                                    old(sio).channels()[e]@,
                                    before.channels()[e]@,
                                    out@,
                                    j as int,
                                );
                                assert forall|k: int|
                                    0 <= k < sio.channels().len() && k != e implies #[trigger] sio.channels()[k]
                                    == old(sio).channels()[k] by {
                                    assert(before.channels()[k] == old(sio).channels()[k]);
                                }
                            },
                            None => {},
                        }
                    }
                },
                None => {},
            }
            j += 1;
        }
        let ghost staged = *sio;
        sio.produce(0, items);
        proof {
            match edge {
                Some(e) => {
                    lemma_staged_then_produced::<SampleType>(
                        old(sio).channels()[e]@,
                        staged.channels()[e]@,
                        sio.channels()[e]@,
                        out@,
                        count as int,
                        items as nat,
                    );
                    assert forall|k: int| 0 <= k < sio.channels().len() && k != e implies #[trigger] sio.channels()[k]
                        == old(sio).channels()[k] by {
                        assert(staged.channels()[k] == old(sio).channels()[k]);
                    }
                },
                None => {},
            }
        }
    }

    /// What a successful call of `work` does, with the counts `counts` and
    /// the results `out` that the core gave and `mid`, the ports after the
    /// input was consumed: the core saw every sample of input 0 and
    /// `result_room` places for results, all zero; what it consumed is
    /// consumed and what it produced is committed, in whole items; and the
    /// block is finished as its rule says.
    pub open spec fn worked(
        &self,
        io: &WorkIo,
        sio: &StreamIo,
        counts: (usize, usize),
        out: Seq<SampleType>,
        mid: &StreamIo,
        after: &Self,
        io_after: &WorkIo,
        sio_after: &StreamIo,
    ) -> bool {
        let group = self.group() as int;
        let consumed = (counts.0 as int / group) as nat;
        let produced = (counts.1 as int / group) as nat;
        &&& after.group() == self.group()
        &&& after.rule() == self.rule()
        &&& self.inner().yields(
            input_samples::<SampleType>(sio, self.group()),
            zero_samples::<SampleType>((result_room(sio) * group) as nat),
            &after.inner(),
            out,
            counts,
        )
        &&& took(sio, mid, 0, consumed)
        &&& gave(mid, sio_after, 0, encoded::<SampleType>(out, produced * group), produced)
        &&& *io_after == (WorkIo {
            finished: io.finished || finishes(
                self.rule(),
                sio.readable_items(0),
                consumed,
                produced,
                producer_done(sio_after),
            ),
            ..*io
        })
    }

    /// Whether a call of `work` fails: the block lacks a port, or its ports
    /// do not carry items of `group` samples.
    pub open spec fn misfit(&self, sio: &StreamIo) -> bool {
        ||| sio.input_ports().len() == 0
        ||| sio.output_ports().len() == 0
        ||| self.group() == 0
        ||| self.group() * SampleType::size_spec() > usize::MAX
        ||| sio.input_ports()[0].item_size != self.group() * SampleType::size_spec()
        ||| sio.output_ports()[0].item_size != self.group() * SampleType::size_spec()
    }
}

/// `now` is the edge `start` with the bytes that encode the first `j` of
/// `samples` staged at the front of the region open for production, and
/// whatever else in the rest of it. An edge without such a region is as it was.
spec fn staged_prefix<S: HasFirImpl>(start: ChannelView, now: ChannelView, samples: Seq<S>, j: int) -> bool {
    match start.buffer {
        BufferView::Host(s) => {
            &&& now.notify_reader == start.notify_reader
            &&& now.notify_writer == start.notify_writer
            &&& now.buffer matches BufferView::Host(t)
            &&& t == (BufferState { staged: t.staged, ..s })
            &&& t.staged.len() == s.staged.len()
            &&& encoded(samples, j).len() == j * S::size_spec()
            &&& j * S::size_spec() <= t.staged.len()
            &&& t.staged.subrange(0, j * S::size_spec()) == encoded(samples, j)
        },
        BufferView::Custom { .. } => now == start,
    }
}

/// Staging the encoding of sample `j` behind the first `j` encodings makes
/// the first `j + 1` encodings.
proof fn lemma_staged_prefix_grows<S: HasFirImpl>(
    start: ChannelView,
    before: ChannelView,
    samples: Seq<S>,
    j: int,
)
    requires
        0 <= j < samples.len(),
        staged_prefix(start, before, samples, j),
        samples[j].encode_spec().len() == S::size_spec(),
        (j + 1) * S::size_spec() <= before.staged_len() || !(start.buffer is Host),
    ensures
        staged_prefix(
            start,
            before.stage((j * S::size_spec()) as nat, samples[j].encode_spec()),
            samples,
            j + 1,
        ),
{
    let size = S::size_spec() as int;
    assert((j + 1) * size == j * size + size) by (nonlinear_arith);
    assert(0 <= j * size) by (nonlinear_arith)
        requires
            0 <= j,
            0 <= size,
    ;
    match start.buffer {
        BufferView::Host(s) => {
            let t = before.buffer->Host_0;
            let after = before.stage((j * size) as nat, samples[j].encode_spec());
            let u = after.buffer->Host_0;
            assert(u.staged.len() == t.staged.len());
            assert(u.staged.subrange(0, (j + 1) * size) =~= encoded(samples, j + 1)) by {
                assert(encoded(samples, j + 1) == encoded(samples, j) + samples[j].encode_spec());
                assert(t.staged.subrange(0, j * size) == encoded(samples, j));
                let front = u.staged.subrange(0, (j + 1) * size);
                let whole = encoded(samples, j + 1);
                assert forall|i: int| 0 <= i < front.len() implies #[trigger] front[i] == whole[i] by {
                    if i < j * size {
                        assert(t.staged.subrange(0, j * size)[i] == t.staged[i]);
                    }
                }
            }
        },
        BufferView::Custom { .. } => {},
    }
}

/// Committing `items` items that the first `count` encodings fill is the
/// same as staging these encodings at once and committing them.
proof fn lemma_staged_then_produced<S: HasFirImpl>(
    start: ChannelView,
    staged: ChannelView,
    end: ChannelView,
    samples: Seq<S>,
    count: int,
    items: nat,
)
    requires
        staged_prefix(start, staged, samples, count),
        staged.produced_to(end, items),
        0 <= count,
        count * S::size_spec() == items * start.item_size(),
        start.buffer is Custom ==> items == 0,
    ensures
        start.stage(0, encoded(samples, count)).produced_to(end, items),
{
    match start.buffer {
        BufferView::Host(s) => {
            let t = staged.buffer->Host_0;
            let enc = encoded(samples, count);
            let all = start.stage(0, enc).buffer->Host_0;
            assert(all.staged.subrange(0, (items * s.item_size) as int) =~= enc);
            assert(t.staged.subrange(0, (items * t.item_size) as int) == enc);
        },
        BufferView::Custom { .. } => {},
    }
}

/// Taking the oldest full chunk twice is taking it once.
proof fn lemma_loaded_twice(c: ChannelView)
    ensures
        c.loaded().loaded() == c.loaded(),
        c.loaded().readable_items() == c.readable_items(),
        c.loaded().readable() == c.readable(),
        c.loaded().space() == c.space(),
        forall|next: ChannelView, n: nat| c.loaded().consumed_to(next, n) == c.consumed_to(next, n),
{
}

/// Consuming from an edge leaves at least the room for production it had.
proof fn lemma_consuming_keeps_space(c: ChannelView, next: ChannelView, n: nat)
    requires
        c.consumed_to(next, n),
        c.buffer matches BufferView::Host(s) ==> s.valid() && n <= s.available(),
    ensures
        c.space() <= next.space(),
{
}

impl<SampleType: HasFirImpl, Core: IirKernel<SampleType>> Kernel for Iir<SampleType, Core> {
    /// Nothing to set up.
    fn init(
        &mut self,
        now: u64,
        sio: &mut StreamIo,
        mio: &mut MessageIo,
        meta: &mut BlockMeta,
    ) -> (r: Result<(), KernelError>)
        ensures
            r is Ok,
            *final(self) == *old(self),
            *final(sio) == *old(sio),
            *final(mio) == *old(mio),
    {
        Ok(())
    }

    /// Hands every sample of stream input 0 to the core, once, together
    /// with as many places for results as stream output 0 has room for,
    /// or one per item of input where the output is bound to no edge;
    /// consumes the items the core consumed and commits the items it
    /// produced; and marks the block finished as its rule says, by what it
    /// sees of the producer after that. Without both ports, or with ports
    /// whose item size is not that of `group` samples, the call fails and
    /// changes nothing.
    fn work(
        &mut self,
        io: &mut WorkIo,
        sio: &mut StreamIo,
        mio: &mut MessageIo,
        meta: &mut BlockMeta,
    ) -> (r: Result<(), KernelError>)
        ensures
            *final(mio) == *old(mio),
            r is Err <==> old(self).misfit(old(sio)),
            r is Err ==> *final(self) == *old(self) && *final(sio) == *old(sio) && *final(io) == *old(
                io,
            ),
            r is Ok ==> exists|counts: (usize, usize), out: Seq<SampleType>, mid: StreamIo|
                old(self).worked(old(io), old(sio), counts, out, &mid, final(self), final(io), final(sio)),
    {
        let size = SampleType::size();
        let group = self.group;
        if sio.inputs() == 0 || sio.outputs() == 0 || group == 0 {
            return Err(KernelError { message: "a filter needs one input and one output".to_owned() });
        }
        proof {
            assert(size * group == group * size) by (nonlinear_arith);
        }
        let item_size = match size.checked_mul(group) {
            Some(n) => n,
            None => {
                return Err(KernelError { message: "the items of a filter are too large".to_owned() });
            },
        };
        if sio.input(0).item_size != item_size || sio.output(0).item_size != item_size {
            return Err(
                KernelError { message: "the ports of a filter carry items of another size".to_owned() },
            );
        }
        let input = self.pull(sio, item_size);
        let ghost loaded = *sio;
        proof {
            match old(sio).input_edge(0) {
                Some(e) => {
                    lemma_loaded_twice(old(sio).channels()[e]@);
                },
                None => {},
            }
            match old(sio).output_edge(0) {
                Some(e) => {
                    lemma_loaded_twice(old(sio).channels()[e]@);
                },
                None => {},
            }
            lemma_whole_items(input@.len() as int, group as int);
            vstd::arithmetic::div_mod::lemma_fundamental_div_mod_converse(
                input@.len() as int,
                group as int,
                old(sio).readable_items(0) as int,
                0,
            );
        }
        let items = input.len() / group;
        let room = if sio.reach() > 0 && sio.output(0).edge.is_some() {
            sio.output_space(0)
        } else {
            items
        };
        proof {
            assert(room == result_room(old(sio)));
            assert(input@.len() == input.len());
            sio.lemma_staged_len(0);
            if sio.output_edge(0) is Some {
                assert(room * group <= room * item_size) by (nonlinear_arith)
                    requires
                        item_size == group * size,
                        size > 0,
                        room >= 0,
                        group > 0,
                ;
            } else {
                assert(room * group == input@.len());
            }
        }
        let mut out: Vec<SampleType> = zeros(room * group);
        let ghost core_before = self.core;
        let counts = self.core.work(input.as_slice(), out.as_mut_slice());
        proof {
            lemma_whole_items(counts.0 as int, group as int);
            lemma_whole_items(counts.1 as int, group as int);
        }
        let consumed = counts.0 / group;
        let produced = counts.1 / group;
        proof {
            assert(consumed <= items) by (nonlinear_arith)
                requires
                    consumed * group <= counts.0,
                    counts.0 <= items * group,
                    group > 0,
            ;
            assert(produced <= room) by (nonlinear_arith)
                requires
                    produced * group <= counts.1,
                    counts.1 <= room * group,
                    group > 0,
            ;
            assert(loaded.readable_items(0) == old(sio).readable_items(0));
        }
        sio.consume(0, consumed);
        let ghost mid = *sio;
        proof {
            match old(sio).input_edge(0) {
                Some(e) => {
                    assert forall|j: int| 0 <= j < mid.channels().len() && j != e implies #[trigger] mid.channels()[j]
                        == old(sio).channels()[j] by {
                        assert(loaded.channels()[j] == old(sio).channels()[j]);
                    }
                    assert(took(old(sio), &mid, 0, consumed as nat));
                    old(sio).channels()[e].lemma_wf();
                    loaded.channels()[e].lemma_wf();
                    lemma_consuming_keeps_space(
                        loaded.channels()[e]@,
                        mid.channels()[e]@,
                        consumed as nat,
                    );
                },
                None => {},
            }
            assert(mid.output_edge(0) matches Some(e) ==> produced <= mid.channels()[e]@.space());
            assert(produced * group <= counts.1) by (nonlinear_arith)
                requires
                    produced * group <= counts.1,
            ;
        }
        self.push(sio, &out, item_size, produced);
        let done = sio.input_done(0);
        if decide_finished(self.rule, items, consumed, produced, done) {
            io.finished = true;
        }
        proof {
            assert(old(self).worked(old(io), old(sio), counts, out@, &mid, self, io, sio));
        }
        Ok(())
    }
}

/// Builder of filter blocks from taps.
pub struct IirBuilder {}

impl IirBuilder {
    /// A filter block with the feedback taps `a_taps` and the feed-forward
    /// taps `b_taps`, of which there is at least one, for one sample per
    /// item. Its kernel is `Iir` around `IirKernelCore::new(a_taps,
    /// b_taps)`. `zero` only names the sample type.
    pub fn new<SampleType, Taps>(a_taps: Taps, b_taps: Taps, zero: SampleType) -> (b: Block) where
        SampleType: HasFirImpl + 'static,
        Taps: TapsAccessor<TapType = SampleType> + 'static,

        requires
            b_taps.taps_spec().len() > 0,
        ensures
            filter_block(b, "Fir"@, Iir::<SampleType, IirKernelCore<SampleType, Taps>>::item_size(1)),
            exists|k: Iir<SampleType, IirKernelCore<SampleType, Taps>>|
                b.holds(k) && k.group() == 1 && k.rule() == FinishRule::NothingConsumed
                    && k.inner().a() == a_taps.taps_spec() && k.inner().b() == b_taps.taps_spec()
                    && k.inner().memory() == Seq::<SampleType>::empty(),
    {
        Iir::new(IirKernelCore::new(a_taps, b_taps))
    }
}

} // verus!
