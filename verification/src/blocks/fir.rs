//! Finite impulse response filters over abstract sample arithmetic.

use crate::blocks::iir::filter_block;
use crate::blocks::iir::producer_done;
use crate::blocks::iir::result_room;
use crate::blocks::iir::FinishRule;
use crate::blocks::iir::Iir;
use crate::blocks::iir::IirKernel;
use crate::runtime::block::Block;
use crate::runtime::block::WorkIo;
use crate::runtime::stream_io::StreamIo;
use vstd::bytes::spec_u32_from_le_bytes;
use vstd::bytes::spec_u32_to_le_bytes;
use vstd::bytes::u32_from_le_bytes;
use vstd::bytes::u32_to_le_bytes;
use vstd::math::min;
use vstd::prelude::*;

verus! {

/// A sample type filters can compute with: it has a zero, a fused
/// multiply-and-add, and a fixed-size byte encoding.
///
/// The specification functions say what the operations of an implementation
/// compute. An implementation that leaves them as they are says that its
/// zero is one fixed value of the type and that each operation gives one
/// fixed value of its result type, whatever its arguments.
pub trait HasFirImpl: Copy {
    /// The value an empty sum has.
    open spec fn zero_spec() -> Self {
        arbitrary()
    }

    /// `acc + sample * tap`.
    open spec fn mul_add_spec(acc: Self, sample: Self, tap: Self) -> Self {
        arbitrary()
    }

    /// Bytes per sample.
    open spec fn size_spec() -> nat {
        arbitrary()
    }

    /// The sample a run of `size_spec()` bytes encodes.
    open spec fn decode_spec(bytes: Seq<u8>) -> Self {
        arbitrary()
    }

    /// The bytes that encode the sample.
    open spec fn encode_spec(self) -> Seq<u8> {
        arbitrary()
    }

    /// The value an empty sum has.
    fn zero() -> (z: Self)
        ensures
            z == Self::zero_spec(),
    ;

    /// `acc + sample * tap`.
    fn mul_add(acc: Self, sample: Self, tap: Self) -> (r: Self)
        ensures
            r == Self::mul_add_spec(acc, sample, tap),
    ;

    /// Bytes per sample: at least one.
    fn size() -> (n: usize)
        ensures
            n == Self::size_spec(),
            n > 0,
    ;

    /// Decodes one sample.
    fn decode(bytes: &[u8]) -> (r: Self)
        requires
            bytes@.len() == Self::size_spec(),
        ensures
            r == Self::decode_spec(bytes@),
    ;

    /// Encodes the sample.
    fn encode(self) -> (bytes: Vec<u8>)
        ensures
            bytes@ == self.encode_spec(),
            bytes@.len() == Self::size_spec(),
    ;
}

/// 32-bit samples with wrapping arithmetic, encoded little-endian.
impl HasFirImpl for u32 {
    open spec fn zero_spec() -> u32 {
        0u32
    }

    open spec fn mul_add_spec(acc: u32, sample: u32, tap: u32) -> u32 {
        acc.wrapping_add(sample.wrapping_mul(tap))
    }

    open spec fn size_spec() -> nat {
        4
    }

    open spec fn decode_spec(bytes: Seq<u8>) -> u32 {
        spec_u32_from_le_bytes(bytes)
    }

    open spec fn encode_spec(self) -> Seq<u8> {
        spec_u32_to_le_bytes(self)
    }

    fn zero() -> (z: u32) {
        0u32
    }

    fn mul_add(acc: u32, sample: u32, tap: u32) -> (r: u32) {
        acc.wrapping_add(sample.wrapping_mul(tap))
    }

    fn size() -> (n: usize) {
        4
    }

    fn decode(bytes: &[u8]) -> (r: u32) {
        u32_from_le_bytes(bytes)
    }

    fn encode(self) -> (bytes: Vec<u8>) {
        u32_to_le_bytes(self)
    }
}

/// `acc` plus the products of the first `n` taps with the samples at
/// `start`, `start + stride`, `start + 2 * stride`, ..., added in this order.
pub open spec fn dot<A: HasFirImpl>(
    acc: A,
    samples: Seq<A>,
    start: int,
    stride: int,
    taps: Seq<A>,
    n: int,
) -> A
    decreases n,
{
    if n <= 0 {
        acc
    } else {
        A::mul_add_spec(
            dot(acc, samples, start, stride, taps, n - 1),
            samples[start + (n - 1) * stride],
            taps[n - 1],
        )
    }
}

/// Accumulates onto `acc` the products of `taps` with the samples at
/// `start`, `start + stride`, ...
pub fn dot_forward<A: HasFirImpl>(acc: A, samples: &[A], start: usize, stride: usize, taps: &[A]) -> (r:
    A)
    requires
        taps@.len() > 0 ==> start + (taps@.len() - 1) * stride < samples@.len(),
    ensures
        r == dot(acc, samples@, start as int, stride as int, taps@, taps@.len() as int),
{
    let mut sum = acc;
    let mut t: usize = 0;
    assert(samples@.len() == samples.len());
    while t < taps.len()
        invariant
            t <= taps@.len(),
            samples@.len() <= usize::MAX,
            taps@.len() > 0 ==> start + (taps@.len() - 1) * stride < samples@.len(),
            sum == dot(acc, samples@, start as int, stride as int, taps@, t as int),
        decreases taps@.len() - t,
    {
        proof {
            assert(0 <= t * stride <= (taps@.len() - 1) * stride) by (nonlinear_arith)
                requires
                    0 <= t <= taps@.len() - 1,
                    0 <= stride,
            ;
        }
        let index = start + t * stride;
        sum = A::mul_add(sum, samples[index], taps[t]);
        t += 1;
    }
    sum
}

/// Accumulates onto `acc` the products of `taps` with the samples at
/// `start`, `start - 1`, ...
pub fn dot_backward<A: HasFirImpl>(acc: A, samples: &[A], start: usize, taps: &[A]) -> (r: A)
    requires
        taps@.len() > 0 ==> taps@.len() - 1 <= start < samples@.len(),
    ensures
        r == dot(acc, samples@, start as int, -1, taps@, taps@.len() as int),
{
    let mut sum = acc;
    let mut t: usize = 0;
    while t < taps.len()
        invariant
            t <= taps@.len(),
            taps@.len() > 0 ==> taps@.len() - 1 <= start < samples@.len(),
            sum == dot(acc, samples@, start as int, -1, taps@, t as int),
        decreases taps@.len() - t,
    {
        sum = A::mul_add(sum, samples[start - t], taps[t]);
        t += 1;
    }
    sum
}

/// Number of outputs a filter with `n_taps` taps makes from `input_len`
/// samples when there is room for `output_len`: one per full window, and
/// never more than there are samples. The second bound tells only for a
/// filter without taps, whose windows are empty: it makes one output per
/// sample.
pub open spec fn fir_count(n_taps: int, input_len: int, output_len: int) -> int {
    if input_len >= n_taps {
        min(min(input_len + 1 - n_taps, output_len), input_len)
    } else {
        0
    }
}

/// The first `n` outputs of the filter `taps` on `input`: output `k` is the
/// sum of the products of the taps with the samples from `k` on.
pub open spec fn fir_outputs<A: HasFirImpl>(taps: Seq<A>, input: Seq<A>, n: int) -> Seq<A> {
    Seq::new(n as nat, |k: int| dot(A::zero_spec(), input, k, 1, taps, taps.len() as int))
}

/// The first `n` outputs of the filter `taps` on `input`, which holds
/// complex samples as pairs of a real and an imaginary part. The taps are
/// real: each part is filtered by itself. The result holds `n` pairs.
pub open spec fn complex_fir_outputs<A: HasFirImpl>(taps: Seq<A>, input: Seq<A>, n: int) -> Seq<A> {
    Seq::new(
        (2 * n) as nat,
        |j: int| dot(A::zero_spec(), input, 2 * (j / 2) + j % 2, 2, taps, taps.len() as int),
    )
}

/// A finite impulse response filter for real samples.
pub struct Fir<A: HasFirImpl> {
    taps: Vec<A>,
}

impl<A: HasFirImpl> Fir<A> {
    /// The taps.
    pub closed spec fn taps(&self) -> Seq<A> {
        self.taps@
    }

    /// The filter with the taps `taps`.
    pub fn kernel(taps: &[A]) -> (f: Fir<A>)
        ensures
            f.taps() == taps@,
    {
        Fir { taps: vstd::slice::slice_to_vec(taps) }
    }

    /// A block that filters real samples with the taps `taps`: it has one
    /// stream input `in` and one stream output `out`, both for samples of
    /// type `A`, and no message ports. Its kernel is `Iir` around
    /// `Fir::kernel(taps)`; once its producer is done it is finished when
    /// no further window of the taps can be formed.
    pub fn new(taps: &[A]) -> (b: Block)
        where A: 'static
        ensures
            filter_block(b, "Fir"@, Iir::<A, Fir<A>>::item_size(1)),
            exists|k: Iir<A, Fir<A>>|
                b.holds(k) && k.inner().taps() == taps@ && k.group() == 1 && k.rule()
                    == (FinishRule::AllWindows { taps: taps@.len() as usize }),
    {
        Iir::new_named("Fir", Fir::kernel(taps), 1, FinishRule::AllWindows { taps: taps.len() })
    }

    /// Filters `input` into `output`: as many outputs as there are full
    /// windows in `input` and places in `output`, and never more than there
    /// are samples. The rest of `output` is left as it is. The result is
    /// the number of outputs, which is also the number of samples that are
    /// done with.
    pub fn filter(&self, input: &[A], output: &mut [A]) -> (n: usize)
        ensures
            n == fir_count(self.taps().len() as int, input@.len() as int, old(output)@.len() as int),
            final(output)@.len() == old(output)@.len(),
            final(output)@ == fir_outputs(self.taps(), input@, n as int) + old(output)@.subrange(
                n as int,
                old(output)@.len() as int,
            ),
    {
        let n_taps = self.taps.len();
        if input.len() < n_taps {
            assert(output@ =~= fir_outputs(self.taps(), input@, 0) + output@.subrange(
                0,
                output@.len() as int,
            ));
            return 0;
        }
        let spare = input.len() - n_taps;
        let windows = if spare < input.len() {
            spare + 1
        } else {
            input.len()
        };
        let n = if windows < output.len() {
            windows
        } else {
            output.len()
        };
        let mut k: usize = 0;
        while k < n
            invariant
                k <= n,
                n <= output@.len(),
                n <= input@.len(),
                n + n_taps <= input@.len() + 1,
                n_taps == self.taps@.len(),
                output@.len() == old(output)@.len(),
                forall|j: int|
                    0 <= j < k ==> #[trigger] output@[j] == dot(
                        A::zero_spec(),
                        input@,
                        j,
                        1,
                        self.taps@,
                        n_taps as int,
                    ),
                forall|j: int| k <= j < output@.len() ==> #[trigger] output@[j] == old(output)@[j],
            decreases n - k,
        {
            proof {
                assert((n_taps - 1) * 1 == n_taps - 1);
            }
            let sum = dot_forward(A::zero(), input, k, 1, self.taps.as_slice());
            output[k] = sum;
            k += 1;
        }
        assert(output@ =~= fir_outputs(self.taps(), input@, n as int) + old(output)@.subrange(
            n as int,
            old(output)@.len() as int,
        ));
        n
    }
}

impl<A: HasFirImpl> IirKernel<A> for Fir<A> {
    open spec fn yields(
        &self,
        input: Seq<A>,
        before: Seq<A>,
        after: &Self,
        output: Seq<A>,
        counts: (usize, usize),
    ) -> bool {
        &&& after.taps() == self.taps()
        &&& counts.1 == fir_count(self.taps().len() as int, input.len() as int, before.len() as int)
        &&& counts.0 == counts.1
        &&& output == fir_outputs(self.taps(), input, counts.1 as int) + before.subrange(
            counts.1 as int,
            before.len() as int,
        )
    }

    /// Filters as `filter` does. Every output uses up one sample.
    fn work(&mut self, input: &[A], output: &mut [A]) -> (r: (usize, usize)) {
        let n = self.filter(input, output);
        (n, n)
    }
}

/// A block made by `Fir::new` turns every full window of its input into an
/// output as far as its output has room, consumes one item per output, and
/// never takes `finished` back. It sets `finished` exactly when, after the
/// call, its producer is done and what is left of the input holds no full
/// window: the input held fewer items than there are taps, or every window
/// it held was turned into an output.
pub proof fn lemma_fir_block_finishes<A: HasFirImpl>(
    kernel: Iir<A, Fir<A>>,
    io: WorkIo,
    sio: StreamIo,
    counts: (usize, usize),
    out: Seq<A>,
    mid: StreamIo,
    after: Iir<A, Fir<A>>,
    io_after: WorkIo,
    sio_after: StreamIo,
)
    requires
        kernel.group() == 1,
        kernel.rule() matches FinishRule::AllWindows { taps } && taps == kernel.inner().taps().len(),
        kernel.worked(&io, &sio, counts, out, &mid, &after, &io_after, &sio_after),
    ensures
        counts.0 == counts.1,
        counts.1 == fir_count(
            kernel.inner().taps().len() as int,
            sio.readable_items(0) as int,
            result_room(&sio) as int,
        ),
        after.inner().taps() == kernel.inner().taps(),
        io_after.finished == (io.finished || (producer_done(&sio_after) && fir_count(
            kernel.inner().taps().len() as int,
            sio.readable_items(0) - counts.0,
            1,
        ) == 0)),
        kernel.inner().taps().len() >= 1 ==> io_after.finished == (io.finished || (producer_done(
            &sio_after,
        ) && (sio.readable_items(0) < kernel.inner().taps().len() || counts.1 == sio.readable_items(0)
            + 1 - kernel.inner().taps().len()))),
{
    assert(sio.readable_items(0) * 1 == sio.readable_items(0));
    assert(result_room(&sio) * 1 == result_room(&sio));
}

/// A finite impulse response filter with real taps for complex samples,
/// which travel as pairs of a real and an imaginary part.
pub struct ComplexFir<A: HasFirImpl> {
    taps: Vec<A>,
    decimation: usize,
    offset: usize,
}

impl<A: HasFirImpl> ComplexFir<A> {
    /// The taps.
    pub closed spec fn taps(&self) -> Seq<A> {
        self.taps@
    }

    /// The decimation the filter was made with. It is recorded only: every
    /// window yields an output.
    pub closed spec fn decimation(&self) -> usize {
        self.decimation
    }

    /// Windows passed over since the last output. It is recorded only, and
    /// stays as the filter was made with it: zero.
    pub closed spec fn offset(&self) -> usize {
        self.offset
    }

    /// The filter with the taps `taps`, the decimation `decimation` and the
    /// offset zero.
    pub fn kernel(taps: &[A], decimation: usize) -> (f: ComplexFir<A>)
        ensures
            f.taps() == taps@,
            f.decimation() == decimation,
            f.offset() == 0,
    {
        ComplexFir { taps: vstd::slice::slice_to_vec(taps), decimation, offset: 0 }
    }

    /// A block that filters complex samples with the real taps `taps`: it
    /// has one stream input `in` and one stream output `out`, both for
    /// pairs of samples of type `A`, and no message ports. Its kernel is
    /// `Iir` around `ComplexFir::kernel(taps, decimation)`; once its
    /// producer is done it is finished when no further window of the taps
    /// can be formed.
    pub fn new(taps: &[A], decimation: usize) -> (b: Block)
        where A: 'static
        ensures
            filter_block(b, "ComplexFir"@, Iir::<A, ComplexFir<A>>::item_size(2)),
            exists|k: Iir<A, ComplexFir<A>>|
                b.holds(k) && k.inner().taps() == taps@ && k.inner().decimation() == decimation
                    && k.inner().offset() == 0 && k.group() == 2 && k.rule() == (
                FinishRule::AllWindows { taps: taps@.len() as usize }),
    {
        Iir::new_named(
            "ComplexFir",
            ComplexFir::kernel(taps, decimation),
            2,
            FinishRule::AllWindows { taps: taps.len() },
        )
    }

    /// Filters the complex samples of `input` into `output`; both hold one
    /// pair of parts per sample. As many samples come out as there are full
    /// windows in `input` and room for pairs in `output`, and never more
    /// than there are samples. The rest of `output` is left as it is. The
    /// result is the number of samples that came out.
    pub fn filter(&self, input: &[A], output: &mut [A]) -> (n: usize)
        ensures
            n == fir_count(
                self.taps().len() as int,
                input@.len() as int / 2,
                old(output)@.len() as int / 2,
            ),
            final(output)@.len() == old(output)@.len(),
            final(output)@ == complex_fir_outputs(self.taps(), input@, n as int) + old(
                output,
            )@.subrange(2 * n, old(output)@.len() as int),
    {
        let n_taps = self.taps.len();
        let samples = input.len() / 2;
        let room = output.len() / 2;
        if samples < n_taps {
            assert(output@ =~= complex_fir_outputs(self.taps(), input@, 0) + output@.subrange(
                0,
                output@.len() as int,
            ));
            return 0;
        }
        let spare = samples - n_taps;
        let windows = if spare < samples {
            spare + 1
        } else {
            samples
        };
        let n = if windows < room {
            windows
        } else {
            room
        };
        assert(output@.len() == output.len());
        assert(input@.len() == input.len());
        let mut k: usize = 0;
        while k < n
            invariant
                k <= n,
                output@.len() <= usize::MAX,
                input@.len() <= usize::MAX,
                2 * n <= output@.len(),
                2 * n <= input@.len(),
                2 * (n + n_taps) <= input@.len() + 2,
                n_taps == self.taps@.len(),
                output@.len() == old(output)@.len(),
                forall|j: int|
                    0 <= j < 2 * k ==> #[trigger] output@[j] == dot(
                        A::zero_spec(),
                        input@,
                        2 * (j / 2) + j % 2,
                        2,
                        self.taps@,
                        n_taps as int,
                    ),
                forall|j: int| 2 * k <= j < output@.len() ==> #[trigger] output@[j] == old(output)@[j],
            decreases n - k,
        {
            let re = dot_forward(A::zero(), input, 2 * k, 2, self.taps.as_slice());
            let im = dot_forward(A::zero(), input, 2 * k + 1, 2, self.taps.as_slice());
            output[2 * k] = re;
            output[2 * k + 1] = im;
            k += 1;
        }
        assert(output@ =~= complex_fir_outputs(self.taps(), input@, n as int) + old(output)@.subrange(
            2 * n,
            old(output)@.len() as int,
        ));
        n
    }
}

impl<A: HasFirImpl> IirKernel<A> for ComplexFir<A> {
    open spec fn yields(
        &self,
        input: Seq<A>,
        before: Seq<A>,
        after: &Self,
        output: Seq<A>,
        counts: (usize, usize),
    ) -> bool {
        &&& after.taps() == self.taps()
        &&& after.decimation() == self.decimation()
        &&& after.offset() == self.offset()
        &&& counts.1 == 2 * fir_count(
            self.taps().len() as int,
            input.len() as int / 2,
            before.len() as int / 2,
        )
        &&& counts.0 == counts.1
        &&& output == complex_fir_outputs(self.taps(), input, counts.1 as int / 2) + before.subrange(
            counts.1 as int,
            before.len() as int,
        )
    }

    /// Filters as `filter` does, counting in parts: two per complex
    /// sample. Every output uses up one sample.
    fn work(&mut self, input: &[A], output: &mut [A]) -> (r: (usize, usize)) {
        assert(output@.len() == output.len());
        let n = self.filter(input, output);
        assert(2 * n <= output@.len());
        assert(2 * n <= input@.len());
        (2 * n, 2 * n)
    }
}

/// A block made by `ComplexFir::new` turns every full window of its input
/// into an output as far as its output has room, consumes one item per
/// output, and never takes `finished` back. It sets `finished` exactly
/// when, after the call, its producer is done and what is left of the input
/// holds no full window.
pub proof fn lemma_complex_fir_block_finishes<A: HasFirImpl>(
    kernel: Iir<A, ComplexFir<A>>,
    io: WorkIo,
    sio: StreamIo,
    counts: (usize, usize),
    out: Seq<A>,
    mid: StreamIo,
    after: Iir<A, ComplexFir<A>>,
    io_after: WorkIo,
    sio_after: StreamIo,
)
    requires
        kernel.group() == 2,
        kernel.rule() matches FinishRule::AllWindows { taps } && taps == kernel.inner().taps().len(),
        kernel.worked(&io, &sio, counts, out, &mid, &after, &io_after, &sio_after),
    ensures
        counts.0 == counts.1,
        counts.1 == 2 * fir_count(
            kernel.inner().taps().len() as int,
            sio.readable_items(0) as int,
            result_room(&sio) as int,
        ),
        after.inner().taps() == kernel.inner().taps(),
        io_after.finished == (io.finished || (producer_done(&sio_after) && fir_count(
            kernel.inner().taps().len() as int,
            sio.readable_items(0) - counts.0 / 2,
            1,
        ) == 0)),
        kernel.inner().taps().len() >= 1 ==> io_after.finished == (io.finished || (producer_done(
            &sio_after,
        ) && (sio.readable_items(0) < kernel.inner().taps().len() || counts.1 / 2
            == sio.readable_items(0) + 1 - kernel.inner().taps().len()))),
{
    let items = sio.readable_items(0) as int;
    let room = result_room(&sio) as int;
    assert((items * 2) / 2 == items);
    assert((room * 2) / 2 == room);
    let n = fir_count(kernel.inner().taps().len() as int, items, room);
    assert((2 * n) / 2 == n);
}

} // verus!
