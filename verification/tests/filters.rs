use std::cell::RefCell;
use std::rc::Rc;

use futuresdr::blocks::fir::dot_backward;
use futuresdr::blocks::fir::dot_forward;
use futuresdr::blocks::fir::ComplexFir;
use futuresdr::blocks::fir::Fir;
use futuresdr::blocks::fir::HasFirImpl;
use futuresdr::blocks::iir::decide_finished;
use futuresdr::blocks::iir::FinishRule;
use futuresdr::blocks::iir::Iir;
use futuresdr::blocks::iir::IirBuilder;
use futuresdr::blocks::iir::IirKernel;
use futuresdr::blocks::iir::IirKernelCore;
use futuresdr::blocks::iir::TapsAccessor;
use futuresdr::runtime::block::Block;
use futuresdr::runtime::block::BlockMeta;
use futuresdr::runtime::block::BlockMetaBuilder;
use futuresdr::runtime::block::Kernel;
use futuresdr::runtime::block::KernelError;
use futuresdr::runtime::block::KernelKind;
use futuresdr::runtime::block::WorkIo;
use futuresdr::runtime::buffer::BufferKind;
use futuresdr::runtime::message_io::MessageIo;
use futuresdr::runtime::message_io::MessageIoBuilder;
use futuresdr::runtime::run::RunError;
use futuresdr::runtime::run::Runtime;
use futuresdr::runtime::stream_io::StreamIo;
use futuresdr::runtime::stream_io::StreamIoBuilder;
use futuresdr::runtime::topology::Topology;

/// Single-precision samples.
#[derive(Debug, Clone, Copy, PartialEq)]
struct Sample(f32);

impl HasFirImpl for Sample {
    fn zero() -> Sample {
        Sample(0.0)
    }

    fn mul_add(acc: Sample, sample: Sample, tap: Sample) -> Sample {
        Sample(acc.0 + tap.0 * sample.0)
    }

    fn size() -> usize {
        4
    }

    fn decode(bytes: &[u8]) -> Sample {
        Sample(f32::from_le_bytes([bytes[0], bytes[1], bytes[2], bytes[3]]))
    }

    fn encode(self) -> Vec<u8> {
        self.0.to_le_bytes().to_vec()
    }
}

struct Feeder {
    filter: IirKernelCore<Sample, Vec<Sample>>,
    input: Vec<Sample>,
}

impl Feeder {
    fn feed(&mut self, input: f32) -> Option<f32> {
        self.input.push(Sample(input));

        let mut out = [Sample(0.0)];
        let (n_consumed, n_produced) = self.filter.work(&self.input[..], &mut out);
        assert_eq!(n_consumed, n_produced); // If we consume samples, we produce samples
        if n_consumed > 0 {
            self.input.drain(0..n_consumed);
        }
        if n_produced > 0 {
            Some(out[0].0)
        } else {
            None
        }
    }
}

fn make_filter(a_taps: Vec<f32>, b_taps: Vec<f32>) -> Feeder {
    Feeder {
        filter: IirKernelCore::new(
            a_taps.into_iter().map(Sample).collect(),
            b_taps.into_iter().map(Sample).collect(),
        ),
        input: vec![],
    }
}

#[test]
fn test_iir_b_taps_algorithm() {
    let mut iir = make_filter(vec![], vec![1.0, 2.0, 3.0]);

    assert_eq!(iir.feed(10.0), None);
    assert_eq!(iir.feed(20.0), None);
    assert_eq!(iir.feed(30.0), Some(30.0 + 40.0 + 30.0));
    assert_eq!(iir.feed(40.0), Some(40.0 + 60.0 + 60.0));
}

#[test]
fn test_iir_single_a_tap_algorithm() {
    let mut iir = make_filter(vec![0.5], vec![1.0]);

    assert_eq!(iir.feed(10.0), None);
    assert_eq!(iir.feed(10.0), Some(15.0));
    assert_eq!(iir.feed(10.0), Some(17.5));
    assert_eq!(iir.feed(10.0), Some(18.75));
}

#[test]
fn iir_fills_its_memory_one_value_per_call() {
    let mut core: IirKernelCore<u32, Vec<u32>> = IirKernelCore::new(vec![10, 100], vec![1]);
    let mut out = [0u32; 4];
    // not enough input for the value that enters the second place
    assert_eq!(core.work(&[], &mut out), (0, 0));
    assert_eq!(core.work(&[1, 2, 3], &mut out), (0, 0)); // memory: [1]
    assert_eq!(core.work(&[1, 2, 3], &mut out), (0, 0)); // memory: [2, 1]
    assert_eq!(out, [0u32; 4]);
    // y0 = 1*1 + 10*2 + 100*1 = 121, memory: [121, 2]
    // y1 = 1*2 + 10*121 + 100*2 = 1412, memory: [1412, 121]
    // y2 = 1*3 + 10*1412 + 100*121 = 26223
    assert_eq!(core.work(&[1, 2, 3], &mut out), (3, 3));
    assert_eq!(out, [121, 1412, 26223, 0]);
}

#[test]
fn iir_with_three_feedback_taps_repeats_the_previous_value() {
    let mut core: IirKernelCore<u32, Vec<u32>> = IirKernelCore::new(vec![1, 10, 100], vec![1]);
    let mut out = [0u32; 2];
    assert_eq!(core.work(&[1, 2, 3], &mut out), (0, 0)); // memory: [1]
    assert_eq!(core.work(&[1, 2, 3], &mut out), (0, 0)); // memory: [2, 1]
    assert_eq!(core.work(&[1, 2, 3], &mut out), (0, 0)); // memory: [3, 2, 2]
    // y0 = 1 + 1*3 + 10*2 + 100*2 = 224, memory: [224, 3, 3]
    // y1 = 2 + 1*224 + 10*3 + 100*3 = 556
    assert_eq!(core.work(&[1, 2, 3], &mut out), (2, 2));
    assert_eq!(out, [224, 556]);
}

#[test]
fn taps_come_from_vectors_and_arrays() {
    let v = vec![3u32, 4, 5];
    assert_eq!(v.num_taps(), 3);
    assert_eq!(TapsAccessor::len(&v), 3);
    assert_eq!(TapsAccessor::get(&v, 1), 4);
    let a = [6u32, 7];
    assert_eq!(a.num_taps(), 2);
    assert_eq!(TapsAccessor::get(&a, 1), 7);
    let mut core = IirKernelCore::new([3u32, 0], [2u32, 1]);
    let mut out = [0u32; 3];
    assert_eq!(core.work(&[1, 10, 100], &mut out), (0, 0)); // memory: [1]
    assert_eq!(core.work(&[1, 10, 100], &mut out), (0, 0)); // memory: [10, 1]
    // y0 = 2*10 + 1*1 + 3*10 + 0*1 = 51, y1 = 2*100 + 1*10 + 3*51 = 363
    assert_eq!(core.work(&[1, 10, 100], &mut out), (2, 2));
    assert_eq!(out, [51, 363, 0]);
}

#[test]
fn dot_products_add_in_tap_order() {
    assert_eq!(dot_forward(5u32, &[1, 2, 3, 4], 1, 1, &[10, 100]), 5 + 20 + 300);
    assert_eq!(dot_forward(0u32, &[1, 2, 3, 4, 5], 0, 2, &[1, 10, 100]), 1 + 30 + 500);
    assert_eq!(dot_backward(0u32, &[1, 2, 3, 4], 2, &[10, 100]), 30 + 200);
    assert_eq!(dot_forward(7u32, &[], 0, 1, &[]), 7);
    assert_eq!(dot_backward(7u32, &[], 0, &[]), 7);
    assert_eq!(dot_forward(1u32, &[u32::MAX], 0, 1, &[2]), u32::MAX);
    assert_eq!(<u32 as HasFirImpl>::mul_add(u32::MAX, 1, 1), 0);
    assert_eq!(<u32 as HasFirImpl>::zero(), 0);
    assert_eq!(<u32 as HasFirImpl>::size(), 4);
    assert_eq!(<u32 as HasFirImpl>::decode(&[1, 2, 0, 0]), 513);
    assert_eq!(<u32 as HasFirImpl>::encode(513), vec![1, 2, 0, 0]);
}

#[test]
fn fir_makes_one_output_per_full_window() {
    let fir = Fir::kernel(&[1u32, 10, 100]);
    let mut out = [0u32; 5];
    assert_eq!(fir.filter(&[1, 2, 3, 4], &mut out), 2);
    assert_eq!(out, [321, 432, 0, 0, 0]);

    let mut short = [9u32; 1];
    assert_eq!(fir.filter(&[1, 2, 3, 4], &mut short), 1);
    assert_eq!(short, [321]);

    let mut untouched = [9u32; 2];
    assert_eq!(fir.filter(&[1, 2], &mut untouched), 0);
    assert_eq!(untouched, [9, 9]);

    let mut fir = fir;
    let mut out = [0u32; 5];
    assert_eq!(IirKernel::work(&mut fir, &[1, 2, 3, 4], &mut out), (2, 2));
}

#[test]
fn complex_fir_filters_each_part_by_itself() {
    let mut fir = ComplexFir::kernel(&[1u32, 10], 3);
    // samples (1, 2), (3, 4), (5, 6)
    let input = [1u32, 2, 3, 4, 5, 6];
    let mut out = [0u32; 5];
    assert_eq!(fir.filter(&input, &mut out), 2);
    assert_eq!(out, [31, 42, 53, 64, 0]);
    let mut out = [0u32; 6];
    assert_eq!(IirKernel::work(&mut fir, &input, &mut out), (4, 4));
    let mut none = [0u32; 1];
    assert_eq!(fir.filter(&input, &mut none), 0);
}

/// Emits the items of `items` in order, then finishes.
struct VecSource {
    items: Vec<u32>,
    next: usize,
}

impl Kernel for VecSource {
    fn init(&mut self, _now: u64, _sio: &mut StreamIo, _mio: &mut MessageIo, _meta: &mut BlockMeta) -> Result<(), KernelError> {
        Ok(())
    }

    fn work(
        &mut self,
        io: &mut WorkIo,
        sio: &mut StreamIo,
        _mio: &mut MessageIo,
        _meta: &mut BlockMeta,
    ) -> Result<(), KernelError> {
        let item = sio.output(0).item_size;
        let per_item = item / 4;
        let n = sio.output_space(0).min((self.items.len() - self.next) / per_item);
        for k in 0..n * per_item {
            sio.write(0, 4 * k, &self.items[self.next + k].to_le_bytes());
        }
        sio.produce(0, n);
        self.next += n * per_item;
        if self.next == self.items.len() {
            io.finished = true;
        } else if n > 0 {
            io.call_again = true;
        }
        Ok(())
    }
}

/// Collects 32-bit values.
struct VecSink {
    out: Rc<RefCell<Vec<u32>>>,
}

impl Kernel for VecSink {
    fn init(&mut self, _now: u64, _sio: &mut StreamIo, _mio: &mut MessageIo, _meta: &mut BlockMeta) -> Result<(), KernelError> {
        Ok(())
    }

    fn work(
        &mut self,
        io: &mut WorkIo,
        sio: &mut StreamIo,
        _mio: &mut MessageIo,
        _meta: &mut BlockMeta,
    ) -> Result<(), KernelError> {
        let item = sio.input(0).item_size;
        let input = sio.input_slice(0).to_vec();
        for chunk in input.chunks(4) {
            self.out.borrow_mut().push(u32::from_le_bytes([chunk[0], chunk[1], chunk[2], chunk[3]]));
        }
        let n = input.len() / item;
        sio.consume(0, n);
        if sio.input_finished(0) {
            io.finished = true;
        } else if n > 0 {
            io.call_again = true;
        }
        Ok(())
    }
}

fn run_through(filter: Block, item_size: usize, items: Vec<u32>, capacity_items: usize) -> Vec<u32> {
    let out = Rc::new(RefCell::new(Vec::new()));
    let mut fg = Topology::new();
    let src = fg.add_block(Block::new_sync(
        BlockMetaBuilder::new("VecSource").build(),
        StreamIoBuilder::new().add_output("out", item_size).build(),
        MessageIoBuilder::new().build(),
        VecSource { items, next: 0 },
    ));
    let filter = fg.add_block(filter);
    let snk = fg.add_block(Block::new_sync(
        BlockMetaBuilder::new("VecSink").build(),
        StreamIoBuilder::new().add_input("in", item_size).build(),
        MessageIoBuilder::new().build(),
        VecSink { out: out.clone() },
    ));
    let kind = BufferKind::Circular { capacity_items };
    fg.connect_stream_with_type(src, "out", filter, "in", kind).unwrap();
    fg.connect_stream_with_type(filter, "out", snk, "in", kind).unwrap();
    Runtime::new().run(fg).unwrap();
    let collected = out.borrow().clone();
    collected
}

#[test]
fn a_fir_block_filters_a_stream_across_the_wrap_of_small_buffers() {
    let items: Vec<u32> = (1..=40).collect();
    let expected: Vec<u32> = (0..38).map(|k| (k + 1) + 10 * (k + 2) + 100 * (k + 3)).collect();
    for capacity in [3, 4, 5, 7, 64] {
        let block = Fir::new(&[1u32, 10, 100]);
        assert_eq!(block.kind(), KernelKind::RunToCompletion);
        assert_eq!(block.meta().name(), "Fir");
        assert_eq!(block.stream_io().input(0).item_size, 4);
        assert_eq!(run_through(block, 4, items.clone(), capacity), expected);
    }
}

#[test]
fn a_fir_block_works_on_single_precision_samples() {
    let items: Vec<u32> = [1.0f32, 2.0, 3.0, 4.0].iter().map(|v| v.to_bits()).collect();
    let block = Fir::new(&[Sample(0.5), Sample(0.25)]);
    let out = run_through(block, 4, items, 3);
    let out: Vec<f32> = out.into_iter().map(f32::from_bits).collect();
    assert_eq!(out, vec![1.0, 1.75, 2.5]);
}

#[test]
fn a_complex_fir_block_filters_pairs() {
    let items: Vec<u32> = vec![1, 2, 3, 4, 5, 6, 7, 8];
    let block = ComplexFir::new(&[1u32, 10], 1);
    assert_eq!(block.meta().name(), "ComplexFir");
    assert_eq!(block.stream_io().output(0).item_size, 8);
    assert_eq!(run_through(block, 8, items, 3), vec![31, 42, 53, 64, 75, 86]);
}

#[test]
fn an_iir_block_without_feedback_filters_a_stream() {
    let block = Iir::new(IirKernelCore::new(Vec::<u32>::new(), vec![1u32, 1]));
    assert_eq!(block.meta().name(), "Fir");
    assert_eq!(run_through(block, 4, vec![1, 2, 3, 4], 8), vec![3, 5, 7]);
    let block = IirBuilder::new(Vec::<u32>::new(), vec![1u32, 10], 0u32);
    assert_eq!(run_through(block, 4, (1..=9).collect(), 2), vec![12, 23, 34, 45, 56, 67, 78, 89]);
}

#[test]
fn an_iir_block_is_finished_when_it_consumes_nothing_of_a_finished_input() {
    // the first call only lets a value into the memory: it consumes
    // nothing, the producer is done, and so the block is finished
    let block = IirBuilder::new(vec![2u32], vec![1u32], 0u32);
    assert_eq!(run_through(block, 4, vec![1, 2, 3, 4], 8), Vec::<u32>::new());
}

#[test]
fn a_fir_block_is_not_finished_while_windows_remain() {
    // one place downstream: one output per call, and the block goes on
    // until every window was turned into an output
    let out = run_through(Fir::new(&[1u32]), 4, vec![1, 2, 3, 4], 1);
    assert_eq!(out, vec![1, 2, 3, 4]);
    let out = run_through(Fir::new(&[2u32]), 4, vec![1, 2, 3], 4);
    assert_eq!(out, vec![2, 4, 6]);
    let out = run_through(Fir::new(&[1u32, 2]), 4, vec![10, 20, 30], 4);
    assert_eq!(out, vec![50, 80]);
}

#[test]
fn a_filter_block_with_an_unconnected_output_drops_its_data() {
    let block = Fir::new(&[1u32]);
    assert_eq!(block.ports().len(), 2);
    let mut fg = Topology::new();
    let src = fg.add_block(Block::new_sync(
        BlockMetaBuilder::new("VecSource").build(),
        StreamIoBuilder::new().add_output("out", 4).build(),
        MessageIoBuilder::new().build(),
        VecSource { items: vec![1, 2, 3], next: 0 },
    ));
    let fir = fg.add_block(block);
    fg.connect_stream(src, "out", fir, "in").unwrap();
    let fg = Runtime::new().run(fg).unwrap();
    assert!(fg.channel(0).finished());
}

#[test]
fn a_filter_block_with_an_unconnected_input_is_refused() {
    let mut fg = Topology::new();
    fg.add_block(Fir::new(&[1u32]));
    assert!(matches!(Runtime::new().run(fg), Err(RunError::Topology(_))));
}

#[test]
fn a_filter_without_taps_makes_one_zero_per_sample() {
    let fir = Fir::kernel(&[] as &[u32]);
    let mut out = [9u32; 5];
    assert_eq!(fir.filter(&[1, 2, 3], &mut out), 3);
    assert_eq!(out, [0, 0, 0, 9, 9]);
    let mut out = [9u32; 2];
    assert_eq!(fir.filter(&[1, 2, 3], &mut out), 2);
    assert_eq!(out, [0, 0]);
    let mut out = [9u32; 2];
    assert_eq!(fir.filter(&[], &mut out), 0);
    assert_eq!(out, [9, 9]);
    let mut fir = fir;
    assert_eq!(IirKernel::work(&mut fir, &[], &mut out), (0, 0));

    let mut fir = ComplexFir::kernel(&[] as &[u32], 1);
    let mut out = [9u32; 6];
    assert_eq!(fir.filter(&[1, 2, 3, 4], &mut out), 2);
    assert_eq!(out, [0, 0, 0, 0, 9, 9]);
    assert_eq!(IirKernel::work(&mut fir, &[1, 2, 3, 4], &mut out), (4, 4));
    assert_eq!(IirKernel::work(&mut fir, &[1], &mut out), (0, 0));
}

#[test]
fn filter_blocks_without_taps_run_to_the_end() {
    let taps: Vec<u32> = Vec::new();
    let block = Fir::new(&taps);
    assert_eq!(block.meta().name(), "Fir");
    assert_eq!(block.stream_io().input(0).item_size, 4);
    assert_eq!(run_through(block, 4, vec![1, 2, 3], 2), vec![0, 0, 0]);
    assert_eq!(run_through(Fir::new(&taps), 4, Vec::new(), 2), Vec::<u32>::new());
    let block = ComplexFir::new(&taps, 4);
    assert_eq!(block.stream_io().input(0).item_size, 8);
    assert_eq!(run_through(block, 8, vec![1, 2, 3, 4, 5, 6], 4), vec![0, 0, 0, 0, 0, 0]);
}

#[test]
fn a_filter_block_is_finished_as_its_rule_says() {
    let windows = FinishRule::AllWindows { taps: 3 };
    // fewer items than taps
    assert!(decide_finished(windows, 2, 0, 0, true));
    assert!(!decide_finished(windows, 2, 0, 0, false));
    // five items hold three windows
    assert!(decide_finished(windows, 5, 3, 3, true));
    assert!(!decide_finished(windows, 5, 2, 2, true));
    assert!(!decide_finished(windows, 5, 3, 3, false));
    assert!(!decide_finished(windows, 3, 0, 0, true));
    assert!(decide_finished(windows, 3, 1, 1, true));
    // without taps every item is a window
    let none = FinishRule::AllWindows { taps: 0 };
    assert!(decide_finished(none, 0, 0, 0, true));
    assert!(decide_finished(none, 4, 4, 4, true));
    assert!(!decide_finished(none, 4, 3, 3, true));
    assert!(!decide_finished(none, 4, 4, 4, false));
    let idle = FinishRule::NothingConsumed;
    assert!(decide_finished(idle, 4, 0, 0, true));
    assert!(decide_finished(idle, 0, 0, 3, true));
    assert!(!decide_finished(idle, 4, 1, 0, true));
    assert!(!decide_finished(idle, 4, 0, 0, false));
}

/// Repeats every sample, as far as there is room, and notes how many
/// places for results each call offered it.
struct Doubler {
    offered: Rc<RefCell<Vec<usize>>>,
}

impl IirKernel<u32> for Doubler {
    fn work(&mut self, input: &[u32], output: &mut [u32]) -> (usize, usize) {
        self.offered.borrow_mut().push(output.len());
        let n = input.len().min(output.len() / 2);
        for k in 0..n {
            output[2 * k] = input[k];
            output[2 * k + 1] = input[k];
        }
        (n, 2 * n)
    }
}

#[test]
fn a_core_is_offered_every_place_the_output_has_room_for() {
    let offered = Rc::new(RefCell::new(Vec::new()));
    let block = Iir::new_named("Doubler", Doubler { offered: offered.clone() }, 1, FinishRule::NothingConsumed);
    assert_eq!(block.meta().name(), "Doubler");
    // three items of input, eight places downstream
    assert_eq!(run_through(block, 4, vec![1, 2, 3], 8), vec![1, 1, 2, 2, 3, 3]);
    assert_eq!(offered.borrow()[0], 8);
}

/// Passes samples on as they are, and notes how many places for results
/// each call offered it.
struct Copier {
    offered: Rc<RefCell<Vec<usize>>>,
}

impl IirKernel<u32> for Copier {
    fn work(&mut self, input: &[u32], output: &mut [u32]) -> (usize, usize) {
        self.offered.borrow_mut().push(output.len());
        let n = input.len().min(output.len());
        output[..n].copy_from_slice(&input[..n]);
        (n, n)
    }
}

#[test]
fn a_core_behind_an_unconnected_output_is_offered_a_place_per_item() {
    let offered = Rc::new(RefCell::new(Vec::new()));
    let rule = FinishRule::AllWindows { taps: 1 };
    let block = Iir::new_named("Copier", Copier { offered: offered.clone() }, 1, rule);
    let mut fg = Topology::new();
    let src = fg.add_block(Block::new_sync(
        BlockMetaBuilder::new("VecSource").build(),
        StreamIoBuilder::new().add_output("out", 4).build(),
        MessageIoBuilder::new().build(),
        VecSource { items: vec![1, 2, 3, 4], next: 0 },
    ));
    let filter = fg.add_block(block);
    fg.connect_stream(src, "out", filter, "in").unwrap();
    Runtime::new().run(fg).unwrap();
    assert_eq!(*offered.borrow(), vec![4]);
}
