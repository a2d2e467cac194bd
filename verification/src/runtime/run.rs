//! The top-level driver: checks a flowgraph, runs it to rest and hands it back.

use crate::runtime::block::KernelError;
use crate::runtime::scheduler::RunEnd;
use crate::runtime::scheduler::Scheduler;
use crate::runtime::topology::Topology;
use crate::runtime::topology::TopologyError;
use vstd::prelude::*;

verus! {

/// Why a run did not end with every block finished.
#[derive(Debug)]
pub enum RunError {
    /// The flowgraph cannot run as it is wired.
    Topology(TopologyError),
    /// A kernel hook failed. The run stopped at the first failure.
    Kernel(KernelError),
    /// No block is runnable and some block is not finished.
    Stalled,
    /// The budget of steps is used up.
    StepLimit,
}

/// The driver of runs.
#[derive(Debug, Clone, Copy, PartialEq, Eq, Structural)]
pub struct Runtime {
    max_steps: usize,
}

impl Runtime {
    /// The most steps a run may take.
    pub closed spec fn step_limit(&self) -> usize {
        self.max_steps
    }

    /// A driver whose runs may take as many steps as can be counted.
    pub fn new() -> (r: Runtime)
        ensures
            r.step_limit() == usize::MAX,
    {
        Runtime { max_steps: usize::MAX }
    }

    /// A driver whose runs take at most `max_steps` steps.
    pub fn with_step_limit(max_steps: usize) -> (r: Runtime)
        ensures
            r.step_limit() == max_steps,
    {
        Runtime { max_steps }
    }

    /// Runs `topology` until every block is finished and hands it back for
    /// inspection: wired as it was, with every stream edge closed on both
    /// sides and the kernel of every block called at least once.
    ///
    /// A flowgraph with an unconnected mandatory input is refused before
    /// any kernel is called; the error names the first such input. The
    /// first kernel error, a stall or an exhausted budget of steps ends the
    /// run with the matching error. A flowgraph without blocks is at rest
    /// at once.
    pub fn run(&self, topology: Topology) -> (r: Result<Topology, RunError>)
        requires
            topology.wf(),
        ensures
            match r {
                Err(RunError::Topology(TopologyError::MissingInput { block, port })) => topology.missing_input(
                    block as int,
                    port as int,
                ) && topology.none_missing_before(block as int, port as int),
                _ => forall|b: int, p: int| !#[trigger] topology.missing_input(b, p),
            },
            topology.blocks().len() == 0 ==> r is Ok,
            r matches Ok(t) ==> {
                &&& t.wf()
                &&& t.same_graph(&topology)
                &&& forall|e: int|
                    0 <= e < t.channels().len() ==> (#[trigger] t.channels()[e])@.writer_finished()
                        && t.channels()[e]@.reader_finished()
                &&& forall|b: int| 0 <= b < t.blocks().len() ==> (#[trigger] t.blocks()[b]).calls() >= 1
            },
    {
        match topology.validate() {
            Ok(()) => {},
            Err(e) => {
                return Err(RunError::Topology(e));
            },
        }
        let mut scheduler = Scheduler::new(topology);
        match scheduler.start() {
            Ok(()) => {},
            Err(e) => {
                return Err(RunError::Kernel(e));
            },
        }
        let ghost started = scheduler;
        let end = scheduler.run_to_quiescence(self.max_steps);
        match end {
            Err(e) => Err(RunError::Kernel(e)),
            Ok(RunEnd::Stalled) => Err(RunError::Stalled),
            Ok(RunEnd::StepLimit) => Err(RunError::StepLimit),
            Ok(RunEnd::Finished) => {
                proof {
                    assert(started.topology().same_wiring(&topology));
                    assert(started.topology().same_graph(&topology));
                    scheduler.topology().lemma_same_graph_trans(&started.topology(), &topology);
                }
                Ok(scheduler.into_topology())
            },
        }
    }
}

impl Default for Runtime {
    fn default() -> (r: Runtime)
        ensures
            r.step_limit() == usize::MAX,
    {
        Runtime::new()
    }
}

} // verus!
