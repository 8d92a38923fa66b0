//! The choice of a parallel execution strategy for `parallel` missions.

use vstd::prelude::*;
use crate::codegen::ir::CodegenError;
use crate::text::str_to_string;

verus! {

/// How a parallel mission is run.
#[derive(Debug, Clone, Copy, PartialEq, Eq, Structural)]
pub enum ParallelStrategy {
    /// Data parallelism across array elements.
    Data,
    /// Task parallelism with independent branches.
    Task,
    /// Pipeline parallelism with stages.
    Pipeline,
}

/// The name of a strategy.
pub open spec fn strategy_name(s: ParallelStrategy) -> Seq<char> {
    match s {
        ParallelStrategy::Data => "data_parallel"@,
        ParallelStrategy::Task => "task_parallel"@,
        ParallelStrategy::Pipeline => "pipeline_parallel"@,
    }
}

impl ParallelStrategy {
    /// The name of this strategy, such as `data_parallel`.
    pub fn to_string(&self) -> (r: String)
        ensures
            r@ == strategy_name(*self),
    {
        match self {
            ParallelStrategy::Data => str_to_string("data_parallel"),
            ParallelStrategy::Task => str_to_string("task_parallel"),
            ParallelStrategy::Pipeline => str_to_string("pipeline_parallel"),
        }
    }
}

/// The schedule of a parallel mission.
#[derive(Debug, Clone)]
pub struct ScheduleInfo {
    pub strategy: ParallelStrategy,
    pub num_threads: usize,
    pub workload_per_thread: usize,
}

impl ScheduleInfo {
    /// A schedule with one unit of work per thread.
    pub fn new(strategy: ParallelStrategy, num_threads: usize) -> (r: Self)
        ensures
            r.strategy == strategy,
            r.num_threads == num_threads,
            r.workload_per_thread == 1,
    {
        ScheduleInfo { strategy, num_threads, workload_per_thread: 1 }
    }
}

/// The strategy for a workload: data parallelism above 10000 units of work,
/// else task parallelism with at least 4 threads, else data parallelism.
pub open spec fn strategy_for_work(total_work: usize, available_threads: usize) -> ParallelStrategy {
    if total_work > 10000 {
        ParallelStrategy::Data
    } else if available_threads >= 4 {
        ParallelStrategy::Task
    } else {
        ParallelStrategy::Data
    }
}

/// The scheduler of parallel missions.
#[derive(Debug)]
pub struct ParallelScheduler;

impl ParallelScheduler {
    /// A scheduler.
    pub fn new() -> (r: Self) {
        ParallelScheduler
    }

    /// The schedule for a workload on the available threads.
    pub fn choose_strategy(&self, total_work: usize, available_threads: usize) -> (r: Result<ScheduleInfo, CodegenError>)
        ensures
            r matches Ok(info) && info.strategy == strategy_for_work(total_work, available_threads)
                && info.num_threads == available_threads && info.workload_per_thread == 1,
    {
        let strategy = if total_work > 10000 {
            ParallelStrategy::Data
        } else if available_threads >= 4 {
            ParallelStrategy::Task
        } else {
            ParallelStrategy::Data
        };
        Ok(ScheduleInfo::new(strategy, available_threads))
    }

    /// The IR of a barrier synchronisation.
    pub fn emit_barrier(&self) -> (r: String)
        ensures
            r@ == "call void @llvm.barrier()"@,
    {
        str_to_string("call void @llvm.barrier()")
    }
}

impl Default for ParallelScheduler {
    fn default() -> (r: Self)
        ensures
            r == ParallelScheduler,
    {
        ParallelScheduler::new()
    }
}

} // verus!
