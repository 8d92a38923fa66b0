use nova::codegen::ffi::{ExternFunction, FFICodegen};
use nova::codegen::ir::NovaType;
use nova::codegen::parallel_scheduler::{ParallelScheduler, ParallelStrategy, ScheduleInfo};

#[test]
fn extern_function_creation() {
    let func = ExternFunction::new("malloc".to_string(), NovaType::Float);
    assert_eq!(func.name, "malloc");
    assert_eq!(func.return_type, NovaType::Float);
}

#[test]
fn extern_function_declaration() {
    let func = ExternFunction::new("sin".to_string(), NovaType::Float);
    let decl = func.emit_declaration();
    assert!(decl.contains("declare f64 @sin"));
}

#[test]
fn ffi_codegen_create() {
    let codegen = FFICodegen::new();
    let _ = codegen;
}

#[test]
fn declaration_lists_parameters() {
    let mut func = ExternFunction::new("pow".to_string(), NovaType::Float);
    func.add_parameter(NovaType::Float);
    func.add_parameter(NovaType::Int);
    assert_eq!(func.emit_declaration(), "declare f64 @pow(f64, i64)");
}

#[test]
fn wrapper_calls_the_function() {
    let func = ExternFunction::new("tick".to_string(), NovaType::Void);
    let w = FFICodegen::new().generate_wrapper(&func).unwrap();
    assert_eq!(w, "define void @tick_wrapper() {\n  call void @tick()\n  ret void\n}");
}

#[test]
fn parallel_strategy_to_string() {
    assert_eq!(ParallelStrategy::Data.to_string(), "data_parallel");
    assert_eq!(ParallelStrategy::Task.to_string(), "task_parallel");
    assert_eq!(ParallelStrategy::Pipeline.to_string(), "pipeline_parallel");
}

#[test]
fn schedule_info_creation() {
    let info = ScheduleInfo::new(ParallelStrategy::Data, 8);
    assert_eq!(info.strategy, ParallelStrategy::Data);
    assert_eq!(info.num_threads, 8);
}

#[test]
fn parallel_scheduler_create() {
    let scheduler = ParallelScheduler::new();
    let _ = scheduler;
}

#[test]
fn choose_strategy_large_workload() {
    let scheduler = ParallelScheduler::new();
    let info = scheduler.choose_strategy(20000, 8).expect("should choose strategy");
    assert_eq!(info.strategy, ParallelStrategy::Data);
}

#[test]
fn emit_barrier() {
    let scheduler = ParallelScheduler::new();
    let barrier = scheduler.emit_barrier();
    assert!(barrier.contains("barrier"));
}

#[test]
fn small_workloads_use_tasks_with_enough_threads() {
    let scheduler = ParallelScheduler::new();
    assert_eq!(scheduler.choose_strategy(10000, 4).unwrap().strategy, ParallelStrategy::Task);
    assert_eq!(scheduler.choose_strategy(10000, 3).unwrap().strategy, ParallelStrategy::Data);
    assert_eq!(scheduler.choose_strategy(10001, 2).unwrap().workload_per_thread, 1);
}
