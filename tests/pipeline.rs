use offload::launch::{launch_config, LaunchConfig, BLOCK_SIZE};
use offload::pipeline::{
    simulate, Action, Buffer, ErrorKind, Pipeline, PipelineError, Stage, Step, INVALID_VALUE,
    MAX_DRIVER_STEPS, SUCCESS,
};

const OUT_OF_MEMORY: u32 = 2;

fn forward_calls(count: usize) -> Vec<Action> {
    let bytes = count * 4;
    vec![
        Action::Initialize,
        Action::GetDevice { ordinal: 0 },
        Action::CreateContext,
        Action::LoadModule,
        Action::GetFunction,
        Action::Allocate { buffer: Buffer::InputA, bytes },
        Action::Allocate { buffer: Buffer::InputB, bytes },
        Action::Allocate { buffer: Buffer::Output, bytes },
        Action::CopyToDevice { buffer: Buffer::InputA, bytes },
        Action::CopyToDevice { buffer: Buffer::InputB, bytes },
        Action::Launch { grid: launch_config(count).unwrap().grid, block: BLOCK_SIZE, count },
        Action::Synchronize,
        Action::CopyToHost { buffer: Buffer::Output, bytes },
    ]
}

fn teardown() -> Vec<Action> {
    vec![
        Action::Free { buffer: Buffer::InputA },
        Action::Free { buffer: Buffer::InputB },
        Action::Free { buffer: Buffer::Output },
        Action::UnloadModule,
        Action::DestroyContext,
    ]
}

/// Statuses that succeed up to the step at `index`, which fails with `status`.
fn fail_at(index: usize, status: u32) -> Vec<u32> {
    let mut v = vec![SUCCESS; index];
    v.push(status);
    v
}

#[test]
fn ten_elements_all_succeed() {
    let (end, calls) = simulate(10, &vec![]);
    let mut expected = forward_calls(10);
    expected.extend(teardown());
    expected.push(Action::Finish { failure: None });
    assert_eq!(calls, expected);
    assert_eq!(end.stage, Stage::Done);
    assert_eq!(end.allocations, 3);
    assert_eq!(end.frees, 3);
    assert_eq!(end.contexts_created, 1);
    assert_eq!(end.contexts_destroyed, 1);
    assert!(calls.len() <= MAX_DRIVER_STEPS);
}

#[test]
fn thousand_elements_use_four_blocks() {
    let (end, calls) = simulate(1000, &vec![]);
    assert!(calls.contains(&Action::Launch { grid: 4, block: 256, count: 1000 }));
    assert!(calls.contains(&Action::CopyToHost { buffer: Buffer::Output, bytes: 4000 }));
    assert_eq!(calls.last(), Some(&Action::Finish { failure: None }));
    assert_eq!(end.failure, None);
}

#[test]
fn empty_input_needs_no_device() {
    let (end, calls) = simulate(0, &vec![]);
    assert_eq!(calls, vec![Action::Finish { failure: None }]);
    assert_eq!(end.allocations, 0);
    assert_eq!(end.contexts_created, 0);
    // failing statuses are never consulted
    let (_, calls) = simulate(0, &vec![OUT_OF_MEMORY, 7]);
    assert_eq!(calls, vec![Action::Finish { failure: None }]);
}

#[test]
fn second_allocation_fails_and_first_buffer_is_freed() {
    let (end, calls) = simulate(10, &fail_at(6, OUT_OF_MEMORY));
    let error = PipelineError { step: Step::AllocInputB, status: OUT_OF_MEMORY };
    let expected = vec![
        Action::Initialize,
        Action::GetDevice { ordinal: 0 },
        Action::CreateContext,
        Action::LoadModule,
        Action::GetFunction,
        Action::Allocate { buffer: Buffer::InputA, bytes: 40 },
        Action::Allocate { buffer: Buffer::InputB, bytes: 40 },
        Action::Free { buffer: Buffer::InputA },
        Action::UnloadModule,
        Action::DestroyContext,
        Action::Finish { failure: Some(error) },
    ];
    assert_eq!(calls, expected);
    assert_eq!(error.kind(), ErrorKind::Allocation);
    assert_eq!(end.allocations, 1);
    assert_eq!(end.frees, 1);
    assert_eq!(end.contexts_created, end.contexts_destroyed);
}

#[test]
fn failing_init_releases_nothing() {
    let (end, calls) = simulate(10, &fail_at(0, 100));
    let error = PipelineError { step: Step::Initialize, status: 100 };
    assert_eq!(calls, vec![Action::Initialize, Action::Finish { failure: Some(error) }]);
    assert_eq!(error.kind(), ErrorKind::DeviceUnavailable);
    assert_eq!(end.contexts_created, 0);
}

#[test]
fn failing_sync_frees_all_three_buffers() {
    let (end, calls) = simulate(300, &fail_at(11, 719));
    let mut expected = forward_calls(300);
    expected.truncate(12);
    expected.extend(teardown());
    let error = PipelineError { step: Step::Synchronize, status: 719 };
    expected.push(Action::Finish { failure: Some(error) });
    assert_eq!(calls, expected);
    assert_eq!(error.kind(), ErrorKind::Synchronization);
    assert_eq!((end.allocations, end.frees), (3, 3));
}

#[test]
fn every_step_failure_is_classified_and_balanced() {
    let kinds = [
        (Step::Initialize, ErrorKind::DeviceUnavailable),
        (Step::GetDevice, ErrorKind::DeviceUnavailable),
        (Step::CreateContext, ErrorKind::Resolution),
        (Step::LoadModule, ErrorKind::Resolution),
        (Step::GetFunction, ErrorKind::Resolution),
        (Step::AllocInputA, ErrorKind::Allocation),
        (Step::AllocInputB, ErrorKind::Allocation),
        (Step::AllocOutput, ErrorKind::Allocation),
        (Step::CopyInputA, ErrorKind::Transfer),
        (Step::CopyInputB, ErrorKind::Transfer),
        (Step::Launch, ErrorKind::Launch),
        (Step::Synchronize, ErrorKind::Synchronization),
        (Step::CopyOutput, ErrorKind::Transfer),
    ];
    for (index, (step, kind)) in kinds.iter().enumerate() {
        let (end, calls) = simulate(64, &fail_at(index, 3));
        let error = PipelineError { step: *step, status: 3 };
        assert_eq!(calls.last(), Some(&Action::Finish { failure: Some(error) }));
        assert_eq!(step.kind(), *kind);
        assert_eq!(end.failure, Some(error));
        assert_eq!(end.allocations, end.frees);
        assert_eq!(end.contexts_created, end.contexts_destroyed);
        assert!(!end.context && !end.module && !end.input_a && !end.input_b && !end.output);
    }
}

#[test]
fn statuses_of_releases_are_ignored() {
    // the teardown calls get failing statuses, which change nothing
    let mut outcomes = vec![SUCCESS; 13];
    outcomes.extend(vec![5; 5]);
    let (end, calls) = simulate(10, &outcomes);
    assert_eq!(calls.last(), Some(&Action::Finish { failure: None }));
    assert_eq!(end.frees, 3);
}

#[test]
fn repeated_invocations_are_identical() {
    let script = fail_at(9, 4);
    let first = simulate(500, &script);
    let second = simulate(500, &script);
    assert_eq!(first, second);
    let clean_a = simulate(500, &vec![]);
    let clean_b = simulate(500, &vec![]);
    assert_eq!(clean_a, clean_b);
}

#[test]
fn many_invocations_stay_balanced() {
    let mut allocations = 0u32;
    let mut frees = 0u32;
    let mut created = 0u32;
    let mut destroyed = 0u32;
    for index in 0..14usize {
        for count in [0usize, 1, 255, 256, 257] {
            let (end, _) = simulate(count, &fail_at(index, 9));
            allocations += end.allocations;
            frees += end.frees;
            created += end.contexts_created;
            destroyed += end.contexts_destroyed;
        }
    }
    assert_eq!(allocations, frees);
    assert_eq!(created, destroyed);
    assert!(allocations > 0);
}

#[test]
fn stepping_by_hand_matches_simulation() {
    let mut p = Pipeline::new(20);
    let mut calls = Vec::new();
    while !p.is_done() {
        let action = p.next_action();
        calls.push(action);
        let status = if action == (Action::Allocate { buffer: Buffer::Output, bytes: 80 }) {
            OUT_OF_MEMORY
        } else {
            SUCCESS
        };
        p.advance(status);
    }
    let (end, expected) = simulate(20, &fail_at(7, OUT_OF_MEMORY));
    assert_eq!(calls, expected);
    assert_eq!(p, end);
}

#[test]
fn launch_config_covers_every_element() {
    assert_eq!(launch_config(0), Some(LaunchConfig { grid: 0, block: 256 }));
    assert_eq!(launch_config(1), Some(LaunchConfig { grid: 1, block: 256 }));
    assert_eq!(launch_config(256), Some(LaunchConfig { grid: 1, block: 256 }));
    assert_eq!(launch_config(257), Some(LaunchConfig { grid: 2, block: 256 }));
    assert_eq!(launch_config(10_000_000), Some(LaunchConfig { grid: 39063, block: 256 }));
    for n in 1..5000usize {
        let c = launch_config(n).unwrap();
        assert!(c.grid as usize * 256 >= n);
        assert!((c.grid as usize - 1) * 256 < n);
    }
}

#[test]
fn oversized_grid_is_refused() {
    let largest = u32::MAX as usize * 256;
    assert_eq!(launch_config(largest), Some(LaunchConfig { grid: u32::MAX, block: 256 }));
    assert_eq!(launch_config(largest + 1), None);
    let (end, calls) = simulate(largest + 1, &vec![]);
    let error = PipelineError { step: Step::Launch, status: INVALID_VALUE };
    assert!(!calls.iter().any(|c| matches!(c, Action::Launch { .. })));
    assert_eq!(calls.last(), Some(&Action::Finish { failure: Some(error) }));
    assert_eq!(end.frees, 3);
}

#[test]
fn step_names_label_driver_calls() {
    assert_eq!(Step::Initialize.name(), "cuInit");
    assert_eq!(Step::AllocInputB.name(), "cuMemAlloc d_b");
    assert_eq!(Step::CopyOutput.name(), "cuMemcpyDtoH");
    assert_eq!(Step::Launch.name(), "cuLaunchKernel");
}
