use memori::allocator::AllocCounts;
use memori::runner::{RunAction, RunEvent, RunState, SampleReadings, SAMPLE_RUNS, WARMUP_RUNS};
use memori::Runner;

fn readings(i: u64) -> SampleReadings {
    SampleReadings {
        perf_cycles: if i % 3 == 0 { None } else { Some(1000 - i) },
        instructions: Some(500 + i % 7),
        tsc: Some((i, i + 300 + i % 5)),
        time_ns: if i % 2 == 0 { Some(90 + i) } else { None },
    }
}

fn drive(real_time: bool, sample: impl Fn(u64) -> SampleReadings) -> (usize, usize, RunAction) {
    let mut state = RunState::new(real_time);
    let mut action = state.step(RunEvent::Started);
    let mut warmups = 0;
    let mut samples = 0;
    loop {
        match action {
            RunAction::Warmup => {
                warmups += 1;
                action = state.step(RunEvent::WarmupFinished);
            }
            RunAction::Sample => {
                let r = sample(samples as u64);
                samples += 1;
                action = state.step(RunEvent::SampleTaken(r));
            }
            RunAction::ProbeAllocations => {
                let before = AllocCounts { alloc_count: 5, alloc_bytes: 100, dealloc_count: 2, dealloc_bytes: 10 };
                let after = AllocCounts { alloc_count: 8, alloc_bytes: 164, dealloc_count: 4, dealloc_bytes: 74 };
                action = state.step(RunEvent::AllocationsProbed(before, after));
            }
            RunAction::Finished(_) => return (warmups, samples, action),
        }
    }
}

#[test]
fn run_warms_up_samples_and_takes_minima() {
    let (warmups, samples, action) = drive(true, readings);
    assert_eq!(warmups, WARMUP_RUNS);
    assert_eq!(samples, SAMPLE_RUNS);
    let m = match action {
        RunAction::Finished(m) => m,
        _ => unreachable!(),
    };
    let perf_min = (0..SAMPLE_RUNS as u64).filter_map(|i| readings(i).perf_cycles).min().unwrap();
    assert_eq!(m.cycles, perf_min);
    assert_eq!(m.cycles, 1000 - 98);
    assert_eq!(m.instructions, Some(500));
    assert_eq!(m.time_ns, Some(90));
    assert_eq!((m.alloc_count, m.alloc_bytes, m.dealloc_count, m.dealloc_bytes), (3, 64, 2, 64));
    assert_eq!(m.net_bytes, 0);
}

#[test]
fn run_falls_back_to_timestamp_counter_then_zero() {
    let (_, _, action) = drive(false, |i| SampleReadings {
        perf_cycles: None,
        instructions: None,
        tsc: Some((10, 10 + 50 + i)),
        time_ns: Some(7),
    });
    match action {
        RunAction::Finished(m) => {
            assert_eq!(m.cycles, 50);
            assert_eq!(m.instructions, None);
            assert_eq!(m.time_ns, None);
        }
        _ => unreachable!(),
    }
    let (_, _, action) = drive(true, |_| SampleReadings { perf_cycles: None, instructions: None, tsc: None, time_ns: None });
    match action {
        RunAction::Finished(m) => {
            assert_eq!(m.cycles, 0);
            assert_eq!(m.time_ns, Some(0));
        }
        _ => unreachable!(),
    }
}

#[test]
fn runner_calls_its_function_on_its_input() {
    let mut calls = 0;
    let mut runner = Runner::new(21usize, |x: &usize| {
        calls += 1;
        *x * 2
    });
    assert_eq!(*runner.input(), 21);
    assert_eq!(runner.call(), 42);
    assert_eq!(runner.call(), 42);
    drop(runner);
    assert_eq!(calls, 2);
}
