//! Running one benchmark: the runner that holds the target function and its
//! input, and the decisions of a measuring run.
//!
//! A run is driven by the program around the library, which performs what
//! [`RunState::step`] asks for (calling the target, reading the hardware
//! counters, reading the allocation counters) and reports back what happened:
//! 1. **Warm-up**: the target is called [`WARMUP_RUNS`] times to settle the caches.
//! 2. **Sampling**: the target is called [`SAMPLE_RUNS`] more times under the
//!    counters, and the smallest reading of each counter is kept, which filters noise.
//! 3. **Allocation tracking**: one more call runs between two readings of the
//!    allocation counters.
pub mod measurement;

use crate::allocator::AllocCounts;
use measurement::{signed_difference_fits, Measurement};
use vstd::prelude::*;

verus! {

/// The number of warm-up calls before any sample is taken.
pub const WARMUP_RUNS: usize = 100;

/// The number of sampled calls.
pub const SAMPLE_RUNS: usize = 100;

/// The minimal execution unit for running benchmarks: a target function and
/// the input it is called with.
pub struct Runner<I, F> {
    input: I,
    function: F,
}

impl<I, F> Runner<I, F> {
    /// The input the target is called with.
    pub closed spec fn spec_input(&self) -> I {
        self.input
    }

    /// The target function.
    pub closed spec fn spec_function(&self) -> F {
        self.function
    }

    /// Creates a new `Runner`.
    pub fn new(input: I, function: F) -> (r: Self)
        ensures
            r.spec_input() == input,
            r.spec_function() == function,
    {
        Runner { input, function }
    }

    /// The input value.
    pub fn input(&self) -> (r: &I)
        ensures
            *r == self.spec_input(),
    {
        &self.input
    }

    /// Calls the target once with the input and hands back what it returned.
    pub fn call<R>(&mut self) -> (r: R) where F: FnMut(&I) -> R
        requires
            call_requires(old(self).spec_function(), (&old(self).spec_input(),)),
        ensures
            final(self).spec_input() == old(self).spec_input(),
            call_ensures(old(self).spec_function(), (&old(self).spec_input(),), r),
    {
        (self.function)(&self.input)
    }
}

/// What one sampled call produced.
#[derive(Debug, Clone, Copy)]
pub struct SampleReadings {
    /// The hardware cycle counter's reading, where that counter is available and was read.
    pub perf_cycles: Option<u64>,
    /// The hardware instruction counter's reading, where available and read.
    pub instructions: Option<u64>,
    /// The timestamp counter before and after the call, where the machine has one.
    pub tsc: Option<(u64, u64)>,
    /// The wall-clock time of the call in nanoseconds, where it is recorded.
    pub time_ns: Option<u64>,
}

/// What happened since the last step of a run.
#[derive(Debug, Clone, Copy)]
pub enum RunEvent {
    /// The run begins.
    Started,
    /// One warm-up call has returned.
    WarmupFinished,
    /// One sampled call has returned, with its readings.
    SampleTaken(SampleReadings),
    /// The tracked call has returned between two readings of the allocation
    /// counters: the one before it and the one after it.
    AllocationsProbed(AllocCounts, AllocCounts),
}

/// What the run asks for next.
#[derive(Debug, Clone, Copy)]
pub enum RunAction {
    /// Call the target once, without measuring.
    Warmup,
    /// Call the target once under the counters and report the readings.
    Sample,
    /// Read the allocation counters, call the target once, and read them again.
    ProbeAllocations,
    /// The run is over, with this result.
    Finished(Measurement),
}

/// Where a run stands.
#[derive(Debug, Clone, Copy, PartialEq, Eq)]
pub enum RunPhase {
    NotStarted,
    WarmingUp,
    Sampling,
    Probing,
    Done,
}

/// The smaller of two counter readings.
pub open spec fn min_u64(a: u64, b: u64) -> u64 {
    if a < b {
        a
    } else {
        b
    }
}

/// The smallest of the readings that are there, `u64::MAX` when none is.
pub open spec fn min_reading(values: Seq<Option<u64>>) -> u64
    decreases values.len(),
{
    if values.len() == 0 {
        u64::MAX
    } else {
        match values.last() {
            Some(v) => min_u64(min_reading(values.drop_last()), v),
            None => min_reading(values.drop_last()),
        }
    }
}

/// The smallest of the readings that are there, if any is.
pub open spec fn min_optional(values: Seq<Option<u64>>) -> Option<u64>
    decreases values.len(),
{
    if values.len() == 0 {
        None
    } else {
        match values.last() {
            Some(v) => match min_optional(values.drop_last()) {
                Some(prev) => Some(min_u64(prev, v)),
                None => Some(v),
            },
            None => min_optional(values.drop_last()),
        }
    }
}

/// The timestamp counter's elapsed count for one sample.
pub open spec fn tsc_elapsed(r: SampleReadings) -> Option<u64> {
    match r.tsc {
        Some((start, end)) => Some((end - start) as u64),
        None => None,
    }
}

/// The readings are consistent: the timestamp counter did not run backwards.
pub open spec fn readings_valid(r: SampleReadings) -> bool {
    match r.tsc {
        Some((start, end)) => start <= end,
        None => true,
    }
}

/// Cycle counter readings of the samples.
pub open spec fn perf_cycle_readings(s: Seq<SampleReadings>) -> Seq<Option<u64>> {
    s.map_values(|r: SampleReadings| r.perf_cycles)
}

/// Timestamp counter readings of the samples.
pub open spec fn tsc_readings(s: Seq<SampleReadings>) -> Seq<Option<u64>> {
    s.map_values(|r: SampleReadings| tsc_elapsed(r))
}

/// Instruction counter readings of the samples.
pub open spec fn instruction_readings(s: Seq<SampleReadings>) -> Seq<Option<u64>> {
    s.map_values(|r: SampleReadings| r.instructions)
}

/// Wall-clock readings of the samples.
pub open spec fn time_readings(s: Seq<SampleReadings>) -> Seq<Option<u64>> {
    s.map_values(|r: SampleReadings| r.time_ns)
}

/// The reported cycle count: the hardware cycle counter's minimum where it gave
/// any reading, else the timestamp counter's minimum, else 0.
pub open spec fn reported_cycles(perf_min: u64, tsc_min: u64) -> u64 {
    if perf_min != u64::MAX {
        perf_min
    } else if tsc_min != u64::MAX {
        tsc_min
    } else {
        0
    }
}

/// The result of a run from its samples, the allocation counts of the tracked
/// call, and whether wall-clock time is recorded.
pub open spec fn run_result(samples: Seq<SampleReadings>, allocs: AllocCounts, real_time: bool) -> Measurement {
    let inst = min_reading(instruction_readings(samples));
    Measurement {
        cycles: reported_cycles(
            min_reading(perf_cycle_readings(samples)),
            min_reading(tsc_readings(samples)),
        ),
        instructions: if inst == u64::MAX {
            None
        } else {
            Some(inst)
        },
        time_ns: if real_time {
            match min_optional(time_readings(samples)) {
                Some(t) => Some(t),
                None => Some(0),
            }
        } else {
            None
        },
        alloc_count: allocs.alloc_count,
        alloc_bytes: allocs.alloc_bytes,
        dealloc_count: allocs.dealloc_count,
        dealloc_bytes: allocs.dealloc_bytes,
        net_bytes: ((allocs.alloc_bytes as isize) - (allocs.dealloc_bytes as isize)) as isize,
    }
}

/// The decisions of one measuring run.
pub struct RunState {
    phase: RunPhase,
    warmups_done: usize,
    samples_taken: usize,
    real_time: bool,
    min_perf_cycles: u64,
    min_tsc_cycles: u64,
    min_instructions: u64,
    min_time_ns: Option<u64>,
    samples: Ghost<Seq<SampleReadings>>,
}

/// Folding one more reading into a running minimum.
proof fn lemma_min_reading_push(values: Seq<Option<u64>>, v: Option<u64>)
    ensures
        min_reading(values.push(v)) == match v {
            Some(x) => min_u64(min_reading(values), x),
            None => min_reading(values),
        },
        min_optional(values.push(v)) == match v {
            Some(x) => match min_optional(values) {
                Some(prev) => Some(min_u64(prev, x)),
                None => Some(x),
            },
            None => min_optional(values),
        },
{
    assert(values.push(v).drop_last() =~= values);
}

impl RunState {
    /// Where the run stands.
    pub closed spec fn spec_phase(&self) -> RunPhase {
        self.phase
    }

    /// Warm-up calls done so far.
    pub closed spec fn spec_warmups_done(&self) -> nat {
        self.warmups_done as nat
    }

    /// The samples taken so far, in order.
    pub closed spec fn spec_samples(&self) -> Seq<SampleReadings> {
        self.samples@
    }

    /// Whether wall-clock time is recorded.
    pub closed spec fn spec_real_time(&self) -> bool {
        self.real_time
    }

    /// The running minima agree with the samples, and the counts with the phase.
    #[verifier::type_invariant]
    spec fn wf(&self) -> bool {
        &&& self.min_perf_cycles == min_reading(perf_cycle_readings(self.samples@))
        &&& self.min_tsc_cycles == min_reading(tsc_readings(self.samples@))
        &&& self.min_instructions == min_reading(instruction_readings(self.samples@))
        &&& self.min_time_ns == min_optional(time_readings(self.samples@))
        &&& forall|i: int|
            0 <= i < self.samples@.len() ==> readings_valid(#[trigger] self.samples@[i])
        &&& self.warmups_done <= WARMUP_RUNS
        &&& self.samples_taken == self.samples@.len()
        &&& self.samples@.len() <= SAMPLE_RUNS
        &&& match self.phase {
            RunPhase::NotStarted => self.warmups_done == 0 && self.samples@.len() == 0,
            RunPhase::WarmingUp => self.warmups_done < WARMUP_RUNS && self.samples@.len() == 0,
            RunPhase::Sampling => self.warmups_done == WARMUP_RUNS && self.samples@.len()
                < SAMPLE_RUNS,
            RunPhase::Probing => self.warmups_done == WARMUP_RUNS && self.samples@.len()
                == SAMPLE_RUNS,
            RunPhase::Done => self.warmups_done == WARMUP_RUNS && self.samples@.len()
                == SAMPLE_RUNS,
        }
    }

    /// The event is the one the run waits for, with consistent readings.
    pub open spec fn accepts(&self, event: RunEvent) -> bool {
        match event {
            RunEvent::Started => self.spec_phase() == RunPhase::NotStarted,
            RunEvent::WarmupFinished => self.spec_phase() == RunPhase::WarmingUp,
            RunEvent::SampleTaken(r) => self.spec_phase() == RunPhase::Sampling && readings_valid(
                r,
            ),
            RunEvent::AllocationsProbed(before, after) => {
                &&& self.spec_phase() == RunPhase::Probing
                &&& before.le(after)
                &&& signed_difference_fits(
                    after.spec_since(before).alloc_bytes,
                    after.spec_since(before).dealloc_bytes,
                )
            },
        }
    }

    /// A run that has not started; `real_time` says whether wall-clock time is recorded.
    pub fn new(real_time: bool) -> (r: Self)
        ensures
            r.spec_phase() == RunPhase::NotStarted,
            r.spec_warmups_done() == 0,
            r.spec_samples() == Seq::<SampleReadings>::empty(),
            r.spec_real_time() == real_time,
    {
        RunState {
            phase: RunPhase::NotStarted,
            warmups_done: 0,
            samples_taken: 0,
            real_time,
            min_perf_cycles: u64::MAX,
            min_tsc_cycles: u64::MAX,
            min_instructions: u64::MAX,
            min_time_ns: None,
            samples: Ghost(Seq::empty()),
        }
    }

    /// Takes in what happened and says what to do next.
    pub fn step(&mut self, event: RunEvent) -> (action: RunAction)
        requires
            old(self).accepts(event),
        ensures
            final(self).spec_real_time() == old(self).spec_real_time(),
            match event {
                RunEvent::Started => {
                    &&& final(self).spec_phase() == RunPhase::WarmingUp
                    &&& final(self).spec_warmups_done() == 0
                    &&& final(self).spec_samples() == old(self).spec_samples()
                    &&& action is Warmup
                },
                RunEvent::WarmupFinished => {
                    &&& final(self).spec_warmups_done() == old(self).spec_warmups_done() + 1
                    &&& final(self).spec_samples() == old(self).spec_samples()
                    &&& if final(self).spec_warmups_done() < WARMUP_RUNS {
                        final(self).spec_phase() == RunPhase::WarmingUp && action is Warmup
                    } else {
                        final(self).spec_phase() == RunPhase::Sampling && action is Sample
                    }
                },
                RunEvent::SampleTaken(r) => {
                    &&& final(self).spec_warmups_done() == old(self).spec_warmups_done()
                    &&& final(self).spec_samples() == old(self).spec_samples().push(r)
                    &&& if final(self).spec_samples().len() < SAMPLE_RUNS {
                        final(self).spec_phase() == RunPhase::Sampling && action is Sample
                    } else {
                        final(self).spec_phase() == RunPhase::Probing && action is ProbeAllocations
                    }
                },
                RunEvent::AllocationsProbed(before, after) => {
                    &&& final(self).spec_warmups_done() == old(self).spec_warmups_done()
                    &&& final(self).spec_samples() == old(self).spec_samples()
                    &&& final(self).spec_phase() == RunPhase::Done
                    &&& action == RunAction::Finished(
                        run_result(
                            old(self).spec_samples(),
                            after.spec_since(before),
                            old(self).spec_real_time(),
                        ),
                    )
                },
            },
    {
        proof {
            use_type_invariant(&*self);
        }
        let mut phase = self.phase;
        let mut warmups_done = self.warmups_done;
        let mut samples_taken = self.samples_taken;
        let real_time = self.real_time;
        let mut min_perf_cycles = self.min_perf_cycles;
        let mut min_tsc_cycles = self.min_tsc_cycles;
        let mut min_instructions = self.min_instructions;
        let mut min_time_ns = self.min_time_ns;
        let mut samples = self.samples;
        let action = match event {
            RunEvent::Started => {
                phase = RunPhase::WarmingUp;
                RunAction::Warmup
            },
            RunEvent::WarmupFinished => {
                warmups_done = warmups_done + 1;
                if warmups_done < WARMUP_RUNS {
                    RunAction::Warmup
                } else {
                    phase = RunPhase::Sampling;
                    RunAction::Sample
                }
            },
            RunEvent::SampleTaken(r) => {
                let ghost prev = samples@;
                let ghost next = prev.push(r);
                proof {
                    assert(perf_cycle_readings(next) =~= perf_cycle_readings(prev).push(
                        r.perf_cycles,
                    ));
                    assert(tsc_readings(next) =~= tsc_readings(prev).push(tsc_elapsed(r)));
                    assert(instruction_readings(next) =~= instruction_readings(prev).push(
                        r.instructions,
                    ));
                    assert(time_readings(next) =~= time_readings(prev).push(r.time_ns));
                    lemma_min_reading_push(perf_cycle_readings(prev), r.perf_cycles);
                    lemma_min_reading_push(tsc_readings(prev), tsc_elapsed(r));
                    lemma_min_reading_push(instruction_readings(prev), r.instructions);
                    lemma_min_reading_push(time_readings(prev), r.time_ns);
                }
                if let Some(c) = r.perf_cycles {
                    if c < min_perf_cycles {
                        min_perf_cycles = c;
                    }
                }
                if let Some((start, end)) = r.tsc {
                    let elapsed = end - start;
                    if elapsed < min_tsc_cycles {
                        min_tsc_cycles = elapsed;
                    }
                }
                if let Some(n) = r.instructions {
                    if n < min_instructions {
                        min_instructions = n;
                    }
                }
                if let Some(t) = r.time_ns {
                    min_time_ns = match min_time_ns {
                        Some(prev_t) => Some(if t < prev_t {
                            t
                        } else {
                            prev_t
                        }),
                        None => Some(t),
                    };
                }
                samples = Ghost(next);
                samples_taken = samples_taken + 1;
                proof {
                    assert forall|i: int| 0 <= i < next.len() implies readings_valid(
                        #[trigger] next[i],
                    ) by {
                        if i < prev.len() {
                            assert(next[i] == prev[i]);
                        }
                    }
                }
                if samples_taken < SAMPLE_RUNS {
                    RunAction::Sample
                } else {
                    phase = RunPhase::Probing;
                    RunAction::ProbeAllocations
                }
            },
            RunEvent::AllocationsProbed(before, after) => {
                let allocs = after.since(&before);
                let cycles = if min_perf_cycles != u64::MAX {
                    min_perf_cycles
                } else if min_tsc_cycles != u64::MAX {
                    min_tsc_cycles
                } else {
                    0
                };
                let instructions = if min_instructions == u64::MAX {
                    None
                } else {
                    Some(min_instructions)
                };
                let time_ns = if real_time {
                    match min_time_ns {
                        Some(t) => Some(t),
                        None => Some(0),
                    }
                } else {
                    None
                };
                phase = RunPhase::Done;
                RunAction::Finished(
                    Measurement::new(
                        cycles,
                        instructions,
                        time_ns,
                        allocs.alloc_count,
                        allocs.alloc_bytes,
                        allocs.dealloc_count,
                        allocs.dealloc_bytes,
                    ),
                )
            },
        };
        *self = RunState {
            phase,
            warmups_done,
            samples_taken,
            real_time,
            min_perf_cycles,
            min_tsc_cycles,
            min_instructions,
            min_time_ns,
            samples,
        };
        action
    }
}

/// The kept minimum is at most every reading, and when a reading was kept it
/// is one of the readings.
pub proof fn law_min_reading(values: Seq<Option<u64>>)
    ensures
        forall|i: int|
            0 <= i < values.len() ==> (#[trigger] values[i] matches Some(v) ==> min_reading(values)
                <= v),
        min_reading(values) != u64::MAX ==> exists|i: int|
            0 <= i < values.len() && values[i] == Some(min_reading(values)),
    decreases values.len(),
{
    if values.len() > 0 {
        let init = values.drop_last();
        law_min_reading(init);
        assert forall|i: int|
            0 <= i < values.len() implies (#[trigger] values[i] matches Some(v) ==> min_reading(
            values,
        ) <= v) by {
            if i < values.len() - 1 {
                assert(values[i] == init[i]);
            }
        }
        if min_reading(values) != u64::MAX {
            if min_reading(values) == min_reading(init) {
                let i = choose|i: int| 0 <= i < init.len() && init[i] == Some(min_reading(init));
                assert(values[i] == init[i]);
            } else {
                assert(values[values.len() - 1] == Some(min_reading(values)));
            }
        }
    }
}

/// The recorded time is at most every time reading, and is one of them when there is one.
pub proof fn law_min_optional(values: Seq<Option<u64>>)
    ensures
        forall|i: int|
            0 <= i < values.len() ==> (#[trigger] values[i] matches Some(v) ==> (min_optional(
                values,
            ) matches Some(m) && m <= v)),
        min_optional(values) matches Some(m) ==> exists|i: int|
            0 <= i < values.len() && values[i] == Some(m),
        min_optional(values) is None ==> forall|i: int|
            0 <= i < values.len() ==> #[trigger] values[i] is None,
    decreases values.len(),
{
    if values.len() > 0 {
        let init = values.drop_last();
        law_min_optional(init);
        assert forall|i: int| 0 <= i < values.len() implies (#[trigger] values[i] matches Some(v) ==> (
        min_optional(values) matches Some(m) && m <= v)) by {
            if i < values.len() - 1 {
                assert(values[i] == init[i]);
            }
        }
        if let Some(m) = min_optional(values) {
            if min_optional(init) == Some(m) {
                let i = choose|i: int| 0 <= i < init.len() && init[i] == Some(m);
                assert(values[i] == init[i]);
            } else {
                assert(values[values.len() - 1] == Some(m));
            }
        } else {
            assert forall|i: int| 0 <= i < values.len() implies #[trigger] values[i] is None by {
                if i < values.len() - 1 {
                    assert(values[i] == init[i]);
                }
            }
        }
    }
}

/// The reported cycle count is the smallest cycle-counter reading of the samples
/// when that counter gave one, else the smallest timestamp-counter reading, else 0;
/// in each case it is no larger than any reading of the counter it came from.
pub proof fn law_reported_cycles(samples: Seq<SampleReadings>, allocs: AllocCounts, real_time: bool)
    ensures
        ({
            let m = run_result(samples, allocs, real_time);
            let perf = perf_cycle_readings(samples);
            let tsc = tsc_readings(samples);
            &&& (exists|i: int| 0 <= i < samples.len() && perf[i] == Some(m.cycles)) || (exists|
                i: int,
            | 0 <= i < samples.len() && tsc[i] == Some(m.cycles)) || m.cycles == 0
            &&& min_reading(perf) != u64::MAX ==> forall|i: int|
                0 <= i < samples.len() ==> (#[trigger] perf[i] matches Some(v) ==> m.cycles <= v)
            &&& min_reading(perf) == u64::MAX && min_reading(tsc) != u64::MAX ==> forall|i: int|
                0 <= i < samples.len() ==> (#[trigger] tsc[i] matches Some(v) ==> m.cycles <= v)
        }),
{
    law_min_reading(perf_cycle_readings(samples));
    law_min_reading(tsc_readings(samples));
}

/// Where some sample read the hardware cycle counter (below `u64::MAX`, the
/// value that stands for "no reading"), the reported cycles are the smallest
/// such reading: one of the readings, and no larger than any of them, whatever
/// the timestamp counter gave.
pub proof fn law_cycles_from_cycle_counter(
    samples: Seq<SampleReadings>,
    allocs: AllocCounts,
    real_time: bool,
)
    requires
        exists|i: int|
            0 <= i < samples.len() && (#[trigger] samples[i].perf_cycles matches Some(v) && v
                < u64::MAX),
    ensures
        exists|i: int|
            0 <= i < samples.len() && samples[i].perf_cycles == Some(
                run_result(samples, allocs, real_time).cycles,
            ),
        forall|i: int|
            0 <= i < samples.len() ==> (#[trigger] samples[i].perf_cycles matches Some(v) ==> run_result(
                samples,
                allocs,
                real_time,
            ).cycles <= v),
{
    let perf = perf_cycle_readings(samples);
    law_min_reading(perf);
    let w = choose|i: int|
        0 <= i < samples.len() && (#[trigger] samples[i].perf_cycles matches Some(v) && v
            < u64::MAX);
    assert(perf[w] == samples[w].perf_cycles);
    assert(min_reading(perf) != u64::MAX);
    let k = choose|i: int| 0 <= i < samples.len() && perf[i] == Some(min_reading(perf));
    assert(samples[k].perf_cycles == perf[k]);
    assert forall|i: int| 0 <= i < samples.len() implies (#[trigger] samples[i].perf_cycles matches Some(
        v,
    ) ==> run_result(samples, allocs, real_time).cycles <= v) by {
        assert(perf[i] == samples[i].perf_cycles);
    }
}

/// Where no sample read the hardware cycle counter but some read the timestamp
/// counter, the reported cycles are the smallest timestamp-counter count; where
/// neither counter gave a reading, they are 0.
pub proof fn law_cycles_fallback(samples: Seq<SampleReadings>, allocs: AllocCounts, real_time: bool)
    requires
        forall|i: int|
            0 <= i < samples.len() ==> (#[trigger] samples[i].perf_cycles matches Some(v) ==> v
                == u64::MAX),
    ensures
        (exists|i: int|
            0 <= i < samples.len() && (#[trigger] samples[i].tsc matches Some((a, b)) && ((b - a) as u64)
                < u64::MAX)) ==> {
            &&& exists|i: int|
                0 <= i < samples.len() && (#[trigger] samples[i].tsc matches Some((a, b)) && ((b - a) as u64)
                    == run_result(samples, allocs, real_time).cycles)
            &&& forall|i: int|
                0 <= i < samples.len() ==> (#[trigger] samples[i].tsc matches Some((a, b)) ==> run_result(
                    samples,
                    allocs,
                    real_time,
                ).cycles <= ((b - a) as u64))
        },
        (forall|i: int|
            0 <= i < samples.len() ==> (#[trigger] samples[i].tsc matches Some((a, b)) ==> ((b - a) as u64)
                == u64::MAX)) ==> run_result(samples, allocs, real_time).cycles == 0,
{
    let perf = perf_cycle_readings(samples);
    let tsc = tsc_readings(samples);
    law_min_reading(perf);
    law_min_reading(tsc);
    if min_reading(perf) != u64::MAX {
        let k = choose|i: int| 0 <= i < samples.len() && perf[i] == Some(min_reading(perf));
        assert(samples[k].perf_cycles == perf[k]);
    }
    assert(min_reading(perf) == u64::MAX);
    if exists|i: int|
        0 <= i < samples.len() && (#[trigger] samples[i].tsc matches Some((a, b)) && ((b - a) as u64)
            < u64::MAX) {
        let w = choose|i: int|
            0 <= i < samples.len() && (#[trigger] samples[i].tsc matches Some((a, b)) && ((b - a) as u64)
                < u64::MAX);
        assert(tsc[w] == tsc_elapsed(samples[w]));
        assert(min_reading(tsc) != u64::MAX);
        let k = choose|i: int| 0 <= i < samples.len() && tsc[i] == Some(min_reading(tsc));
        assert(tsc[k] == tsc_elapsed(samples[k]));
        assert forall|i: int| 0 <= i < samples.len() implies (#[trigger] samples[i].tsc matches Some((a, b))
            ==> run_result(samples, allocs, real_time).cycles <= ((b - a) as u64)) by {
            assert(tsc[i] == tsc_elapsed(samples[i]));
        }
    }
    if forall|i: int|
        0 <= i < samples.len() ==> (#[trigger] samples[i].tsc matches Some((a, b)) ==> ((b - a) as u64)
            == u64::MAX) {
        if min_reading(tsc) != u64::MAX {
            let k = choose|i: int| 0 <= i < samples.len() && tsc[i] == Some(min_reading(tsc));
            assert(tsc[k] == tsc_elapsed(samples[k]));
        }
    }
}

/// With wall-clock time recorded, the reported time is the smallest time
/// reading of the samples (one of them, no larger than any), or 0 when no
/// sample has one, whatever the counters gave; without it, there is no time.
pub proof fn law_time_is_smallest_reading(
    samples: Seq<SampleReadings>,
    allocs: AllocCounts,
    real_time: bool,
)
    ensures
        !real_time ==> run_result(samples, allocs, real_time).time_ns is None,
        real_time && (exists|i: int| 0 <= i < samples.len() && #[trigger] samples[i].time_ns is Some)
            ==> {
            &&& run_result(samples, allocs, real_time).time_ns is Some
            &&& exists|i: int|
                0 <= i < samples.len() && samples[i].time_ns == run_result(
                    samples,
                    allocs,
                    real_time,
                ).time_ns
            &&& forall|i: int|
                0 <= i < samples.len() ==> (#[trigger] samples[i].time_ns matches Some(v) ==> run_result(
                    samples,
                    allocs,
                    real_time,
                ).time_ns->0 <= v)
        },
        real_time && (forall|i: int| 0 <= i < samples.len() ==> #[trigger] samples[i].time_ns is None)
            ==> run_result(samples, allocs, real_time).time_ns == Some(0u64),
{
    let times = time_readings(samples);
    law_min_optional(times);
    if real_time {
        if exists|i: int| 0 <= i < samples.len() && #[trigger] samples[i].time_ns is Some {
            let w = choose|i: int| 0 <= i < samples.len() && #[trigger] samples[i].time_ns is Some;
            assert(times[w] == samples[w].time_ns);
            let m = min_optional(times)->0;
            let k = choose|i: int| 0 <= i < samples.len() && times[i] == Some(m);
            assert(samples[k].time_ns == times[k]);
            assert forall|i: int| 0 <= i < samples.len() implies (#[trigger] samples[i].time_ns matches Some(
                v,
            ) ==> run_result(samples, allocs, real_time).time_ns->0 <= v) by {
                assert(times[i] == samples[i].time_ns);
            }
        }
        if forall|i: int| 0 <= i < samples.len() ==> #[trigger] samples[i].time_ns is None {
            if let Some(m) = min_optional(times) {
                let k = choose|i: int| 0 <= i < samples.len() && times[i] == Some(m);
                assert(samples[k].time_ns == times[k]);
            }
        }
    }
}

/// The instruction count is the smallest instruction-counter reading (below
/// `u64::MAX`) of the samples, and absent when there is none; the allocation
/// figures are those of the tracked call, with the net bytes their difference.
pub proof fn law_instructions_and_allocations(
    samples: Seq<SampleReadings>,
    allocs: AllocCounts,
    real_time: bool,
)
    ensures
        (exists|i: int|
            0 <= i < samples.len() && (#[trigger] samples[i].instructions matches Some(v) && v
                < u64::MAX)) ==> {
            &&& run_result(samples, allocs, real_time).instructions is Some
            &&& exists|i: int|
                0 <= i < samples.len() && samples[i].instructions == run_result(
                    samples,
                    allocs,
                    real_time,
                ).instructions
            &&& forall|i: int|
                0 <= i < samples.len() ==> (#[trigger] samples[i].instructions matches Some(v)
                    ==> run_result(samples, allocs, real_time).instructions->0 <= v)
        },
        (forall|i: int|
            0 <= i < samples.len() ==> (#[trigger] samples[i].instructions matches Some(v) ==> v
                == u64::MAX)) ==> run_result(samples, allocs, real_time).instructions is None,
        run_result(samples, allocs, real_time).alloc_count == allocs.alloc_count,
        run_result(samples, allocs, real_time).alloc_bytes == allocs.alloc_bytes,
        run_result(samples, allocs, real_time).dealloc_count == allocs.dealloc_count,
        run_result(samples, allocs, real_time).dealloc_bytes == allocs.dealloc_bytes,
{
    let ins = instruction_readings(samples);
    law_min_reading(ins);
    if exists|i: int|
        0 <= i < samples.len() && (#[trigger] samples[i].instructions matches Some(v) && v
            < u64::MAX) {
        let w = choose|i: int|
            0 <= i < samples.len() && (#[trigger] samples[i].instructions matches Some(v) && v
                < u64::MAX);
        assert(ins[w] == samples[w].instructions);
        let k = choose|i: int| 0 <= i < samples.len() && ins[i] == Some(min_reading(ins));
        assert(samples[k].instructions == ins[k]);
        assert forall|i: int| 0 <= i < samples.len() implies (#[trigger] samples[i].instructions matches Some(
            v,
        ) ==> run_result(samples, allocs, real_time).instructions->0 <= v) by {
            assert(ins[i] == samples[i].instructions);
        }
    }
    if min_reading(ins) != u64::MAX {
        let k = choose|i: int| 0 <= i < samples.len() && ins[i] == Some(min_reading(ins));
        assert(samples[k].instructions == ins[k]);
    }
}

/// A run makes a hundred warm-up calls and then takes a hundred samples.
pub proof fn law_run_lengths()
    ensures
        WARMUP_RUNS == 100,
        SAMPLE_RUNS == 100,
{
}

} // verus!
