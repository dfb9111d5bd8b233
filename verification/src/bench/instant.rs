//! A benchmark on one representative input, for tracking a trend over time.
use super::{Bench, BenchPattern, BenchResult};
use crate::runner::measurement::Measurement;
use crate::runner::Runner;
use vstd::prelude::*;
use vstd::string::*;

verus! {

/// A benchmark that runs its target on one representative input.
pub struct InstantBench<I, F> {
    name: String,
    description: Option<String>,
    runner: Runner<I, F>,
}

impl<I, F> InstantBench<I, F> {
    /// The runner that holds the target and its input.
    pub closed spec fn spec_runner(&self) -> Runner<I, F> {
        self.runner
    }

    /// Creates a benchmark named `name` that runs `function` on `input`, with no description.
    pub fn new(name: &str, input: I, function: F) -> (r: Self)
        ensures
            r.spec_name() == name@,
            r.spec_description() is None,
            r.spec_runner().spec_input() == input,
            r.spec_runner().spec_function() == function,
    {
        InstantBench { name: String::from_str(name), description: None, runner: Runner::new(input, function) }
    }

    /// The same benchmark with the description `description`.
    pub fn with_description(self, description: &str) -> (r: Self)
        ensures
            r.spec_name() == self.spec_name(),
            r.spec_description() == Some(description@),
            r.spec_runner() == self.spec_runner(),
    {
        InstantBench { description: Some(String::from_str(description)), ..self }
    }

    /// The runner, for the program that performs the run.
    pub fn runner_mut(&mut self) -> (r: &mut Runner<I, F>)
        ensures
            *r == old(self).spec_runner(),
            final(self).spec_runner() == *final(r),
            final(self).spec_name() == old(self).spec_name(),
            final(self).spec_description() == old(self).spec_description(),
    {
        &mut self.runner
    }

    /// The result of a run that measured `measurement`: the input with it.
    pub fn result_of(&self, measurement: Measurement) -> (r: BenchResult<I>) where I: Clone
        ensures
            r matches BenchResult::Instant((input, m)) && m == measurement && cloned(
                self.spec_runner().spec_input(),
                input,
            ),
    {
        BenchResult::Instant((self.runner.input().clone(), measurement))
    }
}

impl<I, F> Bench<I> for InstantBench<I, F> {
    closed spec fn spec_name(&self) -> Seq<char> {
        self.name@
    }

    closed spec fn spec_description(&self) -> Option<Seq<char>> {
        match self.description {
            Some(d) => Some(d@),
            None => None,
        }
    }

    open spec fn spec_pattern(&self) -> BenchPattern {
        BenchPattern::Instant
    }

    fn name(&self) -> (r: &String) {
        &self.name
    }

    fn description(&self) -> (r: Option<&String>) {
        self.description.as_ref()
    }

    fn pattern(&self) -> (r: BenchPattern) {
        BenchPattern::Instant
    }
}

} // verus!
