//! A benchmark on a series of inputs, for observing how cost grows with the input.
use super::{Bench, BenchPattern, BenchResult};
use crate::runner::measurement::Measurement;
use vstd::prelude::*;
use vstd::string::*;

verus! {

/// A benchmark that runs one target on each input of a series. It has no
/// description: none is given when it is made, and nothing can set one.
pub struct ScalingBench<I, F> {
    name: String,
    inputs: Vec<I>,
    function: F,
}

impl<I, F> ScalingBench<I, F> {
    /// The inputs, in order.
    pub closed spec fn spec_inputs(&self) -> Seq<I> {
        self.inputs@
    }

    /// The target function.
    pub closed spec fn spec_function(&self) -> F {
        self.function
    }

    /// Creates a benchmark named `name` that runs `function` on each of `inputs`,
    /// with no description. (Callers holding another collection convert it with
    /// `.into()` first.)
    pub fn new(name: &str, inputs: Vec<I>, function: F) -> (r: Self)
        ensures
            r.spec_name() == name@,
            r.spec_description() is None,
            r.spec_inputs() == inputs@,
            r.spec_function() == function,
    {
        ScalingBench { name: String::from_str(name), inputs, function }
    }

    /// The inputs, in order.
    pub fn inputs(&self) -> (r: &Vec<I>)
        ensures
            r@ == self.spec_inputs(),
    {
        &self.inputs
    }

    /// The target, for the program that performs the runs.
    pub fn function_mut(&mut self) -> (r: &mut F)
        ensures
            *r == old(self).spec_function(),
            final(self).spec_function() == *final(r),
            final(self).spec_inputs() == old(self).spec_inputs(),
            final(self).spec_name() == old(self).spec_name(),
            final(self).spec_description() == old(self).spec_description(),
    {
        &mut self.function
    }

    /// The result of runs that measured `measurements[k]` for the `k`-th input:
    /// each input with its measurement, in order.
    pub fn result_of(&self, measurements: &Vec<Measurement>) -> (r: BenchResult<I>) where I: Clone
        requires
            measurements.len() == self.spec_inputs().len(),
        ensures
            r matches BenchResult::Scaling(pairs) && pairs.len() == self.spec_inputs().len()
                && forall|k: int|
                0 <= k < pairs.len() ==> #[trigger] pairs@[k].1 == measurements@[k] && cloned(
                    self.spec_inputs()[k],
                    pairs@[k].0,
                ),
    {
        let mut pairs: Vec<(I, Measurement)> = Vec::new();
        let n = self.inputs.len();
        let mut k: usize = 0;
        while k < n
            invariant
                n == self.inputs.len(),
                n == measurements.len(),
                k <= n,
                pairs.len() == k,
                forall|j: int|
                    0 <= j < k ==> #[trigger] pairs@[j].1 == measurements@[j] && cloned(
                        self.inputs@[j],
                        pairs@[j].0,
                    ),
            decreases n - k,
        {
            pairs.push((self.inputs[k].clone(), measurements[k]));
            k = k + 1;
        }
        BenchResult::Scaling(pairs)
    }
}

impl<I, F> Bench<I> for ScalingBench<I, F> {
    closed spec fn spec_name(&self) -> Seq<char> {
        self.name@
    }

    /// Never any: a scaling benchmark has no description.
    open spec fn spec_description(&self) -> Option<Seq<char>> {
        None
    }

    open spec fn spec_pattern(&self) -> BenchPattern {
        BenchPattern::Scaling
    }

    fn name(&self) -> (r: &String) {
        &self.name
    }

    /// Always none: a scaling benchmark has no description, whatever was
    /// done with it since it was made.
    fn description(&self) -> (r: Option<&String>)
        ensures
            r is None,
    {
        None
    }

    fn pattern(&self) -> (r: BenchPattern) {
        BenchPattern::Scaling
    }
}

} // verus!
