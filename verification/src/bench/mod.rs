//! The benchmark patterns this suite supports, each a named benchmark that
//! runs its target on one input or on a series of inputs.
pub mod instant;
pub mod scaling;

use crate::runner::measurement::Measurement;
use vstd::prelude::*;

verus! {

/// A benchmark pattern supported by this suite.
pub trait Bench<I> {
    /// The benchmark's name.
    spec fn spec_name(&self) -> Seq<char>;

    /// The benchmark's description, if it has one.
    spec fn spec_description(&self) -> Option<Seq<char>>;

    /// Which kind of benchmark this is.
    spec fn spec_pattern(&self) -> BenchPattern;

    /// The name of this benchmark.
    fn name(&self) -> (r: &String)
        ensures
            r@ == self.spec_name(),
    ;

    /// The description of this benchmark.
    fn description(&self) -> (r: Option<&String>)
        ensures
            r is None <==> self.spec_description() is None,
            r matches Some(d) ==> self.spec_description() == Some(d@),
    ;

    /// Which kind of benchmark this is.
    fn pattern(&self) -> (r: BenchPattern)
        ensures
            r == self.spec_pattern(),
    ;
}

/// The kind of a benchmark.
#[derive(Debug, Clone, Copy, PartialEq, Eq)]
pub enum BenchPattern {
    /// One run on a single representative input.
    Instant,
    /// One run for each input of a series.
    Scaling,
}

/// What running a benchmark gives.
pub enum BenchResult<I> {
    /// The input and its measurement.
    Instant((I, Measurement)),
    /// Each input with its measurement, in the order of the inputs.
    Scaling(Vec<(I, Measurement)>),
}

} // verus!
