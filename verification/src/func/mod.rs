//! The benchmark suite: competing functions measured against benchmark scenarios.
pub mod history;
pub mod output;
pub mod page;
pub mod page_data;
pub mod schedule;

use vstd::prelude::*;
use vstd::string::*;

verus! {

/// The input pattern for a benchmark.
///
/// Defines whether the benchmark is run with a single representative value
/// (`Instant`) or a series of values to observe performance scaling (`Scaling`).
pub enum Bench<I> {
    /// Benchmark with a single representative value.
    Instant(I),
    /// Benchmark with multiple values to measure scaling and trends.
    Scaling(Vec<I>),
}

/// The inputs a pattern runs on, in order.
pub open spec fn inputs_of<I>(b: Bench<I>) -> Seq<I> {
    match b {
        Bench::Instant(v) => seq![v],
        Bench::Scaling(vs) => vs@,
    }
}

/// The name of a pattern's kind: `instant` or `scaling`.
pub open spec fn pattern_type_of<I>(b: Bench<I>) -> Seq<char> {
    match b {
        Bench::Instant(_) => "instant"@,
        Bench::Scaling(_) => "scaling"@,
    }
}

impl<I> Bench<I> {
    /// The number of inputs.
    pub fn input_count(&self) -> (r: usize)
        ensures
            r == inputs_of(*self).len(),
    {
        match self {
            Bench::Instant(_) => 1,
            Bench::Scaling(vs) => vs.len(),
        }
    }

    /// The `k`-th input.
    pub fn input_at(&self, k: usize) -> (r: &I)
        requires
            k < inputs_of(*self).len(),
        ensures
            *r == inputs_of(*self)[k as int],
    {
        match self {
            Bench::Instant(v) => v,
            Bench::Scaling(vs) => &vs[k],
        }
    }

    /// The name of this pattern's kind, `instant` or `scaling`.
    pub fn pattern_type(&self) -> (r: String)
        ensures
            r@ == pattern_type_of(*self),
    {
        match self {
            Bench::Instant(_) => String::from_str("instant"),
            Bench::Scaling(_) => String::from_str("scaling"),
        }
    }
}

/// A single benchmark scenario (pattern).
pub struct BenchPattern<I> {
    /// The name of the benchmark pattern.
    pub name: String,
    /// A human-readable description of what this pattern tests.
    pub description: String,
    /// The input values and pattern type (`Instant` or `Scaling`).
    pub input: Bench<I>,
}

/// The main orchestrator for benchmarking.
///
/// `Func` registers competing functions and benchmark scenarios (patterns); every
/// function is measured against every pattern (the full cross product).
pub struct Func<I, F> {
    name: String,
    description: Option<String>,
    functions: Vec<(String, F)>,
    patterns: Vec<BenchPattern<I>>,
}

/// The names of registered functions, in registration order.
pub open spec fn names_of<F>(fs: Seq<(String, F)>) -> Seq<Seq<char>> {
    fs.map_values(|p: (String, F)| p.0@)
}

impl<I, F> Func<I, F> {
    /// The suite's name.
    pub closed spec fn spec_name(&self) -> Seq<char> {
        self.name@
    }

    /// The suite's description, if it has one.
    pub closed spec fn spec_description(&self) -> Option<Seq<char>> {
        match self.description {
            Some(d) => Some(d@),
            None => None,
        }
    }

    /// The registered functions with their names, in registration order.
    pub closed spec fn spec_functions(&self) -> Seq<(String, F)> {
        self.functions@
    }

    /// The registered patterns, in registration order.
    pub closed spec fn spec_patterns(&self) -> Seq<BenchPattern<I>> {
        self.patterns@
    }

    /// Creates an empty suite named `name`.
    pub fn new(name: &str) -> (r: Self)
        ensures
            r.spec_name() == name@,
            r.spec_description() is None,
            r.spec_functions().len() == 0,
            r.spec_patterns().len() == 0,
    {
        Func {
            name: String::from_str(name),
            description: None,
            functions: Vec::new(),
            patterns: Vec::new(),
        }
    }

    /// The same suite with the description `description`.
    pub fn with_description(self, description: &str) -> (r: Self)
        ensures
            r.spec_name() == self.spec_name(),
            r.spec_description() == Some(description@),
            r.spec_functions() == self.spec_functions(),
            r.spec_patterns() == self.spec_patterns(),
    {
        Func { description: Some(String::from_str(description)), ..self }
    }

    /// The same suite with `func` registered under `name` after the functions
    /// already registered.
    pub fn add_function(self, name: &str, func: F) -> (r: Self)
        ensures
            r.spec_name() == self.spec_name(),
            r.spec_description() == self.spec_description(),
            r.spec_patterns() == self.spec_patterns(),
            r.spec_functions().len() == self.spec_functions().len() + 1,
            r.spec_functions().drop_last() == self.spec_functions(),
            r.spec_functions().last().0@ == name@,
            r.spec_functions().last().1 == func,
    {
        let mut s = self;
        s.functions.push((String::from_str(name), func));
        proof {
            assert(s.functions@.drop_last() =~= self.functions@);
        }
        s
    }

    /// The same suite with a pattern named `name` registered after the patterns
    /// already registered.
    pub fn add_bench(self, name: &str, description: &str, input: Bench<I>) -> (r: Self)
        ensures
            r.spec_name() == self.spec_name(),
            r.spec_description() == self.spec_description(),
            r.spec_functions() == self.spec_functions(),
            r.spec_patterns().len() == self.spec_patterns().len() + 1,
            r.spec_patterns().drop_last() == self.spec_patterns(),
            r.spec_patterns().last().name@ == name@,
            r.spec_patterns().last().description@ == description@,
            r.spec_patterns().last().input == input,
    {
        let mut s = self;
        s.patterns.push(
            BenchPattern {
                name: String::from_str(name),
                description: String::from_str(description),
                input,
            },
        );
        proof {
            assert(s.patterns@.drop_last() =~= self.patterns@);
        }
        s
    }

    /// The suite's name.
    pub fn name(&self) -> (r: &String)
        ensures
            r@ == self.spec_name(),
    {
        &self.name
    }

    /// The number of registered functions.
    pub fn function_count(&self) -> (r: usize)
        ensures
            r == self.spec_functions().len(),
    {
        self.functions.len()
    }

    /// The name of the `j`-th registered function.
    pub fn function_name(&self, j: usize) -> (r: &String)
        requires
            j < self.spec_functions().len(),
        ensures
            r@ == self.spec_functions()[j as int].0@,
    {
        &self.functions[j].0
    }

    /// The `j`-th registered function, for the program that runs it.
    pub fn function_mut(&mut self, j: usize) -> (r: &mut F)
        requires
            j < old(self).spec_functions().len(),
        ensures
            *r == old(self).spec_functions()[j as int].1,
            final(self).spec_functions() == old(self).spec_functions().update(
                j as int,
                (old(self).spec_functions()[j as int].0, *final(r)),
            ),
            final(self).spec_patterns() == old(self).spec_patterns(),
            final(self).spec_name() == old(self).spec_name(),
            final(self).spec_description() == old(self).spec_description(),
    {
        &mut self.functions[j].1
    }

    /// The number of registered patterns.
    pub fn pattern_count(&self) -> (r: usize)
        ensures
            r == self.spec_patterns().len(),
    {
        self.patterns.len()
    }

    /// The `p`-th registered pattern.
    pub fn pattern(&self, p: usize) -> (r: &BenchPattern<I>)
        requires
            p < self.spec_patterns().len(),
        ensures
            *r == self.spec_patterns()[p as int],
    {
        &self.patterns[p]
    }
}

/// An instant pattern runs on its one input and is called `instant`; a
/// scaling pattern runs on each of its inputs, in order, and is called
/// `scaling`.
pub proof fn law_pattern_inputs_and_kind<I>(v: I, vs: Vec<I>)
    ensures
        inputs_of(Bench::Instant(v)).len() == 1,
        inputs_of(Bench::Instant(v))[0] == v,
        inputs_of(Bench::Scaling(vs)) == vs@,
        pattern_type_of(Bench::<I>::Instant(v)) == "instant"@,
        pattern_type_of(Bench::<I>::Scaling(vs)) == "scaling"@,
{
}

} // verus!
