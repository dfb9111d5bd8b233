//! The order in which a suite run measures: pattern by pattern, within a
//! pattern function by function, within a function input by input. The
//! program that performs the runs asks which cell comes next, measures it and
//! hands the measurement back; the grid of measurements that results is the
//! one the report is built from.
use super::output::measurements_fit;
use super::{inputs_of, BenchPattern, Func};
use crate::runner::measurement::Measurement;
use vstd::prelude::*;

verus! {

/// The number of inputs of each pattern, in registration order.
pub open spec fn pattern_sizes<I>(ps: Seq<BenchPattern<I>>) -> Seq<int> {
    ps.map_values(|b: BenchPattern<I>| inputs_of(b.input).len() as int)
}

/// The first pattern at or after `p` that has a cell to measure (at least one
/// function and one input), or the number of patterns when there is none.
pub open spec fn first_nonempty(functions: int, sizes: Seq<int>, p: int) -> int
    decreases sizes.len() - p,
{
    if p >= sizes.len() {
        sizes.len() as int
    } else if functions > 0 && sizes[p] > 0 {
        p
    } else {
        first_nonempty(functions, sizes, p + 1)
    }
}

/// Cell `(p, j, k)` exists: pattern `p`, function `j`, input `k`.
pub open spec fn in_grid(functions: int, sizes: Seq<int>, c: (int, int, int)) -> bool {
    &&& 0 <= c.0 < sizes.len()
    &&& 0 <= c.1 < functions
    &&& 0 <= c.2 < sizes[c.0]
}

/// Cell `a` is measured before cell `b`: pattern first, then function, then input.
pub open spec fn runs_before(a: (int, int, int), b: (int, int, int)) -> bool {
    ||| a.0 < b.0
    ||| a.0 == b.0 && a.1 < b.1
    ||| a.0 == b.0 && a.1 == b.1 && a.2 < b.2
}

/// The first cell of a run.
pub open spec fn first_cell(functions: int, sizes: Seq<int>) -> (int, int, int) {
    (first_nonempty(functions, sizes, 0), 0, 0)
}

/// The cell measured after `c`: the next input, else the next function's first
/// input, else the first cell of the next pattern that has one. A first
/// component equal to the number of patterns means the run is over.
pub open spec fn cell_after(functions: int, sizes: Seq<int>, c: (int, int, int)) -> (int, int, int) {
    if c.2 + 1 < sizes[c.0] {
        (c.0, c.1, c.2 + 1)
    } else if c.1 + 1 < functions {
        (c.0, c.1 + 1, 0)
    } else {
        (first_nonempty(functions, sizes, c.0 + 1), 0, 0)
    }
}

/// The sizes as integers.
pub open spec fn int_sizes(v: Seq<usize>) -> Seq<int> {
    v.map_values(|n: usize| n as int)
}

/// Where a suite run stands, and what it has measured so far.
pub struct MeasureRun {
    functions: usize,
    sizes: Vec<usize>,
    pattern: usize,
    function: usize,
    input: usize,
    /// The measurements of the finished patterns.
    done: Vec<Vec<Vec<Measurement>>>,
    /// The measurements of the finished functions of the current pattern.
    current: Vec<Vec<Measurement>>,
    /// The measurements of the current function.
    row: Vec<Measurement>,
}

impl MeasureRun {
    /// The number of functions each pattern runs.
    pub closed spec fn spec_functions(self) -> int {
        self.functions as int
    }

    /// The number of inputs of each pattern.
    pub closed spec fn spec_sizes(self) -> Seq<int> {
        int_sizes(self.sizes@)
    }

    /// The cell to measure next; its first component is the number of
    /// patterns once the run is over.
    pub closed spec fn spec_position(self) -> (int, int, int) {
        (self.pattern as int, self.function as int, self.input as int)
    }

    /// The run is over.
    pub open spec fn spec_finished(self) -> bool {
        self.spec_position().0 >= self.spec_sizes().len()
    }

    /// The measurement taken for a cell that has been measured.
    pub closed spec fn spec_cell(self, c: (int, int, int)) -> Measurement {
        if c.0 < self.done@.len() {
            self.done@[c.0]@[c.1]@[c.2]
        } else if c.1 < self.current@.len() {
            self.current@[c.1]@[c.2]
        } else {
            self.row@[c.2]
        }
    }

    #[verifier::type_invariant]
    spec fn well_shaped(self) -> bool {
        let np = self.sizes@.len();
        let nf = self.functions as int;
        &&& self.pattern <= np
        &&& self.done@.len() == self.pattern
        &&& forall|q: int|
            0 <= q < self.pattern ==> {
                &&& #[trigger] self.done@[q]@.len() == nf
                &&& forall|j: int|
                    0 <= j < nf ==> #[trigger] self.done@[q]@[j]@.len() == self.sizes@[q]
            }
        &&& if self.pattern < np {
            &&& self.function < nf
            &&& self.input < self.sizes@[self.pattern as int]
            &&& self.current@.len() == self.function
            &&& forall|j: int|
                0 <= j < self.function ==> #[trigger] self.current@[j]@.len()
                    == self.sizes@[self.pattern as int]
            &&& self.row@.len() == self.input
        } else {
            &&& self.function == 0
            &&& self.input == 0
            &&& self.current@.len() == 0
            &&& self.row@.len() == 0
        }
    }
}

/// `first_nonempty` lands on a pattern with a cell, or past the last pattern,
/// and every pattern it passes over has no cell.
proof fn lemma_first_nonempty(functions: int, sizes: Seq<int>, p: int)
    requires
        0 <= p <= sizes.len(),
    ensures
        p <= first_nonempty(functions, sizes, p) <= sizes.len(),
        first_nonempty(functions, sizes, p) < sizes.len() ==> functions > 0 && sizes[first_nonempty(
            functions,
            sizes,
            p,
        )] > 0,
        forall|q: int|
            p <= q < first_nonempty(functions, sizes, p) ==> !(functions > 0 && #[trigger] sizes[q]
                > 0),
    decreases sizes.len() - p,
{
    if p < sizes.len() && !(functions > 0 && sizes[p] > 0) {
        lemma_first_nonempty(functions, sizes, p + 1);
    }
}

/// Moves on from pattern `start` past every pattern without a cell, filing an
/// empty grid for each; returns the pattern it stops at.
fn skip_empty(
    functions: usize,
    sizes: &Vec<usize>,
    start: usize,
    done: &mut Vec<Vec<Vec<Measurement>>>,
) -> (p: usize)
    requires
        start <= sizes.len(),
        old(done)@.len() == start,
    ensures
        p == first_nonempty(functions as int, int_sizes(sizes@), start as int),
        final(done)@.len() == p,
        forall|q: int| 0 <= q < start ==> #[trigger] final(done)@[q] == old(done)@[q],
        forall|q: int|
            start <= q < p ==> {
                &&& #[trigger] final(done)@[q]@.len() == functions
                &&& forall|j: int|
                    0 <= j < functions ==> #[trigger] final(done)@[q]@[j]@.len() == sizes@[q]
            },
{
    let ghost sz = int_sizes(sizes@);
    let mut p = start;
    while p < sizes.len() && (functions == 0 || sizes[p] == 0)
        invariant
            start <= p <= sizes.len(),
            sz == int_sizes(sizes@),
            done@.len() == p,
            first_nonempty(functions as int, sz, start as int) == first_nonempty(
                functions as int,
                sz,
                p as int,
            ),
            forall|q: int| 0 <= q < start ==> #[trigger] done@[q] == old(done)@[q],
            forall|q: int|
                start <= q < p ==> {
                    &&& #[trigger] done@[q]@.len() == functions
                    &&& forall|j: int|
                        0 <= j < functions ==> #[trigger] done@[q]@[j]@.len() == sizes@[q]
                },
        decreases sizes.len() - p,
    {
        let mut empty: Vec<Vec<Measurement>> = Vec::new();
        let mut j: usize = 0;
        while j < functions
            invariant
                j <= functions,
                empty@.len() == j,
                forall|i: int| 0 <= i < j ==> #[trigger] empty@[i]@.len() == 0,
            decreases functions - j,
        {
            empty.push(Vec::new());
            j = j + 1;
        }
        done.push(empty);
        p = p + 1;
    }
    p
}

impl MeasureRun {
    /// A run of `f` that has measured nothing: it starts at the first cell.
    pub fn new<I, F>(f: &Func<I, F>) -> (r: Self)
        ensures
            r.spec_functions() == f.spec_functions().len(),
            r.spec_sizes() == pattern_sizes(f.spec_patterns()),
            r.spec_position() == first_cell(r.spec_functions(), r.spec_sizes()),
    {
        let np = f.pattern_count();
        let mut sizes: Vec<usize> = Vec::new();
        let mut p: usize = 0;
        while p < np
            invariant
                np == f.spec_patterns().len(),
                p <= np,
                sizes@.len() == p,
                int_sizes(sizes@) == pattern_sizes(f.spec_patterns()).take(p as int),
            decreases np - p,
        {
            let pat = f.pattern(p);
            let n = pat.input.input_count();
            let ghost before = sizes@;
            sizes.push(n);
            proof {
                let target = pattern_sizes(f.spec_patterns());
                assert(target[p as int] == inputs_of(f.spec_patterns()[p as int].input).len() as int);
                assert forall|i: int| 0 <= i < p + 1 implies #[trigger] int_sizes(sizes@)[i] == target.take(
                    p + 1,
                )[i] by {
                    if i < p {
                        assert(sizes@[i] == before[i]);
                        assert(int_sizes(before)[i] == target.take(p as int)[i]);
                    }
                }
                assert(int_sizes(sizes@) =~= target.take(p + 1));
            }
            p = p + 1;
        }
        proof {
            assert(pattern_sizes(f.spec_patterns()).take(np as int) =~= pattern_sizes(
                f.spec_patterns(),
            ));
        }
        let functions = f.function_count();
        let mut done: Vec<Vec<Vec<Measurement>>> = Vec::new();
        let first = skip_empty(functions, &sizes, 0, &mut done);
        proof {
            lemma_first_nonempty(functions as int, int_sizes(sizes@), 0);
        }
        MeasureRun {
            functions,
            sizes,
            pattern: first,
            function: 0,
            input: 0,
            done,
            current: Vec::new(),
            row: Vec::new(),
        }
    }

    /// Files `m` as the measurement of the current cell and moves on to the
    /// next cell; what earlier cells hold stays as it was.
    pub fn record(self, m: Measurement) -> (r: Self)
        requires
            !self.spec_finished(),
        ensures
            r.spec_functions() == self.spec_functions(),
            r.spec_sizes() == self.spec_sizes(),
            r.spec_position() == cell_after(
                self.spec_functions(),
                self.spec_sizes(),
                self.spec_position(),
            ),
            r.spec_cell(self.spec_position()) == m,
            forall|c: (int, int, int)|
                in_grid(self.spec_functions(), self.spec_sizes(), c) && runs_before(
                    c,
                    self.spec_position(),
                ) ==> #[trigger] r.spec_cell(c) == self.spec_cell(c),
    {
        proof {
            use_type_invariant(&self);
        }
        let ghost old_run = self;
        let MeasureRun { functions, sizes, pattern, function, input, done, current, row } = self;
        assert(pattern < sizes.len());
        let mut row = row;
        row.push(m);
        if input + 1 < sizes[pattern] {
            let r = MeasureRun {
                functions,
                sizes,
                pattern,
                function,
                input: input + 1,
                done,
                current,
                row,
            };
            proof {
                assert forall|c: (int, int, int)|
                    in_grid(old_run.spec_functions(), old_run.spec_sizes(), c) && runs_before(
                        c,
                        old_run.spec_position(),
                    ) implies #[trigger] r.spec_cell(c) == old_run.spec_cell(c) by {
                    if c.0 == pattern && c.1 == function {
                        assert(r.row@[c.2] == old_run.row@[c.2]);
                    }
                }
            }
            return r;
        }
        let ghost row_done = row@;
        let mut current = current;
        current.push(row);
        if function + 1 < functions {
            let r = MeasureRun {
                functions,
                sizes,
                pattern,
                function: function + 1,
                input: 0,
                done,
                current,
                row: Vec::new(),
            };
            proof {
                assert(r.current@[function as int]@ == row_done);
                assert forall|c: (int, int, int)|
                    in_grid(old_run.spec_functions(), old_run.spec_sizes(), c) && runs_before(
                        c,
                        old_run.spec_position(),
                    ) implies #[trigger] r.spec_cell(c) == old_run.spec_cell(c) by {
                    if c.0 == pattern && c.1 < function {
                        assert(r.current@[c.1] == old_run.current@[c.1]);
                    } else if c.0 == pattern && c.1 == function {
                        assert(row_done[c.2] == old_run.row@[c.2]);
                    }
                }
            }
            return r;
        }
        let ghost current_done = current@;
        let mut done = done;
        done.push(current);
        let ghost done_before_skip = done@;
        let next = skip_empty(functions, &sizes, pattern + 1, &mut done);
        proof {
            lemma_first_nonempty(functions as int, int_sizes(sizes@), pattern + 1);
            assert(done@[pattern as int] == done_before_skip[pattern as int]);
            assert(done_before_skip[pattern as int]@ == current_done);
            assert(current_done[function as int]@ == row_done);
            assert forall|j: int| 0 <= j < functions implies #[trigger] done@[pattern as int]@[j]@.len()
                == sizes@[pattern as int] by {
                if j < function {
                    assert(current_done[j] == old_run.current@[j]);
                }
            }
        }
        proof {
            assert forall|q: int| 0 <= q < next implies {
                &&& #[trigger] done@[q]@.len() == functions
                &&& forall|j: int|
                    0 <= j < functions ==> #[trigger] done@[q]@[j]@.len() == sizes@[q]
            } by {
                if q < pattern {
                    assert(done@[q] == done_before_skip[q]);
                    assert(done_before_skip[q] == old_run.done@[q]);
                }
            }
            if next < sizes.len() {
                assert(int_sizes(sizes@)[next as int] == sizes@[next as int] as int);
            }
        }
        let r = MeasureRun {
            functions,
            sizes,
            pattern: next,
            function: 0,
            input: 0,
            done,
            current: Vec::new(),
            row: Vec::new(),
        };
        proof {
            assert forall|c: (int, int, int)|
                in_grid(old_run.spec_functions(), old_run.spec_sizes(), c) && runs_before(
                    c,
                    old_run.spec_position(),
                ) implies #[trigger] r.spec_cell(c) == old_run.spec_cell(c) by {
                if c.0 < pattern {
                    assert(r.done@[c.0] == done_before_skip[c.0]);
                    assert(done_before_skip[c.0] == old_run.done@[c.0]);
                } else {
                    assert(r.done@[c.0] == done_before_skip[c.0]);
                    if c.1 < function {
                        assert(current_done[c.1] == old_run.current@[c.1]);
                    } else {
                        assert(row_done[c.2] == old_run.row@[c.2]);
                    }
                }
            }
        }
        r
    }

    /// The measurements of a finished run of `f`: one list per pattern, with
    /// one list per function, with one measurement per input, each the one
    /// filed for its cell.
    pub fn into_measurements<I, F>(self, f: &Func<I, F>) -> (r: Vec<Vec<Vec<Measurement>>>)
        requires
            self.spec_finished(),
            self.spec_functions() == f.spec_functions().len(),
            self.spec_sizes() == pattern_sizes(f.spec_patterns()),
        ensures
            measurements_fit(*f, r@),
            forall|c: (int, int, int)|
                in_grid(self.spec_functions(), self.spec_sizes(), c) ==> #[trigger] self.spec_cell(c)
                    == r@[c.0]@[c.1]@[c.2],
    {
        proof {
            use_type_invariant(&self);
            assert(self.sizes@.len() == f.spec_patterns().len());
            assert forall|p: int| 0 <= p < self.done@.len() implies {
                &&& #[trigger] self.done@[p]@.len() == f.spec_functions().len()
                &&& forall|j: int|
                    0 <= j < self.done@[p]@.len() ==> #[trigger] self.done@[p]@[j]@.len()
                        == inputs_of(f.spec_patterns()[p].input).len()
            } by {
                assert(self.spec_sizes()[p] == self.sizes@[p] as int);
                assert(pattern_sizes(f.spec_patterns())[p] == inputs_of(f.spec_patterns()[p].input).len() as int);
            }
        }
        self.done
    }

    /// The cell to measure next, as (pattern, function, input), or none once
    /// every cell has been measured.
    pub fn next(&self) -> (r: Option<(usize, usize, usize)>)
        ensures
            r is None <==> self.spec_finished(),
            r matches Some(c) ==> (c.0 as int, c.1 as int, c.2 as int) == self.spec_position()
                && in_grid(self.spec_functions(), self.spec_sizes(), self.spec_position()),
    {
        proof {
            use_type_invariant(self);
        }
        if self.pattern < self.sizes.len() {
            Some((self.pattern, self.function, self.input))
        } else {
            None
        }
    }
}

/// A run starts at the first cell there is: the first cell is in the grid
/// (or, when the grid has no cell, the run starts finished), and no cell runs
/// before it.
pub proof fn law_run_starts_at_first_cell(functions: int, sizes: Seq<int>)
    ensures
        first_cell(functions, sizes).0 < sizes.len() ==> in_grid(
            functions,
            sizes,
            first_cell(functions, sizes),
        ),
        first_cell(functions, sizes).0 <= sizes.len(),
        forall|d: (int, int, int)|
            in_grid(functions, sizes, d) ==> !#[trigger] runs_before(d, first_cell(functions, sizes)),
{
    lemma_first_nonempty(functions, sizes, 0);
    assert forall|d: (int, int, int)| in_grid(functions, sizes, d) implies !#[trigger] runs_before(
        d,
        first_cell(functions, sizes),
    ) by {
        if d.0 < first_nonempty(functions, sizes, 0) {
            assert(!(functions > 0 && sizes[d.0] > 0));
        }
    }
}

/// After a cell, a run measures the very next cell there is: the cell after
/// `c` runs after it, is in the grid unless the run is over, and no cell of
/// the grid lies between the two. So a run measures every cell once, in order.
pub proof fn law_run_moves_to_next_cell(functions: int, sizes: Seq<int>, c: (int, int, int))
    requires
        in_grid(functions, sizes, c),
    ensures
        runs_before(c, cell_after(functions, sizes, c)),
        cell_after(functions, sizes, c).0 < sizes.len() ==> in_grid(
            functions,
            sizes,
            cell_after(functions, sizes, c),
        ),
        cell_after(functions, sizes, c).0 <= sizes.len(),
        forall|d: (int, int, int)|
            in_grid(functions, sizes, d) && #[trigger] runs_before(c, d) ==> !runs_before(
                d,
                cell_after(functions, sizes, c),
            ),
{
    lemma_first_nonempty(functions, sizes, c.0 + 1);
    let n = cell_after(functions, sizes, c);
    assert forall|d: (int, int, int)|
        in_grid(functions, sizes, d) && #[trigger] runs_before(c, d) implies !runs_before(d, n) by {
        if c.0 < d.0 && d.0 < first_nonempty(functions, sizes, c.0 + 1) {
            assert(!(functions > 0 && sizes[d.0] > 0));
        }
    }
}

} // verus!
