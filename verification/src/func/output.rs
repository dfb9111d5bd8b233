//! What a suite run produces: the report of measurements, the suite's metadata,
//! history file numbering and the HTML report page.
use super::{inputs_of, names_of, pattern_type_of, Bench, BenchPattern, Func};
use crate::keyed::KeyedList;
use vstd::string::*;
use crate::runner::measurement::Measurement;
use vstd::prelude::*;

verus! {

/// A single data point: the measurement for one input.
pub struct BenchJsonEntry<I> {
    pub input: I,
    pub measurement: Measurement,
}

/// The report for one benchmark pattern, with the results of every registered
/// function, keyed by function name.
pub struct BenchJsonReport<I> {
    /// `instant` or `scaling`.
    pub pattern_type: String,
    pub description: String,
    pub comment: Option<String>,
    pub results: KeyedList<Vec<BenchJsonEntry<I>>>,
}

/// The view of an optional string.
pub open spec fn opt_view(s: Option<String>) -> Option<Seq<char>> {
    match s {
        Some(t) => Some(t@),
        None => None,
    }
}

/// The index of the last name equal to `n`, or -1 when there is none.
pub open spec fn last_index_named(names: Seq<Seq<char>>, n: Seq<char>) -> int
    decreases names.len(),
{
    if names.len() == 0 {
        -1
    } else if names.last() == n {
        names.len() - 1
    } else {
        last_index_named(names.drop_last(), n)
    }
}

/// The names of the patterns, in registration order.
pub open spec fn pattern_names<I>(ps: Seq<BenchPattern<I>>) -> Seq<Seq<char>> {
    ps.map_values(|p: BenchPattern<I>| p.name@)
}

/// The entries hold, in order, a clone of each input with its measurement.
pub open spec fn entries_match<I: Clone>(
    es: Seq<BenchJsonEntry<I>>,
    inputs: Seq<I>,
    ms: Seq<Measurement>,
) -> bool {
    &&& es.len() == inputs.len()
    &&& ms.len() == inputs.len()
    &&& forall|k: int|
        0 <= k < es.len() ==> #[trigger] es[k].measurement == ms[k] && cloned(inputs[k], es[k].input)
}

/// The measurements have one list per pattern, with one list per function,
/// with one measurement per input of the pattern.
pub open spec fn measurements_fit<I, F>(f: Func<I, F>, ms: Seq<Vec<Vec<Measurement>>>) -> bool {
    &&& ms.len() == f.spec_patterns().len()
    &&& forall|p: int|
        0 <= p < ms.len() ==> {
            &&& #[trigger] ms[p]@.len() == f.spec_functions().len()
            &&& forall|j: int|
                0 <= j < ms[p]@.len() ==> #[trigger] ms[p]@[j]@.len() == inputs_of(
                    f.spec_patterns()[p].input,
                ).len()
        }
}

/// The report of one pattern: its kind, description and the comment, and for
/// each function name the entries of the last function registered under it.
pub open spec fn report_matches<I: Clone, F>(
    r: BenchJsonReport<I>,
    pattern: BenchPattern<I>,
    comment: Option<Seq<char>>,
    fnames: Seq<Seq<char>>,
    msp: Seq<Vec<Measurement>>,
) -> bool {
    &&& r.pattern_type@ == pattern_type_of(pattern.input)
    &&& r.description@ == pattern.description@
    &&& opt_view(r.comment) == comment
    &&& forall|n: Seq<char>| #[trigger]
        r.results@.dom().contains(n) <==> last_index_named(fnames, n) >= 0
    &&& forall|n: Seq<char>| #[trigger]
        r.results@.dom().contains(n) ==> entries_match(
            r.results@[n]@,
            inputs_of(pattern.input),
            msp[last_index_named(fnames, n)]@,
        )
}

/// The whole report: for each pattern name, the report of the last pattern
/// registered under it.
pub open spec fn report_complete<I: Clone, F>(
    report: KeyedList<BenchJsonReport<I>>,
    f: Func<I, F>,
    comment: Option<Seq<char>>,
    ms: Seq<Vec<Vec<Measurement>>>,
) -> bool {
    let pnames = pattern_names(f.spec_patterns());
    let fnames = names_of(f.spec_functions());
    &&& forall|n: Seq<char>| #[trigger]
        report@.dom().contains(n) <==> last_index_named(pnames, n) >= 0
    &&& forall|n: Seq<char>| #[trigger]
        report@.dom().contains(n) ==> report_matches::<I, F>(
            report@[n],
            f.spec_patterns()[last_index_named(pnames, n)],
            comment,
            fnames,
            ms[last_index_named(pnames, n)]@,
        )
}

/// The last index named `n` holds `n`, and no later index does; there is one
/// exactly when some name is `n`.
pub proof fn lemma_last_index_named(names: Seq<Seq<char>>, n: Seq<char>)
    ensures
        -1 <= last_index_named(names, n) < names.len(),
        last_index_named(names, n) >= 0 ==> names[last_index_named(names, n)] == n,
        forall|j: int| last_index_named(names, n) < j < names.len() ==> names[j] != n,
        last_index_named(names, n) >= 0 <==> exists|j: int| 0 <= j < names.len() && names[j] == n,
    decreases names.len(),
{
    if names.len() > 0 {
        let init = names.drop_last();
        lemma_last_index_named(init, n);
        if names.last() != n {
            assert forall|j: int| last_index_named(names, n) < j < names.len() implies names[j] != n by {
                if j < names.len() - 1 {
                    assert(names[j] == init[j]);
                }
            }
            if last_index_named(init, n) >= 0 {
                assert(names[last_index_named(init, n)] == init[last_index_named(init, n)]);
            }
            if exists|j: int| 0 <= j < names.len() && names[j] == n {
                let j = choose|j: int| 0 <= j < names.len() && names[j] == n;
                assert(init[j] == names[j]);
            }
        }
    }
}

/// One more name: the last index of it is the new position, the others keep theirs.
proof fn lemma_last_index_push(names: Seq<Seq<char>>, i: int, n: Seq<char>)
    requires
        0 <= i < names.len(),
    ensures
        last_index_named(names.take(i + 1), n) == (if names[i] == n {
            i
        } else {
            last_index_named(names.take(i), n)
        }),
{
    assert(names.take(i + 1).drop_last() =~= names.take(i));
    assert(names.take(i + 1).last() == names[i]);
}

impl<I: Clone, F> Func<I, F> {
    /// The report of a suite run from its measurements: `measurements[p][j][k]`
    /// is the measurement of function `j` on the `k`-th input of pattern `p`.
    /// Each pattern name maps to the report of the last pattern registered under
    /// it, and within it each function name to the entries of the last function
    /// registered under it (later registrations overwrite earlier ones).
    pub fn build_report(
        &self,
        comment: &Option<String>,
        measurements: &Vec<Vec<Vec<Measurement>>>,
    ) -> (report: KeyedList<BenchJsonReport<I>>)
        requires
            measurements_fit(*self, measurements@),
        ensures
            report_complete(report, *self, opt_view(*comment), measurements@),
    {
        let ghost pnames = pattern_names(self.spec_patterns());
        let ghost fnames = names_of(self.spec_functions());
        let mut report: KeyedList<BenchJsonReport<I>> = KeyedList::new();
        let np = self.pattern_count();
        let nf = self.function_count();
        let mut p: usize = 0;
        while p < np
            invariant
                np == self.spec_patterns().len(),
                nf == self.spec_functions().len(),
                p <= np,
                pnames == pattern_names(self.spec_patterns()),
                fnames == names_of(self.spec_functions()),
                measurements_fit(*self, measurements@),
                forall|n: Seq<char>| #[trigger]
                    report@.dom().contains(n) <==> last_index_named(pnames.take(p as int), n) >= 0,
                forall|n: Seq<char>| #[trigger]
                    report@.dom().contains(n) ==> report_matches::<I, F>(
                        report@[n],
                        self.spec_patterns()[last_index_named(pnames.take(p as int), n)],
                        opt_view(*comment),
                        fnames,
                        measurements@[last_index_named(pnames.take(p as int), n)]@,
                    ),
            decreases np - p,
        {
            let pattern = self.pattern(p);
            let n_inputs = pattern.input.input_count();
            let mut results: KeyedList<Vec<BenchJsonEntry<I>>> = KeyedList::new();
            let mut j: usize = 0;
            while j < nf
                invariant
                    np == self.spec_patterns().len(),
                    nf == self.spec_functions().len(),
                    p < np,
                    j <= nf,
                    *pattern == self.spec_patterns()[p as int],
                    n_inputs == inputs_of(pattern.input).len(),
                    fnames == names_of(self.spec_functions()),
                    measurements_fit(*self, measurements@),
                    forall|n: Seq<char>| #[trigger]
                        results@.dom().contains(n) <==> last_index_named(fnames.take(j as int), n)
                            >= 0,
                    forall|n: Seq<char>| #[trigger]
                        results@.dom().contains(n) ==> entries_match(
                            results@[n]@,
                            inputs_of(pattern.input),
                            measurements@[p as int]@[last_index_named(fnames.take(j as int), n)]@,
                        ),
                decreases nf - j,
            {
                assert(measurements@[p as int]@.len() == nf);
                assert(measurements@[p as int]@[j as int]@.len() == n_inputs);
                let ms = &measurements[p][j];
                assert(ms@.len() == n_inputs);
                let mut entries: Vec<BenchJsonEntry<I>> = Vec::new();
                let mut k: usize = 0;
                while k < n_inputs
                    invariant
                        k <= n_inputs,
                        n_inputs == inputs_of(pattern.input).len(),
                        ms@.len() == n_inputs,
                        entries.len() == k,
                        forall|i: int|
                            0 <= i < k ==> #[trigger] entries@[i].measurement == ms@[i] && cloned(
                                inputs_of(pattern.input)[i],
                                entries@[i].input,
                            ),
                    decreases n_inputs - k,
                {
                    let input = pattern.input.input_at(k).clone();
                    entries.push(BenchJsonEntry { input, measurement: ms[k] });
                    k = k + 1;
                }
                let fname = self.function_name(j).clone();
                proof {
                    assert(fnames[j as int] == self.spec_functions()[j as int].0@);
                    assert forall|n: Seq<char>| #[trigger]
                        results@.insert(fname@, entries).dom().contains(n) implies last_index_named(
                        fnames.take(j + 1),
                        n,
                    ) >= 0 && entries_match(
                        results@.insert(fname@, entries)[n]@,
                        inputs_of(pattern.input),
                        measurements@[p as int]@[last_index_named(fnames.take(j + 1), n)]@,
                    ) by {
                        lemma_last_index_push(fnames, j as int, n);
                        lemma_last_index_named(fnames.take(j as int), n);
                    }
                    assert forall|n: Seq<char>|
                        last_index_named(fnames.take(j + 1), n) >= 0 implies #[trigger] results@.insert(
                        fname@,
                        entries,
                    ).dom().contains(n) by {
                        lemma_last_index_push(fnames, j as int, n);
                    }
                }
                results.insert(fname, entries);
                j = j + 1;
            }
            proof {
                assert(fnames.take(nf as int) =~= fnames);
            }
            let pattern_comment = match comment {
                Some(c) => Some(c.clone()),
                None => None,
            };
            let entry = BenchJsonReport {
                pattern_type: pattern.input.pattern_type(),
                description: pattern.description.clone(),
                comment: pattern_comment,
                results,
            };
            let pname = pattern.name.clone();
            proof {
                assert(pnames[p as int] == self.spec_patterns()[p as int].name@);
                assert forall|n: Seq<char>| #[trigger]
                    report@.insert(pname@, entry).dom().contains(n) implies last_index_named(
                    pnames.take(p + 1),
                    n,
                ) >= 0 && report_matches::<I, F>(
                    report@.insert(pname@, entry)[n],
                    self.spec_patterns()[last_index_named(pnames.take(p + 1), n)],
                    opt_view(*comment),
                    fnames,
                    measurements@[last_index_named(pnames.take(p + 1), n)]@,
                ) by {
                    lemma_last_index_push(pnames, p as int, n);
                    lemma_last_index_named(pnames.take(p as int), n);
                }
                assert forall|n: Seq<char>|
                    last_index_named(pnames.take(p + 1), n) >= 0 implies #[trigger] report@.insert(
                    pname@,
                    entry,
                ).dom().contains(n) by {
                    lemma_last_index_push(pnames, p as int, n);
                }
            }
            report.insert(pname, entry);
            p = p + 1;
        }
        proof {
            assert(pnames.take(np as int) =~= pnames);
        }
        report
    }
}

/// Every registered function is measured against every registered pattern:
/// for a pattern and a function that are each the last registered under their
/// names, the report holds, under those names, the pattern's kind and
/// description, and one entry per input of the pattern, in order, each a clone
/// of the input with its measurement. No other pattern names are reported.
pub proof fn law_full_matrix<I: Clone, F>(
    report: KeyedList<BenchJsonReport<I>>,
    f: Func<I, F>,
    comment: Option<Seq<char>>,
    ms: Seq<Vec<Vec<Measurement>>>,
    p: int,
    j: int,
)
    requires
        report_complete(report, f, comment, ms),
        0 <= p < f.spec_patterns().len(),
        0 <= j < f.spec_functions().len(),
        forall|q: int|
            p < q < f.spec_patterns().len() ==> #[trigger] f.spec_patterns()[q].name@
                != f.spec_patterns()[p].name@,
        forall|q: int|
            j < q < f.spec_functions().len() ==> #[trigger] f.spec_functions()[q].0@
                != f.spec_functions()[j].0@,
    ensures
        ({
            let pname = f.spec_patterns()[p].name@;
            let fname = f.spec_functions()[j].0@;
            &&& report@.dom().contains(pname)
            &&& report@[pname].pattern_type@ == pattern_type_of(f.spec_patterns()[p].input)
            &&& report@[pname].description@ == f.spec_patterns()[p].description@
            &&& opt_view(report@[pname].comment) == comment
            &&& report@[pname].results@.dom().contains(fname)
            &&& entries_match(
                report@[pname].results@[fname]@,
                inputs_of(f.spec_patterns()[p].input),
                ms[p]@[j]@,
            )
            &&& report@[pname].results@[fname]@.len() == inputs_of(f.spec_patterns()[p].input).len()
            &&& forall|k: int|
                0 <= k < report@[pname].results@[fname]@.len() ==> {
                    &&& #[trigger] report@[pname].results@[fname]@[k].measurement == ms[p]@[j]@[k]
                    &&& cloned(
                        inputs_of(f.spec_patterns()[p].input)[k],
                        report@[pname].results@[fname]@[k].input,
                    )
                }
        }),
        forall|n: Seq<char>| #[trigger]
            report@.dom().contains(n) ==> exists|q: int|
                0 <= q < f.spec_patterns().len() && f.spec_patterns()[q].name@ == n,
{
    let pnames = pattern_names(f.spec_patterns());
    let fnames = names_of(f.spec_functions());
    let pname = f.spec_patterns()[p].name@;
    let fname = f.spec_functions()[j].0@;
    lemma_last_index_named(pnames, pname);
    lemma_last_index_named(fnames, fname);
    assert(pnames[p] == pname);
    assert(fnames[j] == fname);
    let lp = last_index_named(pnames, pname);
    let lj = last_index_named(fnames, fname);
    if lp > p {
        assert(pnames[lp] == f.spec_patterns()[lp].name@);
    }
    if lj > j {
        assert(fnames[lj] == f.spec_functions()[lj].0@);
    }
    assert(lp == p);
    assert(lj == j);
    assert(report@.dom().contains(pname));
    assert(report_matches::<I, F>(report@[pname], f.spec_patterns()[p], comment, fnames, ms[p]@));
    assert(report@[pname].results@.dom().contains(fname));
    assert forall|n: Seq<char>| #[trigger] report@.dom().contains(n) implies exists|q: int|
        0 <= q < f.spec_patterns().len() && f.spec_patterns()[q].name@ == n by {
        lemma_last_index_named(pnames, n);
        let q = choose|q: int| 0 <= q < pnames.len() && pnames[q] == n;
        assert(pnames[q] == f.spec_patterns()[q].name@);
    }
}

/// Metadata describing one benchmark pattern.
pub struct PatternMetadata {
    pub name: String,
    pub description: String,
    pub pattern_type: String,
}

impl View for PatternMetadata {
    type V = (Seq<char>, Seq<char>, Seq<char>);

    open spec fn view(&self) -> (Seq<char>, Seq<char>, Seq<char>) {
        (self.name@, self.description@, self.pattern_type@)
    }
}

/// Metadata for the whole suite: its name and description, the names of its
/// functions and the patterns.
pub struct FuncMetadata {
    pub name: String,
    pub description: Option<String>,
    pub functions: Vec<String>,
    pub patterns: Vec<PatternMetadata>,
}

/// The views of a list of strings.
pub open spec fn string_views(v: Seq<String>) -> Seq<Seq<char>> {
    v.map_values(|s: String| s@)
}

impl View for FuncMetadata {
    type V = (
        Seq<char>,
        Option<Seq<char>>,
        Seq<Seq<char>>,
        Seq<(Seq<char>, Seq<char>, Seq<char>)>,
    );

    open spec fn view(&self) -> Self::V {
        (
            self.name@,
            opt_view(self.description),
            string_views(self.functions@),
            self.patterns@.map_values(|p: PatternMetadata| p@),
        )
    }
}

/// The metadata of a pattern as the suite holds it.
pub open spec fn pattern_metadata_of<I>(p: BenchPattern<I>) -> (Seq<char>, Seq<char>, Seq<char>) {
    (p.name@, p.description@, pattern_type_of(p.input))
}

/// A pattern's metadata carries the pattern's own name, its own description
/// and the name of its kind.
pub proof fn law_pattern_metadata<I>(p: BenchPattern<I>)
    ensures
        pattern_metadata_of(p).0 == p.name@,
        pattern_metadata_of(p).1 == p.description@,
        pattern_metadata_of(p).2 == match p.input {
            Bench::Instant(_) => "instant"@,
            Bench::Scaling(_) => "scaling"@,
        },
{
}

/// Whether two optional strings hold the same text.
fn same_opt_string(a: &Option<String>, b: &Option<String>) -> (r: bool)
    ensures
        r == (opt_view(*a) == opt_view(*b)),
{
    match a {
        Some(x) => match b {
            Some(y) => {
                let same = *x == *y;
                proof {
                    if opt_view(*a) == opt_view(*b) {
                        assert(x@ == y@);
                    }
                }
                same
            },
            None => false,
        },
        None => b.is_none(),
    }
}

impl FuncMetadata {
    /// Whether `self` and `other` hold the same metadata.
    pub fn same_as(&self, other: &FuncMetadata) -> (r: bool)
        ensures
            r == (self@ == other@),
    {
        if !(self.name == other.name) || !same_opt_string(&self.description, &other.description) {
            return false;
        }
        if self.functions.len() != other.functions.len() || self.patterns.len()
            != other.patterns.len() {
            proof {
                if self@ == other@ {
                    assert(self@.2.len() == other@.2.len());
                    assert(self@.3.len() == other@.3.len());
                }
            }
            return false;
        }
        let mut i: usize = 0;
        while i < self.functions.len()
            invariant
                self.functions.len() == other.functions.len(),
                i <= self.functions.len(),
                forall|j: int| 0 <= j < i ==> self.functions@[j]@ == other.functions@[j]@,
            decreases self.functions.len() - i,
        {
            if !(self.functions[i] == other.functions[i]) {
                proof {
                    if self@ == other@ {
                        assert(self@.2[i as int] == other@.2[i as int]);
                    }
                }
                return false;
            }
            i = i + 1;
        }
        let mut k: usize = 0;
        while k < self.patterns.len()
            invariant
                self.patterns.len() == other.patterns.len(),
                k <= self.patterns.len(),
                forall|j: int| 0 <= j < k ==> self.patterns@[j]@ == other.patterns@[j]@,
            decreases self.patterns.len() - k,
        {
            let a = &self.patterns[k];
            let b = &other.patterns[k];
            if !(a.name == b.name) || !(a.description == b.description) || !(a.pattern_type
                == b.pattern_type) {
                proof {
                    if self@ == other@ {
                        assert(self@.3[k as int] == other@.3[k as int]);
                    }
                }
                return false;
            }
            k = k + 1;
        }
        proof {
            assert(self@.2 =~= other@.2);
            assert(self@.3 =~= other@.3);
        }
        true
    }
}

/// Whether the metadata file must be written: it must unless it holds, readable,
/// exactly the current metadata.
pub open spec fn metadata_write_needed(
    existing: Option<(Seq<char>, Option<Seq<char>>, Seq<Seq<char>>, Seq<(Seq<char>, Seq<char>, Seq<char>)>)>,
    current: (Seq<char>, Option<Seq<char>>, Seq<Seq<char>>, Seq<(Seq<char>, Seq<char>, Seq<char>)>),
) -> bool {
    match existing {
        Some(e) => e != current,
        None => true,
    }
}

/// Decides whether the metadata file is written: `existing` is what the file
/// holds, `None` where there is no file or it does not read as metadata.
pub fn metadata_needs_write(existing: &Option<FuncMetadata>, current: &FuncMetadata) -> (r: bool)
    ensures
        r == metadata_write_needed(
            match existing {
                Some(e) => Some(e@),
                None => None,
            },
            current@,
        ),
{
    match existing {
        Some(e) => !e.same_as(current),
        None => true,
    }
}

/// Once the current metadata is on file, a second run with the same suite does
/// not write it again; any difference makes it write.
pub proof fn law_metadata_written_once(
    current: (Seq<char>, Option<Seq<char>>, Seq<Seq<char>>, Seq<(Seq<char>, Seq<char>, Seq<char>)>),
    other: (Seq<char>, Option<Seq<char>>, Seq<Seq<char>>, Seq<(Seq<char>, Seq<char>, Seq<char>)>),
)
    ensures
        !metadata_write_needed(Some(current), current),
        other != current ==> metadata_write_needed(Some(other), current),
        metadata_write_needed(None, current),
{
}

impl<I, F> Func<I, F> {
    /// The suite's metadata: name, description, function names and patterns.
    pub fn metadata(&self) -> (r: FuncMetadata)
        ensures
            r@.0 == self.spec_name(),
            r@.1 == self.spec_description(),
            r@.2 == names_of(self.spec_functions()),
            r@.3 == self.spec_patterns().map_values(|p: BenchPattern<I>| pattern_metadata_of(p)),
            r.name@ == self.spec_name(),
            r.functions.len() == self.spec_functions().len(),
            forall|j: int|
                0 <= j < r.functions.len() ==> #[trigger] r.functions@[j]@
                    == self.spec_functions()[j].0@,
            r.patterns.len() == self.spec_patterns().len(),
            forall|p: int|
                0 <= p < r.patterns.len() ==> #[trigger] r.patterns@[p].name@
                    == self.spec_patterns()[p].name@,
            forall|p: int|
                0 <= p < r.patterns.len() ==> #[trigger] r.patterns@[p].description@
                    == self.spec_patterns()[p].description@,
            forall|p: int|
                0 <= p < r.patterns.len() ==> #[trigger] r.patterns@[p].pattern_type@ == (
                match self.spec_patterns()[p].input {
                    Bench::Instant(_) => "instant"@,
                    Bench::Scaling(_) => "scaling"@,
                }),
    {
        let mut functions: Vec<String> = Vec::new();
        let nf = self.function_count();
        let mut j: usize = 0;
        while j < nf
            invariant
                nf == self.spec_functions().len(),
                j <= nf,
                functions.len() == j,
                forall|i: int|
                    0 <= i < j ==> #[trigger] functions@[i]@ == self.spec_functions()[i].0@,
            decreases nf - j,
        {
            functions.push(self.function_name(j).clone());
            j = j + 1;
        }
        let mut patterns: Vec<PatternMetadata> = Vec::new();
        let np = self.pattern_count();
        let mut p: usize = 0;
        while p < np
            invariant
                np == self.spec_patterns().len(),
                p <= np,
                patterns.len() == p,
                forall|i: int|
                    0 <= i < p ==> #[trigger] patterns@[i]@ == pattern_metadata_of(
                        self.spec_patterns()[i],
                    ),
            decreases np - p,
        {
            let pat = self.pattern(p);
            patterns.push(
                PatternMetadata {
                    name: pat.name.clone(),
                    description: pat.description.clone(),
                    pattern_type: pat.input.pattern_type(),
                },
            );
            p = p + 1;
        }
        let description = match &self.description {
            Some(d) => Some(d.clone()),
            None => None,
        };
        let r = FuncMetadata { name: self.name.clone(), description, functions, patterns };
        proof {
            assert forall|p: int| 0 <= p < r.patterns.len() implies #[trigger] r.patterns@[p].name@
                == self.spec_patterns()[p].name@ by {
                assert(r.patterns@[p]@ == pattern_metadata_of(self.spec_patterns()[p]));
            }
            assert forall|p: int| 0 <= p < r.patterns.len() implies #[trigger] r.patterns@[p].description@
                == self.spec_patterns()[p].description@ by {
                assert(r.patterns@[p]@ == pattern_metadata_of(self.spec_patterns()[p]));
            }
            assert forall|p: int| 0 <= p < r.patterns.len() implies #[trigger] r.patterns@[p].pattern_type@
                == (match self.spec_patterns()[p].input {
                Bench::Instant(_) => "instant"@,
                Bench::Scaling(_) => "scaling"@,
            }) by {
                assert(r.patterns@[p]@ == pattern_metadata_of(self.spec_patterns()[p]));
            }
            assert(r@.2 =~= names_of(self.spec_functions()));
            assert(r@.3 =~= self.spec_patterns().map_values(
                |p: BenchPattern<I>| pattern_metadata_of(p),
            ));
        }
        r
    }
}

} // verus!
