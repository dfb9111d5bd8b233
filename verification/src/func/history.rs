//! Numbered history files: the name a run's report is saved under, the number
//! read back from a file name, and the next free number.
use crate::text::{
    before_char, chars_of, decimal, decimal_chars, ends_with, is_digit, json_ext, lemma_digits_before_underscore,
    lemma_digits_not_json, lemma_padded_decimal, lemma_parse_digits, lemma_prefix_len_before, parse_u32,
    parse_u32_range, push_char, range_ends_with, str_equal, string_of, trim_suffixes, unsigned_digits,
    zero_padded, zeros,
};
use vstd::prelude::*;
use vstd::string::*;

verus! {

/// The number a history file name carries: `.json` suffixes removed, the part
/// before the first `_`, read as a `u32`.
pub open spec fn spec_file_number(name: Seq<char>) -> Option<u32> {
    parse_u32(before_char(trim_suffixes(name, json_ext()), '_'))
}

/// The largest number carried by the names, 0 when none carries one.
pub open spec fn max_file_number(names: Seq<Seq<char>>) -> u32
    decreases names.len(),
{
    if names.len() == 0 {
        0
    } else {
        let prev = max_file_number(names.drop_last());
        match spec_file_number(names.last()) {
            Some(n) => if n > prev {
                n
            } else {
                prev
            },
            None => prev,
        }
    }
}

/// The name under which history number `n` is saved: the number with at least
/// three digits, then `.json`.
pub open spec fn spec_history_file_name(n: u32) -> Seq<char> {
    zero_padded(decimal(n as nat), 3) + json_ext()
}

/// The name of the file that lists the suites for the report page.
pub open spec fn spec_report_manifest_name() -> Seq<char> {
    "report-manifest"@ + json_ext()
}

/// The file names that are not history files whatever they hold.
pub open spec fn is_reserved_name(name: Seq<char>) -> bool {
    name == "main.json"@ || name == "report.html"@ || name == spec_report_manifest_name()
}

/// The name of a suite's metadata file.
pub fn main_json_name() -> (r: String)
    ensures
        r@ == "main.json"@,
{
    String::from_str("main.json")
}

/// The name of the report page.
pub fn report_page_name() -> (r: String)
    ensures
        r@ == "report.html"@,
{
    String::from_str("report.html")
}

/// The name of the file that lists the suites for the report page.
pub fn report_manifest_name() -> (r: String)
    ensures
        r@ == spec_report_manifest_name(),
{
    let mut s = String::from_str("report-manifest");
    let ext = json_ext_chars();
    let mut k: usize = 0;
    proof {
        assert(json_ext().take(0) =~= Seq::<char>::empty());
        assert(s@ + json_ext().take(0) =~= s@);
    }
    while k < 5
        invariant
            ext@ == json_ext(),
            k <= 5,
            s@ == "report-manifest"@ + json_ext().take(k as int),
        decreases 5 - k,
    {
        proof {
            assert(json_ext().take(k + 1) =~= json_ext().take(k as int).push(json_ext()[k as int]));
        }
        push_char(&mut s, ext[k]);
        k = k + 1;
    }
    proof {
        assert(json_ext().take(5) =~= json_ext());
    }
    s
}

/// The history number of a file in a suite's directory: none for the reserved
/// names and for names without the `.json` extension.
pub open spec fn spec_history_number(name: Seq<char>) -> Option<u32> {
    if is_reserved_name(name) || !ends_with(name, json_ext()) {
        None
    } else {
        spec_file_number(name)
    }
}

/// The largest history number among the names, 0 when there is none.
pub open spec fn max_history_number(names: Seq<Seq<char>>) -> u32
    decreases names.len(),
{
    if names.len() == 0 {
        0
    } else {
        let prev = max_history_number(names.drop_last());
        match spec_history_number(names.last()) {
            Some(n) => if n > prev {
                n
            } else {
                prev
            },
            None => prev,
        }
    }
}

/// The names that carry a history number, in order.
pub open spec fn numbered_names(names: Seq<Seq<char>>) -> Seq<Seq<char>>
    decreases names.len(),
{
    if names.len() == 0 {
        Seq::empty()
    } else if spec_history_number(names.last()) is Some {
        numbered_names(names.drop_last()).push(names.last())
    } else {
        numbered_names(names.drop_last())
    }
}

/// The views of a list of strings.
pub open spec fn views_of(v: Seq<String>) -> Seq<Seq<char>> {
    v.map_values(|s: String| s@)
}

/// The characters of `.json`.
fn json_ext_chars() -> (v: Vec<char>)
    ensures
        v@ == json_ext(),
{
    let v = vec!['.', 'j', 's', 'o', 'n'];
    assert(v@ =~= json_ext());
    v
}

/// The number a history file name carries (see [`spec_file_number`]).
pub fn file_number(name: &str) -> (r: Option<u32>)
    ensures
        r == spec_file_number(name@),
{
    let chars = chars_of(name);
    let ext = json_ext_chars();
    let mut end = chars.len();
    proof {
        assert(name@.take(end as int) =~= name@);
    }
    while range_ends_with(&chars, 0, end, &ext)
        invariant
            chars@ == name@,
            ext@ == json_ext(),
            end <= chars.len(),
            trim_suffixes(name@, json_ext()) == trim_suffixes(name@.take(end as int), json_ext()),
        decreases end,
    {
        proof {
            let t = name@.take(end as int);
            assert(chars@.subrange(0, end as int) =~= t);
            assert(t.take(t.len() - 5) =~= name@.take(end - 5));
        }
        end = end - 5;
    }
    let ghost trimmed = name@.take(end as int);
    proof {
        assert(chars@.subrange(0, end as int) =~= trimmed);
        assert(trim_suffixes(trimmed, json_ext()) == trimmed);
    }
    let mut cut: usize = 0;
    while cut < end && chars[cut] != '_'
        invariant
            chars@ == name@,
            end <= chars.len(),
            cut <= end,
            trimmed == name@.take(end as int),
            forall|j: int| 0 <= j < cut ==> trimmed[j] != '_',
        decreases end - cut,
    {
        cut = cut + 1;
    }
    proof {
        lemma_prefix_len_before(trimmed, '_', cut as int);
        assert(before_char(trimmed, '_') =~= chars@.subrange(0, cut as int));
    }
    parse_u32_range(&chars, 0, cut)
}

/// The next free history number: one more than the largest number the names
/// carry, 1 when none carries one.
pub fn next_file_number(names: &Vec<String>) -> (r: u32)
    requires
        max_file_number(views_of(names@)) < u32::MAX,
    ensures
        r == max_file_number(views_of(names@)) + 1,
{
    let ghost views = views_of(names@);
    let mut max: u32 = 0;
    let mut i: usize = 0;
    proof {
        assert(views.take(0) =~= Seq::<Seq<char>>::empty());
    }
    while i < names.len()
        invariant
            i <= names.len(),
            views == views_of(names@),
            max == max_file_number(views.take(i as int)),
        decreases names.len() - i,
    {
        let n = file_number(names[i].as_str());
        proof {
            assert(views.take(i + 1).drop_last() =~= views.take(i as int));
            assert(views.take(i + 1).last() == names@[i as int]@);
        }
        if let Some(v) = n {
            if v > max {
                max = v;
            }
        }
        i = i + 1;
    }
    proof {
        assert(views.take(names.len() as int) =~= views);
    }
    max + 1
}

/// The name history number `n` is saved under (`format!("{:03}.json", n)`).
pub fn history_file_name(n: u32) -> (r: String)
    ensures
        r@ == spec_history_file_name(n),
{
    let mut digits = decimal_chars(n);
    let ghost d = decimal(n as nat);
    while digits.len() < 3
        invariant
            digits.len() <= 3 || digits@ == d,
            zero_padded(d, 3) == zero_padded(digits@, 3),
            digits@.len() >= d.len(),
            digits@ == zeros((digits@.len() - d.len()) as nat) + d,
        decreases 3 - digits.len(),
    {
        proof {
            let k = (digits@.len() - d.len()) as nat;
            assert(zeros(k + 1) + d =~= digits@.insert(0, '0'));
            assert(zero_padded(digits@.insert(0, '0'), 3) =~= zero_padded(digits@, 3));
        }
        digits.insert(0, '0');
    }
    let ext = json_ext_chars();
    let mut out = string_of(&digits, 0, digits.len());
    let mut k: usize = 0;
    proof {
        assert(digits@.subrange(0, digits.len() as int) =~= digits@);
        assert(zero_padded(digits@, 3) == digits@);
        assert(json_ext().take(0) =~= Seq::<char>::empty());
        assert(out@ + json_ext().take(0) =~= out@);
    }
    while k < 5
        invariant
            ext@ == json_ext(),
            k <= 5,
            out@ == zero_padded(d, 3) + json_ext().take(k as int),
        decreases 5 - k,
    {
        proof {
            assert(json_ext().take(k + 1) =~= json_ext().take(k as int).push(json_ext()[k as int]));
        }
        push_char(&mut out, ext[k]);
        k = k + 1;
    }
    proof {
        assert(json_ext().take(5) =~= json_ext());
    }
    out
}

/// The history number of a file in a suite's directory (see [`spec_history_number`]).
pub fn history_number(name: &str) -> (r: Option<u32>)
    ensures
        r == spec_history_number(name@),
{
    let manifest = report_manifest_name();
    if str_equal(name, "main.json") || str_equal(name, "report.html") || str_equal(
        name,
        manifest.as_str(),
    ) {
        return None;
    }
    let chars = chars_of(name);
    let ext = json_ext_chars();
    if !range_ends_with(&chars, 0, chars.len(), &ext) {
        proof {
            assert(chars@.subrange(0, chars.len() as int) =~= name@);
        }
        return None;
    }
    proof {
        assert(chars@.subrange(0, chars.len() as int) =~= name@);
    }
    file_number(name)
}

/// Scans a suite's directory listing, in the order given: the largest history
/// number, and the names that carry one, in order.
pub fn scan_history(names: &Vec<String>) -> (r: (u32, Vec<String>))
    ensures
        r.0 == max_history_number(views_of(names@)),
        views_of(r.1@) == numbered_names(views_of(names@)),
{
    let ghost views = views_of(names@);
    let mut max: u32 = 0;
    let mut numbered: Vec<String> = Vec::new();
    let mut i: usize = 0;
    proof {
        assert(views.take(0) =~= Seq::<Seq<char>>::empty());
        assert(views_of(numbered@) =~= Seq::<Seq<char>>::empty());
    }
    while i < names.len()
        invariant
            i <= names.len(),
            views == views_of(names@),
            max == max_history_number(views.take(i as int)),
            views_of(numbered@) == numbered_names(views.take(i as int)),
        decreases names.len() - i,
    {
        let n = history_number(names[i].as_str());
        proof {
            assert(views.take(i + 1).drop_last() =~= views.take(i as int));
            assert(views.take(i + 1).last() == names@[i as int]@);
        }
        if let Some(v) = n {
            if v > max {
                max = v;
            }
            let ghost before = numbered@;
            numbered.push(names[i].clone());
            proof {
                assert(views_of(numbered@) =~= views_of(before).push(names@[i as int]@));
            }
        }
        i = i + 1;
    }
    proof {
        assert(views.take(names.len() as int) =~= views);
    }
    (max, numbered)
}

/// The name a run's report is saved under reads back as its number.
pub proof fn law_history_name_round_trip(n: u32)
    ensures
        spec_file_number(spec_history_file_name(n)) == Some(n),
        spec_history_number(spec_history_file_name(n)) == Some(n),
{
    let x = zero_padded(decimal(n as nat), 3);
    let name = x + json_ext();
    lemma_padded_decimal(n as nat, 3);
    assert(name.subrange(name.len() - 5, name.len() as int) =~= json_ext());
    assert(ends_with(name, json_ext()));
    assert(name.take(name.len() - 5) =~= x);
    lemma_digits_not_json(x);
    assert(trim_suffixes(x, json_ext()) == x);
    assert(trim_suffixes(name, json_ext()) == x);
    lemma_digits_before_underscore(x);
    lemma_parse_digits(x);
    assert(!is_reserved_name(name)) by {
        reveal_strlit("main.json");
        reveal_strlit("report.html");
        reveal_strlit("report-manifest");
        if name == "main.json"@ {
            assert(name[0] == 'm');
            assert(is_digit(x[0]));
        }
        if name == "report.html"@ {
            assert(name[0] == 'r');
            assert(is_digit(x[0]));
        }
        if name == spec_report_manifest_name() {
            assert(name[0] == 'r');
            assert(is_digit(x[0]));
        }
    }
}

/// The next free number is above every number the names carry.
pub proof fn law_next_number_is_fresh(names: Seq<Seq<char>>, i: int)
    requires
        0 <= i < names.len(),
    ensures
        spec_file_number(names[i]) matches Some(n) ==> n <= max_file_number(names),
        spec_history_number(names[i]) matches Some(n) ==> n <= max_history_number(names),
    decreases names.len(),
{
    if i < names.len() - 1 {
        law_next_number_is_fresh(names.drop_last(), i);
        assert(names.drop_last()[i] == names[i]);
    }
}

/// Saving a run under the next free number makes the following run take the
/// number after it: runs are numbered 1, 2, 3, ... in a fresh directory.
pub proof fn law_numbering_advances(names: Seq<Seq<char>>)
    requires
        max_file_number(names) < u32::MAX,
    ensures
        ({
            let n = (max_file_number(names) + 1) as u32;
            max_file_number(names.push(spec_history_file_name(n))) == n
        }),
        max_file_number(Seq::<Seq<char>>::empty()) + 1 == 1,
{
    let n = (max_file_number(names) + 1) as u32;
    law_history_name_round_trip(n);
    let pushed = names.push(spec_history_file_name(n));
    assert(pushed.drop_last() =~= names);
    assert(pushed.last() == spec_history_file_name(n));
}

/// The reserved names carry no number, so excluding them changes nothing.
pub proof fn law_reserved_names_unnumbered()
    ensures
        spec_file_number("main.json"@) is None,
        spec_file_number(spec_report_manifest_name()) is None,
        !ends_with("report.html"@, json_ext()),
{
    reveal_strlit("main.json");
    reveal_strlit("report.html");
    reveal_strlit("report-manifest");
    let m = "main.json"@;
    assert(m.take(4) =~= seq!['m', 'a', 'i', 'n']);
    assert(ends_with(m, json_ext())) by {
        assert(m.subrange(4, 9) =~= json_ext());
    }
    let mm = seq!['m', 'a', 'i', 'n'];
    assert(!ends_with(mm, json_ext()));
    assert(m.take(m.len() - 5) =~= mm);
    assert(trim_suffixes(mm, json_ext()) == mm);
    assert(trim_suffixes(m, json_ext()) == trim_suffixes(m.take(m.len() - 5), json_ext()));
    assert(trim_suffixes(m, json_ext()) == mm);
    lemma_prefix_len_before(mm, '_', 4);
    assert(before_char(mm, '_') =~= mm);
    assert(!is_digit(mm[0]));
    assert(unsigned_digits(mm) == mm);
    let r = spec_report_manifest_name();
    let rr = r.take(15);
    assert(ends_with(r, json_ext())) by {
        assert(r.subrange(15, 20) =~= json_ext());
    }
    assert(!ends_with(rr, json_ext())) by {
        assert(rr.subrange(10, 15)[4] == 't');
    }
    assert(r.take(r.len() - 5) =~= rr);
    assert(trim_suffixes(rr, json_ext()) == rr);
    assert(trim_suffixes(r, json_ext()) == trim_suffixes(r.take(r.len() - 5), json_ext()));
    assert(trim_suffixes(r, json_ext()) == rr);
    assert forall|j: int| 0 <= j < 15 implies rr[j] != '_' by {
        assert(rr[j] == r[j]);
    }
    lemma_prefix_len_before(rr, '_', 15);
    assert(before_char(rr, '_') =~= rr);
    assert(!is_digit(rr[0]));
    assert(unsigned_digits(rr) == rr);
    let h = "report.html"@;
    assert(h.subrange(6, 11)[1] == 'h');
}

/// The history list keeps every name that carries a history number, in order,
/// and no other: one more name is added at the end exactly when it carries a
/// number, so as many names are kept as carry one.
pub proof fn law_numbered_names_keep_every_history_file(names: Seq<Seq<char>>, x: Seq<char>)
    ensures
        numbered_names(Seq::<Seq<char>>::empty()).len() == 0,
        numbered_names(names.push(x)) == if spec_history_number(x) is Some {
            numbered_names(names).push(x)
        } else {
            numbered_names(names)
        },
        numbered_names(names).len() == names.filter(
            |n: Seq<char>| spec_history_number(n) is Some,
        ).len(),
    decreases names.len(),
{
    assert(names.push(x).drop_last() =~= names);
    let pred = |n: Seq<char>| spec_history_number(n) is Some;
    if names.len() > 0 {
        let k = names.len() - 1;
        law_numbered_names_keep_every_history_file(names.drop_last(), names[k]);
        assert(names =~= names.drop_last().push(names[k]));
        names.drop_last().lemma_filter_push(names[k], pred);
    } else {
        reveal(Seq::filter);
    }
}

/// The largest number is carried by one of the names, or is 0 when no name
/// carries one; with `law_next_number_is_fresh`, it is the largest of them.
pub proof fn law_largest_number_is_carried(names: Seq<Seq<char>>)
    ensures
        (forall|i: int| 0 <= i < names.len() ==> #[trigger] spec_file_number(names[i]) is None)
            ==> max_file_number(names) == 0,
        max_file_number(names) != 0 ==> exists|i: int|
            0 <= i < names.len() && spec_file_number(names[i]) == Some(max_file_number(names)),
        (forall|i: int| 0 <= i < names.len() ==> #[trigger] spec_history_number(names[i]) is None)
            ==> max_history_number(names) == 0,
        max_history_number(names) != 0 ==> exists|i: int|
            0 <= i < names.len() && spec_history_number(names[i]) == Some(
                max_history_number(names),
            ),
    decreases names.len(),
{
    if names.len() > 0 {
        let init = names.drop_last();
        law_largest_number_is_carried(init);
        assert forall|i: int| 0 <= i < init.len() implies init[i] == names[i] by {}
        if max_file_number(names) != 0 && max_file_number(names) == max_file_number(init) {
            let i = choose|i: int|
                0 <= i < init.len() && spec_file_number(init[i]) == Some(max_file_number(init));
            assert(init[i] == names[i]);
        }
        if max_history_number(names) != 0 && max_history_number(names) == max_history_number(init) {
            let i = choose|i: int|
                0 <= i < init.len() && spec_history_number(init[i]) == Some(
                    max_history_number(init),
                );
            assert(init[i] == names[i]);
        }
        if forall|i: int| 0 <= i < names.len() ==> #[trigger] spec_file_number(names[i]) is None {
            assert forall|i: int| 0 <= i < init.len() implies #[trigger] spec_file_number(init[i]) is None by {
                assert(init[i] == names[i]);
            }
            assert(spec_file_number(names[names.len() - 1]) is None);
        }
        if forall|i: int| 0 <= i < names.len() ==> #[trigger] spec_history_number(names[i]) is None {
            assert forall|i: int| 0 <= i < init.len() implies #[trigger] spec_history_number(init[i]) is None by {
                assert(init[i] == names[i]);
            }
            assert(spec_history_number(names[names.len() - 1]) is None);
        }
    }
}

} // verus!
