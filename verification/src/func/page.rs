//! The report page that gathers every suite's history: which suites it lists,
//! in which order, and how their data is embedded in the page.
use crate::text::{
    lemma_seq_lt_irreflexive, lemma_seq_lt_total, lemma_seq_lt_transitive, replace_all,
    replace_str, seq_lt, starts_with, str_less,
};
use vstd::multiset::Multiset;
use vstd::prelude::*;
use vstd::string::*;

verus! {

/// Where the report page finds one suite's data.
pub struct FunctionDataManifest {
    pub name: String,
    pub main_json_path: String,
    pub max_history_number: u32,
}

/// The list of suites the report page shows.
pub struct ReportManifest {
    pub functions: Vec<FunctionDataManifest>,
}

/// The entry of a suite directory in the manifest: none when the directory has
/// neither a metadata file nor any history file.
pub fn function_manifest(name: &str, has_main_json: bool, max_history_number: u32) -> (r: Option<
    FunctionDataManifest,
>)
    ensures
        r is None <==> (!has_main_json && max_history_number == 0),
        r matches Some(m) ==> {
            &&& m.name@ == name@
            &&& m.main_json_path@ == name@ + "/main.json"@
            &&& m.max_history_number == max_history_number
        },
{
    if !has_main_json && max_history_number == 0 {
        return None;
    }
    let path = String::from_str(name).concat("/main.json");
    Some(FunctionDataManifest { name: String::from_str(name), main_json_path: path, max_history_number })
}

/// Something listed by name.
pub trait Named {
    /// The name, as text.
    spec fn name_view(&self) -> Seq<char>;

    /// The name.
    fn name_str(&self) -> (r: &str)
        ensures
            r@ == self.name_view(),
    ;
}

impl Named for FunctionDataManifest {
    open spec fn name_view(&self) -> Seq<char> {
        self.name@
    }

    fn name_str(&self) -> (r: &str) {
        self.name.as_str()
    }
}

impl Named for String {
    open spec fn name_view(&self) -> Seq<char> {
        self@
    }

    fn name_str(&self) -> (r: &str) {
        self.as_str()
    }
}

/// Name `a` comes strictly before name `b`: in ascending order of code
/// points, or in descending order.
pub open spec fn name_before(a: Seq<char>, b: Seq<char>, descending: bool) -> bool {
    if descending {
        seq_lt(b, a)
    } else {
        seq_lt(a, b)
    }
}

/// No item comes strictly before an item ahead of it.
pub open spec fn in_name_order<T: Named>(v: Seq<T>, descending: bool) -> bool {
    forall|i: int, j: int|
        0 <= i < j < v.len() ==> !name_before(
            #[trigger] v[j].name_view(),
            #[trigger] v[i].name_view(),
            descending,
        )
}

/// Whether an item has the name `n`.
pub open spec fn has_name<T: Named>(n: Seq<char>) -> spec_fn(T) -> bool {
    |x: T| x.name_view() == n
}

/// The items named `n`, in their order.
pub open spec fn named<T: Named>(v: Seq<T>, n: Seq<char>) -> Seq<T> {
    v.filter(has_name::<T>(n))
}

/// Putting `x` in front of the first item it comes before keeps it behind
/// every item of its name.
proof fn lemma_named_insert<T: Named>(out: Seq<T>, pos: int, x: T, n: Seq<char>, descending: bool)
    requires
        0 <= pos <= out.len(),
        in_name_order(out, descending),
        pos < out.len() ==> name_before(x.name_view(), out[pos].name_view(), descending),
    ensures
        named(out.insert(pos, x), n) == if x.name_view() == n {
            named(out, n).push(x)
        } else {
            named(out, n)
        },
{
    let p = has_name::<T>(n);
    let a = out.take(pos);
    let b = out.skip(pos);
    assert(out =~= a + b);
    assert(out.insert(pos, x) =~= a + (seq![x] + b));
    Seq::filter_distributes_over_add(a, b, p);
    Seq::filter_distributes_over_add(a, seq![x] + b, p);
    b.lemma_filter_prepend(x, p);
    if x.name_view() == n {
        assert forall|i: int| 0 <= i < b.len() implies !p(#[trigger] b[i]) by {
            assert(b[i] == out[pos + i]);
            lemma_name_before(x.name_view(), x.name_view(), x.name_view(), descending);
            if i > 0 {
                assert(!name_before(out[pos + i].name_view(), out[pos].name_view(), descending));
            }
        }
        b.lemma_all_neg_filter_empty(p);
        assert(b.filter(p) =~= Seq::<T>::empty());
        assert(named(out.insert(pos, x), n) =~= named(out, n).push(x));
    } else {
        assert(named(out.insert(pos, x), n) =~= named(out, n));
    }
}

/// The items named `n` of a list are those of its first item and of the rest.
proof fn lemma_named_first<T: Named>(v: Seq<T>, n: Seq<char>)
    requires
        v.len() > 0,
    ensures
        named(v, n) == (if v[0].name_view() == n {
            seq![v[0]]
        } else {
            Seq::empty()
        }) + named(v.skip(1), n),
{
    assert(v =~= seq![v[0]] + v.skip(1));
    v.skip(1).lemma_filter_prepend(v[0], has_name::<T>(n));
}

/// The manifests are in ascending order of name.
pub open spec fn sorted_by_name(v: Seq<FunctionDataManifest>) -> bool {
    in_name_order(v, false)
}

/// The names are in descending order.
pub open spec fn sorted_descending(v: Seq<String>) -> bool {
    in_name_order(v, true)
}

/// `name_before` is a strict order.
proof fn lemma_name_before(a: Seq<char>, b: Seq<char>, c: Seq<char>, descending: bool)
    ensures
        !name_before(a, a, descending),
        name_before(a, b, descending) && name_before(b, c, descending) ==> name_before(
            a,
            c,
            descending,
        ),
{
    lemma_seq_lt_irreflexive(a);
    if name_before(a, b, descending) && name_before(b, c, descending) {
        if descending {
            lemma_seq_lt_transitive(c, b, a);
        } else {
            lemma_seq_lt_transitive(a, b, c);
        }
    }
}

/// Whether name `a` comes strictly before name `b`.
fn name_comes_before(a: &str, b: &str, descending: bool) -> (r: bool)
    ensures
        r == name_before(a@, b@, descending),
{
    if descending {
        str_less(b, a)
    } else {
        str_less(a, b)
    }
}

/// The items sorted by name, by insertion; items with equal names keep the
/// order they came in.
fn sort_by_name<T: Named>(items: Vec<T>, descending: bool) -> (r: Vec<T>)
    ensures
        r@.to_multiset() == items@.to_multiset(),
        in_name_order(r@, descending),
        forall|n: Seq<char>| #[trigger] named(r@, n) == named(items@, n),
{
    broadcast use vstd::seq_lib::group_to_multiset_ensures;

    let ghost original = items@;
    let mut rest = items;
    let mut out: Vec<T> = Vec::new();
    proof {
        assert forall|n: Seq<char>| #[trigger] named(original, n) == named(out@, n) + named(
            rest@,
            n,
        ) by {
            assert(out@ =~= Seq::<T>::empty());
            assert(named(out@, n) =~= Seq::<T>::empty());
            assert(named(out@, n) + named(rest@, n) =~= named(rest@, n));
        }
    }
    while rest.len() > 0
        invariant
            out@.to_multiset().add(rest@.to_multiset()) == original.to_multiset(),
            in_name_order(out@, descending),
            forall|n: Seq<char>| #[trigger] named(original, n) == named(out@, n) + named(rest@, n),
        decreases rest.len(),
    {
        let ghost rest_before = rest@;
        let x = rest.remove(0);
        proof {
            vstd::seq_lib::to_multiset_remove(rest_before, 0);
        }
        let mut pos: usize = 0;
        while pos < out.len() && !name_comes_before(x.name_str(), out[pos].name_str(), descending)
            invariant
                pos <= out.len(),
                forall|q: int|
                    0 <= q < pos ==> !name_before(x.name_view(), #[trigger] out@[q].name_view(), descending),
            decreases out.len() - pos,
        {
            pos = pos + 1;
        }
        let ghost before = out@;
        proof {
            vstd::seq_lib::to_multiset_insert(before, pos as int, x);
            before.insert_ensures(pos as int, x);
        }
        out.insert(pos, x);
        proof {
            assert forall|n: Seq<char>| #[trigger] named(original, n) == named(out@, n) + named(
                rest@,
                n,
            ) by {
                lemma_named_insert(before, pos as int, x, n, descending);
                lemma_named_first(rest_before, n);
                assert(rest_before.skip(1) =~= rest@);
                assert(named(original, n) == named(before, n) + named(rest_before, n));
                if x.name_view() == n {
                    assert(named(before, n) + named(rest_before, n) =~= named(before, n).push(x)
                        + named(rest@, n));
                } else {
                    assert(named(before, n) + named(rest_before, n) =~= named(before, n) + named(
                        rest@,
                        n,
                    ));
                }
            }
            broadcast use vstd::multiset::group_multiset_axioms;

            assert(rest_before[0] == x);
            assert(rest_before.contains(x));
            vstd::seq_lib::to_multiset_contains(rest_before, x);
            assert(rest@ == rest_before.remove(0));
            assert(rest@.to_multiset() == rest_before.to_multiset().remove(x));
            assert(out@.to_multiset() == before.to_multiset().insert(x));
            assert(out@.to_multiset().add(rest@.to_multiset()) =~= before.to_multiset().add(
                rest_before.to_multiset(),
            ));
            assert forall|i: int, j: int| 0 <= i < j < out@.len() implies !name_before(
                #[trigger] out@[j].name_view(),
                #[trigger] out@[i].name_view(),
                descending,
            ) by {
                if j < pos {
                    assert(out@[i] == before[i] && out@[j] == before[j]);
                } else if j == pos {
                    assert(out@[i] == before[i]);
                } else if i == pos {
                    assert(out@[j] == before[j - 1]);
                    let a = before[j - 1].name_view();
                    let b = x.name_view();
                    let c = before[pos as int].name_view();
                    assert(name_before(b, c, descending));
                    lemma_name_before(a, b, c, descending);
                    lemma_name_before(c, c, c, descending);
                    if j - 1 > pos {
                        assert(!name_before(a, c, descending));
                    }
                } else if i < pos {
                    assert(out@[i] == before[i] && out@[j] == before[j - 1]);
                } else {
                    assert(out@[i] == before[i - 1] && out@[j] == before[j - 1]);
                }
            }
        }
    }
    proof {
        assert(rest@.to_multiset() =~= Multiset::empty());
        assert(out@.to_multiset().add(Multiset::empty()) =~= out@.to_multiset());
        assert forall|n: Seq<char>| #[trigger] named(out@, n) == named(items@, n) by {
            assert(rest@ =~= Seq::<T>::empty());
            reveal(Seq::filter);
            assert(named(rest@, n) =~= Seq::<T>::empty());
            assert(named(out@, n) + named(rest@, n) =~= named(out@, n));
        }
    }
    out
}

/// The manifests sorted by name, ascending; manifests with equal names keep
/// their order (the sort is stable).
pub fn sort_manifests(items: Vec<FunctionDataManifest>) -> (r: Vec<FunctionDataManifest>)
    ensures
        r@.to_multiset() == items@.to_multiset(),
        sorted_by_name(r@),
        forall|n: Seq<char>| #[trigger] named(r@, n) == named(items@, n),
{
    sort_by_name(items, false)
}

/// The names sorted in descending order (the order the history list is read in).
pub fn sort_names_descending(items: Vec<String>) -> (r: Vec<String>)
    ensures
        r@.to_multiset() == items@.to_multiset(),
        sorted_descending(r@),
        forall|n: Seq<char>| #[trigger] named(r@, n) == named(items@, n),
{
    sort_by_name(items, true)
}

/// `</`, which would end a script element early.
pub open spec fn close_tag_start() -> Seq<char> {
    seq!['<', '/']
}

/// The escaped form of `</`: `<\/`.
pub open spec fn escaped_close_tag() -> Seq<char> {
    seq!['<', '\\', '/']
}

/// The text holds no `</`.
pub open spec fn has_no_close_tag(s: Seq<char>) -> bool {
    forall|i: int| 0 <= i < s.len() - 1 ==> !(#[trigger] s[i] == '<' && s[i + 1] == '/')
}

/// JSON made safe to embed in a script element: every `</` becomes `<\/`.
pub fn escape_script_json(json: &str) -> (r: String)
    ensures
        r@ == replace_all(json@, close_tag_start(), escaped_close_tag()),
{
    proof {
        reveal_strlit("</");
        reveal_strlit("<\\/");
        assert("</"@ =~= close_tag_start());
        assert("<\\/"@ =~= escaped_close_tag());
    }
    replace_str(json, "</", "<\\/")
}

/// The report page: `template` with every `</head>` replaced by a script that
/// sets `window.__memori_DATA__` to the escaped JSON, followed by `</head>`.
pub fn report_html(template: &str, json: &str) -> (r: String)
    ensures
        r@ == replace_all(
            template@,
            "</head>"@,
            "<script>window.__memori_DATA__ = "@ + replace_all(
                json@,
                close_tag_start(),
                escaped_close_tag(),
            ) + ";</script>\n</head>"@,
        ),
{
    let safe = escape_script_json(json);
    let script = String::from_str("<script>window.__memori_DATA__ = ").concat(safe.as_str()).concat(
        ";</script>\n</head>",
    );
    proof {
        reveal_strlit("</head>");
    }
    replace_str(template, "</head>", script.as_str())
}

/// The `file://` address of the report page at `path`: backslashes become
/// slashes, and on Windows the path follows `file:///`.
pub fn report_url(path: &str, windows: bool) -> (r: String)
    ensures
        r@ == (if windows {
            "file:///"@
        } else {
            "file://"@
        }) + replace_all(path@, seq!['\\'], seq!['/']),
{
    proof {
        reveal_strlit("\\");
        reveal_strlit("/");
        assert("\\"@ =~= seq!['\\']);
        assert("/"@ =~= seq!['/']);
    }
    let forward = replace_str(path, "\\", "/");
    if windows {
        String::from_str("file:///").concat(forward.as_str())
    } else {
        String::from_str("file://").concat(forward.as_str())
    }
}

/// The first character of the escaped text: `<` where the text starts with
/// `</`, else the text's own first character.
proof fn lemma_escape_shape(s: Seq<char>)
    ensures
        has_no_close_tag(replace_all(s, close_tag_start(), escaped_close_tag())),
        replace_all(s, close_tag_start(), escaped_close_tag()).len() == 0 <==> s.len() == 0,
        s.len() > 0 ==> replace_all(s, close_tag_start(), escaped_close_tag())[0] == s[0],
    decreases s.len(),
{
    let pat = close_tag_start();
    let rep = escaped_close_tag();
    let r = replace_all(s, pat, rep);
    if s.len() > 0 {
        if starts_with(s, pat) {
            let rest = s.skip(2);
            lemma_escape_shape(rest);
            let t = replace_all(rest, pat, rep);
            assert(r == rep + t);
            assert(s[0] == s.take(2)[0]);
            assert forall|i: int| 0 <= i < r.len() - 1 implies !(#[trigger] r[i] == '<' && r[i + 1]
                == '/') by {
                if i >= 3 {
                    assert(r[i] == t[i - 3] && r[i + 1] == t[i - 2]);
                } else if i == 2 {
                    assert(r[i] == '/');
                } else if i == 1 {
                    assert(r[i] == '\\');
                } else {
                    assert(r[i + 1] == '\\');
                }
            }
        } else {
            let rest = s.skip(1);
            lemma_escape_shape(rest);
            let t = replace_all(rest, pat, rep);
            assert(r == seq![s[0]] + t);
            assert forall|i: int| 0 <= i < r.len() - 1 implies !(#[trigger] r[i] == '<' && r[i + 1]
                == '/') by {
                if i >= 1 {
                    assert(r[i] == t[i - 1] && r[i + 1] == t[i]);
                } else {
                    assert(r[0] == s[0]);
                    assert(r[1] == t[0]);
                    if s[0] == '<' && s.len() >= 2 {
                        assert(t[0] == rest[0]);
                        assert(rest[0] == s[1]);
                        if s[1] == '/' {
                            assert(s.take(2) =~= pat);
                        }
                    }
                }
            }
        }
    }
}

/// The escaped JSON holds no `</`, so it cannot end the script element it is
/// embedded in.
pub proof fn law_escaped_json_has_no_close_tag(json: Seq<char>)
    ensures
        has_no_close_tag(replace_all(json, close_tag_start(), escaped_close_tag())),
{
    lemma_escape_shape(json);
}

/// Manifest order and history order are total orders on names: no name comes
/// before itself, and of two different names one comes first.
pub proof fn law_name_order_total(a: Seq<char>, b: Seq<char>)
    ensures
        !seq_lt(a, a),
        a != b ==> (seq_lt(a, b) || seq_lt(b, a)),
        seq_lt(a, b) ==> !seq_lt(b, a),
{
    lemma_seq_lt_irreflexive(a);
    if a != b {
        lemma_seq_lt_total(a, b);
    }
    if seq_lt(a, b) && seq_lt(b, a) {
        lemma_seq_lt_transitive(a, b, a);
        lemma_seq_lt_irreflexive(a);
    }
}

} // verus!
