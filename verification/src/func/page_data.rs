//! The data embedded in the report page: for every suite, its metadata and the
//! history files that hold JSON, written as one JSON object keyed by suite name.
use super::output::{opt_view, FuncMetadata, PatternMetadata};
use crate::keyed::{names_ascending, KeyedList};
use vstd::prelude::*;
use vstd::string::*;

verus! {

/// The compact text that serde_json writes for the JSON value it reads from
/// `text`, or none where `text` is not JSON.
pub uninterp spec fn spec_json_compact(text: Seq<char>) -> Option<Seq<char>>;

/// The JSON string literal that serde_json writes for `s`.
pub uninterp spec fn spec_json_quote(s: Seq<char>) -> Seq<char>;

/// `serde_json::from_str::<serde_json::Value>` followed by `Value`'s `Display`
/// (compact output). What it returns is left to the name `spec_json_compact`,
/// a function of the text alone; nothing is claimed about which texts parse.
#[verifier::external_body]
pub(crate) fn json_compact(text: &str) -> (r: Option<String>)
    ensures
        opt_view(r) == spec_json_compact(text@),
{
    match serde_json::from_str::<serde_json::Value>(text) {
        Ok(v) => Some(v.to_string()),
        Err(_) => None,
    }
}

/// The JSON string literal for `s`, as serde_json writes a `Value::String`.
/// What it returns is left to the name `spec_json_quote`, a function of `s`
/// alone; the escaping rules are not restated here.
#[verifier::external_body]
pub(crate) fn json_quote(s: &str) -> (r: String)
    ensures
        r@ == spec_json_quote(s@),
{
    serde_json::Value::String(s.to_string()).to_string()
}

/// One suite as the report page shows it: its metadata, if it could be read,
/// and its history as `(file name, compact JSON)` pairs, newest first.
pub struct SuitePage {
    pub meta: Option<FuncMetadata>,
    pub history: Vec<(String, String)>,
}

/// The views of a list of string pairs.
pub open spec fn pair_views(v: Seq<(String, String)>) -> Seq<(Seq<char>, Seq<char>)> {
    v.map_values(|e: (String, String)| (e.0@, e.1@))
}

/// The history files that are kept, in order: each name whose compacted
/// content is present, paired with that content.
pub open spec fn kept_parsed(names: Seq<String>, compacted: Seq<Option<String>>) -> Seq<
    (Seq<char>, Seq<char>),
>
    decreases names.len(),
{
    if names.len() == 0 {
        Seq::empty()
    } else {
        let rest = kept_parsed(names.drop_last(), compacted.drop_last());
        match compacted[names.len() - 1] {
            Some(c) => rest.push((names.last()@, c@)),
            None => rest,
        }
    }
}

/// The history files whose content was read and is JSON, in order, each with
/// the compact text of its JSON.
pub open spec fn kept_history(names: Seq<String>, contents: Seq<Option<String>>) -> Seq<
    (Seq<char>, Seq<char>),
>
    decreases names.len(),
{
    if names.len() == 0 {
        Seq::empty()
    } else {
        let rest = kept_history(names.drop_last(), contents.drop_last());
        match contents[names.len() - 1] {
            Some(t) => match spec_json_compact(t@) {
                Some(c) => rest.push((names.last()@, c)),
                None => rest,
            },
            None => rest,
        }
    }
}

/// Keeps, in order, each name whose compacted content is present, paired with
/// that content; the others are left out.
pub fn keep_parsed(names: &Vec<String>, compacted: &Vec<Option<String>>) -> (r: Vec<(String, String)>)
    requires
        names.len() == compacted.len(),
    ensures
        pair_views(r@) == kept_parsed(names@, compacted@),
{
    let mut out: Vec<(String, String)> = Vec::new();
    let mut i: usize = 0;
    proof {
        assert(pair_views(out@) =~= kept_parsed(names@.take(0), compacted@.take(0)));
    }
    while i < names.len()
        invariant
            i <= names.len(),
            names.len() == compacted.len(),
            pair_views(out@) == kept_parsed(names@.take(i as int), compacted@.take(i as int)),
        decreases names.len() - i,
    {
        proof {
            assert(names@.take(i + 1).drop_last() =~= names@.take(i as int));
            assert(compacted@.take(i + 1).drop_last() =~= compacted@.take(i as int));
            assert(names@.take(i + 1).last() == names@[i as int]);
            assert(compacted@.take(i + 1)[i as int] == compacted@[i as int]);
        }
        match &compacted[i] {
            Some(c) => {
                let ghost before = out@;
                out.push((names[i].clone(), c.clone()));
                proof {
                    assert(pair_views(out@) =~= pair_views(before).push((names@[i as int]@, c@)));
                }
            },
            None => {},
        }
        i = i + 1;
    }
    proof {
        assert(names@.take(names.len() as int) =~= names@);
        assert(compacted@.take(names.len() as int) =~= compacted@);
    }
    out
}

/// The history of a suite for the report page: each file (in the order given)
/// whose content was read and parses as JSON, with the compact text of that
/// JSON; the others are left out.
pub fn history_entries(names: &Vec<String>, contents: &Vec<Option<String>>) -> (r: Vec<
    (String, String),
>)
    requires
        names.len() == contents.len(),
    ensures
        pair_views(r@) == kept_history(names@, contents@),
{
    let mut compacted: Vec<Option<String>> = Vec::new();
    let mut i: usize = 0;
    while i < contents.len()
        invariant
            i <= contents.len(),
            compacted.len() == i,
            forall|j: int|
                0 <= j < i ==> opt_view(#[trigger] compacted@[j]) == match contents@[j] {
                    Some(t) => spec_json_compact(t@),
                    None => None,
                },
        decreases contents.len() - i,
    {
        let c = match &contents[i] {
            Some(t) => json_compact(t.as_str()),
            None => None,
        };
        compacted.push(c);
        i = i + 1;
    }
    let r = keep_parsed(names, &compacted);
    proof {
        lemma_kept_parsed_history(names@, contents@, compacted@);
    }
    r
}

/// Keeping the compacted contents keeps what the history keeps.
proof fn lemma_kept_parsed_history(
    names: Seq<String>,
    contents: Seq<Option<String>>,
    compacted: Seq<Option<String>>,
)
    requires
        names.len() == contents.len(),
        names.len() == compacted.len(),
        forall|j: int|
            0 <= j < names.len() ==> opt_view(#[trigger] compacted[j]) == match contents[j] {
                Some(t) => spec_json_compact(t@),
                None => None,
            },
    ensures
        kept_parsed(names, compacted) == kept_history(names, contents),
    decreases names.len(),
{
    if names.len() > 0 {
        lemma_kept_parsed_history(names.drop_last(), contents.drop_last(), compacted.drop_last());
        let k = names.len() - 1;
        assert(opt_view(compacted[k]) == match contents[k] {
            Some(t) => spec_json_compact(t@),
            None => None,
        });
    }
}

// ------------------------------------------------------------------
// The JSON text of the page data
// ------------------------------------------------------------------

/// The texts separated by commas.
pub open spec fn comma_joined(items: Seq<Seq<char>>) -> Seq<char>
    decreases items.len(),
{
    if items.len() == 0 {
        Seq::empty()
    } else if items.len() == 1 {
        items[0]
    } else {
        comma_joined(items.drop_last()) + ","@ + items.last()
    }
}

/// A JSON array whose elements have the given texts.
pub open spec fn json_array(items: Seq<Seq<char>>) -> Seq<char> {
    "["@ + comma_joined(items) + "]"@
}

/// The JSON string literals of the strings.
pub open spec fn quoted_strings(v: Seq<String>) -> Seq<Seq<char>> {
    v.map_values(|s: String| spec_json_quote(s@))
}

/// A pattern's metadata as a JSON object, keys in ascending order.
pub open spec fn pattern_meta_json(p: PatternMetadata) -> Seq<char> {
    "{\"description\":"@ + spec_json_quote(p.description@) + ",\"name\":"@ + spec_json_quote(p.name@)
        + ",\"patternType\":"@ + spec_json_quote(p.pattern_type@) + "}"@
}

/// The JSON objects of the patterns' metadata.
pub open spec fn pattern_meta_jsons(v: Seq<PatternMetadata>) -> Seq<Seq<char>> {
    v.map_values(|p: PatternMetadata| pattern_meta_json(p))
}

/// A suite's metadata as a JSON object, keys in ascending order; a missing
/// description is `null`.
pub open spec fn meta_json(m: FuncMetadata) -> Seq<char> {
    "{\"description\":"@ + match opt_view(m.description) {
        Some(d) => spec_json_quote(d),
        None => "null"@,
    } + ",\"functions\":"@ + json_array(quoted_strings(m.functions@)) + ",\"name\":"@
        + spec_json_quote(m.name@) + ",\"patterns\":"@ + json_array(pattern_meta_jsons(m.patterns@))
        + "}"@
}

/// One history file as a JSON object: its data and its file name.
pub open spec fn history_item_json(e: (String, String)) -> Seq<char> {
    "{\"data\":"@ + e.1@ + ",\"fileName\":"@ + spec_json_quote(e.0@) + "}"@
}

/// The JSON objects of the history files.
pub open spec fn history_item_jsons(v: Seq<(String, String)>) -> Seq<Seq<char>> {
    v.map_values(|e: (String, String)| history_item_json(e))
}

/// A suite as a JSON object: its history and its metadata (`null` when absent).
pub open spec fn suite_json(s: SuitePage) -> Seq<char> {
    "{\"history\":"@ + json_array(history_item_jsons(s.history@)) + ",\"meta\":"@ + match s.meta {
        Some(m) => meta_json(m),
        None => "null"@,
    } + "}"@
}

/// The members of the page data object: each suite's quoted name and its object.
pub open spec fn suite_members(v: Seq<(String, SuitePage)>) -> Seq<Seq<char>> {
    v.map_values(|e: (String, SuitePage)| spec_json_quote(e.0@) + ":"@ + suite_json(e.1))
}

/// The page data: one JSON object with a member per suite, in the given order.
pub open spec fn page_json(suites: Seq<(String, SuitePage)>) -> Seq<char> {
    "{"@ + comma_joined(suite_members(suites)) + "}"@
}

/// One more text joined on.
proof fn lemma_comma_joined_step(items: Seq<Seq<char>>, i: int)
    requires
        0 <= i < items.len(),
    ensures
        comma_joined(items.take(i + 1)) == if i == 0 {
            items[0]
        } else {
            comma_joined(items.take(i)) + ","@ + items[i]
        },
{
    let t = items.take(i + 1);
    assert(t.drop_last() =~= items.take(i));
    assert(t.last() == items[i]);
    if i == 0 {
        assert(t.len() == 1);
    }
}

/// The JSON array of the quoted strings.
fn quoted_array(v: &Vec<String>) -> (r: String)
    ensures
        r@ == json_array(quoted_strings(v@)),
{
    let ghost items = quoted_strings(v@);
    let mut acc = String::new();
    let mut i: usize = 0;
    while i < v.len()
        invariant
            i <= v.len(),
            items == quoted_strings(v@),
            acc@ == comma_joined(items.take(i as int)),
        decreases v.len() - i,
    {
        proof {
            lemma_comma_joined_step(items, i as int);
        }
        if i > 0 {
            acc.append(",");
        }
        let q = json_quote(v[i].as_str());
        acc.append(q.as_str());
        proof {
            if i == 0 {
                assert(acc@ =~= items[0]);
            }
        }
        i = i + 1;
    }
    proof {
        assert(items.take(v.len() as int) =~= items);
    }
    String::from_str("[").concat(acc.as_str()).concat("]")
}

/// The JSON object of one pattern's metadata.
fn pattern_meta_text(p: &PatternMetadata) -> (r: String)
    ensures
        r@ == pattern_meta_json(*p),
{
    let mut out = String::from_str("{\"description\":");
    out.append(json_quote(p.description.as_str()).as_str());
    out.append(",\"name\":");
    out.append(json_quote(p.name.as_str()).as_str());
    out.append(",\"patternType\":");
    out.append(json_quote(p.pattern_type.as_str()).as_str());
    out.append("}");
    out
}

/// The JSON array of the patterns' metadata.
fn patterns_array(v: &Vec<PatternMetadata>) -> (r: String)
    ensures
        r@ == json_array(pattern_meta_jsons(v@)),
{
    let ghost items = pattern_meta_jsons(v@);
    let mut acc = String::new();
    let mut i: usize = 0;
    while i < v.len()
        invariant
            i <= v.len(),
            items == pattern_meta_jsons(v@),
            acc@ == comma_joined(items.take(i as int)),
        decreases v.len() - i,
    {
        proof {
            lemma_comma_joined_step(items, i as int);
        }
        if i > 0 {
            acc.append(",");
        }
        let q = pattern_meta_text(&v[i]);
        acc.append(q.as_str());
        proof {
            if i == 0 {
                assert(acc@ =~= items[0]);
            }
        }
        i = i + 1;
    }
    proof {
        assert(items.take(v.len() as int) =~= items);
    }
    String::from_str("[").concat(acc.as_str()).concat("]")
}

/// A suite's metadata as a JSON object.
pub fn meta_text(m: &FuncMetadata) -> (r: String)
    ensures
        r@ == meta_json(*m),
{
    let mut out = String::from_str("{\"description\":");
    match &m.description {
        Some(d) => out.append(json_quote(d.as_str()).as_str()),
        None => out.append("null"),
    }
    out.append(",\"functions\":");
    out.append(quoted_array(&m.functions).as_str());
    out.append(",\"name\":");
    out.append(json_quote(m.name.as_str()).as_str());
    out.append(",\"patterns\":");
    out.append(patterns_array(&m.patterns).as_str());
    out.append("}");
    out
}

/// The JSON array of a suite's history files.
fn history_array(v: &Vec<(String, String)>) -> (r: String)
    ensures
        r@ == json_array(history_item_jsons(v@)),
{
    let ghost items = history_item_jsons(v@);
    let mut acc = String::new();
    let mut i: usize = 0;
    while i < v.len()
        invariant
            i <= v.len(),
            items == history_item_jsons(v@),
            acc@ == comma_joined(items.take(i as int)),
        decreases v.len() - i,
    {
        proof {
            lemma_comma_joined_step(items, i as int);
        }
        if i > 0 {
            acc.append(",");
        }
        let mut item = String::from_str("{\"data\":");
        item.append(v[i].1.as_str());
        item.append(",\"fileName\":");
        item.append(json_quote(v[i].0.as_str()).as_str());
        item.append("}");
        acc.append(item.as_str());
        proof {
            if i == 0 {
                assert(acc@ =~= items[0]);
            }
        }
        i = i + 1;
    }
    proof {
        assert(items.take(v.len() as int) =~= items);
    }
    String::from_str("[").concat(acc.as_str()).concat("]")
}

/// A suite as a JSON object.
pub fn suite_text(s: &SuitePage) -> (r: String)
    ensures
        r@ == suite_json(*s),
{
    let mut out = String::from_str("{\"history\":");
    out.append(history_array(&s.history).as_str());
    out.append(",\"meta\":");
    match &s.meta {
        Some(m) => out.append(meta_text(m).as_str()),
        None => out.append("null"),
    }
    out.append("}");
    out
}

/// The data the report page embeds: one JSON object with a member per suite,
/// in ascending order of suite name, each holding the suite's history and
/// metadata.
pub fn page_data(suites: &KeyedList<SuitePage>) -> (r: String)
    ensures
        r@ == page_json(suites.listing()),
        names_ascending(suites.listing()),
{
    let entries = suites.entries();
    let ghost items = suite_members(entries@);
    let mut acc = String::new();
    let mut i: usize = 0;
    while i < entries.len()
        invariant
            i <= entries.len(),
            items == suite_members(entries@),
            acc@ == comma_joined(items.take(i as int)),
        decreases entries.len() - i,
    {
        proof {
            lemma_comma_joined_step(items, i as int);
        }
        if i > 0 {
            acc.append(",");
        }
        let mut member = json_quote(entries[i].0.as_str());
        member.append(":");
        member.append(suite_text(&entries[i].1).as_str());
        acc.append(member.as_str());
        proof {
            if i == 0 {
                assert(acc@ =~= items[0]);
            }
        }
        i = i + 1;
    }
    proof {
        assert(items.take(entries.len() as int) =~= items);
    }
    String::from_str("{").concat(acc.as_str()).concat("}")
}

// ------------------------------------------------------------------
// Laws
// ------------------------------------------------------------------

/// Every file whose compacted content is present is kept, in order, and no
/// other: keeping nothing gives nothing, one more file with content adds
/// exactly that file at the end, one more without adds nothing; so as many
/// files are kept as have content.
pub proof fn law_kept_parsed(
    names: Seq<String>,
    compacted: Seq<Option<String>>,
    name: String,
    content: String,
)
    requires
        names.len() == compacted.len(),
    ensures
        kept_parsed(Seq::<String>::empty(), Seq::<Option<String>>::empty()).len() == 0,
        kept_parsed(names.push(name), compacted.push(Some(content))) == kept_parsed(
            names,
            compacted,
        ).push((name@, content@)),
        kept_parsed(names.push(name), compacted.push(None)) == kept_parsed(names, compacted),
        kept_parsed(names, compacted).len() == compacted.filter(
            |o: Option<String>| o is Some,
        ).len(),
    decreases names.len(),
{
    assert(names.push(name).drop_last() =~= names);
    assert(compacted.push(Some(content)).drop_last() =~= compacted);
    assert(compacted.push(None::<String>).drop_last() =~= compacted);
    let pred = |o: Option<String>| o is Some;
    if names.len() > 0 {
        let k = names.len() - 1;
        law_kept_parsed(names.drop_last(), compacted.drop_last(), names[k], name);
        assert(compacted =~= compacted.drop_last().push(compacted[k]));
        compacted.drop_last().lemma_filter_push(compacted[k], pred);
    } else {
        assert(compacted =~= Seq::<Option<String>>::empty());
        reveal(Seq::filter);
    }
}

/// The history keeps every file whose content was read and parses as JSON,
/// with the compact text of that JSON, in order, and no other file; as many
/// files are kept as have content that parses.
pub proof fn law_kept_history(
    names: Seq<String>,
    contents: Seq<Option<String>>,
    name: String,
    content: String,
)
    requires
        names.len() == contents.len(),
    ensures
        kept_history(Seq::<String>::empty(), Seq::<Option<String>>::empty()).len() == 0,
        spec_json_compact(content@) matches Some(c) ==> kept_history(
            names.push(name),
            contents.push(Some(content)),
        ) == kept_history(names, contents).push((name@, c)),
        spec_json_compact(content@) is None ==> kept_history(
            names.push(name),
            contents.push(Some(content)),
        ) == kept_history(names, contents),
        kept_history(names.push(name), contents.push(None)) == kept_history(names, contents),
        kept_history(names, contents).len() == contents.filter(
            |o: Option<String>| o matches Some(t) && spec_json_compact(t@) is Some,
        ).len(),
    decreases names.len(),
{
    assert(names.push(name).drop_last() =~= names);
    assert(contents.push(Some(content)).drop_last() =~= contents);
    assert(contents.push(None::<String>).drop_last() =~= contents);
    let pred = |o: Option<String>| o matches Some(t) && spec_json_compact(t@) is Some;
    if names.len() > 0 {
        let k = names.len() - 1;
        law_kept_history(names.drop_last(), contents.drop_last(), names[k], name);
        assert(contents =~= contents.drop_last().push(contents[k]));
        contents.drop_last().lemma_filter_push(contents[k], pred);
    } else {
        assert(contents =~= Seq::<Option<String>>::empty());
        reveal(Seq::filter);
    }
}

/// Joining nothing gives nothing, one text gives that text, and one more
/// text adds a comma and that text.
pub proof fn law_comma_joined(items: Seq<Seq<char>>, x: Seq<char>)
    ensures
        comma_joined(Seq::<Seq<char>>::empty()) == Seq::<char>::empty(),
        comma_joined(seq![x]) == x,
        items.len() > 0 ==> comma_joined(items.push(x)) == comma_joined(items) + ","@ + x,
{
    assert(items.push(x).drop_last() =~= items);
    assert(seq![x].len() == 1);
}

/// Each list of JSON texts has one text per item, in the items' order: the
/// quoted strings, the patterns' objects, the history files' objects and the
/// suites' members.
pub proof fn law_one_text_per_item(
    strings: Seq<String>,
    patterns: Seq<PatternMetadata>,
    history: Seq<(String, String)>,
    suites: Seq<(String, SuitePage)>,
)
    ensures
        quoted_strings(strings).len() == strings.len(),
        forall|i: int|
            0 <= i < strings.len() ==> #[trigger] quoted_strings(strings)[i] == spec_json_quote(
                strings[i]@,
            ),
        pattern_meta_jsons(patterns).len() == patterns.len(),
        forall|i: int|
            0 <= i < patterns.len() ==> #[trigger] pattern_meta_jsons(patterns)[i]
                == pattern_meta_json(patterns[i]),
        history_item_jsons(history).len() == history.len(),
        forall|i: int|
            0 <= i < history.len() ==> #[trigger] history_item_jsons(history)[i] == history_item_json(
                history[i],
            ),
        suite_members(suites).len() == suites.len(),
        forall|i: int|
            0 <= i < suites.len() ==> #[trigger] suite_members(suites)[i] == spec_json_quote(
                suites[i].0@,
            ) + ":"@ + suite_json(suites[i].1),
{
}

} // verus!
