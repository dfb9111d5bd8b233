use memori::func::page_data::{history_entries, keep_parsed, meta_text, page_data, suite_text, SuitePage};
use memori::{FuncMetadata, KeyedList, PatternMetadata};

fn s(x: &str) -> String {
    x.to_string()
}

#[test]
fn keep_parsed_keeps_present_contents_in_order() {
    let names = vec![s("003.json"), s("002.json"), s("001.json")];
    let compacted = vec![Some(s("{\"a\":1}")), None, Some(s("[]"))];
    assert_eq!(
        keep_parsed(&names, &compacted),
        vec![(s("003.json"), s("{\"a\":1}")), (s("001.json"), s("[]"))]
    );
}

#[test]
fn history_entries_drops_unread_and_non_json_files() {
    let names = vec![s("003.json"), s("002_note.json"), s("001.json")];
    let contents = vec![Some(s("{ \"b\": 2,\n  \"a\": [1, 2] }")), Some(s("not json")), None];
    assert_eq!(
        history_entries(&names, &contents),
        vec![(s("003.json"), s("{\"a\":[1,2],\"b\":2}"))]
    );
}

#[test]
fn history_entries_of_nothing_is_empty() {
    assert_eq!(history_entries(&Vec::new(), &Vec::new()), Vec::<(String, String)>::new());
}

fn sample_meta() -> FuncMetadata {
    FuncMetadata {
        name: s("alpha"),
        description: None,
        functions: vec![s("f\"1"), s("g")],
        patterns: vec![PatternMetadata { name: s("p"), description: s("d"), pattern_type: s("instant") }],
    }
}

#[test]
fn meta_text_writes_keys_in_ascending_order() {
    assert_eq!(
        meta_text(&sample_meta()),
        "{\"description\":null,\"functions\":[\"f\\\"1\",\"g\"],\"name\":\"alpha\",\"patterns\":[{\"description\":\"d\",\"name\":\"p\",\"patternType\":\"instant\"}]}"
    );
    let mut described = sample_meta();
    described.description = Some(s("line\nbreak"));
    assert!(meta_text(&described).starts_with("{\"description\":\"line\\nbreak\",\"functions\":"));
}

#[test]
fn suite_text_without_metadata_writes_null() {
    let suite = SuitePage { meta: None, history: vec![(s("001.json"), s("{}")), (s("000.json"), s("[1]"))] };
    assert_eq!(
        suite_text(&suite),
        "{\"history\":[{\"data\":{},\"fileName\":\"001.json\"},{\"data\":[1],\"fileName\":\"000.json\"}],\"meta\":null}"
    );
}

#[test]
fn page_data_lists_suites_by_name() {
    let mut suites: KeyedList<SuitePage> = KeyedList::new();
    suites.insert(s("zeta"), SuitePage { meta: None, history: vec![(s("001.json"), s("{}"))] });
    suites.insert(s("alpha"), SuitePage { meta: Some(sample_meta()), history: Vec::new() });
    assert_eq!(
        page_data(&suites),
        "{\"alpha\":{\"history\":[],\"meta\":{\"description\":null,\"functions\":[\"f\\\"1\",\"g\"],\"name\":\"alpha\",\"patterns\":[{\"description\":\"d\",\"name\":\"p\",\"patternType\":\"instant\"}]}},\"zeta\":{\"history\":[{\"data\":{},\"fileName\":\"001.json\"}],\"meta\":null}}"
    );
}

#[test]
fn page_data_of_no_suites_is_an_empty_object() {
    let suites: KeyedList<SuitePage> = KeyedList::new();
    assert_eq!(page_data(&suites), "{}");
}
