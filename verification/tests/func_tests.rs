use memori::func::history::{
    file_number, history_file_name, history_number, main_json_name, next_file_number,
    report_manifest_name, report_page_name, scan_history,
};
use memori::func::output::metadata_needs_write;
use memori::func::page::{
    escape_script_json, function_manifest, report_html, report_url, sort_manifests,
    sort_names_descending, FunctionDataManifest,
};
use memori::{Bench, Func, Measurement};

type Target = fn(&usize);

fn noop(_: &usize) {}

fn sample_suite() -> Func<usize, Target> {
    Func::new("Dedup")
        .with_description("Comparing strategies.")
        .add_function("HashSet", noop as Target)
        .add_function("Vec", noop as Target)
        .add_bench("scaling_stress", "growth", Bench::Scaling(vec![100, 1000, 5000]))
        .add_bench("baseline", "trend", Bench::Instant(1000))
}

fn m(c: u64) -> Measurement {
    Measurement::new(c, None, None, 0, 0, 0, 0)
}

#[test]
fn builders_record_everything() {
    let f = sample_suite();
    assert_eq!(f.name(), "Dedup");
    assert_eq!(f.function_count(), 2);
    assert_eq!(f.function_name(0), "HashSet");
    assert_eq!(f.function_name(1), "Vec");
    assert_eq!(f.pattern_count(), 2);
    assert_eq!(f.pattern(0).name, "scaling_stress");
    assert_eq!(f.pattern(0).description, "growth");
    assert_eq!(f.pattern(0).input.input_count(), 3);
    assert_eq!(*f.pattern(0).input.input_at(2), 5000);
    assert_eq!(f.pattern(1).input.input_count(), 1);
    assert_eq!(f.pattern(1).input.pattern_type(), "instant");
    assert_eq!(f.pattern(0).input.pattern_type(), "scaling");
}

#[test]
fn report_covers_every_function_and_pattern() {
    let f = sample_suite();
    // measurements[p][j][k]
    let ms = vec![
        vec![vec![m(1), m(2), m(3)], vec![m(4), m(5), m(6)]],
        vec![vec![m(7)], vec![m(8)]],
    ];
    let comment = Some("run A".to_string());
    let report = f.build_report(&comment, &ms);
    assert_eq!(report.len(), 2);
    let s = report.get("scaling_stress").unwrap();
    assert_eq!(s.pattern_type, "scaling");
    assert_eq!(s.description, "growth");
    assert_eq!(s.comment.as_deref(), Some("run A"));
    let hs = s.results.get("HashSet").unwrap();
    assert_eq!(hs.iter().map(|e| e.input).collect::<Vec<_>>(), vec![100, 1000, 5000]);
    assert_eq!(hs.iter().map(|e| e.measurement.cycles).collect::<Vec<_>>(), vec![1, 2, 3]);
    let v = s.results.get("Vec").unwrap();
    assert_eq!(v.iter().map(|e| e.measurement.cycles).collect::<Vec<_>>(), vec![4, 5, 6]);
    let b = report.get("baseline").unwrap();
    assert_eq!(b.pattern_type, "instant");
    assert_eq!(b.comment, Some("run A".to_string()));
    let v = b.results.get("Vec").unwrap();
    assert_eq!(v.len(), 1);
    assert_eq!(v[0].input, 1000);
    assert_eq!(v[0].measurement.cycles, 8);
}

#[test]
fn report_keeps_the_last_of_equal_names() {
    let f: Func<usize, Target> = Func::new("x")
        .add_function("a", noop as Target)
        .add_function("a", noop as Target)
        .add_bench("p", "first", Bench::Instant(1))
        .add_bench("p", "second", Bench::Instant(2));
    let ms = vec![vec![vec![m(1)], vec![m(2)]], vec![vec![m(3)], vec![m(4)]]];
    let report = f.build_report(&None, &ms);
    assert_eq!(report.len(), 1);
    let p = report.get("p").unwrap();
    assert_eq!(p.description, "second");
    assert_eq!(p.comment, None);
    assert_eq!(p.results.len(), 1);
    let a = p.results.get("a").unwrap();
    assert_eq!(a[0].input, 2);
    assert_eq!(a[0].measurement.cycles, 4);
}

#[test]
fn metadata_lists_names_and_pattern_kinds() {
    let f = sample_suite();
    let meta = f.metadata();
    assert_eq!(meta.name, "Dedup");
    assert_eq!(meta.description.as_deref(), Some("Comparing strategies."));
    assert_eq!(meta.functions, vec!["HashSet".to_string(), "Vec".to_string()]);
    assert_eq!(meta.patterns.len(), 2);
    assert_eq!(meta.patterns[0].name, "scaling_stress");
    assert_eq!(meta.patterns[0].pattern_type, "scaling");
    assert_eq!(meta.patterns[1].pattern_type, "instant");
    assert!(meta.same_as(&f.metadata()));
    assert!(!metadata_needs_write(&Some(f.metadata()), &meta));
    assert!(metadata_needs_write(&None, &meta));
    let other = sample_suite().add_function("Extra", noop as Target).metadata();
    assert!(metadata_needs_write(&Some(other), &meta));
    let undescribed = Func::<usize, Target>::new("Dedup").metadata();
    assert!(!undescribed.same_as(&meta));
}

#[test]
fn history_names_and_numbers() {
    assert_eq!(history_file_name(1), "001.json");
    assert_eq!(history_file_name(42), "042.json");
    assert_eq!(history_file_name(1234), "1234.json");
    assert_eq!(history_file_name(0), "000.json");
    assert_eq!(file_number("007.json"), Some(7));
    assert_eq!(file_number("012_comment.json"), Some(12));
    assert_eq!(file_number("3.json.json"), Some(3));
    assert_eq!(file_number("main.json"), None);
    assert_eq!(file_number("15"), Some(15));
    assert_eq!(history_number("15"), None);
    assert_eq!(history_number("015.json"), Some(15));
    assert_eq!(history_number(&main_json_name()), None);
    assert_eq!(history_number(&report_page_name()), None);
    assert_eq!(history_number(&report_manifest_name()), None);
    for n in [0u32, 1, 99, 100, 4567, u32::MAX] {
        assert_eq!(file_number(&history_file_name(n)), Some(n));
    }
}

#[test]
fn next_number_follows_the_largest() {
    assert_eq!(next_file_number(&vec![]), 1);
    let names = vec![
        "main.json".to_string(),
        "001.json".to_string(),
        "010_slow.json".to_string(),
        "003.json".to_string(),
        "notes.txt".to_string(),
    ];
    assert_eq!(next_file_number(&names), 11);
}

#[test]
fn history_scan_keeps_numbered_json_files() {
    let names = vec![
        "report.html".to_string(),
        "010.json".to_string(),
        "main.json".to_string(),
        "002_x.json".to_string(),
        "7.txt".to_string(),
    ];
    let (max, numbered) = scan_history(&names);
    assert_eq!(max, 10);
    assert_eq!(numbered, vec!["010.json".to_string(), "002_x.json".to_string()]);
    assert_eq!(scan_history(&vec![]), (0, vec![]));
}

#[test]
fn manifests_and_sorting() {
    assert!(function_manifest("x", false, 0).is_none());
    let a = function_manifest("suite", false, 3).unwrap();
    assert_eq!(a.name, "suite");
    assert_eq!(a.main_json_path, "suite/main.json");
    assert_eq!(a.max_history_number, 3);
    assert!(function_manifest("y", true, 0).is_some());
    let mk = |n: &str, k: u32| FunctionDataManifest { name: n.to_string(), main_json_path: String::new(), max_history_number: k };
    let sorted = sort_manifests(vec![mk("b", 1), mk("a", 2), mk("c", 3), mk("a", 4)]);
    let got: Vec<(String, u32)> = sorted.iter().map(|m| (m.name.clone(), m.max_history_number)).collect();
    assert_eq!(got, vec![("a".to_string(), 2), ("a".to_string(), 4), ("b".to_string(), 1), ("c".to_string(), 3)]);
    let names = sort_names_descending(vec!["001.json".to_string(), "010.json".to_string(), "main.json".to_string(), "002.json".to_string()]);
    assert_eq!(names, vec!["main.json", "010.json", "002.json", "001.json"]);
}

#[test]
fn report_page_embeds_escaped_data() {
    assert_eq!(escape_script_json("{\"a\":\"</script>\"}"), "{\"a\":\"<\\/script>\"}");
    assert!(!escape_script_json("<</</</").contains("</"));
    let page = report_html("<html><head></head><body></body></html>", "{\"x\":\"</b>\"}");
    assert_eq!(
        page,
        "<html><head><script>window.__memori_DATA__ = {\"x\":\"<\\/b>\"};</script>\n</head><body></body></html>"
    );
    assert_eq!(report_url("C:\\work\\target\\memori\\report.html", true), "file:///C:/work/target/memori/report.html");
    assert_eq!(report_url("/home/u/target/memori/report.html", false), "file:///home/u/target/memori/report.html");
}

#[test]
fn saved_runs_are_numbered_in_sequence() {
    let mut names = vec!["main.json".to_string()];
    for expected in 1..=4u32 {
        let n = next_file_number(&names);
        assert_eq!(n, expected);
        names.push(history_file_name(n));
    }
    assert_eq!(names[1..].to_vec(), vec!["001.json", "002.json", "003.json", "004.json"]);
}
