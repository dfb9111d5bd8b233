use memori::func::schedule::MeasureRun;
use memori::{Bench, Func, Measurement};

type Target = fn(&usize);

fn noop(_: &usize) {}

fn cycles(c: u64) -> Measurement {
    Measurement::new(c, None, None, 0, 0, 0, 0)
}

#[test]
fn a_run_visits_every_cell_in_order_and_skips_empty_patterns() {
    let f: Func<usize, Target> = Func::new("Suite")
        .add_function("a", noop as Target)
        .add_function("b", noop as Target)
        .add_bench("one", "single", Bench::Instant(5))
        .add_bench("none", "no inputs", Bench::Scaling(vec![]))
        .add_bench("two", "series", Bench::Scaling(vec![1, 2]));
    let mut run = MeasureRun::new(&f);
    let mut visited = Vec::new();
    let mut c: u64 = 0;
    while let Some(cell) = run.next() {
        visited.push(cell);
        c += 1;
        run = run.record(cycles(c));
    }
    assert_eq!(visited, vec![(0, 0, 0), (0, 1, 0), (2, 0, 0), (2, 0, 1), (2, 1, 0), (2, 1, 1)]);
    let ms = run.into_measurements(&f);
    let got: Vec<Vec<Vec<u64>>> =
        ms.iter().map(|p| p.iter().map(|r| r.iter().map(|m| m.cycles).collect()).collect()).collect();
    assert_eq!(got, vec![vec![vec![1], vec![2]], vec![vec![], vec![]], vec![vec![3, 4], vec![5, 6]]]);
}

#[test]
fn a_run_without_functions_is_finished_at_once() {
    let f: Func<usize, Target> = Func::new("Empty").add_bench("one", "single", Bench::Instant(5));
    let run = MeasureRun::new(&f);
    assert_eq!(run.next(), None);
    let ms = run.into_measurements(&f);
    assert_eq!(ms.len(), 1);
    assert!(ms[0].is_empty());
}
