use memori::bench::instant::InstantBench;
use memori::bench::scaling::ScalingBench;
use memori::bench::{Bench, BenchPattern, BenchResult};
use memori::Measurement;

#[test]
fn instant_bench_describes_itself() {
    let b = InstantBench::new("baseline", 1000usize, |n: &usize| *n + 1);
    assert_eq!(b.name(), "baseline");
    assert!(b.description().is_none());
    assert_eq!(b.pattern(), BenchPattern::Instant);
    let mut b = b.with_description("trend at N=1000");
    assert_eq!(b.description().map(|s| s.as_str()), Some("trend at N=1000"));
    assert_eq!(*b.runner_mut().input(), 1000);
    assert_eq!(b.runner_mut().call(), 1001);
    let m = Measurement::new(5, None, None, 0, 0, 0, 0);
    match b.result_of(m) {
        BenchResult::Instant((input, got)) => {
            assert_eq!(input, 1000);
            assert_eq!(got.cycles, 5);
        }
        BenchResult::Scaling(_) => unreachable!(),
    }
}

#[test]
fn scaling_bench_pairs_inputs_with_measurements() {
    let mut b = ScalingBench::new("growth", [1usize, 2, 3].into(), |n: &usize| *n * 2);
    assert_eq!(b.name(), "growth");
    assert!(b.description().is_none());
    assert_eq!(b.pattern(), BenchPattern::Scaling);
    assert_eq!(b.inputs(), &vec![1, 2, 3]);
    assert_eq!((b.function_mut())(&4), 8);
    assert!(b.description().is_none());
    let ms: Vec<Measurement> = (0..3).map(|c| Measurement::new(c, None, None, 0, 0, 0, 0)).collect();
    match b.result_of(&ms) {
        BenchResult::Scaling(pairs) => {
            assert_eq!(pairs.iter().map(|p| p.0).collect::<Vec<_>>(), vec![1, 2, 3]);
            assert_eq!(pairs.iter().map(|p| p.1.cycles).collect::<Vec<_>>(), vec![0, 1, 2]);
        }
        BenchResult::Instant(_) => unreachable!(),
    }
}
