use hash_quality::analysis::Report;
use hash_quality::clock::Stopwatch;

#[test]
fn stopwatch_does_not_run_backwards() {
    let watch = Stopwatch::start();
    let first = watch.elapsed();
    let mut work = 0u64;
    for i in 0..100_000u64 {
        work = work.wrapping_mul(31).wrapping_add(i);
    }
    assert_ne!(work, 1);
    let second = watch.elapsed();
    assert!(first.nanos < 1_000_000_000);
    assert!(second.nanos < 1_000_000_000);
    assert!(first.nanoseconds() <= second.nanoseconds());
    assert!(second.secs < 60);
}

#[test]
fn report_measures_its_own_time() {
    let watch = Stopwatch::start();
    let report = Report::new(&vec![7u64; 100_000]);
    let around = watch.elapsed();
    assert!(report.time.nanoseconds() <= around.nanoseconds());
}
