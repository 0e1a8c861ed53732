use iorate::elapsed::Elapsed;
use iorate::sampler::{LoopError, Phase, Sampler, Step, WaitOutcome};

/// Drives the loop against a child that is alive at the first `alive_wakes`
/// wakes and gone at the next, and counts the reports.
fn run_scripted(alive_wakes: u64) -> u64 {
    let mut s = Sampler::new();
    let mut reports = 0u64;
    let mut wake = 0u64;
    loop {
        wake += 1;
        match s.on_wake(wake > alive_wakes) {
            Step::Finish => return reports,
            Step::Pause => {}
            other => panic!("unexpected step {:?}", other),
        }
        assert_eq!(s.on_wait(WaitOutcome::Stopped), Step::Sample);
        let r = s.on_counters(
            wake * 10,
            wake * 20,
            &Elapsed::from_millis(wake * 1000),
            &Elapsed::from_millis(1000),
        );
        assert_eq!(r.read_per_sec, 10);
        assert_eq!(r.write_per_sec, 20);
        reports += 1;
    }
}

#[test]
fn short_lived_child_gives_no_report() {
    assert_eq!(run_scripted(0), 0);
}

#[test]
fn child_alive_for_two_and_a_half_intervals_gives_two_reports() {
    assert_eq!(run_scripted(2), 2);
}

#[test]
fn exit_during_pause_finishes_cleanly() {
    let mut s = Sampler::new();
    assert_eq!(s.on_wake(false), Step::Pause);
    assert_eq!(s.phase, Phase::Stopping);
    assert_eq!(s.on_wait(WaitOutcome::Exited), Step::Finish);
    assert_eq!(s.phase, Phase::Exited);
}

#[test]
fn unexpected_wait_status_fails() {
    let mut s = Sampler::new();
    s.on_wake(false);
    assert_eq!(s.on_wait(WaitOutcome::Other), Step::Fail(LoopError::UnexpectedWaitStatus));
    assert_eq!(s.phase, Phase::Aborted);
}

#[test]
fn first_report_counts_from_zero() {
    let mut s = Sampler::new();
    s.on_wake(false);
    s.on_wait(WaitOutcome::Stopped);
    let r = s.on_counters(4096, 512, &Elapsed::from_millis(1002), &Elapsed::from_millis(1002));
    assert_eq!(r.elapsed, "1.002 s");
    assert_eq!(r.read_per_sec, 4096);
    assert_eq!(r.write_per_sec, 512);
    assert_eq!(s.phase, Phase::Running);
    assert_eq!((s.last_rchar, s.last_wchar), (4096, 512));
}

#[test]
fn later_reports_use_deltas() {
    let mut s = Sampler::new();
    s.on_wake(false);
    s.on_wait(WaitOutcome::Stopped);
    s.on_counters(1000, 1000, &Elapsed::from_millis(1000), &Elapsed::from_millis(1000));
    s.on_wake(false);
    s.on_wait(WaitOutcome::Stopped);
    let r = s.on_counters(1000, 5096, &Elapsed::from_millis(2001), &Elapsed::from_millis(2000));
    assert_eq!(r.elapsed, "2.001 s");
    assert_eq!(r.read_per_sec, 0);
    assert_eq!(r.write_per_sec, 2048);
}

#[test]
fn unchanged_counters_report_zero_whatever_the_interval() {
    let mut s = Sampler::new();
    s.on_wake(false);
    s.on_wait(WaitOutcome::Stopped);
    s.on_counters(77, 88, &Elapsed::from_millis(1000), &Elapsed::from_millis(1000));
    for ms in [0u64, 400, 1000, 7_500] {
        s.on_wake(false);
        s.on_wait(WaitOutcome::Stopped);
        let r = s.on_counters(77, 88, &Elapsed::from_millis(5000), &Elapsed::from_millis(ms));
        assert_eq!((r.read_per_sec, r.write_per_sec), (0, 0));
    }
}

#[test]
fn counter_that_went_back_counts_as_nothing() {
    let mut s = Sampler::new();
    s.on_wake(false);
    s.on_wait(WaitOutcome::Stopped);
    s.on_counters(500, 500, &Elapsed::from_millis(1000), &Elapsed::from_millis(1000));
    s.on_wake(false);
    s.on_wait(WaitOutcome::Stopped);
    let r = s.on_counters(100, 600, &Elapsed::from_millis(2000), &Elapsed::from_millis(1000));
    assert_eq!(r.read_per_sec, 0);
    assert_eq!(r.write_per_sec, 100);
    assert_eq!((s.last_rchar, s.last_wchar), (100, 600));
}
