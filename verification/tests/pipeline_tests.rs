use fig2img::{
    aggregate_results, ConversionLimiter, DownloadOptions, CONVERSION_CONCURRENCY_LIMIT,
};

#[test]
fn aggregate_fails_exactly_when_a_task_failed() {
    let all_ok = vec![true, true, true];
    let outcome = aggregate_results(&all_ok);
    assert_eq!(outcome.total, 3);
    assert_eq!(outcome.failures, 0);
    assert!(outcome.is_success());

    let one_bad = vec![true, false, true, true];
    let outcome = aggregate_results(&one_bad);
    assert_eq!(outcome.total, 4);
    assert_eq!(outcome.failures, 1);
    assert!(!outcome.is_success());
}

#[test]
fn one_failure_never_hides_the_siblings() {
    // 1 of N tasks fails: the other N-1 completions are all still counted.
    let n = 50;
    let mut results = vec![true; n];
    results[7] = false;
    let outcome = aggregate_results(&results);
    assert_eq!(outcome.total, n);
    assert_eq!(outcome.failures, 1);
    assert_eq!(outcome.total - outcome.failures, n - 1);
}

#[test]
fn aggregate_of_nothing_succeeds() {
    let outcome = aggregate_results(&vec![]);
    assert_eq!(outcome.total, 0);
    assert!(outcome.is_success());
}

#[test]
fn conversion_concurrency_peaks_at_the_limit() {
    let mut limiter = ConversionLimiter::new(CONVERSION_CONCURRENCY_LIMIT);
    let mut granted = 0;
    for _ in 0..100 {
        if limiter.try_acquire() {
            granted += 1;
        }
    }
    // However many tasks are queued, only the limit run at once.
    assert_eq!(granted, 4);
    assert_eq!(limiter.in_flight, 4);
    assert_eq!(limiter.peak, 4);
}

#[test]
fn released_permits_admit_waiting_tasks() {
    let mut limiter = ConversionLimiter::new(CONVERSION_CONCURRENCY_LIMIT);
    let mut completed = 0;
    let mut waiting = 100;
    let mut running = 0;
    while completed < 100 {
        while waiting > 0 && limiter.try_acquire() {
            waiting -= 1;
            running += 1;
        }
        assert!(limiter.in_flight <= CONVERSION_CONCURRENCY_LIMIT);
        // One running task finishes and gives its permit back.
        limiter.release();
        running -= 1;
        completed += 1;
    }
    assert_eq!(limiter.peak, CONVERSION_CONCURRENCY_LIMIT);
    assert_eq!(running, 0);
    assert_eq!(limiter.in_flight, 0);
}

#[test]
fn download_options_build_quietly() {
    assert!(!DownloadOptions::new().is_quiet());
    assert!(!DownloadOptions::default().is_quiet());
    assert!(DownloadOptions::new().quiet(true).is_quiet());
    assert!(!DownloadOptions::new().quiet(true).quiet(false).is_quiet());
}
