//! What the server measures of itself.

use fehu_webapp::metrics::Metrics;

#[test]
fn requests_are_counted_by_outcome_and_timed() {
    let mut metrics = Metrics::default();
    assert_eq!(metrics.snapshot().requests.count, 0);
    assert_eq!(
        metrics.snapshot().requests.micros_mean,
        0,
        "no requests is not a division by zero"
    );

    metrics.request(100, 200);
    metrics.request(300, 404);
    metrics.request(200, 429);
    let m = metrics.snapshot();
    assert_eq!(m.requests.count, 3);
    assert_eq!(m.requests.micros_mean, 200);
    assert_eq!(m.requests.micros_max, 300, "the worst is kept");
    assert_eq!(m.requests.micros_last, 200);
    assert_eq!(m.requests_failed, 2, "429 is a failure too");
    assert_eq!(m.requests_limited, 1);

    // A fast request after a slow one does not lower the high-water mark.
    metrics.request(1, 200);
    let m = metrics.snapshot();
    assert_eq!(m.requests.micros_max, 300);
    assert_eq!(m.requests.micros_last, 1);
}

#[test]
fn engine_steps_are_timed_separately() {
    let mut metrics = Metrics::default();
    metrics.request(10, 200);
    metrics.engine_step(4_000);
    let m = metrics.snapshot();
    assert_eq!(m.engine_step.count, 1);
    assert_eq!(m.engine_step.micros_max, 4_000);
    assert_eq!(m.requests.count, 1, "a step is not a request");
}
