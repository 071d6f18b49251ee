use repeat::{
    add_days, clamp_interval, elapsed_seconds, schedule_review, ReviewStatus, Schedule, Timestamp,
    MAX_INTERVAL_DAYS,
};

fn at(secs: i64, nanos: u32) -> Timestamp {
    Timestamp { secs, nanos }
}

#[test]
fn review_status_label_and_score() {
    assert_eq!(ReviewStatus::Pass.label(), "Pass");
    assert_eq!(ReviewStatus::Fail.label(), "Fail");
    assert_eq!(ReviewStatus::Pass.score(), 3);
    assert_eq!(ReviewStatus::Fail.score(), 2);
}

#[test]
fn elapsed_whole_seconds() {
    let t = at(1_700_000_000, 500);
    assert_eq!(elapsed_seconds(t, add_days(t, 3)), 259_200);
    assert_eq!(elapsed_seconds(at(10, 900_000_000), at(12, 100_000_000)), 1);
    assert_eq!(elapsed_seconds(at(10, 100), at(12, 100)), 2);
}

#[test]
fn elapsed_is_zero_when_review_comes_first() {
    assert_eq!(elapsed_seconds(at(1_000, 0), at(500, 0)), 0);
    assert_eq!(elapsed_seconds(at(1_000, 10), at(1_000, 5)), 0);
    assert_eq!(elapsed_seconds(at(i64::MAX, 0), at(i64::MIN, 0)), 0);
}

#[test]
fn elapsed_across_the_whole_range() {
    assert_eq!(elapsed_seconds(at(i64::MIN, 0), at(i64::MAX, 999_999_999)), u64::MAX);
}

#[test]
fn interval_is_clamped() {
    assert_eq!(clamp_interval(-5), 1);
    assert_eq!(clamp_interval(0), 1);
    assert_eq!(clamp_interval(3), 3);
    assert_eq!(clamp_interval(256), 256);
    assert_eq!(clamp_interval(257), 256);
    assert_eq!(clamp_interval(i64::MAX), 256);
}

#[test]
fn first_review_counts_one() {
    let t = at(1_700_000_000, 42);
    let s = schedule_review(None, t, 3);
    assert_eq!(s.last_reviewed_at, t);
    assert_eq!(s.interval_days, 3);
    assert_eq!(s.due_date, at(1_700_000_000 + 3 * 86_400, 42));
    assert_eq!(s.review_count, 1);
}

#[test]
fn second_review_counts_two() {
    let t = at(1_700_000_000, 0);
    let first = schedule_review(None, at(1_700_000_000 - 3 * 86_400, 0), 3);
    let s = schedule_review(Some(first), t, 11);
    assert_eq!(s.interval_days, 11);
    assert_eq!(s.due_date, at(1_700_000_000 + 11 * 86_400, 0));
    assert_eq!(s.review_count, 2);
}

#[test]
fn huge_interval_is_capped() {
    let t = at(0, 0);
    let s = schedule_review(None, t, i64::MAX);
    assert_eq!(s.interval_days, MAX_INTERVAL_DAYS);
    assert_eq!(s.due_date, at(256 * 86_400, 0));
}

#[test]
fn tiny_interval_is_one_day() {
    let prior = Schedule {
        last_reviewed_at: at(0, 0),
        interval_days: 1,
        due_date: at(86_400, 0),
        review_count: 7,
    };
    let s = schedule_review(Some(prior), at(100, 0), 0);
    assert_eq!(s.interval_days, 1);
    assert_eq!(s.due_date, at(100 + 86_400, 0));
    assert_eq!(s.review_count, 8);
}
