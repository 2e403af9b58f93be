use shard_json_array::decimal::{decimal_len, push_decimal, push_right_aligned, push_zero_padded};
use shard_json_array::progress::ByteCounter;
use shard_json_array::workers::{
    queue_capacity, summary, worker_count, JoinError, Tally, WorkerOutcome,
};

#[test]
fn workers_asked_for_or_one_each() {
    assert_eq!(worker_count(Some(3), 8), 3);
    assert_eq!(worker_count(Some(0), 8), 0);
    assert_eq!(worker_count(None, 8), 8);
    assert_eq!(queue_capacity(8), 32);
    assert_eq!(queue_capacity(0), 0);
}

#[test]
fn a_tally_reports_every_shard() {
    let mut tally = Tally::new();
    for count in 0..11 {
        assert_eq!(tally.join(WorkerOutcome::Finished(count * 100)), Ok(()));
    }
    let lines = tally.report(2);
    assert_eq!(lines.len(), 11);
    assert_eq!(lines[0], "  shard  0: 0 items");
    assert_eq!(lines[7], "  shard  7: 700 items");
    assert_eq!(lines[10], "  shard 10: 1000 items");
}

#[test]
fn a_worker_that_did_not_finish_is_named() {
    let mut tally = Tally::new();
    assert_eq!(tally.join(WorkerOutcome::Finished(1)), Ok(()));
    assert_eq!(
        tally.join(WorkerOutcome::Failed),
        Err(JoinError::Failed(1))
    );
    assert_eq!(
        tally.join(WorkerOutcome::Panicked),
        Err(JoinError::Panicked(1))
    );
    assert_eq!(tally.report(1), vec!["  shard 0: 1 items".to_string()]);
    assert_eq!(JoinError::Failed(12).message(), "worker 12 failed");
    assert_eq!(JoinError::Panicked(0).message(), "worker 0 panicked");
}

#[test]
fn the_summary_names_the_input() {
    assert_eq!(
        summary(1234, 8, "a/b.json"),
        "sharded 1234 items across 8 files (input: a/b.json)"
    );
}

#[test]
fn numerals() {
    let mut s = String::from("n=");
    push_decimal(&mut s, 0);
    push_decimal(&mut s, u64::MAX);
    assert_eq!(s, "n=018446744073709551615");
    let mut s = String::new();
    push_zero_padded(&mut s, 42, 5);
    push_right_aligned(&mut s, 42, 5);
    push_right_aligned(&mut s, 42, 1);
    assert_eq!(s, "00042   4242");
    assert_eq!(decimal_len(0), 1);
    assert_eq!(decimal_len(9_999_999_999), 10);
    assert_eq!(decimal_len(10_000_000_000), 11);
    assert_eq!(decimal_len(u64::MAX), 20);
}

#[test]
fn the_position_moves_with_the_bytes() {
    let mut counter = ByteCounter::new();
    assert_eq!(counter.record(0), None);
    assert_eq!(counter.record(10), Some(10));
    assert_eq!(counter.record(5), Some(15));
    assert_eq!(counter.record(0), None);
    assert_eq!(counter.total(), 15);
}
