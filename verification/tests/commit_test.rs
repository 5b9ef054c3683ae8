use easy_wal::wal::commit_coordinator::{
    should_commit, CommitConfig, CommitCoordinator, CommitStep, PendingBatches, SequenceNumber,
};
use std::cmp::Ordering;

#[test]
fn test_sequence_number() {
    let seq1 = SequenceNumber::new(1, 0);
    let seq2 = SequenceNumber::new(1, 1);
    let seq3 = SequenceNumber::new(2, 0);

    assert!(seq1 < seq2);
    assert!(seq2 < seq3);
    assert_eq!(seq1.to_u64(), 1 << 32);
    assert_eq!(SequenceNumber::from_u64(1 << 32 | 5).sequence(), 5);
}

#[test]
fn test_commit_config_default() {
    let config = CommitConfig::default();
    assert_eq!(config.max_batch_size, 64 * 1024);
    assert_eq!(config.max_wait_time_ms, 5);
    assert_eq!(config.max_batch_count, 100);
    assert_eq!(config.min_batches_for_commit, 1);
}

#[test]
fn sequence_numbers_pack_and_compare() {
    let s = SequenceNumber::new(3, 9);
    assert_eq!(s.commit_group(), 3);
    assert_eq!(SequenceNumber::from_u64(s.to_u64()), s);
    assert_eq!(SequenceNumber::from_u64(u64::MAX).to_u64(), u64::MAX);
    assert_eq!(s.cmp(&SequenceNumber::new(3, 10)), Ordering::Less);
    assert_eq!(s.cmp(&SequenceNumber::new(2, 100)), Ordering::Greater);
    assert_eq!(s.cmp(&SequenceNumber::new(3, 9)), Ordering::Equal);
}

#[test]
fn commit_decisions() {
    let config = CommitConfig { max_batch_size: 100, max_wait_time_ms: 5, max_batch_count: 3, min_batches_for_commit: 2 };
    let mut p = PendingBatches::new();
    assert!(!should_commit(&p, &config, true));
    p.push(1, 10);
    assert!(!should_commit(&p, &config, true));
    p.push(1, 10);
    assert!(!should_commit(&p, &config, false));
    assert!(should_commit(&p, &config, true));
    p.push(2, 90);
    assert!(should_commit(&p, &config, false));
    assert_eq!(p.total_bytes(), 110);
    assert_eq!(p.total_records(), 4);
    let mut q = PendingBatches::new();
    q.push(1, 100);
    assert!(should_commit(&q, &config, false));
}

#[test]
fn commit_loop_steps_and_flush_plan() {
    let mut c = CommitCoordinator::new(CommitConfig::default());
    assert!(c.is_idle());
    assert!(matches!(c.next_step(false), CommitStep::Wait));
    c.add_batch(1, 7);
    c.add_batch(2, 14);
    assert!(!c.is_idle());
    let pending = match c.next_step(true) {
        CommitStep::Flush(p) => p,
        _ => panic!("expected a flush"),
    };
    assert!(c.is_idle());
    let plan = c.plan_flush(&pending).unwrap();
    assert_eq!(plan.base_sequence, 0);
    assert_eq!(plan.ranges, vec![(0, 1), (1, 3)]);
    assert_eq!(plan.sequences, vec![0, 1]);
    assert_eq!(plan.written_bytes, 21 + 3 * 12);
    assert_eq!(plan.total_records, 3);
    c.record_flush(&plan);
    let stats = c.stats();
    assert_eq!(stats.total_batches, 2);
    assert_eq!(stats.total_records, 3);
    assert_eq!(stats.total_bytes, 21);
    assert_eq!(stats.group_commits, 1);
    assert_eq!(stats.single_commits, 0);
    assert_eq!(c.next_sequence().sequence(), 3);
    assert_eq!(c.next_sequence_batch(5).sequence(), 4);
    assert_eq!(c.next_sequence().sequence(), 9);
    assert!(c.plan_flush(&PendingBatches::new()).is_none());
    c.shutdown();
    assert!(matches!(c.next_step(false), CommitStep::Stop));
}
