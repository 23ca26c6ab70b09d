use shared_protocol::pst::{PstCounts, DEFAULT_MAX_DEPTH};

#[test]
fn pst_counts_follow_each_context() {
    let mut counts = PstCounts::new(3);
    counts.train(&[0, 1, 0, 1, 0]);
    assert_eq!(counts.total_tokens(), 5);
    assert_eq!(counts.marginal_count(0), 3);
    assert_eq!(counts.marginal_count(1), 2);
    assert_eq!(counts.marginal_count(2), 0);
    assert_eq!(counts.node_count(), 6);
    assert_eq!(counts.context_count(&[0], 1), 2);
    assert_eq!(counts.context_count(&[0], 0), 0);
    assert_eq!(counts.context_count(&[1], 0), 2);
    assert_eq!(counts.context_count(&[0, 1], 0), 2);
    assert_eq!(counts.context_count(&[1, 0], 1), 1);
    assert_eq!(counts.context_count(&[0, 1, 0], 1), 1);
    assert_eq!(counts.context_count(&[1, 0, 1], 0), 1);
    assert_eq!(counts.context_count(&[1, 0, 1, 0], 1), 0);
}

#[test]
fn pst_counts_respect_max_depth_and_accumulate() {
    let mut counts = PstCounts::new(1);
    counts.train(&[7, 7, 7]);
    counts.train(&[7, 8]);
    assert_eq!(counts.max_depth(), 1);
    assert_eq!(counts.total_tokens(), 5);
    assert_eq!(counts.context_count(&[7], 7), 2);
    assert_eq!(counts.context_count(&[7], 8), 1);
    assert_eq!(counts.context_count(&[7, 7], 7), 0);
    assert_eq!(counts.node_count(), 1);
}

#[test]
fn pst_counts_single_token_and_empty_train_add_no_context() {
    let mut counts = PstCounts::new(DEFAULT_MAX_DEPTH);
    counts.train(&[]);
    counts.train(&[42]);
    assert_eq!(counts.total_tokens(), 1);
    assert_eq!(counts.marginal_count(42), 1);
    assert_eq!(counts.node_count(), 0);
}

#[test]
fn pst_counts_removed_row_counts_nothing() {
    let mut counts = PstCounts::new(2);
    counts.train(&[1, 2, 3]);
    assert_eq!(counts.node_count(), 3);
    assert_eq!(counts.context_at(0), vec![1]);
    assert_eq!(counts.row_at(0)[2], 1);
    counts.remove_row(0);
    assert_eq!(counts.node_count(), 2);
    assert_eq!(counts.context_count(&[1], 2), 0);
    assert_eq!(counts.context_count(&[2], 3), 1);
    assert_eq!(counts.context_count(&[1, 2], 3), 1);
}
