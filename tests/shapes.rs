use xlora_llama::error::ModelError;
use xlora_llama::rotary::{check_positions, MAX_SEQ_LEN};
use xlora_llama::shape::{AttentionShape, FeedForwardKind};
use xlora_llama::step::StepInput;

#[test]
fn attention_shape_of_grouped_heads() {
    let s = AttentionShape::new(4096, 32, 8).unwrap();
    assert_eq!(s.head_dim, 128);
    assert_eq!(s.n_rep(), 4);
    let g = AttentionShape::from_group_size(4096, 32, 4).unwrap();
    assert_eq!(g, s);
}

#[test]
fn attention_shape_rejects_bad_counts() {
    let bad = Err(ModelError::UnsupportedConfiguration);
    assert_eq!(AttentionShape::new(100, 3, 1), bad);
    assert_eq!(AttentionShape::new(128, 32, 5), bad);
    assert_eq!(AttentionShape::new(96, 32, 0), bad);
    assert_eq!(AttentionShape::new(96, 0, 1), bad);
    assert_eq!(AttentionShape::new(96, 32, 8), bad);
    assert_eq!(AttentionShape::from_group_size(64, 8, 3), bad);
    assert_eq!(AttentionShape::from_group_size(64, 8, 0), bad);
}

#[test]
fn kv_heads_replicate_in_contiguous_blocks() {
    let s = AttentionShape::new(64, 8, 2).unwrap();
    assert_eq!(s.kv_head_order(), vec![0, 0, 0, 0, 1, 1, 1, 1]);
    let m = AttentionShape::new(64, 4, 4).unwrap();
    assert_eq!(m.kv_head_order(), vec![0, 1, 2, 3]);
}

#[test]
fn feed_forward_kind_from_expert_count() {
    assert_eq!(FeedForwardKind::from_counts(0, 0), FeedForwardKind::Dense);
    assert_eq!(FeedForwardKind::from_counts(1, 1), FeedForwardKind::Dense);
    assert_eq!(
        FeedForwardKind::from_counts(8, 2),
        FeedForwardKind::Experts { n_experts: 8, top_k: 2 }
    );
}

#[test]
fn rotary_positions_within_table() {
    assert_eq!(check_positions(&vec![0, 5], 2, 10), Ok(()));
    assert_eq!(check_positions(&vec![MAX_SEQ_LEN - 1], 1, 1), Ok(()));
    assert_eq!(
        check_positions(&vec![MAX_SEQ_LEN - 1], 1, 2),
        Err(ModelError::UnsupportedConfiguration)
    );
    assert_eq!(check_positions(&vec![0], 2, 1), Err(ModelError::ShapeMismatch));
}

fn input(no_cache: bool) -> StepInput {
    StepInput {
        batch: 1,
        seq_len: 1,
        batch_full: 1,
        seq_len_full: 2,
        offsets: vec![1],
        offsets_full: vec![0],
        no_cache,
    }
}

#[test]
fn step_reads_last_position_of_final_pass() {
    assert_eq!(input(false).check(), Ok(0));
    assert_eq!(input(true).check(), Ok(1));
}

#[test]
fn step_shape_and_position_faults() {
    let mut a = input(false);
    a.batch_full = 2;
    assert_eq!(a.check(), Err(ModelError::ShapeMismatch));
    let mut b = input(false);
    b.offsets = vec![MAX_SEQ_LEN];
    assert_eq!(b.check(), Err(ModelError::UnsupportedConfiguration));
    let mut c = input(true);
    c.offsets = vec![MAX_SEQ_LEN];
    assert_eq!(c.check(), Ok(1));
    let mut d = input(false);
    d.seq_len = 0;
    assert_eq!(d.check(), Err(ModelError::ShapeMismatch));
    let mut e = input(false);
    e.offsets_full = vec![];
    assert_eq!(e.check(), Err(ModelError::ShapeMismatch));
}
