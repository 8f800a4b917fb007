use xlora_llama::error::ModelError;
use xlora_llama::routing::{route_tokens, select_top_k};

fn bits(v: &[f32]) -> Vec<u32> {
    v.iter().map(|x| x.to_bits()).collect()
}

#[test]
fn top_k_takes_largest_first() {
    let w = bits(&[0.1, 0.6, 0.05, 0.25]);
    assert_eq!(select_top_k(&w, 2), vec![1, 3]);
    assert_eq!(select_top_k(&w, 1), vec![1]);
}

#[test]
fn top_k_ties_keep_index_order() {
    let w = bits(&[0.25, 0.5, 0.25, 0.0]);
    assert_eq!(select_top_k(&w, 2), vec![1, 0]);
    assert_eq!(select_top_k(&w, 3), vec![1, 0, 2]);
    let even = bits(&[0.25, 0.25, 0.25, 0.25]);
    assert_eq!(select_top_k(&even, 2), vec![0, 1]);
}

#[test]
fn top_k_larger_than_expert_count() {
    let w = bits(&[0.2, 0.8]);
    assert_eq!(select_top_k(&w, 5), vec![1, 0]);
    assert!(select_top_k(&w, 0).is_empty());
    assert!(select_top_k(&Vec::new(), 2).is_empty());
}

#[test]
fn top_k_orders_negative_values_below_positive() {
    let w = bits(&[-1.0, -0.0, 0.0, -2.0, 3.0]);
    assert_eq!(select_top_k(&w, 5), vec![4, 2, 1, 0, 3]);
}

#[test]
fn routing_lists_tokens_per_expert() {
    let weights = vec![
        bits(&[0.7, 0.2, 0.1]),
        bits(&[0.1, 0.3, 0.6]),
        bits(&[0.5, 0.1, 0.4]),
    ];
    let r = route_tokens(&weights, 3, 2).unwrap();
    assert_eq!(r.selected, vec![vec![0, 1], vec![2, 1], vec![0, 2]]);
    assert_eq!(r.rows, vec![vec![0, 2], vec![0, 1], vec![1, 2]]);
}

#[test]
fn routing_tokens_never_exceed_k_experts() {
    let weights = vec![
        bits(&[0.1, 0.2, 0.3, 0.4]),
        bits(&[0.4, 0.3, 0.2, 0.1]),
        bits(&[0.25, 0.25, 0.25, 0.25]),
    ];
    let k = 2;
    let r = route_tokens(&weights, 4, k).unwrap();
    for t in 0..weights.len() {
        let n: usize = r.rows.iter().filter(|rows| rows.contains(&t)).count();
        assert_eq!(n, k);
        assert_eq!(r.selected[t].len(), k);
    }
}

#[test]
fn routing_skips_unselected_expert() {
    let weights = vec![bits(&[0.6, 0.4, 0.0]), bits(&[0.3, 0.7, 0.0])];
    let r = route_tokens(&weights, 3, 2).unwrap();
    assert!(r.rows[2].is_empty());
    assert_eq!(r.rows[0], vec![0, 1]);
    assert_eq!(r.rows[1], vec![0, 1]);
}

#[test]
fn routing_rejects_ragged_rows() {
    let weights = vec![bits(&[0.5, 0.5]), bits(&[1.0])];
    assert!(matches!(route_tokens(&weights, 2, 1), Err(ModelError::ShapeMismatch)));
}

#[test]
fn routing_no_tokens() {
    let r = route_tokens(&Vec::new(), 3, 2).unwrap();
    assert!(r.selected.is_empty());
    assert_eq!(r.rows.len(), 3);
    assert!(r.rows.iter().all(|v| v.is_empty()));
}
