use candle_core::Device;
use xlora_llama::mask::{causal_mask, MaskCache};

#[test]
fn causal_mask_three_positions() {
    assert_eq!(causal_mask(3), vec![0, 1, 1, 0, 0, 1, 0, 0, 0]);
}

#[test]
fn causal_mask_single_and_empty() {
    assert_eq!(causal_mask(1), vec![0]);
    assert!(causal_mask(0).is_empty());
}

#[test]
fn causal_mask_entries_follow_rule() {
    let t = 7;
    let m = causal_mask(t);
    assert_eq!(m.len(), t * t);
    for i in 0..t {
        for j in 0..t {
            assert_eq!(m[i * t + j] == 1, j > i);
        }
    }
}

#[test]
fn mask_cache_memoizes_by_length() {
    let dev = Device::Cpu;
    let mut cache = MaskCache::new();
    assert_eq!(cache.len(), 0);
    let a = cache.mask_for(4, &dev).unwrap();
    assert_eq!(cache.len(), 1);
    let b = cache.mask_for(4, &dev).unwrap();
    assert_eq!(cache.len(), 1);
    assert_eq!(a.id(), b.id());
    let rows = a.to_vec2::<u8>().unwrap();
    assert_eq!(rows.concat(), causal_mask(4));
    let c = cache.mask_for(2, &dev).unwrap();
    assert_eq!(cache.len(), 2);
    assert_eq!(c.to_vec2::<u8>().unwrap(), vec![vec![0, 1], vec![0, 0]]);
    let d = cache.mask_for(4, &dev).unwrap();
    assert_eq!(d.id(), a.id());
    assert_eq!(cache.len(), 2);
}

#[test]
fn mask_tensor_marks_strict_upper_triangle() {
    let dev = Device::Cpu;
    let mut cache = MaskCache::new();
    let m = cache.mask_for(3, &dev).unwrap();
    assert_eq!(m.dims(), &[3, 3]);
    assert_eq!(
        m.to_vec2::<u8>().unwrap(),
        vec![vec![0, 1, 1], vec![0, 0, 1], vec![0, 0, 0]]
    );
}

#[test]
fn mask_too_large_is_shape_error() {
    let mut cache = MaskCache::new();
    let r = cache.mask_for(usize::MAX, &Device::Cpu);
    assert!(matches!(r, Err(xlora_llama::error::ModelError::ShapeMismatch)));
    assert_eq!(cache.len(), 0);
}
