use candle_core::{DType, Device, Tensor};
use xlora_llama::cache::{Arena, CacheArenas, Pass, SlotLen};
use xlora_llama::error::ModelError;
use xlora_llama::tensors::append_kv;

fn kv(positions: usize, head_dim: usize) -> Tensor {
    Tensor::zeros((1, 2, positions, head_dim), DType::F32, &Device::Cpu).unwrap()
}

#[test]
fn append_kv_concatenates_along_positions() {
    let mut c: CacheArenas<(Tensor, Tensor)> = CacheArenas::new(1);
    let (k, v) = append_kv(&mut c, Arena::Primary, 0, kv(3, 4), kv(3, 4), 3).unwrap();
    assert_eq!(k.dims(), &[1, 2, 3, 4]);
    assert_eq!(v.dims(), &[1, 2, 3, 4]);
    let (k, v) = append_kv(&mut c, Arena::Primary, 0, kv(1, 4), kv(1, 4), 1).unwrap();
    assert_eq!(k.dims(), &[1, 2, 4, 4]);
    assert_eq!(v.dims(), &[1, 2, 4, 4]);
    assert_eq!(c.slot_state(Arena::Primary, 0), SlotLen::Filled(4));
    assert_eq!(c.slot_state(Arena::Scaling, 0), SlotLen::Empty);
}

#[test]
fn append_kv_keeps_old_positions_first() {
    let dev = Device::Cpu;
    let mut c: CacheArenas<(Tensor, Tensor)> = CacheArenas::new(1);
    let first = Tensor::new(&[[[[1f32], [2f32]]]], &dev).unwrap();
    let second = Tensor::new(&[[[[3f32]]]], &dev).unwrap();
    append_kv(&mut c, Arena::Scaling, 0, first.clone(), first, 2).unwrap();
    let (k, _) = append_kv(&mut c, Arena::Scaling, 0, second.clone(), second, 1).unwrap();
    assert_eq!(k.flatten_all().unwrap().to_vec1::<f32>().unwrap(), vec![1.0, 2.0, 3.0]);
}

#[test]
fn append_kv_backend_refusal_changes_nothing() {
    let mut c: CacheArenas<(Tensor, Tensor)> = CacheArenas::new(1);
    append_kv(&mut c, Arena::Primary, 0, kv(3, 4), kv(3, 4), 3).unwrap();
    let r = append_kv(&mut c, Arena::Primary, 0, kv(1, 5), kv(1, 5), 1);
    assert!(matches!(r, Err(ModelError::NumericBackendFailure)));
    assert_eq!(c.slot_state(Arena::Primary, 0), SlotLen::Filled(3));
}

#[test]
fn append_kv_on_placeholder_is_shape_error() {
    let mut c: CacheArenas<(Tensor, Tensor)> = CacheArenas::new(1);
    c.begin_pass(Pass::Final, true);
    let r = append_kv(&mut c, Arena::Primary, 0, kv(1, 4), kv(1, 4), 1);
    assert!(matches!(r, Err(ModelError::ShapeMismatch)));
    assert_eq!(c.slot_state(Arena::Primary, 0), SlotLen::Placeholder);
}

#[test]
fn append_kv_on_empty_slot_keeps_new_tensors() {
    let mut c: CacheArenas<(Tensor, Tensor)> = CacheArenas::new(2);
    let k = kv(2, 4);
    let v = kv(2, 4);
    let (k_id, v_id) = (k.id(), v.id());
    let (k2, v2) = append_kv(&mut c, Arena::Primary, 1, k, v, 2).unwrap();
    assert_eq!(k2.id(), k_id);
    assert_eq!(v2.id(), v_id);
    assert_eq!(c.slot_state(Arena::Primary, 0), SlotLen::Empty);
    let (stored, _) = c.previous(Arena::Primary, 1).unwrap().unwrap();
    assert_eq!(stored.id(), k_id);
}
