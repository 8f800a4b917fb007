use xlora_llama::cache::{arena_for, context_for, Arena, CacheArenas, Context, Pass, SlotLen};
use xlora_llama::error::ModelError;

/// Runs one pass of `layers` layers over `added` positions, storing the
/// number of positions as the payload.
fn run_pass(c: &mut CacheArenas<usize>, pass: Pass, no_cache: bool, added: usize) -> Arena {
    let which = c.begin_pass(pass, no_cache);
    for layer in 0..c.n_layers() {
        let prev = c.previous(which, layer).unwrap().copied().unwrap_or(0);
        c.store(which, layer, prev + added, added).unwrap();
    }
    which
}

fn step(c: &mut CacheArenas<usize>, no_cache: bool, new_len: usize, full_len: usize) {
    run_pass(c, Pass::Scaling, no_cache, full_len);
    let final_len = if no_cache { full_len } else { new_len };
    run_pass(c, Pass::Final, no_cache, final_len);
}

#[test]
fn cache_grows_one_per_single_token_step() {
    let mut c: CacheArenas<usize> = CacheArenas::new(2);
    for n in 1..=5 {
        step(&mut c, false, 1, n);
        for layer in 0..2 {
            assert_eq!(c.slot_state(Arena::Primary, layer), SlotLen::Filled(n));
            assert_eq!(c.previous(Arena::Primary, layer).unwrap(), Some(&n));
            assert_eq!(c.slot_state(Arena::Scaling, layer), SlotLen::Filled(n));
        }
    }
}

#[test]
fn no_cache_step_leaves_placeholders() {
    let mut c: CacheArenas<usize> = CacheArenas::new(3);
    step(&mut c, false, 2, 2);
    assert_eq!(c.slot_state(Arena::Primary, 0), SlotLen::Filled(2));
    step(&mut c, true, 1, 3);
    for layer in 0..3 {
        assert_eq!(c.slot_state(Arena::Primary, layer), SlotLen::Placeholder);
        assert_eq!(c.slot_state(Arena::Scaling, layer), SlotLen::Filled(3));
    }
    step(&mut c, true, 1, 4);
    assert_eq!(c.slot_state(Arena::Primary, 2), SlotLen::Placeholder);
}

#[test]
fn placeholder_slot_refuses_append() {
    let mut c: CacheArenas<usize> = CacheArenas::new(1);
    step(&mut c, true, 1, 1);
    assert_eq!(c.previous(Arena::Primary, 0), Err(ModelError::ShapeMismatch));
    assert_eq!(c.store(Arena::Primary, 0, 9, 1), Err(ModelError::ShapeMismatch));
    assert_eq!(c.slot_state(Arena::Primary, 0), SlotLen::Placeholder);
}

#[test]
fn store_overflow_is_refused() {
    let mut c: CacheArenas<usize> = CacheArenas::new(1);
    c.store(Arena::Primary, 0, 0, usize::MAX).unwrap();
    assert_eq!(c.store(Arena::Primary, 0, 0, 1), Err(ModelError::ShapeMismatch));
    assert_eq!(c.slot_state(Arena::Primary, 0), SlotLen::Filled(usize::MAX));
}

#[test]
fn arenas_do_not_share_slots() {
    let mut c: CacheArenas<usize> = CacheArenas::new(2);
    c.store(Arena::Scaling, 1, 5, 5).unwrap();
    assert_eq!(c.slot_state(Arena::Primary, 1), SlotLen::Empty);
    assert_eq!(c.previous(Arena::Primary, 1), Ok(None));
    c.store(Arena::Primary, 1, 2, 2).unwrap();
    assert_eq!(c.slot_state(Arena::Scaling, 1), SlotLen::Filled(5));
    assert_eq!(c.slot_state(Arena::Primary, 1), SlotLen::Filled(2));
}

#[test]
fn scaling_pass_starts_from_empty_cache_each_time() {
    let mut c: CacheArenas<usize> = CacheArenas::new(2);
    step(&mut c, false, 3, 3);
    step(&mut c, false, 1, 4);
    let which = c.begin_pass(Pass::Scaling, false);
    assert_eq!(which, Arena::Scaling);
    assert_eq!(c.slot_state(Arena::Scaling, 0), SlotLen::Empty);
    assert_eq!(c.slot_state(Arena::Primary, 0), SlotLen::Filled(4));
}

#[test]
fn pass_routing_of_arenas_and_contexts() {
    assert_eq!(arena_for(Pass::Scaling, false), Arena::Scaling);
    assert_eq!(arena_for(Pass::Scaling, true), Arena::Scaling);
    assert_eq!(arena_for(Pass::Final, false), Arena::Primary);
    assert_eq!(arena_for(Pass::Final, true), Arena::Scaling);
    assert_eq!(context_for(Pass::Scaling, false), Context::Full);
    assert_eq!(context_for(Pass::Final, false), Context::Incremental);
    assert_eq!(context_for(Pass::Final, true), Context::Full);
}
