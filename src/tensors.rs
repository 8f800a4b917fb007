use crate::cache::{can_grow, grown, lens_of, with_lens, Arena, CacheArenas, SlotLen};
use crate::error::ModelError;
use candle_core::{Device, Tensor};
use vstd::prelude::*;

verus! {

#[verifier::external_type_specification]
#[verifier::external_body]
pub struct ExTensor(candle_core::Tensor);

#[verifier::external_type_specification]
#[verifier::external_body]
pub struct ExDevice(candle_core::Device);

#[verifier::external_type_specification]
#[verifier::external_body]
pub struct ExCandleError(candle_core::Error);

/// Whether candle can join `cached` and `new` along the sequence axis: both
/// have that axis, agree in rank, in every other size, in element type and in
/// device.
pub uninterp spec fn cat_ok(cached: Tensor, new: Tensor) -> bool;

/// Whether `out` holds the positions of `cached` followed by those of `new`
/// along the sequence axis.
pub uninterp spec fn joined_along_positions(cached: Tensor, new: Tensor, out: Tensor) -> bool;

/// Whether `out` is a `t`-by-`t` tensor of bytes holding `data` in row-major
/// order.
pub uninterp spec fn square_holds(data: Seq<u8>, t: nat, out: Tensor) -> bool;

/// Relies on candle_core::Tensor::cat over two tensors: the cached positions
/// followed by the new ones along the sequence axis (axis 2 of
/// batch, heads, positions, head values); whether it fails depends on the two
/// tensors alone (rank, sizes off that axis, element type, device).
#[verifier::external_body]
fn cat_positions(cached: &Tensor, new: &Tensor) -> (r: Result<Tensor, candle_core::Error>)
    ensures
        r is Ok <==> cat_ok(*cached, *new),
        r matches Ok(t) ==> joined_along_positions(*cached, *new, t),
{
    Tensor::cat(&[cached, new], 2)
}

/// Relies on candle_core::Tensor's Clone, which clones the shared pointer to
/// its storage: a second handle on the same tensor.
#[verifier::external_body]
pub(crate) fn share(t: &Tensor) -> (r: Tensor)
    ensures
        r == *t,
{
    t.clone()
}

/// Relies on candle_core::Tensor::from_slice: a `t`-by-`t` tensor of bytes
/// on `device`, filled from `data` in row-major order.
#[verifier::external_body]
pub(crate) fn square_from_bytes(data: &Vec<u8>, t: usize, device: &Device) -> (r: Result<
    Tensor,
    candle_core::Error,
>)
    requires
        data@.len() == t * t,
    ensures
        r matches Ok(m) ==> square_holds(data@, t as nat, m),
{
    Tensor::from_slice(data.as_slice(), (t, t), device)
}

/// Appends the new keys `k` and values `v`, which cover `added` positions,
/// to the slot of `layer` in arena `which`, and returns the keys and values
/// of every cached position of that slot. An empty slot takes the new ones
/// as they are. A placeholder slot, or a length that would not fit, is a
/// shape error; a concatenation that the tensor backend refuses is a backend
/// failure. On any error the arenas are left as they were.
pub fn append_kv(
    arenas: &mut CacheArenas<(Tensor, Tensor)>,
    which: Arena,
    layer: usize,
    k: Tensor,
    v: Tensor,
    added: usize,
) -> (r: Result<(Tensor, Tensor), ModelError>)
    requires
        old(arenas).wf(),
        layer < old(arenas).layers(),
    ensures
        final(arenas).wf(),
        r is Ok ==> final(arenas)@ == with_lens(
            old(arenas)@,
            which,
            lens_of(old(arenas)@, which).update(
                layer as int,
                grown(lens_of(old(arenas)@, which)[layer as int], added as nat),
            ),
        ),
        r is Err ==> *final(arenas) == *old(arenas),
        r matches Ok(p) ==> final(arenas).kv_at(which, layer as int) == Some(p),
        r is Ok ==> forall|w: Arena, l: int|
            0 <= l < old(arenas).layers() && (w != which || l != layer) ==> #[trigger] final(arenas).kv_at(w, l)
                == old(arenas).kv_at(w, l),
        lens_of(old(arenas)@, which)[layer as int] == SlotLen::Empty ==> r == Ok::<(Tensor, Tensor), ModelError>((k, v)),
        old(arenas).kv_at(which, layer as int) matches Some(q) ==> (r matches Ok(p) ==> joined_along_positions(
            q.0,
            k,
            p.0,
        ) && joined_along_positions(q.1, v, p.1)),
        old(arenas).kv_at(which, layer as int) matches Some(q) && can_grow(
            lens_of(old(arenas)@, which)[layer as int],
            added as nat,
        ) && cat_ok(q.0, k) && cat_ok(q.1, v) ==> r is Ok,
        !can_grow(lens_of(old(arenas)@, which)[layer as int], added as nat) ==> r
            == Err::<(Tensor, Tensor), ModelError>(ModelError::ShapeMismatch),
        r == Err::<(Tensor, Tensor), ModelError>(ModelError::ShapeMismatch) ==> !can_grow(
            lens_of(old(arenas)@, which)[layer as int],
            added as nat,
        ),
        r == Err::<(Tensor, Tensor), ModelError>(ModelError::NumericBackendFailure) ==> (old(arenas).kv_at(which, layer as int) matches Some(q) && (!cat_ok(q.0, k) || !cat_ok(q.1, v))),
        r is Err ==> r == Err::<(Tensor, Tensor), ModelError>(ModelError::ShapeMismatch) || r
            == Err::<(Tensor, Tensor), ModelError>(ModelError::NumericBackendFailure),
{
    proof {
        arenas.lemma_kv_at_filled(which, layer as int);
    }
    let joined = match arenas.previous(which, layer) {
        Err(e) => {
            return Err(e);
        },
        Ok(None) => (k, v),
        Ok(Some(prev)) => {
            if let SlotLen::Filled(len) = arenas.slot_state(which, layer) {
                if len > usize::MAX - added {
                    return Err(ModelError::ShapeMismatch);
                }
            }
            let kc = match cat_positions(&prev.0, &k) {
                Ok(t) => t,
                Err(_) => {
                    return Err(ModelError::NumericBackendFailure);
                },
            };
            let vc = match cat_positions(&prev.1, &v) {
                Ok(t) => t,
                Err(_) => {
                    return Err(ModelError::NumericBackendFailure);
                },
            };
            (kc, vc)
        },
    };
    let out = (share(&joined.0), share(&joined.1));
    match arenas.store(which, layer, joined, added) {
        Ok(()) => Ok(out),
        Err(e) => Err(e),
    }
}

} // verus!
