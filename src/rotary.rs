use crate::error::ModelError;
use vstd::prelude::*;

verus! {

/// Number of positions in the precomputed cosine and sine tables.
pub const MAX_SEQ_LEN: usize = 4096;

/// Each of the `batch` elements has an offset, and its `seq_len` positions
/// starting there all lie inside the rotary tables.
pub open spec fn positions_ok(offsets: Seq<usize>, batch: nat, seq_len: nat) -> bool {
    &&& offsets.len() == batch
    &&& forall|b: int| 0 <= b < offsets.len() ==> #[trigger] offsets[b] + seq_len <= MAX_SEQ_LEN
}

/// Checks the absolute positions that a rotation reads from the tables: one
/// offset per batch element (else a shape error), and every window
/// `offset .. offset + seq_len` inside the tables (else the configuration is
/// unsupported).
pub fn check_positions(offsets: &Vec<usize>, batch: usize, seq_len: usize) -> (r: Result<(), ModelError>)
    ensures
        r is Ok <==> positions_ok(offsets@, batch as nat, seq_len as nat),
        r is Err && offsets@.len() != batch ==> r == Err::<(), ModelError>(ModelError::ShapeMismatch),
        r is Err && offsets@.len() == batch ==> r == Err::<(), ModelError>(
            ModelError::UnsupportedConfiguration,
        ),
{
    if offsets.len() != batch {
        return Err(ModelError::ShapeMismatch);
    }
    let mut b: usize = 0;
    while b < offsets.len()
        invariant
            b <= offsets@.len(),
            offsets@.len() == batch,
            forall|x: int| 0 <= x < b ==> #[trigger] offsets@[x] + seq_len <= MAX_SEQ_LEN,
        decreases offsets@.len() - b,
    {
        if offsets[b] > MAX_SEQ_LEN || seq_len > MAX_SEQ_LEN - offsets[b] {
            return Err(ModelError::UnsupportedConfiguration);
        }
        b = b + 1;
    }
    Ok(())
}

} // verus!
