use crate::error::ModelError;
use crate::tensors::{share, square_from_bytes, square_holds};
use candle_core::{Device, Tensor};
use vstd::prelude::*;

verus! {

/// Whether key position `j` is hidden from query position `i`.
pub open spec fn is_masked(i: int, j: int) -> bool {
    j > i
}

/// The mask entry for query `i` and key `j`: 1 where masked, 0 elsewhere.
pub open spec fn mask_entry(i: int, j: int) -> u8 {
    if is_masked(i, j) { 1u8 } else { 0u8 }
}

/// The `t`-by-`t` causal mask in row-major order: entry `(i, j)` sits at
/// index `i * t + j`.
pub open spec fn causal_mask_spec(t: nat) -> Seq<u8> {
    Seq::new(t * t, |k: int| mask_entry(k / (t as int), k % (t as int)))
}

proof fn lemma_row_major(t: int, i: int, j: int)
    requires
        0 <= i < t,
        0 <= j < t,
    ensures
        (i * t + j) / t == i,
        (i * t + j) % t == j,
        0 <= i * t + j < t * t,
{
    vstd::arithmetic::div_mod::lemma_fundamental_div_mod_converse(i * t + j, t, i, j);
    assert(i * t + j < t * t) by (nonlinear_arith)
        requires
            0 <= i < t,
            0 <= j < t,
    ;
    assert(0 <= i * t) by (nonlinear_arith)
        requires
            0 <= i,
            0 <= t,
    ;
}

/// Builds the causal mask for `t` positions, row by row.
pub fn causal_mask(t: usize) -> (r: Vec<u8>)
    requires
        t * t <= usize::MAX,
    ensures
        r@ == causal_mask_spec(t as nat),
        r@.len() == t * t,
        forall|i: int, j: int|
            0 <= i < t && 0 <= j < t ==> #[trigger] r@[i * t + j] == mask_entry(i, j),
{
    let mut r: Vec<u8> = Vec::new();
    let mut i: usize = 0;
    while i < t
        invariant
            i <= t,
            t * t <= usize::MAX,
            r@.len() == i * t,
            forall|a: int, b: int|
                0 <= a < i && 0 <= b < t ==> #[trigger] r@[a * t + b] == mask_entry(a, b),
        decreases t - i,
    {
        let mut j: usize = 0;
        while j < t
            invariant
                i < t,
                j <= t,
                t * t <= usize::MAX,
                r@.len() == i * t + j,
                forall|a: int, b: int|
                    0 <= a < i && 0 <= b < t ==> #[trigger] r@[a * t + b] == mask_entry(a, b),
                forall|b: int| 0 <= b < j ==> #[trigger] r@[i * t + b] == mask_entry(i as int, b),
            decreases t - j,
        {
            proof {
                lemma_row_major(t as int, i as int, j as int);
            }
            let v: u8 = if j > i { 1 } else { 0 };
            let ghost prev = r@;
            r.push(v);
            assert forall|a: int, b: int| 0 <= a < i && 0 <= b < t implies #[trigger] r@[a * t
                + b] == mask_entry(a, b) by {
                assert(a * t + b < i * t) by (nonlinear_arith)
                    requires
                        0 <= a < i,
                        0 <= b < t,
                ;
                assert(0 <= a * t) by (nonlinear_arith)
                    requires
                        0 <= a,
                        0 <= t,
                ;
                assert(r@[a * t + b] == prev[a * t + b]);
            }
            j = j + 1;
        }
        assert forall|a: int, b: int| 0 <= a < i + 1 && 0 <= b < t implies #[trigger] r@[a * t
            + b] == mask_entry(a, b) by {
            if a == i {
                assert(r@[i * t + b] == mask_entry(i as int, b));
            }
        }
        assert(r@.len() == (i + 1) * t) by (nonlinear_arith)
            requires
                r@.len() == i * t + t,
        ;
        i = i + 1;
    }
    assert(r@ =~= causal_mask_spec(t as nat)) by {
        assert forall|k: int| 0 <= k < t * t implies #[trigger] r@[k] == causal_mask_spec(
            t as nat,
        )[k] by {
            let a = k / (t as int);
            let b = k % (t as int);
            assert(t > 0) by (nonlinear_arith)
                requires
                    0 <= k < t * t,
            ;
            vstd::arithmetic::div_mod::lemma_fundamental_div_mod(k, t as int);
            vstd::arithmetic::div_mod::lemma_mod_bound(k, t as int);
            assert(0 <= a) by {
                vstd::arithmetic::div_mod::lemma_div_pos_is_pos(k, t as int);
            }
            assert(a < t) by {
                vstd::arithmetic::div_mod::lemma_div_by_multiple_is_strongly_ordered(
                    k, t * t, t as int, t as int);
                vstd::arithmetic::div_mod::lemma_div_by_multiple(t as int, t as int);
            }
            assert(a * t + b == k) by (nonlinear_arith)
                requires
                    k == t * a + b,
            ;
            assert(r@[a * t + b] == mask_entry(a, b));
        }
    }
    r
}

/// One memoized mask: the sequence length it was built for, its entries, and
/// the tensor made from them.
pub struct CausalMask {
    size: usize,
    data: Vec<u8>,
    tensor: Tensor,
}

/// Memo table of causal masks keyed by sequence length. Entries are only ever
/// added, never evicted or rebuilt.
pub struct MaskCache {
    entries: Vec<CausalMask>,
}

/// What a request for the mask of `t` positions does to the table `before`,
/// leaving `after` and answering `r`: on success the table maps `t` to its
/// causal mask and the answer is the stored tensor, which for a length asked
/// for before is the tensor stored then, with nothing built; stored tensors
/// are never replaced. A length whose mask would not fit in memory is a shape
/// error, a tensor the backend cannot make is a backend failure, and either
/// leaves the table as it was.
pub open spec fn mask_request(before: MaskCache, t: nat, r: Result<Tensor, ModelError>, after: MaskCache) -> bool {
    &&& after.wf()
    &&& r is Ok ==> after@ == before@.insert(t, causal_mask_spec(t))
    &&& r matches Ok(m) ==> m == after.handle(t) && square_holds(causal_mask_spec(t), t, m)
    &&& before@.contains_key(t) ==> after == before && r == Ok::<Tensor, ModelError>(before.handle(t))
    &&& !before@.contains_key(t) && r is Ok ==> after.built() == before.built() + 1
    &&& forall|s: nat| #[trigger] before@.contains_key(s) ==> after.handle(s) == before.handle(s)
    &&& t * t > usize::MAX ==> r == Err::<Tensor, ModelError>(ModelError::ShapeMismatch)
    &&& r is Err ==> after == before
    &&& r == Err::<Tensor, ModelError>(ModelError::ShapeMismatch) ==> t * t > usize::MAX
    &&& r is Err ==> r == Err::<Tensor, ModelError>(ModelError::ShapeMismatch) || r == Err::<
        Tensor,
        ModelError,
    >(ModelError::NumericBackendFailure)
}

/// Two requests for the same length answer with the same tensor, holding the
/// causal mask, and build it at most once.
pub proof fn lemma_mask_memo(
    c0: MaskCache,
    c1: MaskCache,
    c2: MaskCache,
    t: nat,
    r1: Result<Tensor, ModelError>,
    r2: Result<Tensor, ModelError>,
)
    requires
        c0.wf(),
        mask_request(c0, t, r1, c1),
        mask_request(c1, t, r2, c2),
        r1 is Ok,
    ensures
        r2 == r1,
        c2 == c1,
        c2@[t] == causal_mask_spec(t),
        c2.built() <= c0.built() + 1,
        r2 matches Ok(m) && square_holds(causal_mask_spec(t), t, m),
{
    assert(c1@.contains_key(t));
}

impl MaskCache {
    /// Every stored mask is the causal mask of its size, and no size is stored
    /// twice.
    pub closed spec fn wf(&self) -> bool {
        &&& forall|k: int|
            0 <= k < self.entries@.len() ==> (#[trigger] self.entries@[k]).data@
                == causal_mask_spec(self.entries@[k].size as nat)
                && self.entries@[k].size * self.entries@[k].size <= usize::MAX
                && square_holds(self.entries@[k].data@, self.entries@[k].size as nat, self.entries@[k].tensor)
        &&& forall|a: int, b: int|
            0 <= a < b < self.entries@.len() ==> (#[trigger] self.entries@[a]).size
                != (#[trigger] self.entries@[b]).size
    }

    /// The sequence lengths whose masks have been built.
    pub closed spec fn sizes(&self) -> Set<nat> {
        Set::new(
            |t: nat| exists|k: int| 0 <= k < self.entries@.len() && #[trigger] self.entries@[k].size == t,
        )
    }

    /// The memo table as a map from sequence length to the stored mask.
    pub open spec fn view(&self) -> Map<nat, Seq<u8>> {
        Map::new(|t: nat| self.sizes().contains(t), |t: nat| self.data_of(t))
    }

    /// Where the entry for sequence length `t` sits.
    closed spec fn index_of(&self, t: nat) -> int {
        choose|k: int| 0 <= k < self.entries@.len() && #[trigger] self.entries@[k].size == t
    }

    /// The mask stored for sequence length `t`.
    pub closed spec fn data_of(&self, t: nat) -> Seq<u8> {
        self.entries@[self.index_of(t)].data@
    }

    /// Every stored mask is the causal mask of its length, and its tensor
    /// holds it.
    proof fn lemma_stored(&self)
        requires
            self.wf(),
        ensures
            forall|t: nat| #[trigger] self.sizes().contains(t) ==> self.data_of(t) == causal_mask_spec(t)
                && t * t <= usize::MAX && square_holds(causal_mask_spec(t), t, self.handle(t)),
    {
        assert forall|t: nat| #[trigger] self.sizes().contains(t) implies self.data_of(t) == causal_mask_spec(t)
            && t * t <= usize::MAX && square_holds(causal_mask_spec(t), t, self.handle(t)) by {
            let k = self.index_of(t);
            assert(0 <= k < self.entries@.len() && self.entries@[k].size == t);
        }
    }

    /// How many masks have been built since the table was created.
    pub closed spec fn built(&self) -> nat {
        self.entries@.len()
    }

    /// The tensor stored for sequence length `t`.
    pub closed spec fn handle(&self, t: nat) -> Tensor {
        self.entries@[self.index_of(t)].tensor
    }

    /// An empty table.
    pub fn new() -> (r: MaskCache)
        ensures
            r.wf(),
            r@ == Map::<nat, Seq<u8>>::empty(),
            r.built() == 0,
    {
        let r = MaskCache { entries: Vec::new() };
        assert(r@ =~= Map::<nat, Seq<u8>>::empty());
        r
    }

    /// How many masks have been built.
    pub fn len(&self) -> (r: usize)
        ensures
            r == self.built(),
    {
        self.entries.len()
    }

    /// The causal mask for `t` positions, as a `t`-by-`t` tensor of bytes on
    /// `device`: the stored tensor itself when `t` was asked for before, else a
    /// new one, which is stored. A tensor that the backend cannot make is a
    /// backend failure, and the table is left as it was.
    pub fn mask_for(&mut self, t: usize, device: &Device) -> (r: Result<Tensor, ModelError>)
        requires
            old(self).wf(),
        ensures
            mask_request(*old(self), t as nat, r, *final(self)),
    {
        proof {
            self.lemma_stored();
        }
        let n = self.entries.len();
        let mut k: usize = 0;
        while k < n
            invariant
                n == self.entries@.len(),
                k <= n,
                self.wf(),
                *self == *old(self),
                forall|a: int| 0 <= a < k ==> (#[trigger] self.entries@[a]).size != t,
            decreases n - k,
        {
            if self.entries[k].size == t {
                let r = share(&self.entries[k].tensor);
                proof {
                    assert(self.sizes().contains(t as nat));
                    let j = self.index_of(t as nat);
                    assert(j == k as int) by {
                        if j != k as int {
                            if j < k {
                                assert(self.entries@[j].size != self.entries@[k as int].size);
                            } else {
                                assert(self.entries@[k as int].size != self.entries@[j].size);
                            }
                        }
                    }
                    assert(self@ =~= self@.insert(t as nat, causal_mask_spec(t as nat)));
                }
                return Ok(r);
            }
            k = k + 1;
        }
        let ghost before = *self;
        assert(!before.sizes().contains(t as nat)) by {
            if before.sizes().contains(t as nat) {
                let j = choose|j: int| 0 <= j < before.entries@.len() && #[trigger] before.entries@[j].size == t;
                assert(before.entries@[j].size != t);
            }
        }
        if t.checked_mul(t).is_none() {
            return Err(ModelError::ShapeMismatch);
        }
        let data = causal_mask(t);
        let tensor = match square_from_bytes(&data, t, device) {
            Ok(m) => m,
            Err(_) => {
                return Err(ModelError::NumericBackendFailure);
            },
        };
        let r = share(&tensor);
        self.entries.push(CausalMask { size: t, data, tensor });
        assert(self.sizes() =~= before.sizes().insert(t as nat)) by {
            assert(self.entries@[n as int].size == t);
            assert forall|s: nat| before.sizes().contains(s) implies self.sizes().contains(s) by {
                let j = choose|j: int| 0 <= j < before.entries@.len() && #[trigger] before.entries@[j].size == s;
                assert(self.entries@[j].size == s);
            }
            assert forall|s: nat| self.sizes().contains(s) && s != t implies before.sizes().contains(s) by {
                let j = choose|j: int| 0 <= j < self.entries@.len() && #[trigger] self.entries@[j].size == s;
                assert(before.entries@[j].size == s);
            }
        }
        proof {
            assert(self.wf()) by {
                assert forall|a: int, b: int|
                    0 <= a < b < self.entries@.len() implies (#[trigger] self.entries@[a]).size
                        != (#[trigger] self.entries@[b]).size by {
                    if b == n as int {
                        assert(before.entries@[a].size != t);
                    } else {
                        assert(before.entries@[a].size != before.entries@[b].size);
                    }
                }
            }
            self.lemma_stored();
            let j = self.index_of(t as nat);
            assert(j == n as int) by {
                if j < n {
                    assert(before.entries@[j].size == t);
                }
            }
            assert(self@ =~= before@.insert(t as nat, causal_mask_spec(t as nat)));
            assert forall|s: nat| #[trigger] before@.contains_key(s) implies self.handle(s) == before.handle(s) by {
                let a = before.index_of(s);
                let b = self.index_of(s);
                assert(self.entries@[a].size == s);
                assert(a == b) by {
                    if b == n as int {
                        assert(s == t);
                    } else if a < b {
                        assert(self.entries@[a].size != self.entries@[b].size);
                    } else if b < a {
                        assert(self.entries@[b].size != self.entries@[a].size);
                    }
                }
            }
        }
        Ok(r)
    }
}

} // verus!
