use crate::error::ModelError;
use vstd::prelude::*;

verus! {

/// Head layout of an attention block.
#[derive(Debug, Clone, Copy, PartialEq, Eq, Structural)]
pub struct AttentionShape {
    /// Width of the hidden state.
    pub n_embd: usize,
    /// Number of query heads.
    pub n_head: usize,
    /// Number of key/value heads.
    pub n_kv_head: usize,
    /// Values per head.
    pub head_dim: usize,
}

/// The head counts divide as grouped-query attention and the rotary pairs
/// need: the width splits evenly into query heads of an even size, and the
/// query heads split evenly into groups, one per key/value head.
pub open spec fn shape_ok(n_embd: nat, n_head: nat, n_kv_head: nat) -> bool {
    &&& n_head > 0
    &&& n_kv_head > 0
    &&& n_embd % n_head == 0
    &&& (n_embd / n_head) % 2 == 0
    &&& n_head % n_kv_head == 0
}

impl AttentionShape {
    pub open spec fn wf(&self) -> bool {
        &&& shape_ok(self.n_embd as nat, self.n_head as nat, self.n_kv_head as nat)
        &&& self.head_dim == self.n_embd / self.n_head
    }

    /// The number of query heads that share one key/value head.
    pub open spec fn group(&self) -> nat {
        (self.n_head / self.n_kv_head) as nat
    }

    /// The layout for a hidden width of `n_embd` with `n_head` query heads and
    /// `n_kv_head` key/value heads; the configuration is unsupported where the
    /// counts do not divide.
    pub fn new(n_embd: usize, n_head: usize, n_kv_head: usize) -> (r: Result<AttentionShape, ModelError>)
        ensures
            r is Ok <==> shape_ok(n_embd as nat, n_head as nat, n_kv_head as nat),
            r is Err ==> r == Err::<AttentionShape, ModelError>(ModelError::UnsupportedConfiguration),
            r matches Ok(s) ==> s.wf() && s.n_embd == n_embd && s.n_head == n_head && s.n_kv_head
                == n_kv_head,
    {
        if n_head == 0 || n_kv_head == 0 || n_embd % n_head != 0 || (n_embd / n_head) % 2 != 0
            || n_head % n_kv_head != 0 {
            return Err(ModelError::UnsupportedConfiguration);
        }
        Ok(AttentionShape { n_embd, n_head, n_kv_head, head_dim: n_embd / n_head })
    }

    /// The layout where every `gqa` query heads share one key/value head.
    pub fn from_group_size(n_embd: usize, n_head: usize, gqa: usize) -> (r: Result<AttentionShape, ModelError>)
        ensures
            r is Ok <==> gqa > 0 && n_head % gqa == 0 && shape_ok(n_embd as nat, n_head as nat, (n_head / gqa) as nat),
            r is Err ==> r == Err::<AttentionShape, ModelError>(ModelError::UnsupportedConfiguration),
            r matches Ok(s) ==> s.wf() && s.n_embd == n_embd && s.n_head == n_head && s.n_kv_head
                == n_head / gqa,
    {
        if gqa == 0 || n_head % gqa != 0 {
            return Err(ModelError::UnsupportedConfiguration);
        }
        AttentionShape::new(n_embd, n_head, n_head / gqa)
    }

    /// The number of query heads that share one key/value head.
    pub fn n_rep(&self) -> (r: usize)
        requires
            self.wf(),
        ensures
            r == self.group(),
            r > 0,
    {
        proof {
            vstd::arithmetic::div_mod::lemma_fundamental_div_mod(self.n_head as int, self.n_kv_head as int);
            if self.n_head / self.n_kv_head == 0 {
                assert(self.n_head == 0);
            }
        }
        self.n_head / self.n_kv_head
    }

    /// For each query head, the key/value head it reads: each key/value head
    /// covers a contiguous block of `group()` query heads.
    pub fn kv_head_order(&self) -> (r: Vec<usize>)
        requires
            self.wf(),
        ensures
            r@.len() == self.n_head,
            forall|h: int| 0 <= h < self.n_head ==> #[trigger] r@[h] == h / (self.group() as int),
            forall|h: int| 0 <= h < self.n_head ==> #[trigger] r@[h] < self.n_kv_head,
    {
        let n_rep = self.n_rep();
        let mut r: Vec<usize> = Vec::new();
        let mut h: usize = 0;
        while h < self.n_head
            invariant
                h <= self.n_head,
                n_rep == self.group(),
                n_rep > 0,
                self.wf(),
                r@.len() == h,
                forall|x: int| 0 <= x < h ==> #[trigger] r@[x] == x / (n_rep as int),
                forall|x: int| 0 <= x < h ==> #[trigger] r@[x] < self.n_kv_head,
            decreases self.n_head - h,
        {
            proof {
                vstd::arithmetic::div_mod::lemma_fundamental_div_mod(self.n_head as int, self.n_kv_head as int);
                assert(self.n_head == self.n_kv_head * n_rep);
                vstd::arithmetic::div_mod::lemma_div_by_multiple_is_strongly_ordered(
                    h as int, self.n_head as int, self.n_kv_head as int, n_rep as int);
                vstd::arithmetic::mul::lemma_mul_is_commutative(self.n_kv_head as int, n_rep as int);
                vstd::arithmetic::div_mod::lemma_div_by_multiple(self.n_kv_head as int, n_rep as int);
            }
            r.push(h / n_rep);
            h = h + 1;
        }
        r
    }
}

/// The feed-forward unit of every layer, chosen once when the model loads.
#[derive(Debug, Clone, Copy, PartialEq, Eq, Structural)]
pub enum FeedForwardKind {
    /// One gated unit.
    Dense,
    /// `n_experts` gated units, each token routed to `top_k` of them.
    Experts { n_experts: usize, top_k: usize },
}

impl FeedForwardKind {
    /// The unit for `n_expert` experts of which `n_expert_used` serve each
    /// token: a dense unit unless there are at least two experts.
    pub fn from_counts(n_expert: usize, n_expert_used: usize) -> (r: FeedForwardKind)
        ensures
            n_expert <= 1 ==> r == FeedForwardKind::Dense,
            n_expert > 1 ==> r == (FeedForwardKind::Experts { n_experts: n_expert, top_k: n_expert_used }),
    {
        if n_expert <= 1 {
            FeedForwardKind::Dense
        } else {
            FeedForwardKind::Experts { n_experts: n_expert, top_k: n_expert_used }
        }
    }
}

} // verus!
