use crate::error::ModelError;
use vstd::prelude::*;

verus! {

/// The rank of a single-precision value, given by its bit pattern, in the IEEE
/// total order: non-negative patterns keep their value, negative ones have
/// their magnitude bits reversed and sit below every non-negative one.
pub open spec fn order_key(bits: u32) -> int {
    if bits < 0x8000_0000 {
        bits as int
    } else {
        0x7fff_ffff - bits as int
    }
}

/// Whether expert `a` is preferred to expert `b` under routing weights `w`:
/// a larger weight first, and on equal weights the lower index first.
pub open spec fn ranks_before(w: Seq<u32>, a: int, b: int) -> bool {
    order_key(w[a]) > order_key(w[b]) || (order_key(w[a]) == order_key(w[b]) && a < b)
}

/// `r` lists the `min(k, |w|)` preferred experts of `w`, best first.
pub open spec fn is_top_k(w: Seq<u32>, k: nat, r: Seq<usize>) -> bool {
    &&& r.len() == if k < w.len() { k } else { w.len() }
    &&& forall|i: int| 0 <= i < r.len() ==> #[trigger] r[i] < w.len()
    &&& forall|i: int, j: int|
        0 <= i < j < r.len() ==> ranks_before(w, #[trigger] r[i] as int, #[trigger] r[j] as int)
    &&& forall|e: usize, i: int|
        e < w.len() && !#[trigger] r.contains(e) && 0 <= i < r.len() ==> ranks_before(
            w,
            #[trigger] r[i] as int,
            e as int,
        )
}

/// The rows, in ascending order, among the first `upto` tokens of `sel` whose
/// selection holds expert `e`.
pub open spec fn rows_for(sel: Seq<Seq<usize>>, e: usize, upto: nat) -> Seq<usize>
    decreases upto,
{
    if upto == 0 {
        Seq::empty()
    } else {
        let prev = rows_for(sel, e, (upto - 1) as nat);
        if sel[upto - 1].contains(e) {
            prev.push((upto - 1) as usize)
        } else {
            prev
        }
    }
}

/// The rank of `bits` in the total order, as an integer.
fn total_order_key(bits: u32) -> (r: i64)
    ensures
        r == order_key(bits),
{
    if bits < 0x8000_0000 {
        bits as i64
    } else {
        0x7fff_ffffi64 - bits as i64
    }
}

proof fn lemma_some_expert_free(r: Seq<usize>, n: nat)
    requires
        r.len() < n,
        n <= usize::MAX,
    ensures
        exists|e: int| 0 <= e < n && !#[trigger] r.contains(e as usize),
{
    if forall|e: int| 0 <= e < n ==> #[trigger] r.contains(e as usize) {
        let ri = r.map_values(|x: usize| x as int);
        let full = vstd::set_lib::set_int_range(0, n as int);
        assert forall|e: int| full.contains(e) implies ri.to_set().contains(e) by {
            assert(r.contains(e as usize));
            let j = choose|j: int| 0 <= j < r.len() && r[j] == e as usize;
            assert(ri[j] == e);
            assert(ri.contains(e));
        }
        vstd::set_lib::lemma_int_range(0, n as int);
        ri.lemma_cardinality_of_set();
        vstd::set_lib::lemma_len_subset(full, ri.to_set());
        assert(false);
    }
}

/// The `k` experts that a token with routing weights `w` (bit patterns of
/// single-precision values) is sent to, best first; all of them when there
/// are no more than `k`.
pub fn select_top_k(w: &Vec<u32>, k: usize) -> (r: Vec<usize>)
    ensures
        is_top_k(w@, k as nat, r@),
{
    let n = w.len();
    let want = if k < n { k } else { n };
    let mut r: Vec<usize> = Vec::new();
    let mut taken: Vec<bool> = Vec::new();
    let mut z: usize = 0;
    while z < n
        invariant
            z <= n,
            taken@.len() == z,
            forall|e: int| 0 <= e < z ==> !#[trigger] taken@[e],
        decreases n - z,
    {
        taken.push(false);
        z = z + 1;
    }
    while r.len() < want
        invariant
            n == w@.len(),
            want <= n,
            r@.len() <= want,
            taken@.len() == n,
            forall|e: int| 0 <= e < n ==> (#[trigger] taken@[e] <==> r@.contains(e as usize)),
            forall|i: int| 0 <= i < r@.len() ==> #[trigger] r@[i] < n,
            forall|i: int, j: int|
                0 <= i < j < r@.len() ==> ranks_before(w@, #[trigger] r@[i] as int, #[trigger] r@[j] as int),
            forall|e: int, i: int|
                0 <= e < n && !taken@[e] && 0 <= i < r@.len() ==> ranks_before(w@, #[trigger] r@[i] as int, e)
                    && #[trigger] taken@[e] == false,
        decreases want - r@.len(),
    {
        let mut best: usize = 0;
        let mut found = false;
        let mut e: usize = 0;
        while e < n
            invariant
                n == w@.len(),
                e <= n,
                taken@.len() == n,
                found ==> best < e && !taken@[best as int],
                found ==> forall|x: int| 0 <= x < e && !taken@[x] && x != best ==> ranks_before(w@, best as int, x) && #[trigger] taken@[x] == false,
                !found ==> forall|x: int| 0 <= x < e ==> #[trigger] taken@[x],
            decreases n - e,
        {
            if !taken[e] {
                if !found || total_order_key(w[e]) > total_order_key(w[best]) {
                    best = e;
                    found = true;
                }
            }
            e = e + 1;
        }
        proof {
            if !found {
                lemma_some_expert_free(r@, n as nat);
                let x = choose|x: int| 0 <= x < n && !#[trigger] r@.contains(x as usize);
                assert(taken@[x]);
            }
        }
        let ghost prev = r@;
        r.push(best);
        taken.set(best, true);
        assert forall|x: int| 0 <= x < n implies (#[trigger] taken@[x] <==> r@.contains(x as usize)) by {
            if x == best as int {
                assert(r@[prev.len() as int] == best);
            } else {
                if prev.contains(x as usize) {
                    let j = choose|j: int| 0 <= j < prev.len() && prev[j] == x as usize;
                    assert(r@[j] == x as usize);
                }
                if r@.contains(x as usize) {
                    let j = choose|j: int| 0 <= j < r@.len() && r@[j] == x as usize;
                    assert(j < prev.len());
                    assert(prev[j] == x as usize);
                }
            }
        }
    }
    proof {
        assert forall|e: usize, i: int|
            e < n && !#[trigger] r@.contains(e) && 0 <= i < r@.len() implies ranks_before(
                w@,
                #[trigger] r@[i] as int,
                e as int,
            ) by {
            assert(!taken@[e as int]);
        }
    }
    r
}

/// How the tokens of one mixture-of-experts block are routed.
pub struct Routing {
    /// For each token, the experts it is sent to, best first.
    pub selected: Vec<Vec<usize>>,
    /// For each expert, the tokens sent to it, in ascending order.
    pub rows: Vec<Vec<usize>>,
}

impl Routing {
    /// This routing sends each token of `weights` to its `k` preferred
    /// experts, and lists for each of the `n_experts` experts exactly the
    /// tokens sent to it, in ascending order.
    pub open spec fn routes(&self, weights: Seq<Vec<u32>>, n_experts: nat, k: nat) -> bool {
        &&& self.selection().len() == weights.len()
        &&& forall|t: int|
            0 <= t < weights.len() ==> is_top_k(weights[t]@, k, #[trigger] self.selection()[t])
        &&& self.assignment().len() == n_experts
        &&& forall|e: int|
            0 <= e < n_experts ==> #[trigger] self.assignment()[e] == rows_for(
                self.selection(),
                e as usize,
                weights.len(),
            )
    }

    /// The per-token selections as sequences.
    pub open spec fn selection(&self) -> Seq<Seq<usize>> {
        Seq::new(self.selected@.len(), |t: int| self.selected@[t]@)
    }

    /// The experts, among the first `n_experts`, whose token lists hold token `t`.
    pub open spec fn experts_of(&self, t: int, n_experts: nat) -> Set<usize> {
        Set::new(|e: usize| e < n_experts && self.assignment()[e as int].contains(t as usize))
    }

    /// The per-expert token lists as sequences.
    pub open spec fn assignment(&self) -> Seq<Seq<usize>> {
        Seq::new(self.rows@.len(), |e: int| self.rows@[e]@)
    }
}

/// Whether every token row holds one weight per expert.
pub open spec fn rows_match(weights: Seq<Vec<u32>>, n_experts: nat) -> bool {
    forall|t: int| 0 <= t < weights.len() ==> (#[trigger] weights[t])@.len() == n_experts
}

/// Whether `v` holds `x`, by a scan.
fn holds(v: &Vec<usize>, x: usize) -> (r: bool)
    ensures
        r == v@.contains(x),
{
    let mut i: usize = 0;
    while i < v.len()
        invariant
            i <= v@.len(),
            forall|j: int| 0 <= j < i ==> #[trigger] v@[j] != x,
        decreases v@.len() - i,
    {
        if v[i] == x {
            assert(v@[i as int] == x);
            return true;
        }
        i = i + 1;
    }
    false
}

/// The tokens, in ascending order, whose selection in `sel` holds expert `e`.
fn gather_rows(sel: &Vec<Vec<usize>>, e: usize) -> (r: Vec<usize>)
    ensures
        r@ == rows_for(Seq::new(sel@.len(), |t: int| sel@[t]@), e, sel@.len()),
{
    let ghost s = Seq::new(sel@.len(), |t: int| sel@[t]@);
    let mut r: Vec<usize> = Vec::new();
    let mut t: usize = 0;
    while t < sel.len()
        invariant
            t <= sel@.len(),
            s == Seq::new(sel@.len(), |t: int| sel@[t]@),
            r@ == rows_for(s, e, t as nat),
        decreases sel@.len() - t,
    {
        if holds(&sel[t], e) {
            r.push(t);
        }
        t = t + 1;
    }
    r
}

/// Routes each token (a row of per-expert routing weights, as bit patterns of
/// single-precision values) to its `k` preferred experts, and lists for each
/// of the `n_experts` experts the tokens that it serves. Fails with a shape
/// error when a row does not hold exactly `n_experts` weights.
pub fn route_tokens(weights: &Vec<Vec<u32>>, n_experts: usize, k: usize) -> (r: Result<
    Routing,
    ModelError,
>)
    ensures
        r is Err <==> !rows_match(weights@, n_experts as nat),
        r is Err ==> r == Err::<Routing, ModelError>(ModelError::ShapeMismatch),
        r matches Ok(routing) ==> routing.routes(weights@, n_experts as nat, k as nat),
{
    let n_tokens = weights.len();
    let mut t: usize = 0;
    while t < n_tokens
        invariant
            n_tokens == weights@.len(),
            t <= n_tokens,
            forall|x: int| 0 <= x < t ==> (#[trigger] weights@[x])@.len() == n_experts,
        decreases n_tokens - t,
    {
        if weights[t].len() != n_experts {
            return Err(ModelError::ShapeMismatch);
        }
        t = t + 1;
    }
    let mut selected: Vec<Vec<usize>> = Vec::new();
    let mut t: usize = 0;
    while t < n_tokens
        invariant
            n_tokens == weights@.len(),
            t <= n_tokens,
            selected@.len() == t,
            forall|x: int|
                0 <= x < t ==> is_top_k(weights@[x]@, k as nat, #[trigger] selected@[x]@),
        decreases n_tokens - t,
    {
        let sel = select_top_k(&weights[t], k);
        selected.push(sel);
        t = t + 1;
    }
    let ghost s = Seq::new(selected@.len(), |t: int| selected@[t]@);
    let mut rows: Vec<Vec<usize>> = Vec::new();
    let mut e: usize = 0;
    while e < n_experts
        invariant
            e <= n_experts,
            rows@.len() == e,
            s == Seq::new(selected@.len(), |t: int| selected@[t]@),
            selected@.len() == n_tokens,
            n_tokens == weights@.len(),
            forall|x: int| 0 <= x < e ==> #[trigger] rows@[x]@ == rows_for(s, x as usize, n_tokens as nat),
        decreases n_experts - e,
    {
        let g = gather_rows(&selected, e);
        rows.push(g);
        e = e + 1;
    }
    let routing = Routing { selected, rows };
    assert(routing.selection() == s);
    assert forall|x: int| 0 <= x < n_experts implies #[trigger] routing.assignment()[x] == rows_for(
        routing.selection(),
        x as usize,
        weights@.len(),
    ) by {
        assert(routing.rows@[x]@ == rows_for(s, x as usize, n_tokens as nat));
    }
    Ok(routing)
}

proof fn lemma_rows_for_contains(sel: Seq<Seq<usize>>, e: usize, upto: nat, row: usize)
    requires
        upto <= usize::MAX,
    ensures
        rows_for(sel, e, upto).contains(row) <==> (row < upto && sel[row as int].contains(e)),
    decreases upto,
{
    if upto > 0 {
        lemma_rows_for_contains(sel, e, (upto - 1) as nat, row);
        let prev = rows_for(sel, e, (upto - 1) as nat);
        if sel[upto - 1].contains(e) {
            let cur = prev.push((upto - 1) as usize);
            if prev.contains(row) {
                let j = choose|j: int| 0 <= j < prev.len() && prev[j] == row;
                assert(cur[j] == row);
            }
            if cur.contains(row) && row != (upto - 1) as usize {
                let j = choose|j: int| 0 <= j < cur.len() && cur[j] == row;
                assert(j < prev.len());
                assert(prev[j] == row);
            }
            if row == (upto - 1) as usize {
                assert(cur[prev.len() as int] == row);
            }
        }
    }
}

/// A routing sends every token to no more than `k` distinct experts, and
/// exactly to the experts whose token lists hold it; an expert that no token
/// selects is handed no token at all.
pub proof fn lemma_routing_bounds(weights: Seq<Vec<u32>>, n_experts: nat, k: nat, routing: Routing)
    requires
        weights.len() <= usize::MAX,
        n_experts <= usize::MAX,
        rows_match(weights, n_experts),
        routing.routes(weights, n_experts, k),
    ensures
        forall|t: int|
            0 <= t < weights.len() ==> (#[trigger] routing.selection()[t]).len() <= k
                && routing.selection()[t].no_duplicates(),
        forall|t: int, e: int|
            0 <= t < weights.len() && 0 <= e < n_experts ==> (#[trigger] routing.assignment()[e].contains(t as usize)
                <==> #[trigger] routing.selection()[t].contains(e as usize)),
        forall|t: int|
            0 <= t < weights.len() ==> (#[trigger] routing.experts_of(t, n_experts)).len() <= k,
        forall|e: int|
            0 <= e < n_experts && (forall|t: int|
                0 <= t < weights.len() ==> !#[trigger] routing.selection()[t].contains(e as usize))
                ==> (#[trigger] routing.assignment()[e]).len() == 0,
{
    let sel = routing.selection();
    let asg = routing.assignment();
    assert forall|t: int|
        0 <= t < weights.len() implies (#[trigger] sel[t]).len() <= k && sel[t].no_duplicates() by {
        assert(is_top_k(weights[t]@, k, sel[t]));
        assert forall|i: int, j: int| 0 <= i < sel[t].len() && 0 <= j < sel[t].len() && i != j implies sel[t][i] != sel[t][j] by {
            if i < j {
                assert(ranks_before(weights[t]@, sel[t][i] as int, sel[t][j] as int));
            } else {
                assert(ranks_before(weights[t]@, sel[t][j] as int, sel[t][i] as int));
            }
        }
    }
    assert forall|t: int, e: int|
        0 <= t < weights.len() && 0 <= e < n_experts implies (#[trigger] asg[e].contains(t as usize)
            <==> #[trigger] sel[t].contains(e as usize)) by {
        lemma_rows_for_contains(sel, e as usize, weights.len(), t as usize);
    }
    assert forall|t: int|
        0 <= t < weights.len() implies (#[trigger] routing.experts_of(t, n_experts)).len() <= k by {
        let chosen = routing.experts_of(t, n_experts);
        assert forall|e: usize| chosen.contains(e) implies sel[t].to_set().contains(e) by {
            lemma_rows_for_contains(sel, e, weights.len(), t as usize);
        }
        sel[t].lemma_cardinality_of_set();
        vstd::set_lib::lemma_len_subset(chosen, sel[t].to_set());
        assert(is_top_k(weights[t]@, k, sel[t]));
    }
    assert forall|e: int|
        0 <= e < n_experts && (forall|t: int|
            0 <= t < weights.len() ==> !#[trigger] sel[t].contains(e as usize))
            implies (#[trigger] asg[e]).len() == 0 by {
        if asg[e].len() > 0 {
            let row = asg[e][0];
            lemma_rows_for_contains(sel, e as usize, weights.len(), row);
            assert(asg[e].contains(row));
            assert(!sel[row as int].contains(e as usize));
        }
    }
}

} // verus!
