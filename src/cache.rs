use crate::error::ModelError;
use vstd::prelude::*;

verus! {

/// What a cache slot holds, as its length along the sequence axis.
#[derive(Debug, Clone, Copy, PartialEq, Eq, Structural)]
pub enum SlotLen {
    /// Nothing cached yet.
    Empty,
    /// The stand-in left by a step run without incremental caching; keys and
    /// values cannot be appended to it.
    Placeholder,
    /// Keys and values for this many positions.
    Filled(usize),
}

/// One layer's cache slot, holding a key/value payload of type `T`.
pub enum KvSlot<T> {
    Empty,
    Placeholder,
    Filled { len: usize, kv: T },
}

impl<T> KvSlot<T> {
    pub open spec fn state(&self) -> SlotLen {
        match self {
            KvSlot::Empty => SlotLen::Empty,
            KvSlot::Placeholder => SlotLen::Placeholder,
            KvSlot::Filled { len, .. } => SlotLen::Filled(*len),
        }
    }
}

/// Which of the two cache arenas a pass uses.
#[derive(Debug, Clone, Copy, PartialEq, Eq, Structural)]
pub enum Arena {
    /// The growing cache of the final passes.
    Primary,
    /// The cache of the pass whose hidden states feed the scaling classifier.
    Scaling,
}

/// The two passes of one generation step.
#[derive(Debug, Clone, Copy, PartialEq, Eq, Structural)]
pub enum Pass {
    /// Runs with uniform adapter scalings; its output feeds the classifier.
    Scaling,
    /// Runs with the classifier's scalings; its output gives the logits.
    Final,
}

/// Which tokens a pass runs over.
#[derive(Debug, Clone, Copy, PartialEq, Eq, Structural)]
pub enum Context {
    /// The whole context, from its first token.
    Full,
    /// Only the tokens that are new since the previous step.
    Incremental,
}

/// The slot after `added` positions are appended to it.
pub open spec fn grown(s: SlotLen, added: nat) -> SlotLen {
    match s {
        SlotLen::Empty => SlotLen::Filled(added as usize),
        SlotLen::Placeholder => SlotLen::Placeholder,
        SlotLen::Filled(l) => SlotLen::Filled((l + added) as usize),
    }
}

/// Whether `added` positions can be appended to the slot.
pub open spec fn can_grow(s: SlotLen, added: nat) -> bool {
    match s {
        SlotLen::Empty => added <= usize::MAX,
        SlotLen::Placeholder => false,
        SlotLen::Filled(l) => l + added <= usize::MAX,
    }
}

/// `n` slots in state `s`.
pub open spec fn uniform(n: nat, s: SlotLen) -> Seq<SlotLen> {
    Seq::new(n, |i: int| s)
}

/// The arena that a pass uses: the final pass without incremental caching
/// reuses the scaling arena, so that the primary one is left as a placeholder.
pub open spec fn pass_arena(pass: Pass, no_cache: bool) -> Arena {
    match pass {
        Pass::Scaling => Arena::Scaling,
        Pass::Final => if no_cache {
            Arena::Scaling
        } else {
            Arena::Primary
        },
    }
}

/// The tokens that a pass runs over: the scaling pass always rebuilds the
/// whole context, the final pass does so only without incremental caching.
pub open spec fn pass_context(pass: Pass, no_cache: bool) -> Context {
    if pass == Pass::Scaling || no_cache {
        Context::Full
    } else {
        Context::Incremental
    }
}

/// The slot lengths of both arenas, primary first.
pub type CacheLens = (Seq<SlotLen>, Seq<SlotLen>);

/// The slot lengths of arena `which` in `c`.
pub open spec fn lens_of(c: CacheLens, which: Arena) -> Seq<SlotLen> {
    match which {
        Arena::Primary => c.0,
        Arena::Scaling => c.1,
    }
}

/// `c` with arena `which` replaced by `lens`.
pub open spec fn with_lens(c: CacheLens, which: Arena, lens: Seq<SlotLen>) -> CacheLens {
    match which {
        Arena::Primary => (lens, c.1),
        Arena::Scaling => (c.0, lens),
    }
}

/// The resets made as a pass begins: the scaling arena is emptied before each
/// pass that uses it, and without incremental caching the primary arena is
/// set to placeholders before the final pass.
pub open spec fn begun(c: CacheLens, pass: Pass, no_cache: bool) -> CacheLens {
    let n = c.0.len();
    match pass {
        Pass::Scaling => (c.0, uniform(n, SlotLen::Empty)),
        Pass::Final => if no_cache {
            (uniform(n, SlotLen::Placeholder), uniform(n, SlotLen::Empty))
        } else {
            c
        },
    }
}

/// The lengths after every layer has appended `added` positions to arena
/// `which`.
pub open spec fn ran(c: CacheLens, which: Arena, added: nat) -> CacheLens {
    with_lens(c, which, lens_of(c, which).map_values(|s: SlotLen| grown(s, added)))
}

/// The lengths after a whole generation step: the scaling pass over
/// `full_len` tokens, then the final pass over `full_len` tokens without
/// incremental caching, or over `new_len` tokens with it.
pub open spec fn stepped(c: CacheLens, no_cache: bool, new_len: nat, full_len: nat) -> CacheLens {
    let c1 = ran(begun(c, Pass::Scaling, no_cache), Arena::Scaling, full_len);
    let c2 = begun(c1, Pass::Final, no_cache);
    ran(
        c2,
        pass_arena(Pass::Final, no_cache),
        if no_cache {
            full_len
        } else {
            new_len
        },
    )
}

/// The arena that `pass` uses.
pub fn arena_for(pass: Pass, no_cache: bool) -> (r: Arena)
    ensures
        r == pass_arena(pass, no_cache),
{
    match pass {
        Pass::Scaling => Arena::Scaling,
        Pass::Final => if no_cache {
            Arena::Scaling
        } else {
            Arena::Primary
        },
    }
}

/// The tokens that `pass` runs over.
pub fn context_for(pass: Pass, no_cache: bool) -> (r: Context)
    ensures
        r == pass_context(pass, no_cache),
{
    match pass {
        Pass::Scaling => Context::Full,
        Pass::Final => if no_cache {
            Context::Full
        } else {
            Context::Incremental
        },
    }
}

/// `n` slots, placeholders when `placeholder` is set, empty ones otherwise.
fn fresh_slots<T>(n: usize, placeholder: bool) -> (r: Vec<KvSlot<T>>)
    ensures
        r@.len() == n,
        forall|i: int|
            0 <= i < n ==> (#[trigger] r@[i]).state() == if placeholder {
                SlotLen::Placeholder
            } else {
                SlotLen::Empty
            },
{
    let mut r: Vec<KvSlot<T>> = Vec::new();
    let mut i: usize = 0;
    while i < n
        invariant
            i <= n,
            r@.len() == i,
            forall|j: int|
                0 <= j < i ==> (#[trigger] r@[j]).state() == if placeholder {
                    SlotLen::Placeholder
                } else {
                    SlotLen::Empty
                },
        decreases n - i,
    {
        if placeholder {
            r.push(KvSlot::Placeholder);
        } else {
            r.push(KvSlot::Empty);
        }
        i = i + 1;
    }
    r
}

/// The two cache arenas of a model, one slot per layer in each.
pub struct CacheArenas<T> {
    primary: Vec<KvSlot<T>>,
    scaling: Vec<KvSlot<T>>,
}

impl<T> CacheArenas<T> {
    pub closed spec fn view(&self) -> CacheLens {
        (
            self.primary@.map_values(|s: KvSlot<T>| s.state()),
            self.scaling@.map_values(|s: KvSlot<T>| s.state()),
        )
    }

    /// The keys and values cached for `layer` in arena `which`, if any.
    pub closed spec fn kv_at(&self, which: Arena, layer: int) -> Option<T> {
        let slots = match which {
            Arena::Primary => self.primary@,
            Arena::Scaling => self.scaling@,
        };
        match slots[layer] {
            KvSlot::Filled { kv, .. } => Some(kv),
            _ => None,
        }
    }

    /// A slot holds keys and values exactly when it is filled.
    pub proof fn lemma_kv_at_filled(&self, which: Arena, layer: int)
        requires
            self.wf(),
            0 <= layer < self.layers(),
        ensures
            self.kv_at(which, layer) is Some <==> lens_of(self@, which)[layer] is Filled,
    {
    }

    /// Both arenas hold one slot per layer.
    pub open spec fn wf(&self) -> bool {
        self@.0.len() == self@.1.len()
    }

    /// The number of layers.
    pub open spec fn layers(&self) -> nat {
        self@.0.len()
    }

    /// Arenas for `n_layers` layers, all slots empty.
    pub fn new(n_layers: usize) -> (r: CacheArenas<T>)
        ensures
            r.wf(),
            r@ == (uniform(n_layers as nat, SlotLen::Empty), uniform(n_layers as nat, SlotLen::Empty)),
    {
        let r = CacheArenas { primary: fresh_slots(n_layers, false), scaling: fresh_slots(n_layers, false) };
        assert(r@.0 =~= uniform(n_layers as nat, SlotLen::Empty));
        assert(r@.1 =~= uniform(n_layers as nat, SlotLen::Empty));
        r
    }

    /// The number of layers.
    pub fn n_layers(&self) -> (r: usize)
        ensures
            r == self.layers(),
    {
        self.primary.len()
    }

    /// The state of the slot of `layer` in arena `which`.
    pub fn slot_state(&self, which: Arena, layer: usize) -> (r: SlotLen)
        requires
            self.wf(),
            layer < self.layers(),
        ensures
            r == lens_of(self@, which)[layer as int],
    {
        let slots = match which {
            Arena::Primary => &self.primary,
            Arena::Scaling => &self.scaling,
        };
        match &slots[layer] {
            KvSlot::Empty => SlotLen::Empty,
            KvSlot::Placeholder => SlotLen::Placeholder,
            KvSlot::Filled { len, .. } => SlotLen::Filled(*len),
        }
    }

    /// Makes the resets that come at the start of `pass`, and tells which
    /// arena the pass uses.
    pub fn begin_pass(&mut self, pass: Pass, no_cache: bool) -> (r: Arena)
        requires
            old(self).wf(),
        ensures
            final(self).wf(),
            r == pass_arena(pass, no_cache),
            final(self)@ == begun(old(self)@, pass, no_cache),
            pass == Pass::Final && !no_cache ==> *final(self) == *old(self),
            pass == Pass::Scaling ==> forall|l: int|
                #[trigger] final(self).kv_at(Arena::Primary, l) == old(self).kv_at(Arena::Primary, l),
    {
        let n = self.primary.len();
        let ghost prev = self@;
        match pass {
            Pass::Scaling => {
                self.scaling = fresh_slots(n, false);
            },
            Pass::Final => {
                if no_cache {
                    self.primary = fresh_slots(n, true);
                    self.scaling = fresh_slots(n, false);
                }
            },
        }
        assert(self@.0 =~= begun(prev, pass, no_cache).0);
        assert(self@.1 =~= begun(prev, pass, no_cache).1);
        arena_for(pass, no_cache)
    }

    /// The keys and values cached for `layer` in arena `which`: none for an
    /// empty slot; a shape error for a placeholder, to which nothing can be
    /// appended.
    pub fn previous(&self, which: Arena, layer: usize) -> (r: Result<Option<&T>, ModelError>)
        requires
            self.wf(),
            layer < self.layers(),
        ensures
            r == Err::<Option<&T>, ModelError>(ModelError::ShapeMismatch) <==> lens_of(self@, which)[layer as int]
                == SlotLen::Placeholder,
            r == Ok::<Option<&T>, ModelError>(None) <==> lens_of(self@, which)[layer as int] == SlotLen::Empty,
            r matches Ok(Some(_)) <==> lens_of(self@, which)[layer as int] is Filled,
            r matches Ok(Some(p)) ==> self.kv_at(which, layer as int) == Some(*p),
    {
        let slots = match which {
            Arena::Primary => &self.primary,
            Arena::Scaling => &self.scaling,
        };
        match &slots[layer] {
            KvSlot::Empty => Ok(None),
            KvSlot::Placeholder => Err(ModelError::ShapeMismatch),
            KvSlot::Filled { kv, .. } => Ok(Some(kv)),
        }
    }

    /// Stores `kv`, which holds the previous keys and values of `layer` in
    /// arena `which` followed by `added` new positions. The other arena is
    /// left as it was. Fails with a shape error, changing nothing, when the
    /// slot is a placeholder or the length would not fit.
    pub fn store(&mut self, which: Arena, layer: usize, kv: T, added: usize) -> (r: Result<(), ModelError>)
        requires
            old(self).wf(),
            layer < old(self).layers(),
        ensures
            final(self).wf(),
            r is Ok <==> can_grow(lens_of(old(self)@, which)[layer as int], added as nat),
            r is Ok ==> final(self)@ == with_lens(
                old(self)@,
                which,
                lens_of(old(self)@, which).update(
                    layer as int,
                    grown(lens_of(old(self)@, which)[layer as int], added as nat),
                ),
            ),
            r is Ok ==> final(self).kv_at(which, layer as int) == Some(kv),
            r is Ok ==> forall|w: Arena, l: int|
                0 <= l < old(self).layers() && (w != which || l != layer) ==> #[trigger] final(self).kv_at(w, l)
                    == old(self).kv_at(w, l),
            r is Err ==> r == Err::<(), ModelError>(ModelError::ShapeMismatch) && *final(self) == *old(self),
    {
        let ghost prev = self@;
        let cur = match which {
            Arena::Primary => &self.primary[layer],
            Arena::Scaling => &self.scaling[layer],
        };
        let new_len: usize = match cur {
            KvSlot::Empty => added,
            KvSlot::Placeholder => {
                return Err(ModelError::ShapeMismatch);
            },
            KvSlot::Filled { len, .. } => {
                if *len > usize::MAX - added {
                    return Err(ModelError::ShapeMismatch);
                }
                *len + added
            },
        };
        match which {
            Arena::Primary => {
                self.primary.set(layer, KvSlot::Filled { len: new_len, kv });
            },
            Arena::Scaling => {
                self.scaling.set(layer, KvSlot::Filled { len: new_len, kv });
            },
        }
        let ghost want = with_lens(
            prev,
            which,
            lens_of(prev, which).update(layer as int, grown(lens_of(prev, which)[layer as int], added as nat)),
        );
        assert(self@.0 =~= want.0);
        assert(self@.1 =~= want.1);
        assert forall|w: Arena, l: int|
            0 <= l < prev.0.len() && (w != which || l != layer) implies #[trigger] self.kv_at(w, l)
                == old(self).kv_at(w, l) by {
            match w {
                Arena::Primary => assert(self.primary@[l] == old(self).primary@[l]),
                Arena::Scaling => assert(self.scaling@[l] == old(self).scaling@[l]),
            }
        }
        Ok(())
    }
}

/// The lengths after `steps` generation steps with incremental caching, the
/// step numbered `i` (from 1) bringing one new token to a context of `i`.
pub open spec fn after_single_token_steps(c: CacheLens, steps: nat) -> CacheLens
    decreases steps,
{
    if steps == 0 {
        c
    } else {
        stepped(after_single_token_steps(c, (steps - 1) as nat), false, 1, steps)
    }
}

/// With incremental caching, `n` steps of one token each leave every primary
/// slot holding exactly `n` positions, starting from empty arenas.
pub proof fn lemma_cache_growth(n_layers: nat, steps: nat)
    requires
        0 < steps <= usize::MAX,
    ensures
        after_single_token_steps(
            (uniform(n_layers, SlotLen::Empty), uniform(n_layers, SlotLen::Empty)),
            steps,
        ).0 == uniform(n_layers, SlotLen::Filled(steps as usize)),
        after_single_token_steps(
            (uniform(n_layers, SlotLen::Empty), uniform(n_layers, SlotLen::Empty)),
            steps,
        ).1.len() == n_layers,
    decreases steps,
{
    let start = (uniform(n_layers, SlotLen::Empty), uniform(n_layers, SlotLen::Empty));
    let prev = after_single_token_steps(start, (steps - 1) as nat);
    if steps == 1 {
        assert(prev == start);
    } else {
        lemma_cache_growth(n_layers, (steps - 1) as nat);
    }
    let c1 = ran(begun(prev, Pass::Scaling, false), Arena::Scaling, steps);
    assert(c1.0 == prev.0);
    let out = stepped(prev, false, 1, steps);
    assert(out.0 =~= uniform(n_layers, SlotLen::Filled(steps as usize)));
}

/// Without incremental caching a step leaves every primary slot as a
/// placeholder, whatever the arenas held before.
pub proof fn lemma_no_cache_step(c: CacheLens, new_len: nat, full_len: nat)
    requires
        c.0.len() == c.1.len(),
    ensures
        stepped(c, true, new_len, full_len).0 == uniform(c.0.len(), SlotLen::Placeholder),
{
}

/// The scaling pass starts from an empty scaling arena and never reads the
/// primary one, so two scaling passes over the same context see the same
/// cache, whatever came before; and growing one arena leaves the other as it
/// was.
pub proof fn lemma_pass_independence(
    c: CacheLens,
    d: CacheLens,
    no_cache: bool,
    full_len: nat,
    which: Arena,
    added: nat,
)
    requires
        c.0.len() == c.1.len(),
        d.0.len() == d.1.len(),
        c.0.len() == d.0.len(),
        full_len <= usize::MAX,
    ensures
        begun(c, Pass::Scaling, no_cache).1 == begun(d, Pass::Scaling, no_cache).1,
        ran(begun(c, Pass::Scaling, no_cache), Arena::Scaling, full_len).1 == uniform(
            c.0.len(),
            SlotLen::Filled(full_len as usize),
        ),
        ran(begun(c, Pass::Scaling, no_cache), Arena::Scaling, full_len).0 == c.0,
        forall|other: Arena|
            other != which ==> lens_of(#[trigger] ran(c, which, added), other) == lens_of(c, other),
{
    assert(ran(begun(c, Pass::Scaling, no_cache), Arena::Scaling, full_len).1 =~= uniform(
        c.0.len(),
        SlotLen::Filled(full_len as usize),
    ));
}

} // verus!
