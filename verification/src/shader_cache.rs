//! Prepared shader entries and the per-frame shader pass.
//!
//! One cache instance exists per registered shader type. An entry maps a
//! shader asset instance to the bind group built from its user resources.
//! Binding can fail two ways: a permanent failure drops the asset until it
//! changes again, a transient failure queues it for a retry on the next
//! frame. The retry queue is an explicit FIFO handed in and out of the pass
//! each frame.

use vstd::prelude::*;

use crate::assoc::{
    assoc_find, distinct_keys, evict, has_key, lemma_evict_distinct, lemma_find_at,
    lemma_find_none, lemma_push_distinct, lemma_upsert_distinct, upsert,
};
use crate::ids::{BindGroupId, ShaderId};

verus! {

/// What one attempt to build a user bind group came to.
///
/// The host reports one outcome per attempted asset: the bind group on
/// success, a transient failure when a dependency is not ready yet (the
/// asset is retried next frame), or a permanent failure when the asset's
/// configuration can never bind (the asset is dropped until it changes).
#[derive(PartialEq, Eq, Structural, Clone, Copy, Debug)]
pub enum BindOutcome {
    Bound(BindGroupId),
    TransientFailure,
    PermanentFailure,
}

/// Association from shader asset instances to prepared user bind groups.
pub struct PreparedShaders {
    entries: Vec<(ShaderId, BindGroupId)>,
}

impl View for PreparedShaders {
    type V = Seq<(ShaderId, BindGroupId)>;

    closed spec fn view(&self) -> Seq<(ShaderId, BindGroupId)> {
        self.entries@
    }
}

impl PreparedShaders {
    /// No shader asset has two entries.
    pub open spec fn wf(self) -> bool {
        distinct_keys(self@)
    }

    /// The entry for `id`, if prepared.
    pub open spec fn spec_find(self, id: ShaderId) -> Option<BindGroupId> {
        assoc_find(self@, id)
    }

    pub fn new() -> (c: PreparedShaders)
        ensures
            c@ == Seq::<(ShaderId, BindGroupId)>::empty(),
            c.wf(),
    {
        PreparedShaders { entries: Vec::new() }
    }

    pub fn len(&self) -> (n: usize)
        ensures
            n == self@.len(),
    {
        self.entries.len()
    }

    /// The entry at position `i`, for walking the table.
    pub fn at(&self, i: usize) -> (e: (ShaderId, BindGroupId))
        requires
            i < self@.len(),
        ensures
            e == self@[i as int],
    {
        self.entries[i]
    }

    pub fn get(&self, id: ShaderId) -> (r: Option<BindGroupId>)
        ensures
            r == self.spec_find(id),
    {
        let n = self.entries.len();
        let mut i: usize = 0;
        while i < n
            invariant
                0 <= i <= n,
                n == self@.len(),
                forall|j: int| 0 <= j < i ==> self@[j].0 != id,
            decreases n - i,
        {
            let e = self.entries[i];
            if e.0 == id {
                proof {
                    lemma_find_at(self@, id, i as int);
                }
                return Some(e.1);
            }
            i += 1;
        }
        proof {
            lemma_find_none(self@, id);
        }
        None
    }

    pub fn contains_key(&self, id: ShaderId) -> (r: bool)
        ensures
            r == has_key(self@, id),
    {
        self.get(id).is_some()
    }

    /// Stores the bind group for `id`, replacing any earlier entry.
    pub fn upsert_shader(&mut self, id: ShaderId, bg: BindGroupId)
        requires
            old(self).wf(),
        ensures
            final(self).wf(),
            final(self)@ == upsert(old(self)@, id, bg),
    {
        let n = self.entries.len();
        let mut kept: Vec<(ShaderId, BindGroupId)> = Vec::new();
        let mut i: usize = 0;
        while i < n
            invariant
                0 <= i <= n,
                n == self@.len(),
                kept@ == evict(self@.take(i as int), seq![id]),
            decreases n - i,
        {
            let e = self.entries[i];
            proof {
                assert(self@.take(i + 1).drop_last() =~= self@.take(i as int));
                assert(self@.take(i + 1).last() == self@[i as int]);
                assert(seq![id].contains(e.0) == (e.0 == id)) by {
                    assert(seq![id][0] == id);
                    if seq![id].contains(e.0) {
                        let j = choose|j: int| 0 <= j < 1 && seq![id][j] == e.0;
                        assert(j == 0);
                    }
                }
            }
            if e.0 != id {
                kept.push(e);
            }
            i += 1;
        }
        proof {
            assert(self@.take(n as int) =~= self@);
            lemma_upsert_distinct(self@, id, bg);
        }
        kept.push((id, bg));
        self.entries = kept;
    }

    /// Evicts the entries of every asset reported removed.
    pub fn remove_ids(&mut self, removed: &Vec<ShaderId>)
        requires
            old(self).wf(),
        ensures
            final(self).wf(),
            final(self)@ == evict(old(self)@, removed@),
    {
        let n = self.entries.len();
        let mut kept: Vec<(ShaderId, BindGroupId)> = Vec::new();
        let mut i: usize = 0;
        while i < n
            invariant
                0 <= i <= n,
                n == self@.len(),
                kept@ == evict(self@.take(i as int), removed@),
            decreases n - i,
        {
            let e = self.entries[i];
            proof {
                assert(self@.take(i + 1).drop_last() =~= self@.take(i as int));
                assert(self@.take(i + 1).last() == self@[i as int]);
            }
            if !contains_id(removed, e.0) {
                kept.push(e);
            }
            i += 1;
        }
        proof {
            assert(self@.take(n as int) =~= self@);
            lemma_evict_distinct(self@, removed@);
        }
        self.entries = kept;
    }
}

/// The retry FIFO: shader assets whose binding failed transiently, carried
/// to the next frame in the order the failures happened.
pub struct RetryQueue<S> {
    items: Vec<(ShaderId, S)>,
}

impl<S> View for RetryQueue<S> {
    type V = Seq<(ShaderId, S)>;

    closed spec fn view(&self) -> Seq<(ShaderId, S)> {
        self.items@
    }
}

impl<S> RetryQueue<S> {
    pub fn new() -> (q: RetryQueue<S>)
        ensures
            q@ == Seq::<(ShaderId, S)>::empty(),
    {
        RetryQueue { items: Vec::new() }
    }

    pub fn len(&self) -> (n: usize)
        ensures
            n == self@.len(),
    {
        self.items.len()
    }

    /// The asset identity at position `i` of the queue.
    pub fn id_at(&self, i: usize) -> (id: ShaderId)
        requires
            i < self@.len(),
        ensures
            id == self@[i as int].0,
    {
        self.items[i].0
    }

    /// The queued snapshot value at position `i`, for re-attempting the
    /// bind.
    pub fn value_at(&self, i: usize) -> (v: &S)
        requires
            i < self@.len(),
        ensures
            *v == self@[i as int].1,
    {
        &self.items[i].1
    }

    /// Appends a failed asset at the back of the queue.
    pub fn push(&mut self, id: ShaderId, value: S)
        ensures
            final(self)@ == old(self)@.push((id, value)),
    {
        self.items.push((id, value));
    }
}

fn contains_id(v: &Vec<ShaderId>, id: ShaderId) -> (r: bool)
    ensures
        r == v@.contains(id),
{
    let n = v.len();
    let mut i: usize = 0;
    while i < n
        invariant
            0 <= i <= n,
            n == v@.len(),
            forall|k: int| 0 <= k < i ==> v@[k] != id,
        decreases n - i,
    {
        if v[i] == id {
            return true;
        }
        i += 1;
    }
    false
}

/// How one binding attempt changes the cache and the next frame's queue:
/// success stores the bind group, a transient failure re-queues the asset
/// at the back, a permanent failure drops it.
pub open spec fn apply_attempt<S>(
    cache: Seq<(ShaderId, BindGroupId)>,
    newq: Seq<(ShaderId, S)>,
    item: (ShaderId, S),
    outcome: BindOutcome,
) -> (Seq<(ShaderId, BindGroupId)>, Seq<(ShaderId, S)>) {
    match outcome {
        BindOutcome::Bound(bg) => (upsert(cache, item.0, bg), newq),
        BindOutcome::TransientFailure => (cache, newq.push(item)),
        BindOutcome::PermanentFailure => (cache, newq),
    }
}

/// Binding attempts applied in order, item `i` taking outcome `i`.
pub open spec fn apply_attempts<S>(
    cache: Seq<(ShaderId, BindGroupId)>,
    newq: Seq<(ShaderId, S)>,
    items: Seq<(ShaderId, S)>,
    outcomes: Seq<BindOutcome>,
) -> (Seq<(ShaderId, BindGroupId)>, Seq<(ShaderId, S)>)
    decreases items.len(),
{
    if items.len() == 0 {
        (cache, newq)
    } else {
        let p = apply_attempts(cache, newq, items.drop_last(), outcomes.drop_last());
        apply_attempt(p.0, p.1, items.last(), outcomes.last())
    }
}

/// The whole shader pass: retry last frame's queue in FIFO order, evict
/// the assets reported removed, then attempt every newly changed asset.
/// Outcome `i` belongs to attempt `i`, queue attempts first.
pub open spec fn shader_pass<S>(
    cache: Seq<(ShaderId, BindGroupId)>,
    queued: Seq<(ShaderId, S)>,
    removed: Seq<ShaderId>,
    extracted: Seq<(ShaderId, S)>,
    outcomes: Seq<BindOutcome>,
) -> (Seq<(ShaderId, BindGroupId)>, Seq<(ShaderId, S)>) {
    let p1 = apply_attempts(cache, Seq::empty(), queued, outcomes.take(queued.len() as int));
    let c2 = evict(p1.0, removed);
    apply_attempts(c2, p1.1, extracted, outcomes.skip(queued.len() as int))
}

/// The per-frame shader pass over the cache.
///
/// `queued` is last frame's retry FIFO, `removed` and `extracted` are this
/// frame's extraction artifacts, and `outcomes` reports what the host's
/// bind-group construction came to for each attempted asset: first one
/// outcome per queued asset in queue order, then one per extracted asset
/// in extraction order. Returns the retry queue for the next frame.
pub fn prepare_shaders<S>(
    cache: &mut PreparedShaders,
    queued: RetryQueue<S>,
    removed: &Vec<ShaderId>,
    extracted: Vec<(ShaderId, S)>,
    outcomes: &Vec<BindOutcome>,
) -> (newq: RetryQueue<S>)
    requires
        old(cache).wf(),
        outcomes@.len() == queued@.len() + extracted@.len(),
    ensures
        final(cache).wf(),
        ({
            let p = shader_pass(old(cache)@, queued@, removed@, extracted@, outcomes@);
            final(cache)@ == p.0 && newq@ == p.1
        }),
{
    let ghost c0 = cache@;
    let ghost q0 = queued@;
    let ghost ex0 = extracted@;
    let qlen = queued.len();
    let olen = outcomes.len();
    let mut newq: RetryQueue<S> = RetryQueue::new();
    let mut rest = queued.items;
    let mut done: usize = 0;
    while !rest.is_empty()
        invariant
            cache.wf(),
            done == q0.len() - rest@.len(),
            rest@ == q0.skip(done as int),
            ({
                let p = apply_attempts(
                    c0,
                    Seq::<(ShaderId, S)>::empty(),
                    q0.take(done as int),
                    outcomes@.take(done as int),
                );
                cache@ == p.0 && newq@ == p.1
            }),
            outcomes@.len() == q0.len() + ex0.len(),
            qlen == q0.len(),
            olen == outcomes@.len(),
        decreases rest@.len(),
    {
        proof {
            assert(q0.skip(done as int)[0] == q0[done as int]);
            assert(q0.take(done + 1).drop_last() =~= q0.take(done as int));
            assert(q0.take(done + 1).last() == q0[done as int]);
            assert(outcomes@.take(done + 1).drop_last() =~= outcomes@.take(done as int));
            assert(outcomes@.take(done + 1).last() == outcomes@[done as int]);
            assert(rest@.remove(0) =~= q0.skip(done + 1));
        }
        let item = rest.remove(0);
        let outcome = outcomes[done];
        match outcome {
            BindOutcome::Bound(bg) => {
                cache.upsert_shader(item.0, bg);
            },
            BindOutcome::TransientFailure => {
                newq.push(item.0, item.1);
            },
            BindOutcome::PermanentFailure => {},
        }
        done += 1;
    }
    proof {
        assert(q0.take(done as int) =~= q0);
        assert(outcomes@.take(done as int) =~= outcomes@.take(q0.len() as int));
    }
    cache.remove_ids(removed);
    let ghost c2 = cache@;
    let ghost q1 = newq@;
    let mut rest2 = extracted;
    let mut j: usize = 0;
    while !rest2.is_empty()
        invariant
            cache.wf(),
            j == ex0.len() - rest2@.len(),
            rest2@ == ex0.skip(j as int),
            qlen == q0.len(),
            ({
                let p = apply_attempts(
                    c2,
                    q1,
                    ex0.take(j as int),
                    outcomes@.skip(q0.len() as int).take(j as int),
                );
                cache@ == p.0 && newq@ == p.1
            }),
            outcomes@.len() == q0.len() + ex0.len(),
            olen == outcomes@.len(),
        decreases rest2@.len(),
    {
        proof {
            assert(ex0.skip(j as int)[0] == ex0[j as int]);
            assert(ex0.take(j + 1).drop_last() =~= ex0.take(j as int));
            assert(ex0.take(j + 1).last() == ex0[j as int]);
            let rem = outcomes@.skip(q0.len() as int);
            assert(rem.take(j + 1).drop_last() =~= rem.take(j as int));
            assert(rem.take(j + 1).last() == rem[j as int]);
            assert(rem[j as int] == outcomes@[q0.len() + j]);
            assert(rest2@.remove(0) =~= ex0.skip(j + 1));
        }
        let item = rest2.remove(0);
        let outcome = outcomes[qlen + j];
        match outcome {
            BindOutcome::Bound(bg) => {
                cache.upsert_shader(item.0, bg);
            },
            BindOutcome::TransientFailure => {
                newq.push(item.0, item.1);
            },
            BindOutcome::PermanentFailure => {},
        }
        j += 1;
    }
    proof {
        assert(ex0.take(j as int) =~= ex0);
        assert(outcomes@.skip(q0.len() as int).take(j as int) =~= outcomes@.skip(q0.len() as int));
    }
    newq
}

} // verus!
