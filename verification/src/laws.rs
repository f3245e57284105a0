//! The pipeline's laws: what holds of the preparation passes and the
//! dispatch queue across a frame, proved from the stage specifications.

use vstd::prelude::*;

use crate::assoc::{
    assoc_find, evict, has_key, lemma_contains_push, lemma_evict_find, lemma_retain_find,
    lemma_upsert_find,
};
use crate::ids::{BindGroupId, EntityId, ShaderId, TargetId};
use crate::image_cache::{image_pass, upsert_missing, PreparedImage};
use crate::queue::{join_spec, lemma_join_no_image};
use crate::shader_cache::{apply_attempts, shader_pass, BindOutcome};

verus! {

proof fn lemma_upsert_missing_preserves(
    s: Seq<(TargetId, PreparedImage)>,
    live: Seq<TargetId>,
    gpu: Seq<(TargetId, PreparedImage)>,
    t: TargetId,
)
    requires
        has_key(s, t),
    ensures
        assoc_find(upsert_missing(s, live, gpu), t) == assoc_find(s, t),
    decreases live.len(),
{
    if live.len() > 0 {
        lemma_upsert_missing_preserves(s, live.drop_last(), gpu, t);
        let r = upsert_missing(s, live.drop_last(), gpu);
        let tl = live.last();
        if !has_key(r, tl) {
            match assoc_find(gpu, tl) {
                Some(img) => {
                    assert(tl != t);
                    lemma_find_push_wrap(r, (tl, img), t);
                },
                None => {},
            }
        }
    }
}

proof fn lemma_find_push_wrap(
    s: Seq<(TargetId, PreparedImage)>,
    p: (TargetId, PreparedImage),
    t: TargetId,
)
    requires
        p.0 != t,
    ensures
        assoc_find(s.push(p), t) == assoc_find(s, t),
{
    crate::assoc::lemma_find_push(s, p, t);
}

proof fn lemma_upsert_missing_no_new(
    s: Seq<(TargetId, PreparedImage)>,
    live: Seq<TargetId>,
    gpu: Seq<(TargetId, PreparedImage)>,
    t: TargetId,
)
    requires
        !has_key(s, t),
        !live.contains(t) || !has_key(gpu, t),
    ensures
        !has_key(upsert_missing(s, live, gpu), t),
    decreases live.len(),
{
    if live.len() > 0 {
        assert(!live.drop_last().contains(t) || !has_key(gpu, t)) by {
            if live.drop_last().contains(t) {
                let i = choose|i: int|
                    0 <= i < live.drop_last().len() && live.drop_last()[i] == t;
                assert(live[i] == t);
                assert(live.contains(t));
            }
        }
        lemma_upsert_missing_no_new(s, live.drop_last(), gpu, t);
        let r = upsert_missing(s, live.drop_last(), gpu);
        let tl = live.last();
        if !has_key(r, tl) {
            match assoc_find(gpu, tl) {
                Some(img) => {
                    assert(tl != t) by {
                        assert(live[live.len() - 1] == tl);
                        assert(live.contains(tl));
                    }
                    lemma_find_push_wrap(r, (tl, img), t);
                },
                None => {},
            }
        }
    }
}

/// No implicit registration: a target that has no entry and is not
/// attached to any live entity gains no entry from the texture pass,
/// whatever was invalidated and whatever the GPU resolves.
pub proof fn lemma_no_implicit_registration(
    s: Seq<(TargetId, PreparedImage)>,
    invalid: Seq<TargetId>,
    live: Seq<TargetId>,
    gpu: Seq<(TargetId, PreparedImage)>,
    t: TargetId,
)
    requires
        !has_key(s, t),
        !live.contains(t),
    ensures
        !has_key(image_pass(s, invalid, live, gpu), t),
{
    lemma_evict_find(s, invalid, t);
    lemma_upsert_missing_no_new(evict(s, invalid), live, gpu, t);
    lemma_retain_find(upsert_missing(evict(s, invalid), live, gpu), live, t);
}

/// The texture cache after a run of frames, each frame giving its
/// invalidated targets, its live targets, and the table of targets whose
/// GPU image resolved.
pub open spec fn run_image_frames(
    cache: Seq<(TargetId, PreparedImage)>,
    frames: Seq<(Seq<TargetId>, Seq<TargetId>, Seq<(TargetId, PreparedImage)>)>,
) -> Seq<(TargetId, PreparedImage)>
    decreases frames.len(),
{
    if frames.len() == 0 {
        cache
    } else {
        image_pass(
            run_image_frames(cache, frames.drop_last()),
            frames.last().0,
            frames.last().1,
            frames.last().2,
        )
    }
}

/// No implicit registration, across frames: a target with no entry that
/// no frame ever lists as live never gains an entry, whatever is
/// invalidated and whatever the GPU resolves.
pub proof fn lemma_no_implicit_registration_frames(
    cache: Seq<(TargetId, PreparedImage)>,
    frames: Seq<(Seq<TargetId>, Seq<TargetId>, Seq<(TargetId, PreparedImage)>)>,
    t: TargetId,
)
    requires
        !has_key(cache, t),
        forall|f: int| 0 <= f < frames.len() ==> !(#[trigger] frames[f]).1.contains(t),
    ensures
        !has_key(run_image_frames(cache, frames), t),
    decreases frames.len(),
{
    if frames.len() > 0 {
        assert(forall|f: int|
            0 <= f < frames.drop_last().len() ==> (#[trigger] frames.drop_last()[f]) == frames[f]);
        lemma_no_implicit_registration_frames(cache, frames.drop_last(), t);
        assert(frames[frames.len() - 1] == frames.last());
        lemma_no_implicit_registration(
            run_image_frames(cache, frames.drop_last()),
            frames.last().0,
            frames.last().1,
            frames.last().2,
            t,
        );
    }
}

/// Idempotence of texture preparation: a prepared, still-live target whose
/// image was not invalidated keeps its entry unchanged through the pass —
/// the bind group is reused, not rebuilt, whatever the GPU table offers.
pub proof fn lemma_prepared_image_reused(
    s: Seq<(TargetId, PreparedImage)>,
    invalid: Seq<TargetId>,
    live: Seq<TargetId>,
    gpu: Seq<(TargetId, PreparedImage)>,
    t: TargetId,
)
    requires
        has_key(s, t),
        !invalid.contains(t),
        live.contains(t),
    ensures
        assoc_find(image_pass(s, invalid, live, gpu), t) == assoc_find(s, t),
{
    lemma_evict_find(s, invalid, t);
    lemma_upsert_missing_preserves(evict(s, invalid), live, gpu, t);
    lemma_retain_find(upsert_missing(evict(s, invalid), live, gpu), live, t);
}

/// Invalidation completeness: a target whose image was invalidated and no
/// longer resolves has no entry after the texture pass.
pub proof fn lemma_invalidation_complete(
    s: Seq<(TargetId, PreparedImage)>,
    invalid: Seq<TargetId>,
    live: Seq<TargetId>,
    gpu: Seq<(TargetId, PreparedImage)>,
    t: TargetId,
)
    requires
        invalid.contains(t),
        !has_key(gpu, t),
    ensures
        !has_key(image_pass(s, invalid, live, gpu), t),
{
    lemma_evict_find(s, invalid, t);
    lemma_upsert_missing_no_new(evict(s, invalid), live, gpu, t);
    lemma_retain_find(upsert_missing(evict(s, invalid), live, gpu), live, t);
}

/// Invalidation completeness, carried to the queue: a target whose image
/// was invalidated and no longer resolves contributes no entry to a queue
/// built over the texture pass's result.
pub proof fn lemma_invalidated_not_dispatched(
    s: Seq<(TargetId, PreparedImage)>,
    invalid: Seq<TargetId>,
    live: Seq<TargetId>,
    gpu: Seq<(TargetId, PreparedImage)>,
    triples: Seq<(EntityId, TargetId, ShaderId)>,
    shaders: Seq<(ShaderId, BindGroupId)>,
    t: TargetId,
)
    requires
        invalid.contains(t),
        !has_key(gpu, t),
    ensures
        forall|i: int|
            0 <= i < join_spec(triples, image_pass(s, invalid, live, gpu), shaders).len()
                ==> #[trigger] join_spec(triples, image_pass(s, invalid, live, gpu), shaders)[i].0
                != t,
{
    lemma_invalidation_complete(s, invalid, live, gpu, t);
    lemma_join_no_image(triples, image_pass(s, invalid, live, gpu), shaders, t);
}

proof fn lemma_attempts_cache_other<S>(
    c: Seq<(ShaderId, BindGroupId)>,
    q: Seq<(ShaderId, S)>,
    items: Seq<(ShaderId, S)>,
    outs: Seq<BindOutcome>,
    id: ShaderId,
)
    requires
        forall|i: int| 0 <= i < items.len() ==> (#[trigger] items[i]).0 != id,
    ensures
        assoc_find(apply_attempts(c, q, items, outs).0, id) == assoc_find(c, id),
    decreases items.len(),
{
    if items.len() > 0 {
        assert(forall|i: int|
            0 <= i < items.drop_last().len() ==> (#[trigger] items.drop_last()[i]) == items[i]);
        lemma_attempts_cache_other(c, q, items.drop_last(), outs.drop_last(), id);
        let p = apply_attempts(c, q, items.drop_last(), outs.drop_last());
        match outs.last() {
            BindOutcome::Bound(bg) => {
                assert(items[items.len() - 1] == items.last());
                lemma_upsert_find(p.0, items.last().0, bg, id);
            },
            _ => {},
        }
    }
}

proof fn lemma_attempts_no_bound<S>(
    c: Seq<(ShaderId, BindGroupId)>,
    q: Seq<(ShaderId, S)>,
    items: Seq<(ShaderId, S)>,
    outs: Seq<BindOutcome>,
    id: ShaderId,
)
    requires
        outs.len() == items.len(),
        !has_key(c, id),
        forall|i: int|
            0 <= i < items.len() && (#[trigger] items[i]).0 == id ==> !(outs[i] is Bound),
    ensures
        !has_key(apply_attempts(c, q, items, outs).0, id),
    decreases items.len(),
{
    if items.len() > 0 {
        assert(forall|i: int|
            0 <= i < items.drop_last().len() ==> (#[trigger] items.drop_last()[i]) == items[i]
                && outs.drop_last()[i] == outs[i]);
        lemma_attempts_no_bound(c, q, items.drop_last(), outs.drop_last(), id);
        let p = apply_attempts(c, q, items.drop_last(), outs.drop_last());
        assert(items[items.len() - 1] == items.last());
        assert(outs[items.len() - 1] == outs.last());
        match outs.last() {
            BindOutcome::Bound(bg) => {
                assert(items.last().0 != id);
                lemma_upsert_find(p.0, items.last().0, bg, id);
            },
            _ => {},
        }
    }
}

proof fn lemma_attempts_queue_no_id<S>(
    c: Seq<(ShaderId, BindGroupId)>,
    q: Seq<(ShaderId, S)>,
    items: Seq<(ShaderId, S)>,
    outs: Seq<BindOutcome>,
    id: ShaderId,
)
    requires
        outs.len() == items.len(),
        forall|i: int| 0 <= i < q.len() ==> (#[trigger] q[i]).0 != id,
        forall|i: int|
            0 <= i < items.len() && (#[trigger] items[i]).0 == id ==> !(outs[i]
                is TransientFailure),
    ensures
        forall|i: int|
            0 <= i < apply_attempts(c, q, items, outs).1.len() ==> (#[trigger] apply_attempts(
                c,
                q,
                items,
                outs,
            ).1[i]).0 != id,
    decreases items.len(),
{
    if items.len() > 0 {
        assert(forall|i: int|
            0 <= i < items.drop_last().len() ==> (#[trigger] items.drop_last()[i]) == items[i]
                && outs.drop_last()[i] == outs[i]);
        lemma_attempts_queue_no_id(c, q, items.drop_last(), outs.drop_last(), id);
        let p = apply_attempts(c, q, items.drop_last(), outs.drop_last());
        assert(items[items.len() - 1] == items.last());
        assert(outs[items.len() - 1] == outs.last());
        match outs.last() {
            BindOutcome::TransientFailure => {
                assert(items.last().0 != id);
                assert(forall|i: int|
                    0 <= i < p.1.len() ==> (#[trigger] p.1.push(items.last())[i]) == p.1[i]);
                assert(p.1.push(items.last())[p.1.len() as int] == items.last());
            },
            _ => {},
        }
    }
}

proof fn lemma_attempts_queue_monotone<S>(
    c: Seq<(ShaderId, BindGroupId)>,
    q: Seq<(ShaderId, S)>,
    items: Seq<(ShaderId, S)>,
    outs: Seq<BindOutcome>,
    x: (ShaderId, S),
)
    requires
        q.contains(x),
    ensures
        apply_attempts(c, q, items, outs).1.contains(x),
    decreases items.len(),
{
    if items.len() > 0 {
        lemma_attempts_queue_monotone(c, q, items.drop_last(), outs.drop_last(), x);
        let p = apply_attempts(c, q, items.drop_last(), outs.drop_last());
        match outs.last() {
            BindOutcome::TransientFailure => {
                lemma_contains_push(p.1, items.last(), x);
            },
            _ => {},
        }
    }
}

proof fn lemma_attempts_transient_queued<S>(
    c: Seq<(ShaderId, BindGroupId)>,
    q: Seq<(ShaderId, S)>,
    items: Seq<(ShaderId, S)>,
    outs: Seq<BindOutcome>,
    j: int,
)
    requires
        outs.len() == items.len(),
        0 <= j < items.len(),
        outs[j] is TransientFailure,
    ensures
        apply_attempts(c, q, items, outs).1.contains(items[j]),
    decreases items.len(),
{
    let p = apply_attempts(c, q, items.drop_last(), outs.drop_last());
    if j == items.len() - 1 {
        assert(outs.last() is TransientFailure);
        lemma_contains_push(p.1, items.last(), items[j]);
    } else {
        assert(items.drop_last()[j] == items[j]);
        assert(outs.drop_last()[j] == outs[j]);
        lemma_attempts_transient_queued(c, q, items.drop_last(), outs.drop_last(), j);
        match outs.last() {
            BindOutcome::TransientFailure => {
                lemma_contains_push(p.1, items.last(), items[j]);
            },
            _ => {},
        }
    }
}

proof fn lemma_attempts_last_bound<S>(
    c: Seq<(ShaderId, BindGroupId)>,
    q: Seq<(ShaderId, S)>,
    items: Seq<(ShaderId, S)>,
    outs: Seq<BindOutcome>,
    j: int,
    bg: BindGroupId,
)
    requires
        outs.len() == items.len(),
        0 <= j < items.len(),
        outs[j] == BindOutcome::Bound(bg),
        forall|k: int| j < k < items.len() ==> (#[trigger] items[k]).0 != items[j].0,
    ensures
        assoc_find(apply_attempts(c, q, items, outs).0, items[j].0) == Some(bg),
    decreases items.len(),
{
    let p = apply_attempts(c, q, items.drop_last(), outs.drop_last());
    if j == items.len() - 1 {
        assert(outs.last() == BindOutcome::Bound(bg));
        lemma_upsert_find(p.0, items.last().0, bg, items[j].0);
    } else {
        assert(forall|i: int|
            0 <= i < items.drop_last().len() ==> (#[trigger] items.drop_last()[i]) == items[i]
                && outs.drop_last()[i] == outs[i]);
        lemma_attempts_last_bound(c, q, items.drop_last(), outs.drop_last(), j, bg);
        assert(items[items.len() - 1] == items.last());
        match outs.last() {
            BindOutcome::Bound(bg2) => {
                assert(items.last().0 != items[j].0);
                lemma_upsert_find(p.0, items.last().0, bg2, items[j].0);
            },
            _ => {},
        }
    }
}

/// Retry liveness, the queueing half: a queued asset whose attempt fails
/// transiently this frame is in the next frame's retry queue, so it is
/// attempted again.
pub proof fn lemma_transient_requeued<S>(
    cache: Seq<(ShaderId, BindGroupId)>,
    queued: Seq<(ShaderId, S)>,
    removed: Seq<ShaderId>,
    extracted: Seq<(ShaderId, S)>,
    outcomes: Seq<BindOutcome>,
    j: int,
)
    requires
        outcomes.len() == queued.len() + extracted.len(),
        0 <= j < queued.len(),
        outcomes[j] is TransientFailure,
    ensures
        shader_pass(cache, queued, removed, extracted, outcomes).1.contains(queued[j]),
{
    let o1 = outcomes.take(queued.len() as int);
    assert(o1[j] == outcomes[j]);
    lemma_attempts_transient_queued(cache, Seq::<(ShaderId, S)>::empty(), queued, o1, j);
    let p1 = apply_attempts(cache, Seq::<(ShaderId, S)>::empty(), queued, o1);
    lemma_attempts_queue_monotone(
        evict(p1.0, removed),
        p1.1,
        extracted,
        outcomes.skip(queued.len() as int),
        queued[j],
    );
}

/// Retry liveness, the resolution half: when a queued asset's attempt
/// succeeds this frame, it sits in the queue once, it is not reported
/// removed, and no extracted attempt concerns it, then the asset is among
/// the prepared shader entries with exactly the bind group the attempt
/// returned, and it is out of the next frame's retry queue. (An asset
/// removed in the same frame is evicted after the queue phase, so the
/// removal hypothesis cannot be dropped.)
pub proof fn lemma_retry_resolved_prepared<S>(
    cache: Seq<(ShaderId, BindGroupId)>,
    queued: Seq<(ShaderId, S)>,
    removed: Seq<ShaderId>,
    extracted: Seq<(ShaderId, S)>,
    outcomes: Seq<BindOutcome>,
    j: int,
    bg: BindGroupId,
)
    requires
        outcomes.len() == queued.len() + extracted.len(),
        0 <= j < queued.len(),
        outcomes[j] == BindOutcome::Bound(bg),
        forall|k: int|
            0 <= k < queued.len() && (#[trigger] queued[k]).0 == queued[j].0 ==> k == j,
        !removed.contains(queued[j].0),
        forall|k: int| 0 <= k < extracted.len() ==> (#[trigger] extracted[k]).0 != queued[j].0,
    ensures
        assoc_find(shader_pass(cache, queued, removed, extracted, outcomes).0, queued[j].0)
            == Some(bg),
        forall|i: int|
            0 <= i < shader_pass(cache, queued, removed, extracted, outcomes).1.len()
                ==> (#[trigger] shader_pass(cache, queued, removed, extracted, outcomes).1[i]).0
                != queued[j].0,
{
    let id = queued[j].0;
    let o1 = outcomes.take(queued.len() as int);
    assert(o1[j] == outcomes[j]);
    assert(forall|k: int| 0 <= k < queued.len() ==> o1[k] == outcomes[k]);
    lemma_attempts_last_bound(cache, Seq::<(ShaderId, S)>::empty(), queued, o1, j, bg);
    lemma_attempts_queue_no_id(cache, Seq::<(ShaderId, S)>::empty(), queued, o1, id);
    let p1 = apply_attempts(cache, Seq::<(ShaderId, S)>::empty(), queued, o1);
    lemma_evict_find(p1.0, removed, id);
    let o2 = outcomes.skip(queued.len() as int);
    lemma_attempts_cache_other(evict(p1.0, removed), p1.1, extracted, o2, id);
    lemma_attempts_queue_no_id(evict(p1.0, removed), p1.1, extracted, o2, id);
}

/// Not before: an asset with no prepared entry stays without one through
/// any frame in which no attempt for it returns a bind group.
pub proof fn lemma_no_bind_no_entry<S>(
    cache: Seq<(ShaderId, BindGroupId)>,
    queued: Seq<(ShaderId, S)>,
    removed: Seq<ShaderId>,
    extracted: Seq<(ShaderId, S)>,
    outcomes: Seq<BindOutcome>,
    id: ShaderId,
)
    requires
        outcomes.len() == queued.len() + extracted.len(),
        !has_key(cache, id),
        forall|k: int|
            0 <= k < queued.len() && (#[trigger] queued[k]).0 == id ==> !(outcomes[k] is Bound),
        forall|k: int|
            0 <= k < extracted.len() && (#[trigger] extracted[k]).0 == id ==> !(outcomes[queued.len()
                + k] is Bound),
    ensures
        !has_key(shader_pass(cache, queued, removed, extracted, outcomes).0, id),
{
    let o1 = outcomes.take(queued.len() as int);
    assert(forall|k: int| 0 <= k < queued.len() ==> o1[k] == outcomes[k]);
    lemma_attempts_no_bound(cache, Seq::<(ShaderId, S)>::empty(), queued, o1, id);
    let p1 = apply_attempts(cache, Seq::<(ShaderId, S)>::empty(), queued, o1);
    lemma_evict_find(p1.0, removed, id);
    let o2 = outcomes.skip(queued.len() as int);
    assert(forall|k: int| 0 <= k < extracted.len() ==> o2[k] == outcomes[queued.len() + k]);
    lemma_attempts_no_bound(evict(p1.0, removed), p1.1, extracted, o2, id);
}

/// Permanent-failure containment: an asset with no prepared entry whose
/// every attempt this frame fails permanently ends the frame with no
/// prepared entry and out of the retry queue — so without a fresh change
/// event it is never attempted, nor prepared, again.
pub proof fn lemma_permanent_containment<S>(
    cache: Seq<(ShaderId, BindGroupId)>,
    queued: Seq<(ShaderId, S)>,
    removed: Seq<ShaderId>,
    extracted: Seq<(ShaderId, S)>,
    outcomes: Seq<BindOutcome>,
    id: ShaderId,
)
    requires
        outcomes.len() == queued.len() + extracted.len(),
        !has_key(cache, id),
        forall|k: int|
            0 <= k < queued.len() && (#[trigger] queued[k]).0 == id ==> outcomes[k]
                is PermanentFailure,
        forall|k: int|
            0 <= k < extracted.len() && (#[trigger] extracted[k]).0 == id ==> outcomes[queued.len()
                + k] is PermanentFailure,
    ensures
        !has_key(shader_pass(cache, queued, removed, extracted, outcomes).0, id),
        forall|i: int|
            0 <= i < shader_pass(cache, queued, removed, extracted, outcomes).1.len()
                ==> (#[trigger] shader_pass(cache, queued, removed, extracted, outcomes).1[i]).0
                != id,
{
    lemma_no_bind_no_entry(cache, queued, removed, extracted, outcomes, id);
    let o1 = outcomes.take(queued.len() as int);
    assert(forall|k: int| 0 <= k < queued.len() ==> o1[k] == outcomes[k]);
    lemma_attempts_queue_no_id(cache, Seq::<(ShaderId, S)>::empty(), queued, o1, id);
    let p1 = apply_attempts(cache, Seq::<(ShaderId, S)>::empty(), queued, o1);
    let o2 = outcomes.skip(queued.len() as int);
    assert(forall|k: int| 0 <= k < extracted.len() ==> o2[k] == outcomes[queued.len() + k]);
    lemma_attempts_queue_no_id(evict(p1.0, removed), p1.1, extracted, o2, id);
}

/// One render-side frame of shader-pass inputs: the assets reported
/// removed, the changed assets extracted with their snapshots, and the
/// host's binding outcomes for that frame's attempts.
pub open spec fn run_shader_frames<S>(
    cache: Seq<(ShaderId, BindGroupId)>,
    queue: Seq<(ShaderId, S)>,
    frames: Seq<(Seq<ShaderId>, Seq<(ShaderId, S)>, Seq<BindOutcome>)>,
) -> (Seq<(ShaderId, BindGroupId)>, Seq<(ShaderId, S)>)
    decreases frames.len(),
{
    if frames.len() == 0 {
        (cache, queue)
    } else {
        let p = run_shader_frames(cache, queue, frames.drop_last());
        shader_pass(p.0, p.1, frames.last().0, frames.last().1, frames.last().2)
    }
}

/// Each frame reports exactly one outcome per attempt: one per asset in
/// that frame's retry queue, then one per extracted asset.
pub open spec fn shader_frames_aligned<S>(
    cache: Seq<(ShaderId, BindGroupId)>,
    queue: Seq<(ShaderId, S)>,
    frames: Seq<(Seq<ShaderId>, Seq<(ShaderId, S)>, Seq<BindOutcome>)>,
) -> bool
    decreases frames.len(),
{
    if frames.len() == 0 {
        true
    } else {
        let p = run_shader_frames(cache, queue, frames.drop_last());
        shader_frames_aligned(cache, queue, frames.drop_last()) && frames.last().2.len()
            == p.1.len() + frames.last().1.len()
    }
}

/// Containment across frames: an asset that has no prepared entry and is
/// not in the retry queue — as a permanently failed asset is after its
/// failing frame — is never prepared again, over any run of frames in
/// which no fresh change event extracts it.
pub proof fn lemma_containment_across_frames<S>(
    cache: Seq<(ShaderId, BindGroupId)>,
    queue: Seq<(ShaderId, S)>,
    frames: Seq<(Seq<ShaderId>, Seq<(ShaderId, S)>, Seq<BindOutcome>)>,
    id: ShaderId,
)
    requires
        shader_frames_aligned(cache, queue, frames),
        !has_key(cache, id),
        forall|i: int| 0 <= i < queue.len() ==> (#[trigger] queue[i]).0 != id,
        forall|f: int, k: int|
            0 <= f < frames.len() && 0 <= k < frames[f].1.len() ==> (#[trigger] frames[f].1[k]).0
                != id,
    ensures
        !has_key(run_shader_frames(cache, queue, frames).0, id),
        forall|i: int|
            0 <= i < run_shader_frames(cache, queue, frames).1.len() ==> (#[trigger] run_shader_frames(
                cache,
                queue,
                frames,
            ).1[i]).0 != id,
    decreases frames.len(),
{
    if frames.len() == 0 {
    } else {
        assert(forall|f: int, k: int|
            0 <= f < frames.drop_last().len() && 0 <= k < frames.drop_last()[f].1.len()
                ==> (#[trigger] frames.drop_last()[f].1[k]).0 != id) by {
            assert(forall|f: int|
                0 <= f < frames.drop_last().len() ==> frames.drop_last()[f] == frames[f]);
        }
        lemma_containment_across_frames(cache, queue, frames.drop_last(), id);
        let p = run_shader_frames(cache, queue, frames.drop_last());
        let removed = frames.last().0;
        let extracted = frames.last().1;
        let outcomes = frames.last().2;
        assert(frames[frames.len() - 1] == frames.last());
        let o1 = outcomes.take(p.1.len() as int);
        lemma_attempts_no_bound(p.0, Seq::<(ShaderId, S)>::empty(), p.1, o1, id);
        lemma_attempts_queue_no_id(p.0, Seq::<(ShaderId, S)>::empty(), p.1, o1, id);
        let p1 = apply_attempts(p.0, Seq::<(ShaderId, S)>::empty(), p.1, o1);
        lemma_evict_find(p1.0, removed, id);
        let o2 = outcomes.skip(p.1.len() as int);
        lemma_attempts_no_bound(evict(p1.0, removed), p1.1, extracted, o2, id);
        lemma_attempts_queue_no_id(evict(p1.0, removed), p1.1, extracted, o2, id);
    }
}

/// Idempotence of shader preparation: an asset that is neither queued for
/// retry, nor changed, nor removed this frame keeps its prepared entry
/// unchanged — its bind group is reused, never rebuilt.
pub proof fn lemma_prepared_shader_reused<S>(
    cache: Seq<(ShaderId, BindGroupId)>,
    queued: Seq<(ShaderId, S)>,
    removed: Seq<ShaderId>,
    extracted: Seq<(ShaderId, S)>,
    outcomes: Seq<BindOutcome>,
    id: ShaderId,
)
    requires
        forall|k: int| 0 <= k < queued.len() ==> (#[trigger] queued[k]).0 != id,
        forall|k: int| 0 <= k < extracted.len() ==> (#[trigger] extracted[k]).0 != id,
        !removed.contains(id),
    ensures
        assoc_find(shader_pass(cache, queued, removed, extracted, outcomes).0, id) == assoc_find(
            cache,
            id,
        ),
{
    let o1 = outcomes.take(queued.len() as int);
    lemma_attempts_cache_other(cache, Seq::<(ShaderId, S)>::empty(), queued, o1, id);
    let p1 = apply_attempts(cache, Seq::<(ShaderId, S)>::empty(), queued, o1);
    lemma_evict_find(p1.0, removed, id);
    lemma_attempts_cache_other(
        evict(p1.0, removed),
        p1.1,
        extracted,
        outcomes.skip(queued.len() as int),
        id,
    );
}

} // verus!
