//! The per-frame dispatch queue: the join of prepared texture entries and
//! prepared shader entries over the extracted attachment triples.
//!
//! The queue is derived and throwaway — rebuilt from scratch every frame,
//! never persisted. An entity contributes one entry exactly when both its
//! target and its shader asset are prepared; the entry's workgroup extents
//! come from the user-supplied workgroup function applied to the target
//! size recorded at preparation time.

use vstd::prelude::*;

use crate::assoc::assoc_find;
use crate::ids::{BindGroupId, EntityId, Extent, ShaderId, TargetId};
use crate::image_cache::{PreparedImage, PreparedImages};
use crate::shader_cache::PreparedShaders;

verus! {

/// One dispatch unit: both bind groups, the target size they were joined
/// at, and the workgroup extents computed from that size.
#[derive(PartialEq, Eq, Structural, Clone, Copy, Debug)]
pub struct QueueEntry {
    pub target: TargetId,
    pub shader: ShaderId,
    pub texture_bind_group: BindGroupId,
    pub user_bind_group: BindGroupId,
    pub size: Extent,
    pub workgroups: Extent,
}

/// The join underlying the queue: for each triple in order, the pair of
/// prepared entries if both exist — target, shader, texture bind group,
/// user bind group, target size.
pub open spec fn join_spec(
    triples: Seq<(EntityId, TargetId, ShaderId)>,
    images: Seq<(TargetId, PreparedImage)>,
    shaders: Seq<(ShaderId, BindGroupId)>,
) -> Seq<(TargetId, ShaderId, BindGroupId, BindGroupId, Extent)>
    decreases triples.len(),
{
    if triples.len() == 0 {
        Seq::empty()
    } else {
        let r = join_spec(triples.drop_last(), images, shaders);
        let t = triples.last().1;
        let sh = triples.last().2;
        match (assoc_find(images, t), assoc_find(shaders, sh)) {
            (Some(img), Some(ubg)) => r.push((t, sh, img.bind_group, ubg, img.size)),
            _ => r,
        }
    }
}

/// Builds this frame's dispatch queue.
///
/// `workgroups` is the registered shader type's pure workgroup function;
/// every entry's extents satisfy its postcondition at the entry's size.
pub fn build_queue<F: Fn(Extent) -> Extent>(
    triples: &Vec<(EntityId, TargetId, ShaderId)>,
    images: &PreparedImages,
    shaders: &PreparedShaders,
    workgroups: F,
) -> (q: Vec<QueueEntry>)
    requires
        forall|e: Extent| #[trigger] call_requires(workgroups, (e,)),
    ensures
        ({
            let js = join_spec(triples@, images@, shaders@);
            &&& q@.len() == js.len()
            &&& forall|i: int|
                0 <= i < q@.len() ==> {
                    let en = #[trigger] q@[i];
                    en.target == js[i].0 && en.shader == js[i].1 && en.texture_bind_group
                        == js[i].2 && en.user_bind_group == js[i].3 && en.size == js[i].4
                        && call_ensures(workgroups, (js[i].4,), en.workgroups)
                }
        }),
{
    let mut q: Vec<QueueEntry> = Vec::new();
    let n = triples.len();
    let mut i: usize = 0;
    while i < n
        invariant
            0 <= i <= n,
            n == triples@.len(),
            forall|e: Extent| #[trigger] call_requires(workgroups, (e,)),
            ({
                let js = join_spec(triples@.take(i as int), images@, shaders@);
                &&& q@.len() == js.len()
                &&& forall|k: int|
                    0 <= k < q@.len() ==> {
                        let en = #[trigger] q@[k];
                        en.target == js[k].0 && en.shader == js[k].1 && en.texture_bind_group
                            == js[k].2 && en.user_bind_group == js[k].3 && en.size == js[k].4
                            && call_ensures(workgroups, (js[k].4,), en.workgroups)
                    }
            }),
        decreases n - i,
    {
        proof {
            assert(triples@.take(i + 1).drop_last() =~= triples@.take(i as int));
            assert(triples@.take(i + 1).last() == triples@[i as int]);
        }
        let triple = triples[i];
        match (images.get(triple.1), shaders.get(triple.2)) {
            (Some(img), Some(ubg)) => {
                let wg = workgroups(img.size);
                q.push(
                    QueueEntry {
                        target: triple.1,
                        shader: triple.2,
                        texture_bind_group: img.bind_group,
                        user_bind_group: ubg,
                        size: img.size,
                        workgroups: wg,
                    },
                );
            },
            _ => {},
        }
        i += 1;
    }
    proof {
        assert(triples@.take(n as int) =~= triples@);
    }
    q
}

/// A target without a prepared texture entry contributes nothing to the
/// queue, whatever the triples and shader entries say.
pub proof fn lemma_join_no_image(
    triples: Seq<(EntityId, TargetId, ShaderId)>,
    images: Seq<(TargetId, PreparedImage)>,
    shaders: Seq<(ShaderId, BindGroupId)>,
    t: TargetId,
)
    requires
        assoc_find(images, t) is None,
    ensures
        forall|i: int|
            0 <= i < join_spec(triples, images, shaders).len() ==> #[trigger] join_spec(
                triples,
                images,
                shaders,
            )[i].0 != t,
    decreases triples.len(),
{
    if triples.len() > 0 {
        lemma_join_no_image(triples.drop_last(), images, shaders, t);
        let r = join_spec(triples.drop_last(), images, shaders);
        let js = join_spec(triples, images, shaders);
        assert forall|i: int| 0 <= i < js.len() implies #[trigger] js[i].0 != t by {
            if i < r.len() {
                assert(js[i] == r[i]);
                assert(r[i].0 != t);
            } else {
                assert(js[i] == js.last());
                assert(assoc_find(images, js[i].0) is Some);
            }
        }
    }
}

/// A shader asset without a prepared entry contributes nothing to the
/// queue.
pub proof fn lemma_join_no_shader(
    triples: Seq<(EntityId, TargetId, ShaderId)>,
    images: Seq<(TargetId, PreparedImage)>,
    shaders: Seq<(ShaderId, BindGroupId)>,
    sh: ShaderId,
)
    requires
        assoc_find(shaders, sh) is None,
    ensures
        forall|i: int|
            0 <= i < join_spec(triples, images, shaders).len() ==> #[trigger] join_spec(
                triples,
                images,
                shaders,
            )[i].1 != sh,
    decreases triples.len(),
{
    if triples.len() > 0 {
        lemma_join_no_shader(triples.drop_last(), images, shaders, sh);
        let r = join_spec(triples.drop_last(), images, shaders);
        let js = join_spec(triples, images, shaders);
        assert forall|i: int| 0 <= i < js.len() implies #[trigger] js[i].1 != sh by {
            if i < r.len() {
                assert(js[i] == r[i]);
                assert(r[i].1 != sh);
            } else {
                assert(js[i] == js.last());
                assert(assoc_find(shaders, js[i].1) is Some);
            }
        }
    }
}

} // verus!
