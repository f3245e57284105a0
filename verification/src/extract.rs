//! The extraction stage: the once-per-frame copy of simulation-side state
//! into the artifacts the render-side stages work on.
//!
//! Three artifacts are produced. First, the set of render targets attached
//! to some live entity. Second, the deduplicated shader assets that changed
//! this frame, each with a snapshot of its current value, and the assets
//! removed this frame — an asset both changed and removed within one frame
//! is not extracted as changed, whatever the order of the two events:
//! removal wins. Third, the targets whose backing image changed or was
//! removed, filtered to targets in use.

use vstd::prelude::*;

use crate::assoc::{
    assoc_find, lemma_contains_push, lemma_find_at, lemma_find_none, lemma_remove_entry_find,
};
use crate::ids::{EntityId, ShaderId, TargetId, TargetSet};

verus! {

/// A change event for a shader asset instance, as the host asset system
/// reports it.
#[derive(PartialEq, Eq, Structural, Clone, Copy, Debug)]
pub enum ShaderEvent {
    Added(ShaderId),
    Modified(ShaderId),
    LoadedWithDependencies(ShaderId),
    Removed(ShaderId),
    Unused(ShaderId),
}

/// A change event for a target's backing image.
#[derive(PartialEq, Eq, Structural, Clone, Copy, Debug)]
pub enum ImageEvent {
    Added(TargetId),
    Modified(TargetId),
    Removed(TargetId),
    LoadedWithDependencies(TargetId),
}

/// The asset the event concerns.
pub open spec fn shader_event_id(e: ShaderEvent) -> ShaderId {
    match e {
        ShaderEvent::Added(id) => id,
        ShaderEvent::Modified(id) => id,
        ShaderEvent::LoadedWithDependencies(id) => id,
        ShaderEvent::Removed(id) => id,
        ShaderEvent::Unused(id) => id,
    }
}

/// Whether the event marks the asset as changed rather than gone.
pub open spec fn is_change(e: ShaderEvent) -> bool {
    match e {
        ShaderEvent::Added(_) => true,
        ShaderEvent::Modified(_) => true,
        ShaderEvent::LoadedWithDependencies(_) => true,
        ShaderEvent::Removed(_) => false,
        ShaderEvent::Unused(_) => false,
    }
}

/// The target the event concerns.
pub open spec fn image_event_id(e: ImageEvent) -> TargetId {
    match e {
        ImageEvent::Added(id) => id,
        ImageEvent::Modified(id) => id,
        ImageEvent::Removed(id) => id,
        ImageEvent::LoadedWithDependencies(id) => id,
    }
}

/// Whether some event in the frame removes `id`.
pub open spec fn has_removal(events: Seq<ShaderEvent>, id: ShaderId) -> bool {
    exists|i: int|
        0 <= i < events.len() && !is_change(#[trigger] events[i]) && shader_event_id(events[i])
            == id
}

/// The assets some change event marks, deduplicated, in first-change
/// order.
pub open spec fn change_marked(events: Seq<ShaderEvent>) -> Seq<ShaderId>
    decreases events.len(),
{
    if events.len() == 0 {
        Seq::empty()
    } else {
        let r = change_marked(events.drop_last());
        let e = events.last();
        if is_change(e) {
            if r.contains(shader_event_id(e)) {
                r
            } else {
                r.push(shader_event_id(e))
            }
        } else {
            r
        }
    }
}

/// `ids` without those the frame also removes; order is kept.
pub open spec fn keep_unremoved(ids: Seq<ShaderId>, events: Seq<ShaderEvent>) -> Seq<ShaderId>
    decreases ids.len(),
{
    if ids.len() == 0 {
        Seq::empty()
    } else {
        let r = keep_unremoved(ids.drop_last(), events);
        if has_removal(events, ids.last()) {
            r
        } else {
            r.push(ids.last())
        }
    }
}

/// The assets extracted as changed: those some change event marks and no
/// event in the same frame removes. Removal wins, whatever the order of
/// the frame's events.
pub open spec fn changed_ids(events: Seq<ShaderEvent>) -> Seq<ShaderId> {
    keep_unremoved(change_marked(events), events)
}

/// The assets reported removed, in event order, repeats kept.
pub open spec fn removed_ids(events: Seq<ShaderEvent>) -> Seq<ShaderId>
    decreases events.len(),
{
    if events.len() == 0 {
        Seq::empty()
    } else {
        let r = removed_ids(events.drop_last());
        let e = events.last();
        if is_change(e) {
            r
        } else {
            r.push(shader_event_id(e))
        }
    }
}

/// Each changed asset paired with its current value, in changed order;
/// an asset the store no longer holds is skipped.
pub open spec fn gather<S>(changed: Seq<ShaderId>, assets: Seq<(ShaderId, S)>) -> Seq<
    (ShaderId, S),
>
    decreases changed.len(),
{
    if changed.len() == 0 {
        Seq::empty()
    } else {
        let r = gather(changed.drop_last(), assets);
        match assoc_find(assets, changed.last()) {
            Some(v) => r.push((changed.last(), v)),
            None => r,
        }
    }
}

/// The distinct targets of the extracted triples, in first-seen order.
pub open spec fn seen_targets(triples: Seq<(EntityId, TargetId, ShaderId)>) -> Seq<TargetId>
    decreases triples.len(),
{
    if triples.len() == 0 {
        Seq::empty()
    } else {
        let r = seen_targets(triples.drop_last());
        let t = triples.last().1;
        if r.contains(t) {
            r
        } else {
            r.push(t)
        }
    }
}

/// The distinct targets among the image events that are in use, in event
/// order.
pub open spec fn invalidated_targets(events: Seq<ImageEvent>, in_use: Seq<TargetId>) -> Seq<
    TargetId,
>
    decreases events.len(),
{
    if events.len() == 0 {
        Seq::empty()
    } else {
        let r = invalidated_targets(events.drop_last(), in_use);
        let t = image_event_id(events.last());
        if in_use.contains(t) {
            if r.contains(t) {
                r
            } else {
                r.push(t)
            }
        } else {
            r
        }
    }
}

/// An asset is listed removed exactly when some event removes it.
pub proof fn lemma_removed_ids_has_removal(events: Seq<ShaderEvent>, id: ShaderId)
    ensures
        removed_ids(events).contains(id) == has_removal(events, id),
    decreases events.len(),
{
    if events.len() > 0 {
        lemma_removed_ids_has_removal(events.drop_last(), id);
        let r = removed_ids(events.drop_last());
        let e = events.last();
        assert(has_removal(events, id) == (has_removal(events.drop_last(), id) || (!is_change(e)
            && shader_event_id(e) == id))) by {
            if has_removal(events, id) {
                let i = choose|i: int|
                    0 <= i < events.len() && !is_change(#[trigger] events[i]) && shader_event_id(
                        events[i],
                    ) == id;
                if i < events.len() - 1 {
                    assert(events.drop_last()[i] == events[i]);
                }
            }
            if has_removal(events.drop_last(), id) {
                let i = choose|i: int|
                    0 <= i < events.drop_last().len() && !is_change(
                        #[trigger] events.drop_last()[i],
                    ) && shader_event_id(events.drop_last()[i]) == id;
                assert(events[i] == events.drop_last()[i]);
            }
        }
        if !is_change(e) {
            lemma_contains_push(r, shader_event_id(e), id);
        }
    }
}

proof fn lemma_nodup_push(s: Seq<ShaderId>, v: ShaderId)
    requires
        s.no_duplicates(),
        !s.contains(v),
    ensures
        s.push(v).no_duplicates(),
{
    assert forall|i: int, j: int|
        0 <= i < s.push(v).len() && 0 <= j < s.push(v).len() && i != j implies s.push(v)[i]
        != s.push(v)[j] by {
        if i < s.len() && j < s.len() {
            assert(s[i] != s[j]);
        } else if i < s.len() {
            assert(s.contains(s[i])) by {
                assert(s[i] == s[i]);
            }
        } else if j < s.len() {
            assert(s.contains(s[j])) by {
                assert(s[j] == s[j]);
            }
        }
    }
}

proof fn lemma_change_marked_nodup(events: Seq<ShaderEvent>)
    ensures
        change_marked(events).no_duplicates(),
    decreases events.len(),
{
    if events.len() > 0 {
        lemma_change_marked_nodup(events.drop_last());
        let r = change_marked(events.drop_last());
        let e = events.last();
        if is_change(e) && !r.contains(shader_event_id(e)) {
            lemma_nodup_push(r, shader_event_id(e));
        }
    }
}

proof fn lemma_keep_unremoved_contains(ids: Seq<ShaderId>, events: Seq<ShaderEvent>, x: ShaderId)
    ensures
        keep_unremoved(ids, events).contains(x) == (ids.contains(x) && !has_removal(events, x)),
    decreases ids.len(),
{
    if ids.len() > 0 {
        lemma_keep_unremoved_contains(ids.drop_last(), events, x);
        lemma_contains_push(ids.drop_last(), ids.last(), x);
        assert(ids =~= ids.drop_last().push(ids.last()));
        if !has_removal(events, ids.last()) {
            lemma_contains_push(keep_unremoved(ids.drop_last(), events), ids.last(), x);
        }
    }
}

proof fn lemma_keep_unremoved_nodup(ids: Seq<ShaderId>, events: Seq<ShaderEvent>)
    requires
        ids.no_duplicates(),
    ensures
        keep_unremoved(ids, events).no_duplicates(),
    decreases ids.len(),
{
    if ids.len() > 0 {
        assert(ids.drop_last().no_duplicates());
        lemma_keep_unremoved_nodup(ids.drop_last(), events);
        if !has_removal(events, ids.last()) {
            assert(!keep_unremoved(ids.drop_last(), events).contains(ids.last())) by {
                lemma_keep_unremoved_contains(ids.drop_last(), events, ids.last());
                if ids.drop_last().contains(ids.last()) {
                    let i = choose|i: int|
                        0 <= i < ids.drop_last().len() && ids.drop_last()[i] == ids.last();
                    assert(ids[i] == ids[ids.len() - 1]);
                }
            }
            lemma_nodup_push(keep_unremoved(ids.drop_last(), events), ids.last());
        }
    }
}

/// The changed-asset list never lists an asset twice.
pub proof fn lemma_changed_ids_nodup(events: Seq<ShaderEvent>)
    ensures
        changed_ids(events).no_duplicates(),
{
    lemma_change_marked_nodup(events);
    lemma_keep_unremoved_nodup(change_marked(events), events);
}

/// The changed and removed shader assets extracted this frame.
pub struct ExtractedShaders<S> {
    /// Changed assets with a snapshot of their value, in changed order.
    pub extracted: Vec<(ShaderId, S)>,
    /// Assets removed this frame, in event order.
    pub removed: Vec<ShaderId>,
}

impl<S> Default for ExtractedShaders<S> {
    fn default() -> (d: Self)
        ensures
            d.extracted@ == Seq::<(ShaderId, S)>::empty(),
            d.removed@ == Seq::<ShaderId>::empty(),
    {
        ExtractedShaders { extracted: Vec::new(), removed: Vec::new() }
    }
}

/// The targets whose cached GPU resources are stale this frame.
pub struct InvalidatedImages {
    /// Targets in use whose backing image changed or was removed.
    pub invalid: TargetSet,
}

impl Default for InvalidatedImages {
    fn default() -> (d: Self)
        ensures
            d.invalid@ == Seq::<TargetId>::empty(),
            d.invalid.wf(),
    {
        InvalidatedImages { invalid: TargetSet::new() }
    }
}

/// The set of targets the extracted triples refer to.
pub fn collect_buffer_images(triples: &Vec<(EntityId, TargetId, ShaderId)>) -> (s: TargetSet)
    ensures
        s.wf(),
        s@ == seen_targets(triples@),
{
    let mut s = TargetSet::new();
    let n = triples.len();
    let mut i: usize = 0;
    while i < n
        invariant
            0 <= i <= n,
            n == triples@.len(),
            s.wf(),
            s@ == seen_targets(triples@.take(i as int)),
        decreases n - i,
    {
        proof {
            assert(triples@.take(i + 1).drop_last() =~= triples@.take(i as int));
            assert(triples@.take(i + 1).last() == triples@[i as int]);
        }
        s.insert(triples[i].1);
        i += 1;
    }
    proof {
        assert(triples@.take(n as int) =~= triples@);
    }
    s
}

fn contains_sid(v: &Vec<ShaderId>, id: ShaderId) -> (r: bool)
    ensures
        r == v@.contains(id),
{
    let n = v.len();
    let mut i: usize = 0;
    while i < n
        invariant
            0 <= i <= n,
            n == v@.len(),
            forall|k: int| 0 <= k < i ==> v@[k] != id,
        decreases n - i,
    {
        if v[i] == id {
            return true;
        }
        i += 1;
    }
    false
}

fn find_index<S>(table: &Vec<(ShaderId, S)>, id: ShaderId) -> (r: Option<usize>)
    ensures
        match r {
            Some(ix) => ix < table@.len() && table@[ix as int].0 == id && (forall|k: int|
                0 <= k < ix ==> table@[k].0 != id),
            None => forall|k: int| 0 <= k < table@.len() ==> table@[k].0 != id,
        },
{
    let n = table.len();
    let mut i: usize = 0;
    while i < n
        invariant
            0 <= i <= n,
            n == table@.len(),
            forall|k: int| 0 <= k < i ==> table@[k].0 != id,
        decreases n - i,
    {
        if table[i].0 == id {
            return Some(i);
        }
        i += 1;
    }
    None
}

/// Folds this frame's shader events and snapshots the changed assets.
///
/// `assets` is the asset store's current content, handed over by value so
/// the snapshots can be moved out; an asset that both changed and was
/// removed within the frame is not extracted, whatever the order of the
/// two events.
pub fn extract_shaders<S>(events: &Vec<ShaderEvent>, assets: Vec<(ShaderId, S)>) -> (r:
    ExtractedShaders<S>)
    ensures
        r.removed@ == removed_ids(events@),
        r.extracted@ == gather(changed_ids(events@), assets@),
{
    let ghost assets0 = assets@;
    let mut marked: Vec<ShaderId> = Vec::new();
    let mut removed: Vec<ShaderId> = Vec::new();
    let n = events.len();
    let mut i: usize = 0;
    while i < n
        invariant
            0 <= i <= n,
            n == events@.len(),
            marked@ == change_marked(events@.take(i as int)),
            removed@ == removed_ids(events@.take(i as int)),
        decreases n - i,
    {
        proof {
            assert(events@.take(i + 1).drop_last() =~= events@.take(i as int));
            assert(events@.take(i + 1).last() == events@[i as int]);
        }
        let e = events[i];
        match e {
            ShaderEvent::Added(id) | ShaderEvent::Modified(id)
            | ShaderEvent::LoadedWithDependencies(id) => {
                if !contains_sid(&marked, id) {
                    marked.push(id);
                }
            },
            ShaderEvent::Removed(id) | ShaderEvent::Unused(id) => {
                removed.push(id);
            },
        }
        i += 1;
    }
    proof {
        assert(events@.take(n as int) =~= events@);
    }
    // Removal wins: drop every marked asset the frame also removes.
    let mut changed: Vec<ShaderId> = Vec::new();
    let m0 = marked.len();
    let mut k: usize = 0;
    while k < m0
        invariant
            0 <= k <= m0,
            m0 == marked@.len(),
            marked@ == change_marked(events@),
            removed@ == removed_ids(events@),
            changed@ == keep_unremoved(marked@.take(k as int), events@),
        decreases m0 - k,
    {
        proof {
            assert(marked@.take(k + 1).drop_last() =~= marked@.take(k as int));
            assert(marked@.take(k + 1).last() == marked@[k as int]);
            lemma_removed_ids_has_removal(events@, marked@[k as int]);
        }
        let id = marked[k];
        if !contains_sid(&removed, id) {
            changed.push(id);
        }
        k += 1;
    }
    proof {
        assert(marked@.take(m0 as int) =~= marked@);
        lemma_changed_ids_nodup(events@);
    }
    let mut table = assets;
    let mut extracted: Vec<(ShaderId, S)> = Vec::new();
    let m = changed.len();
    let mut j: usize = 0;
    while j < m
        invariant
            0 <= j <= m,
            m == changed@.len(),
            changed@ == changed_ids(events@),
            changed@.no_duplicates(),
            extracted@ == gather(changed@.take(j as int), assets0),
            forall|id2: ShaderId| #[trigger]
                changed@.skip(j as int).contains(id2) ==> assoc_find(table@, id2) == assoc_find(
                    assets0,
                    id2,
                ),
        decreases m - j,
    {
        let id = changed[j];
        proof {
            assert(changed@.take(j + 1).drop_last() =~= changed@.take(j as int));
            assert(changed@.take(j + 1).last() == changed@[j as int]);
            assert(changed@.skip(j as int)[0] == changed@[j as int]);
            assert(changed@.skip(j as int).contains(id));
        }
        match find_index(&table, id) {
            Some(ix) => {
                proof {
                    lemma_find_at(table@, id, ix as int);
                }
                let ghost table_before = table@;
                let entry = table.remove(ix);
                extracted.push((id, entry.1));
                proof {
                    assert forall|id2: ShaderId| #[trigger]
                        changed@.skip(j + 1).contains(id2) implies assoc_find(table@, id2)
                        == assoc_find(assets0, id2) by {
                        let k = choose|k: int|
                            0 <= k < changed@.skip(j + 1).len() && #[trigger] changed@.skip(
                                j + 1,
                            )[k] == id2;
                        assert(changed@[j + 1 + k] == id2);
                        assert(changed@.skip(j as int)[1 + k] == id2);
                        assert(changed@.skip(j as int).contains(id2));
                        assert(id2 != id) by {
                            assert(changed@[j as int] == id);
                        }
                        lemma_remove_entry_find(table_before, ix as int, id2);
                    }
                }
            },
            None => {
                proof {
                    lemma_find_none(table@, id);
                    assert forall|id2: ShaderId| #[trigger]
                        changed@.skip(j + 1).contains(id2) implies assoc_find(table@, id2)
                        == assoc_find(assets0, id2) by {
                        let k = choose|k: int|
                            0 <= k < changed@.skip(j + 1).len() && #[trigger] changed@.skip(
                                j + 1,
                            )[k] == id2;
                        assert(changed@[j + 1 + k] == id2);
                        assert(changed@.skip(j as int)[1 + k] == id2);
                        assert(changed@.skip(j as int).contains(id2));
                    }
                }
            },
        }
        j += 1;
    }
    proof {
        assert(changed@.take(m as int) =~= changed@);
    }
    ExtractedShaders { extracted, removed }
}

/// Folds this frame's image events into the invalidation set, ignoring
/// targets that no live entity uses.
pub fn extract_invalidated(events: &Vec<ImageEvent>, in_use: &TargetSet) -> (r: InvalidatedImages)
    ensures
        r.invalid.wf(),
        r.invalid@ == invalidated_targets(events@, in_use@),
{
    let mut s = TargetSet::new();
    let n = events.len();
    let mut i: usize = 0;
    while i < n
        invariant
            0 <= i <= n,
            n == events@.len(),
            s.wf(),
            s@ == invalidated_targets(events@.take(i as int), in_use@),
        decreases n - i,
    {
        proof {
            assert(events@.take(i + 1).drop_last() =~= events@.take(i as int));
            assert(events@.take(i + 1).last() == events@[i as int]);
        }
        let e = events[i];
        let t = match e {
            ImageEvent::Added(id) => id,
            ImageEvent::Modified(id) => id,
            ImageEvent::Removed(id) => id,
            ImageEvent::LoadedWithDependencies(id) => id,
        };
        if in_use.contains(t) {
            s.insert(t);
        }
        i += 1;
    }
    proof {
        assert(events@.take(n as int) =~= events@);
    }
    InvalidatedImages { invalid: s }
}

/// Everything the extraction stage hands to the render-side stages.
pub struct FrameExtract<S> {
    /// Targets attached to some live entity.
    pub buffer_images: TargetSet,
    /// Changed and removed shader assets.
    pub shaders: ExtractedShaders<S>,
    /// Targets whose cached GPU resources are stale.
    pub invalidated: InvalidatedImages,
}

/// The whole extraction stage for one frame.
pub fn extract_frame<S>(
    triples: &Vec<(EntityId, TargetId, ShaderId)>,
    shader_events: &Vec<ShaderEvent>,
    assets: Vec<(ShaderId, S)>,
    image_events: &Vec<ImageEvent>,
) -> (r: FrameExtract<S>)
    ensures
        r.buffer_images.wf(),
        r.buffer_images@ == seen_targets(triples@),
        r.shaders.removed@ == removed_ids(shader_events@),
        r.shaders.extracted@ == gather(changed_ids(shader_events@), assets@),
        r.invalidated.invalid.wf(),
        r.invalidated.invalid@ == invalidated_targets(image_events@, seen_targets(triples@)),
{
    let buffer_images = collect_buffer_images(triples);
    let shaders = extract_shaders(shader_events, assets);
    let invalidated = extract_invalidated(image_events, &buffer_images);
    FrameExtract { buffer_images, shaders, invalidated }
}

} // verus!
