//! Prepared texture entries: per-target GPU bind groups and their sizes.
//!
//! One cache instance exists per registered shader type. An entry maps a
//! render target to the bind group wrapping the target's storage-texture
//! view, together with the target's pixel size at preparation time. Entries
//! are evicted when the backing image is invalidated, created for live
//! targets whose GPU image resolves, and pruned when no live entity refers
//! to the target any more.

use vstd::prelude::*;

use crate::assoc::{
    assoc_find, distinct_keys, evict, has_key, lemma_evict_distinct, lemma_evict_find,
    lemma_find_at, lemma_find_none, lemma_push_distinct, lemma_retain_distinct,
    lemma_retain_find, retain_keys,
};
use crate::ids::{Extent, TargetId, TargetSet};

verus! {

/// A prepared texture entry: the bind group for the target's storage
/// texture, and the target size the dispatch extents are computed from.
#[derive(PartialEq, Eq, Structural, Clone, Copy, Debug)]
pub struct PreparedImage {
    pub bind_group: crate::ids::BindGroupId,
    pub size: Extent,
}

/// Association from render targets to prepared texture entries.
///
/// The same shape serves two roles: the per-type cache of prepared
/// entries, and the per-frame table of targets whose GPU image currently
/// resolves (each paired with the bind group built from its view).
pub struct PreparedImages {
    entries: Vec<(TargetId, PreparedImage)>,
}

impl View for PreparedImages {
    type V = Seq<(TargetId, PreparedImage)>;

    closed spec fn view(&self) -> Seq<(TargetId, PreparedImage)> {
        self.entries@
    }
}

impl PreparedImages {
    /// No target has two entries.
    pub open spec fn wf(self) -> bool {
        distinct_keys(self@)
    }

    /// The entry for `t`, if prepared.
    pub open spec fn spec_find(self, t: TargetId) -> Option<PreparedImage> {
        assoc_find(self@, t)
    }

    pub fn new() -> (c: PreparedImages)
        ensures
            c@ == Seq::<(TargetId, PreparedImage)>::empty(),
            c.wf(),
    {
        PreparedImages { entries: Vec::new() }
    }

    pub fn len(&self) -> (n: usize)
        ensures
            n == self@.len(),
    {
        self.entries.len()
    }

    /// The entry at position `i`, for walking the table.
    pub fn at(&self, i: usize) -> (e: (TargetId, PreparedImage))
        requires
            i < self@.len(),
        ensures
            e == self@[i as int],
    {
        self.entries[i]
    }

    pub fn get(&self, t: TargetId) -> (r: Option<PreparedImage>)
        ensures
            r == self.spec_find(t),
    {
        let n = self.entries.len();
        let mut i: usize = 0;
        while i < n
            invariant
                0 <= i <= n,
                n == self@.len(),
                forall|j: int| 0 <= j < i ==> self@[j].0 != t,
            decreases n - i,
        {
            let e = self.entries[i];
            if e.0 == t {
                proof {
                    lemma_find_at(self@, t, i as int);
                }
                return Some(e.1);
            }
            i += 1;
        }
        proof {
            lemma_find_none(self@, t);
        }
        None
    }

    pub fn contains_key(&self, t: TargetId) -> (r: bool)
        ensures
            r == has_key(self@, t),
    {
        self.get(t).is_some()
    }

    /// Records the bind group freshly built for `t`. Only called when no
    /// valid entry exists; an existing entry is never rebuilt.
    pub fn upsert_texture(&mut self, t: TargetId, img: PreparedImage)
        requires
            old(self).wf(),
            !has_key(old(self)@, t),
        ensures
            final(self).wf(),
            final(self)@ == old(self)@.push((t, img)),
    {
        proof {
            lemma_push_distinct(old(self)@, (t, img));
        }
        self.entries.push((t, img));
    }

    /// Evicts exactly the entries whose target is named in `dead`.
    pub fn invalidate(&mut self, dead: &TargetSet)
        requires
            old(self).wf(),
        ensures
            final(self).wf(),
            final(self)@ == evict(old(self)@, dead@),
    {
        let n = self.entries.len();
        let mut kept: Vec<(TargetId, PreparedImage)> = Vec::new();
        let mut i: usize = 0;
        while i < n
            invariant
                0 <= i <= n,
                n == self@.len(),
                kept@ == evict(self@.take(i as int), dead@),
            decreases n - i,
        {
            let e = self.entries[i];
            proof {
                assert(self@.take(i + 1).drop_last() =~= self@.take(i as int));
                assert(self@.take(i + 1).last() == self@[i as int]);
            }
            if !dead.contains(e.0) {
                kept.push(e);
            }
            i += 1;
        }
        proof {
            assert(self@.take(n as int) =~= self@);
            lemma_evict_distinct(self@, dead@);
        }
        self.entries = kept;
    }

    /// Evicts every entry whose target is not in `keep`.
    pub fn prune(&mut self, keep: &TargetSet)
        requires
            old(self).wf(),
        ensures
            final(self).wf(),
            final(self)@ == retain_keys(old(self)@, keep@),
    {
        let n = self.entries.len();
        let mut kept: Vec<(TargetId, PreparedImage)> = Vec::new();
        let mut i: usize = 0;
        while i < n
            invariant
                0 <= i <= n,
                n == self@.len(),
                kept@ == retain_keys(self@.take(i as int), keep@),
            decreases n - i,
        {
            let e = self.entries[i];
            proof {
                assert(self@.take(i + 1).drop_last() =~= self@.take(i as int));
                assert(self@.take(i + 1).last() == self@[i as int]);
            }
            if keep.contains(e.0) {
                kept.push(e);
            }
            i += 1;
        }
        proof {
            assert(self@.take(n as int) =~= self@);
            lemma_retain_distinct(self@, keep@);
        }
        self.entries = kept;
    }
}

/// One upsert attempt per live target, in order: a target that already has
/// an entry is left alone, one whose GPU image resolves gets the resolved
/// entry, and one that does not resolve is skipped until a later frame.
pub open spec fn upsert_missing(
    s: Seq<(TargetId, PreparedImage)>,
    live: Seq<TargetId>,
    gpu: Seq<(TargetId, PreparedImage)>,
) -> Seq<(TargetId, PreparedImage)>
    decreases live.len(),
{
    if live.len() == 0 {
        s
    } else {
        let r = upsert_missing(s, live.drop_last(), gpu);
        let t = live.last();
        if has_key(r, t) {
            r
        } else {
            match assoc_find(gpu, t) {
                Some(img) => r.push((t, img)),
                None => r,
            }
        }
    }
}

/// The whole texture pass: evict invalidated entries, attempt one upsert
/// per live target, then prune stale entries — but pruning is skipped when
/// the entry count already matches the live-target count.
pub open spec fn image_pass(
    s: Seq<(TargetId, PreparedImage)>,
    invalid: Seq<TargetId>,
    live: Seq<TargetId>,
    gpu: Seq<(TargetId, PreparedImage)>,
) -> Seq<(TargetId, PreparedImage)> {
    let u = upsert_missing(evict(s, invalid), live, gpu);
    if u.len() == live.len() {
        u
    } else {
        retain_keys(u, live)
    }
}

/// The per-frame texture pass over the cache.
///
/// `invalid` names the targets whose backing image changed or was removed
/// this frame; `live` is the set of targets attached to some extracted
/// entity; `gpu_images` tabulates the targets whose GPU image currently
/// resolves, each with the bind group built from its view and its size.
pub fn prepare_images(
    cache: &mut PreparedImages,
    invalid: &TargetSet,
    live: &TargetSet,
    gpu_images: &PreparedImages,
)
    requires
        old(cache).wf(),
    ensures
        final(cache).wf(),
        final(cache)@ == image_pass(old(cache)@, invalid@, live@, gpu_images@),
{
    cache.invalidate(invalid);
    let ghost base = cache@;
    let n = live.len();
    let mut i: usize = 0;
    while i < n
        invariant
            0 <= i <= n,
            n == live@.len(),
            cache.wf(),
            cache@ == upsert_missing(base, live@.take(i as int), gpu_images@),
        decreases n - i,
    {
        let t = live.at(i);
        proof {
            assert(live@.take(i + 1).drop_last() =~= live@.take(i as int));
            assert(live@.take(i + 1).last() == live@[i as int]);
        }
        if !cache.contains_key(t) {
            match gpu_images.get(t) {
                Some(img) => {
                    cache.upsert_texture(t, img);
                },
                None => {},
            }
        }
        i += 1;
    }
    proof {
        assert(live@.take(n as int) =~= live@);
    }
    if cache.len() != live.len() {
        cache.prune(live);
    }
}

} // verus!
