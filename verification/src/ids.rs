//! Identities and small value types shared by every stage.
//!
//! A render target is identified by the identity of its backing image asset,
//! a shader asset instance by its own asset identity. GPU objects (bind
//! groups) are opaque handles issued by the host's GPU backend; the pipeline
//! only stores and compares them.

use vstd::prelude::*;

verus! {

/// Identity of a render target (the backing image asset).
#[derive(PartialEq, Eq, Structural, Clone, Copy, Debug)]
pub struct TargetId(pub u64);

/// Identity of a shader asset instance.
#[derive(PartialEq, Eq, Structural, Clone, Copy, Debug)]
pub struct ShaderId(pub u64);

/// Identity of an entity carrying a render target and an attached shader.
#[derive(PartialEq, Eq, Structural, Clone, Copy, Debug)]
pub struct EntityId(pub u64);

/// Opaque handle to a GPU bind group owned by the host backend.
#[derive(PartialEq, Eq, Structural, Clone, Copy, Debug)]
pub struct BindGroupId(pub u64);

/// A two-dimensional pixel extent (width, height), also used for
/// workgroup counts.
#[derive(PartialEq, Eq, Structural, Clone, Copy, Debug)]
pub struct Extent {
    pub x: u32,
    pub y: u32,
}

/// A set of target identities, kept in first-insertion order.
pub struct TargetSet {
    items: Vec<TargetId>,
}

impl View for TargetSet {
    type V = Seq<TargetId>;

    closed spec fn view(&self) -> Seq<TargetId> {
        self.items@
    }
}

impl TargetSet {
    /// The set holds each identity at most once.
    pub closed spec fn wf(self) -> bool {
        self@.no_duplicates()
    }

    pub fn new() -> (s: TargetSet)
        ensures
            s@ == Seq::<TargetId>::empty(),
            s.wf(),
    {
        TargetSet { items: Vec::new() }
    }

    pub fn contains(&self, t: TargetId) -> (r: bool)
        ensures
            r == self@.contains(t),
    {
        let n = self.items.len();
        let mut i: usize = 0;
        while i < n
            invariant
                0 <= i <= n,
                n == self@.len(),
                forall|k: int| 0 <= k < i ==> self@[k] != t,
            decreases n - i,
        {
            if self.items[i] == t {
                return true;
            }
            i += 1;
        }
        false
    }

    /// Inserts `t` unless it is already present.
    pub fn insert(&mut self, t: TargetId)
        requires
            old(self).wf(),
        ensures
            final(self).wf(),
            final(self)@ == (if old(self)@.contains(t) {
                old(self)@
            } else {
                old(self)@.push(t)
            }),
    {
        if !self.contains(t) {
            self.items.push(t);
        }
    }

    pub fn len(&self) -> (n: usize)
        ensures
            n == self@.len(),
    {
        self.items.len()
    }

    /// The identity at position `i`, for walking the set.
    pub fn at(&self, i: usize) -> (t: TargetId)
        requires
            i < self@.len(),
        ensures
            t == self@[i as int],
    {
        self.items[i]
    }
}

} // verus!
