//! The dispatch node: the two-state execution unit the host render graph
//! runs once per frame.
//!
//! The node starts in `Loading` and moves to `Ready` exactly once, the
//! frame the compiled pipeline is first reported available; it never moves
//! back. While `Loading` the run phase is a silent no-op — shader
//! compilation is asynchronous and skipping frames is the correct
//! behaviour. While `Ready` the run phase emits one dispatch command per
//! queue entry, with the workgroup depth fixed at one since the
//! framebuffer is two-dimensional.

use vstd::prelude::*;

use crate::ids::BindGroupId;
use crate::queue::QueueEntry;

verus! {

/// The node's phase: waiting for the pipeline, or dispatching.
#[derive(PartialEq, Eq, Structural, Clone, Copy, Debug)]
pub enum NodeState {
    Loading,
    Ready,
}

/// One compute dispatch the host must encode: bind the texture bind group
/// at slot 0, the user bind group at slot 1, the cached pipeline, and
/// dispatch the workgroup extents.
#[derive(PartialEq, Eq, Structural, Clone, Copy, Debug)]
pub struct DispatchCmd {
    pub texture_bind_group: BindGroupId,
    pub user_bind_group: BindGroupId,
    pub workgroups_x: u32,
    pub workgroups_y: u32,
    pub workgroups_z: u32,
}

/// The command a queue entry turns into.
pub open spec fn cmd_of(e: QueueEntry) -> DispatchCmd {
    DispatchCmd {
        texture_bind_group: e.texture_bind_group,
        user_bind_group: e.user_bind_group,
        workgroups_x: e.workgroups.x,
        workgroups_y: e.workgroups.y,
        workgroups_z: 1,
    }
}

/// How one update step moves the state: `Loading` becomes `Ready` when
/// the pipeline reports compiled, and `Ready` is absorbing.
pub open spec fn spec_update(s: NodeState, pipeline_compiled: bool) -> NodeState {
    match s {
        NodeState::Loading => if pipeline_compiled {
            NodeState::Ready
        } else {
            NodeState::Loading
        },
        NodeState::Ready => NodeState::Ready,
    }
}

/// The state after a run of update steps, one per frame.
pub open spec fn run_updates(s0: NodeState, reports: Seq<bool>) -> NodeState
    decreases reports.len(),
{
    if reports.len() == 0 {
        s0
    } else {
        spec_update(run_updates(s0, reports.drop_last()), reports.last())
    }
}

/// The dispatch node inserted into the host's render graph.
pub struct DispatchNode {
    state: NodeState,
}

impl Default for DispatchNode {
    /// A fresh node is `Loading`.
    fn default() -> (n: DispatchNode)
        ensures
            n.spec_state() == NodeState::Loading,
    {
        DispatchNode { state: NodeState::Loading }
    }
}

impl DispatchNode {
    /// The node's current phase. Only `update` ever changes it.
    pub closed spec fn spec_state(self) -> NodeState {
        self.state
    }

    pub fn state(&self) -> (s: NodeState)
        ensures
            s == self.spec_state(),
    {
        self.state
    }

    /// The once-per-frame state check: `pipeline_compiled` is whether the
    /// pipeline cache reports the compute pipeline successfully compiled.
    pub fn update(&mut self, pipeline_compiled: bool)
        ensures
            final(self).spec_state() == spec_update(old(self).spec_state(), pipeline_compiled),
    {
        match self.state {
            NodeState::Loading => {
                if pipeline_compiled {
                    self.state = NodeState::Ready;
                }
            },
            NodeState::Ready => {},
        }
    }

    /// The once-per-frame run phase.
    ///
    /// Returns the dispatch commands to encode, in queue order, and the
    /// number of entries skipped because the pipeline was missing from the
    /// cache although the state was `Ready` — an invariant violation the
    /// host logs; those entries are dropped for this frame only.
    /// While `Loading` nothing is dispatched and nothing is an error.
    pub fn run(&self, queue: &Vec<QueueEntry>, pipeline_in_cache: bool) -> (r: (
        Vec<DispatchCmd>,
        usize,
    ))
        ensures
            self.spec_state() == NodeState::Loading ==> r.0@.len() == 0 && r.1 == 0,
            self.spec_state() == NodeState::Ready && pipeline_in_cache ==> r.0@.len()
                == queue@.len() && (forall|i: int|
                0 <= i < queue@.len() ==> r.0@[i] == cmd_of(#[trigger] queue@[i])) && r.1 == 0,
            self.spec_state() == NodeState::Ready && !pipeline_in_cache ==> r.0@.len() == 0 && r.1
                == queue@.len(),
    {
        match self.state {
            NodeState::Loading => (Vec::new(), 0),
            NodeState::Ready => {
                if pipeline_in_cache {
                    let mut cmds: Vec<DispatchCmd> = Vec::new();
                    let n = queue.len();
                    let mut i: usize = 0;
                    while i < n
                        invariant
                            0 <= i <= n,
                            n == queue@.len(),
                            cmds@.len() == i,
                            forall|k: int| 0 <= k < i ==> cmds@[k] == cmd_of(#[trigger] queue@[k]),
                        decreases n - i,
                    {
                        let e = queue[i];
                        cmds.push(
                            DispatchCmd {
                                texture_bind_group: e.texture_bind_group,
                                user_bind_group: e.user_bind_group,
                                workgroups_x: e.workgroups.x,
                                workgroups_y: e.workgroups.y,
                                workgroups_z: 1,
                            },
                        );
                        i += 1;
                    }
                    (cmds, 0)
                } else {
                    (Vec::new(), queue.len())
                }
            },
        }
    }
}

/// The state machine is monotone: over any run of frames the node is
/// `Ready` exactly when it started `Ready` or some frame reported the
/// pipeline compiled — so the `Loading` to `Ready` transition happens at
/// most once and is never reverted.
pub proof fn lemma_state_monotone(s0: NodeState, reports: Seq<bool>)
    ensures
        run_updates(s0, reports) == (if s0 == NodeState::Ready || reports.contains(true) {
            NodeState::Ready
        } else {
            NodeState::Loading
        }),
    decreases reports.len(),
{
    if reports.len() > 0 {
        lemma_state_monotone(s0, reports.drop_last());
        crate::assoc::lemma_contains_push(reports.drop_last(), reports.last(), true);
        assert(reports =~= reports.drop_last().push(reports.last()));
    }
}

} // verus!
