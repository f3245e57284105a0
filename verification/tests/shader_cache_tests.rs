use pixel_compute::ids::{BindGroupId, ShaderId};
use pixel_compute::shader_cache::{prepare_shaders, BindOutcome, PreparedShaders, RetryQueue};

#[derive(Clone, Debug, PartialEq)]
struct TestShader {
    level: u32,
}

fn sh(level: u32) -> TestShader {
    TestShader { level }
}

#[test]
fn successful_bind_is_cached() {
    let mut cache = PreparedShaders::new();
    let q = prepare_shaders(
        &mut cache,
        RetryQueue::new(),
        &vec![],
        vec![(ShaderId(1), sh(1))],
        &vec![BindOutcome::Bound(BindGroupId(7))],
    );
    assert_eq!(cache.get(ShaderId(1)), Some(BindGroupId(7)));
    assert_eq!(q.len(), 0);
}

#[test]
fn transient_failure_queues_for_next_frame() {
    let mut cache = PreparedShaders::new();
    let q = prepare_shaders(
        &mut cache,
        RetryQueue::new(),
        &vec![],
        vec![(ShaderId(1), sh(1))],
        &vec![BindOutcome::TransientFailure],
    );
    assert_eq!(cache.get(ShaderId(1)), None);
    assert_eq!(q.len(), 1);
    assert_eq!(q.id_at(0), ShaderId(1));
}

#[test]
fn retry_resolves_on_later_frame_and_not_before() {
    // Frame N: the asset fails transiently.
    let mut cache = PreparedShaders::new();
    let q1 = prepare_shaders(
        &mut cache,
        RetryQueue::new(),
        &vec![],
        vec![(ShaderId(1), sh(1))],
        &vec![BindOutcome::TransientFailure],
    );
    assert_eq!(cache.get(ShaderId(1)), None);

    // Frame N+1: still blocked — not prepared yet.
    let q2 = prepare_shaders(
        &mut cache,
        q1,
        &vec![],
        vec![],
        &vec![BindOutcome::TransientFailure],
    );
    assert_eq!(cache.get(ShaderId(1)), None);
    assert_eq!(q2.len(), 1);

    // Frame N+2: the blocking condition resolved.
    let q3 = prepare_shaders(
        &mut cache,
        q2,
        &vec![],
        vec![],
        &vec![BindOutcome::Bound(BindGroupId(9))],
    );
    assert_eq!(cache.get(ShaderId(1)), Some(BindGroupId(9)));
    assert_eq!(q3.len(), 0);
}

#[test]
fn retries_keep_fifo_order_and_requeue_at_the_back() {
    let mut cache = PreparedShaders::new();
    let q1 = prepare_shaders(
        &mut cache,
        RetryQueue::new(),
        &vec![],
        vec![(ShaderId(1), sh(1)), (ShaderId(2), sh(2))],
        &vec![BindOutcome::TransientFailure, BindOutcome::TransientFailure],
    );
    assert_eq!(q1.id_at(0), ShaderId(1));
    assert_eq!(q1.id_at(1), ShaderId(2));

    // The first queued asset binds; the second fails again and moves to
    // the back of the new queue, behind a newly changed transient asset.
    let q2 = prepare_shaders(
        &mut cache,
        q1,
        &vec![],
        vec![(ShaderId(3), sh(3))],
        &vec![
            BindOutcome::Bound(BindGroupId(11)),
            BindOutcome::TransientFailure,
            BindOutcome::TransientFailure,
        ],
    );
    assert_eq!(cache.get(ShaderId(1)), Some(BindGroupId(11)));
    assert_eq!(q2.len(), 2);
    assert_eq!(q2.id_at(0), ShaderId(2));
    assert_eq!(q2.id_at(1), ShaderId(3));
}

#[test]
fn permanent_failure_is_dropped_until_changed_again() {
    // Frame N: permanent failure — no entry, no retry.
    let mut cache = PreparedShaders::new();
    let q1 = prepare_shaders(
        &mut cache,
        RetryQueue::new(),
        &vec![],
        vec![(ShaderId(1), sh(1))],
        &vec![BindOutcome::PermanentFailure],
    );
    assert_eq!(cache.get(ShaderId(1)), None);
    assert_eq!(q1.len(), 0);

    // Frame N+1: nothing concerns the asset — still absent.
    let q2 = prepare_shaders(&mut cache, q1, &vec![], vec![], &vec![]);
    assert_eq!(cache.get(ShaderId(1)), None);
    assert_eq!(q2.len(), 0);

    // A fresh change event makes it eligible again.
    let _q3 = prepare_shaders(
        &mut cache,
        q2,
        &vec![],
        vec![(ShaderId(1), sh(2))],
        &vec![BindOutcome::Bound(BindGroupId(4))],
    );
    assert_eq!(cache.get(ShaderId(1)), Some(BindGroupId(4)));
}

#[test]
fn removed_assets_are_evicted_before_new_changes_apply() {
    let mut cache = PreparedShaders::new();
    let q0 = prepare_shaders(
        &mut cache,
        RetryQueue::new(),
        &vec![],
        vec![(ShaderId(1), sh(1)), (ShaderId(2), sh(2))],
        &vec![BindOutcome::Bound(BindGroupId(1)), BindOutcome::Bound(BindGroupId(2))],
    );

    // Asset 1 is removed and re-added in the same frame: the removal is
    // processed first, then the new change re-prepares it. Asset 2 is
    // only removed.
    let _q1 = prepare_shaders(
        &mut cache,
        q0,
        &vec![ShaderId(1), ShaderId(2)],
        vec![(ShaderId(1), sh(9))],
        &vec![BindOutcome::Bound(BindGroupId(33))],
    );
    assert_eq!(cache.get(ShaderId(1)), Some(BindGroupId(33)));
    assert_eq!(cache.get(ShaderId(2)), None);
}

#[test]
fn untouched_entry_survives_unrelated_frames() {
    let mut cache = PreparedShaders::new();
    let q0 = prepare_shaders(
        &mut cache,
        RetryQueue::new(),
        &vec![],
        vec![(ShaderId(1), sh(1))],
        &vec![BindOutcome::Bound(BindGroupId(5))],
    );
    // A frame that only concerns other assets leaves the entry as it is.
    let q1 = prepare_shaders(
        &mut cache,
        q0,
        &vec![ShaderId(7)],
        vec![(ShaderId(2), sh(2))],
        &vec![BindOutcome::TransientFailure],
    );
    assert_eq!(cache.get(ShaderId(1)), Some(BindGroupId(5)));
    assert_eq!(q1.len(), 1);
    assert_eq!(q1.id_at(0), ShaderId(2));
}

#[test]
fn empty_frame_changes_nothing() {
    let mut cache = PreparedShaders::new();
    let q: RetryQueue<TestShader> =
        prepare_shaders(&mut cache, RetryQueue::new(), &vec![], vec![], &vec![]);
    assert_eq!(cache.len(), 0);
    assert_eq!(q.len(), 0);
}

#[test]
fn rebind_replaces_the_entry() {
    let mut cache = PreparedShaders::new();
    let q0 = prepare_shaders(
        &mut cache,
        RetryQueue::new(),
        &vec![],
        vec![(ShaderId(1), sh(1))],
        &vec![BindOutcome::Bound(BindGroupId(5))],
    );
    let _q1 = prepare_shaders(
        &mut cache,
        q0,
        &vec![],
        vec![(ShaderId(1), sh(2))],
        &vec![BindOutcome::Bound(BindGroupId(6))],
    );
    assert_eq!(cache.get(ShaderId(1)), Some(BindGroupId(6)));
    assert_eq!(cache.len(), 1);
}
