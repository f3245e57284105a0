use pixel_compute::extract::{extract_frame, ImageEvent, ShaderEvent};
use pixel_compute::ids::{BindGroupId, EntityId, Extent, ShaderId, TargetId, TargetSet};
use pixel_compute::image_cache::{prepare_images, PreparedImage, PreparedImages};
use pixel_compute::node::{DispatchNode, NodeState};
use pixel_compute::queue::build_queue;
use pixel_compute::registration::{
    validate_registration, SetupError, ShaderDescriptor, ShaderSource,
};
use pixel_compute::shader_cache::{prepare_shaders, BindOutcome, PreparedShaders, RetryQueue};

#[derive(Clone, Debug, PartialEq)]
struct InvertShader {
    strength: u32,
}

fn invert_workgroups(size: Extent) -> Extent {
    Extent { x: size.x / 8, y: size.y / 8 }
}

#[test]
fn invert_shader_on_256_square_dispatches_32_by_32_by_1() {
    // Register the shader type, prepare one 256x256 target, and check
    // the dispatch extents that reach the GPU.
    let desc = ShaderDescriptor {
        source: ShaderSource::Path(String::from("invert.wgsl")),
        entry_point: String::from("update"),
    };
    assert!(validate_registration(desc).is_ok());

    let mut images = PreparedImages::new();
    let mut gpu = PreparedImages::new();
    gpu.upsert_texture(
        TargetId(1),
        PreparedImage { bind_group: BindGroupId(10), size: Extent { x: 256, y: 256 } },
    );
    let mut live = TargetSet::new();
    live.insert(TargetId(1));
    prepare_images(&mut images, &TargetSet::new(), &live, &gpu);

    let mut shaders = PreparedShaders::new();
    let _q = prepare_shaders(
        &mut shaders,
        RetryQueue::new(),
        &vec![],
        vec![(ShaderId(1), InvertShader { strength: 1 })],
        &vec![BindOutcome::Bound(BindGroupId(20))],
    );

    let triples = vec![(EntityId(1), TargetId(1), ShaderId(1))];
    let queue = build_queue(&triples, &images, &shaders, invert_workgroups);
    assert_eq!(queue.len(), 1);
    assert_eq!(queue[0].workgroups, Extent { x: 32, y: 32 });

    let mut node = DispatchNode::default();
    node.update(true);
    let (cmds, skipped) = node.run(&queue, true);
    assert_eq!(skipped, 0);
    assert_eq!(cmds.len(), 1);
    assert_eq!(cmds[0].texture_bind_group, BindGroupId(10));
    assert_eq!(cmds[0].user_bind_group, BindGroupId(20));
    assert_eq!(cmds[0].workgroups_x, 32);
    assert_eq!(cmds[0].workgroups_y, 32);
    assert_eq!(cmds[0].workgroups_z, 1);
}

#[test]
fn registration_without_source_is_a_setup_error() {
    let desc = ShaderDescriptor {
        source: ShaderSource::Unspecified,
        entry_point: String::from("update"),
    };
    match validate_registration(desc) {
        Err(SetupError::NoShaderSource) => {}
        Ok(_) => panic!("a registration without a shader source must be refused"),
    }
}

#[test]
fn queue_joins_only_fully_prepared_pairs() {
    let mut images = PreparedImages::new();
    images.upsert_texture(
        TargetId(1),
        PreparedImage { bind_group: BindGroupId(10), size: Extent { x: 64, y: 64 } },
    );
    let mut shaders = PreparedShaders::new();
    let _q = prepare_shaders(
        &mut shaders,
        RetryQueue::new(),
        &vec![],
        vec![(ShaderId(1), InvertShader { strength: 1 })],
        &vec![BindOutcome::Bound(BindGroupId(20))],
    );
    let triples = vec![
        (EntityId(1), TargetId(1), ShaderId(1)),
        (EntityId(2), TargetId(2), ShaderId(1)),
        (EntityId(3), TargetId(1), ShaderId(9)),
    ];
    let queue = build_queue(&triples, &images, &shaders, invert_workgroups);
    assert_eq!(queue.len(), 1);
    assert_eq!(queue[0].target, TargetId(1));
    assert_eq!(queue[0].shader, ShaderId(1));
    assert_eq!(queue[0].size, Extent { x: 64, y: 64 });
}

#[test]
fn node_transitions_once_and_never_reverts() {
    let mut node = DispatchNode::default();
    assert_eq!(node.state(), NodeState::Loading);
    node.update(false);
    assert_eq!(node.state(), NodeState::Loading);
    node.update(true);
    assert_eq!(node.state(), NodeState::Ready);
    node.update(false);
    assert_eq!(node.state(), NodeState::Ready);
}

#[test]
fn no_dispatch_while_loading() {
    let mut images = PreparedImages::new();
    images.upsert_texture(
        TargetId(1),
        PreparedImage { bind_group: BindGroupId(10), size: Extent { x: 64, y: 64 } },
    );
    let mut shaders = PreparedShaders::new();
    let _q = prepare_shaders(
        &mut shaders,
        RetryQueue::new(),
        &vec![],
        vec![(ShaderId(1), InvertShader { strength: 1 })],
        &vec![BindOutcome::Bound(BindGroupId(20))],
    );
    let triples = vec![(EntityId(1), TargetId(1), ShaderId(1))];
    let queue = build_queue(&triples, &images, &shaders, invert_workgroups);
    assert_eq!(queue.len(), 1);

    let node = DispatchNode::default();
    let (cmds, skipped) = node.run(&queue, true);
    assert_eq!(cmds.len(), 0);
    assert_eq!(skipped, 0);
}

#[test]
fn missing_pipeline_while_ready_skips_and_reports() {
    let mut images = PreparedImages::new();
    images.upsert_texture(
        TargetId(1),
        PreparedImage { bind_group: BindGroupId(10), size: Extent { x: 64, y: 64 } },
    );
    let mut shaders = PreparedShaders::new();
    let _q = prepare_shaders(
        &mut shaders,
        RetryQueue::new(),
        &vec![],
        vec![(ShaderId(1), InvertShader { strength: 1 })],
        &vec![BindOutcome::Bound(BindGroupId(20))],
    );
    let triples = vec![(EntityId(1), TargetId(1), ShaderId(1))];
    let queue = build_queue(&triples, &images, &shaders, invert_workgroups);

    let mut node = DispatchNode::default();
    node.update(true);
    let (cmds, skipped) = node.run(&queue, false);
    assert_eq!(cmds.len(), 0);
    assert_eq!(skipped, 1);
}

#[test]
fn removed_image_contributes_nothing_to_the_queue() {
    let mut images = PreparedImages::new();
    let mut gpu = PreparedImages::new();
    gpu.upsert_texture(
        TargetId(1),
        PreparedImage { bind_group: BindGroupId(10), size: Extent { x: 64, y: 64 } },
    );
    let mut live = TargetSet::new();
    live.insert(TargetId(1));
    prepare_images(&mut images, &TargetSet::new(), &live, &gpu);

    let mut shaders = PreparedShaders::new();
    let _q = prepare_shaders(
        &mut shaders,
        RetryQueue::new(),
        &vec![],
        vec![(ShaderId(1), InvertShader { strength: 1 })],
        &vec![BindOutcome::Bound(BindGroupId(20))],
    );

    // The backing image is reported removed: after the next preparation
    // pass the target has no entry and the queue gets nothing.
    let mut invalid = TargetSet::new();
    invalid.insert(TargetId(1));
    prepare_images(&mut images, &invalid, &live, &PreparedImages::new());

    let triples = vec![(EntityId(1), TargetId(1), ShaderId(1))];
    let queue = build_queue(&triples, &images, &shaders, invert_workgroups);
    assert_eq!(queue.len(), 0);
}

#[test]
fn change_while_loading_is_prepared_but_not_dispatched() {
    // The shader asset changes value while the node is still Loading:
    // extraction captures the new value and preparation builds its bind
    // group, but no dispatch happens until the pipeline compiles.
    let triples = vec![(EntityId(1), TargetId(1), ShaderId(1))];
    let shader_events = vec![ShaderEvent::Modified(ShaderId(1))];
    let assets = vec![(ShaderId(1), InvertShader { strength: 2 })];
    let image_events: Vec<ImageEvent> = vec![];
    let fx = extract_frame(&triples, &shader_events, assets, &image_events);

    let mut images = PreparedImages::new();
    let mut gpu = PreparedImages::new();
    gpu.upsert_texture(
        TargetId(1),
        PreparedImage { bind_group: BindGroupId(10), size: Extent { x: 64, y: 64 } },
    );
    prepare_images(&mut images, &fx.invalidated.invalid, &fx.buffer_images, &gpu);

    let mut shaders = PreparedShaders::new();
    let _q = prepare_shaders(
        &mut shaders,
        RetryQueue::new(),
        &fx.shaders.removed,
        fx.shaders.extracted,
        &vec![BindOutcome::Bound(BindGroupId(20))],
    );
    assert_eq!(shaders.get(ShaderId(1)), Some(BindGroupId(20)));

    let queue = build_queue(&triples, &images, &shaders, invert_workgroups);
    assert_eq!(queue.len(), 1);

    let mut node = DispatchNode::default();
    node.update(false);
    let (cmds, _) = node.run(&queue, false);
    assert_eq!(cmds.len(), 0);

    // The pipeline finishes compiling: the very same queue now dispatches.
    node.update(true);
    let (cmds2, skipped2) = node.run(&queue, true);
    assert_eq!(cmds2.len(), 1);
    assert_eq!(skipped2, 0);
    assert_eq!(cmds2[0].workgroups_x, 8);
    assert_eq!(cmds2[0].workgroups_y, 8);
    assert_eq!(cmds2[0].workgroups_z, 1);
}
