use pixel_compute::extract::{
    extract_frame, extract_invalidated, extract_shaders, collect_buffer_images, ImageEvent,
    ShaderEvent,
};
use pixel_compute::ids::{EntityId, ShaderId, TargetId};

#[derive(Clone, Debug, PartialEq)]
struct TestShader {
    level: u32,
}

#[test]
fn removal_after_change_wins() {
    let events = vec![ShaderEvent::Added(ShaderId(1)), ShaderEvent::Removed(ShaderId(1))];
    let assets = vec![(ShaderId(1), TestShader { level: 7 })];
    let r = extract_shaders(&events, assets);
    assert_eq!(r.extracted.len(), 0);
    assert_eq!(r.removed, vec![ShaderId(1)]);
}

#[test]
fn removal_wins_whatever_the_event_order() {
    let events = vec![ShaderEvent::Removed(ShaderId(1)), ShaderEvent::Added(ShaderId(1))];
    let assets = vec![(ShaderId(1), TestShader { level: 7 })];
    let r = extract_shaders(&events, assets);
    assert_eq!(r.extracted.len(), 0);
    assert_eq!(r.removed, vec![ShaderId(1)]);
}

#[test]
fn change_on_a_later_frame_is_extracted_again() {
    // Frame with both events: removal wins, nothing extracted.
    let events1 = vec![ShaderEvent::Added(ShaderId(1)), ShaderEvent::Removed(ShaderId(1))];
    let r1 = extract_shaders(&events1, vec![(ShaderId(1), TestShader { level: 7 })]);
    assert_eq!(r1.extracted.len(), 0);

    // A fresh change event on the next frame extracts the asset again.
    let events2 = vec![ShaderEvent::Added(ShaderId(1))];
    let r2 = extract_shaders(&events2, vec![(ShaderId(1), TestShader { level: 8 })]);
    assert_eq!(r2.extracted, vec![(ShaderId(1), TestShader { level: 8 })]);
    assert_eq!(r2.removed.len(), 0);
}

#[test]
fn changed_ids_are_deduplicated() {
    let events = vec![
        ShaderEvent::Added(ShaderId(1)),
        ShaderEvent::Modified(ShaderId(1)),
        ShaderEvent::LoadedWithDependencies(ShaderId(1)),
    ];
    let assets = vec![(ShaderId(1), TestShader { level: 3 })];
    let r = extract_shaders(&events, assets);
    assert_eq!(r.extracted, vec![(ShaderId(1), TestShader { level: 3 })]);
    assert_eq!(r.removed.len(), 0);
}

#[test]
fn changed_asset_missing_from_store_is_skipped() {
    let events = vec![ShaderEvent::Modified(ShaderId(1)), ShaderEvent::Added(ShaderId(2))];
    let assets = vec![(ShaderId(2), TestShader { level: 9 })];
    let r = extract_shaders(&events, assets);
    assert_eq!(r.extracted, vec![(ShaderId(2), TestShader { level: 9 })]);
}

#[test]
fn unused_event_acts_as_removal() {
    let events = vec![ShaderEvent::Added(ShaderId(4)), ShaderEvent::Unused(ShaderId(4))];
    let assets = vec![(ShaderId(4), TestShader { level: 1 })];
    let r = extract_shaders(&events, assets);
    assert_eq!(r.extracted.len(), 0);
    assert_eq!(r.removed, vec![ShaderId(4)]);
}

#[test]
fn snapshot_values_follow_the_store() {
    let events = vec![ShaderEvent::Added(ShaderId(1)), ShaderEvent::Added(ShaderId(2))];
    let assets = vec![
        (ShaderId(2), TestShader { level: 22 }),
        (ShaderId(1), TestShader { level: 11 }),
    ];
    let r = extract_shaders(&events, assets);
    assert_eq!(
        r.extracted,
        vec![
            (ShaderId(1), TestShader { level: 11 }),
            (ShaderId(2), TestShader { level: 22 }),
        ]
    );
}

#[test]
fn buffer_images_deduplicated_in_first_seen_order() {
    let triples = vec![
        (EntityId(1), TargetId(10), ShaderId(1)),
        (EntityId(2), TargetId(20), ShaderId(1)),
        (EntityId(3), TargetId(10), ShaderId(2)),
    ];
    let s = collect_buffer_images(&triples);
    assert_eq!(s.len(), 2);
    assert_eq!(s.at(0), TargetId(10));
    assert_eq!(s.at(1), TargetId(20));
}

#[test]
fn image_events_filtered_to_targets_in_use() {
    let triples = vec![(EntityId(1), TargetId(10), ShaderId(1))];
    let in_use = collect_buffer_images(&triples);
    let events = vec![
        ImageEvent::Modified(TargetId(10)),
        ImageEvent::Removed(TargetId(99)),
        ImageEvent::Added(TargetId(10)),
    ];
    let r = extract_invalidated(&events, &in_use);
    assert_eq!(r.invalid.len(), 1);
    assert!(r.invalid.contains(TargetId(10)));
    assert!(!r.invalid.contains(TargetId(99)));
}

#[test]
fn empty_inputs_extract_nothing() {
    let triples: Vec<(EntityId, TargetId, ShaderId)> = vec![];
    let shader_events: Vec<ShaderEvent> = vec![];
    let assets: Vec<(ShaderId, TestShader)> = vec![];
    let image_events: Vec<ImageEvent> = vec![];
    let r = extract_frame(&triples, &shader_events, assets, &image_events);
    assert_eq!(r.buffer_images.len(), 0);
    assert_eq!(r.shaders.extracted.len(), 0);
    assert_eq!(r.shaders.removed.len(), 0);
    assert_eq!(r.invalidated.invalid.len(), 0);
}

#[test]
fn extract_frame_produces_all_three_artifacts() {
    let triples = vec![(EntityId(1), TargetId(10), ShaderId(1))];
    let shader_events = vec![ShaderEvent::Added(ShaderId(1))];
    let assets = vec![(ShaderId(1), TestShader { level: 5 })];
    let image_events = vec![ImageEvent::Removed(TargetId(10))];
    let r = extract_frame(&triples, &shader_events, assets, &image_events);
    assert!(r.buffer_images.contains(TargetId(10)));
    assert_eq!(r.shaders.extracted, vec![(ShaderId(1), TestShader { level: 5 })]);
    assert_eq!(r.shaders.removed.len(), 0);
    assert!(r.invalidated.invalid.contains(TargetId(10)));
}
