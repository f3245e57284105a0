use pixel_compute::ids::{Extent, BindGroupId, TargetId, TargetSet};
use pixel_compute::image_cache::{prepare_images, PreparedImage, PreparedImages};

fn entry(bg: u64, w: u32, h: u32) -> PreparedImage {
    PreparedImage { bind_group: BindGroupId(bg), size: Extent { x: w, y: h } }
}

fn set_of(ids: &[u64]) -> TargetSet {
    let mut s = TargetSet::new();
    for &id in ids {
        s.insert(TargetId(id));
    }
    s
}

#[test]
fn fresh_cache_has_no_entries() {
    let cache = PreparedImages::new();
    assert_eq!(cache.len(), 0);
    assert_eq!(cache.get(TargetId(1)), None);
}

#[test]
fn unattached_target_gains_no_entry() {
    // The GPU table resolves target 2, but no live entity refers to it.
    let mut cache = PreparedImages::new();
    let mut gpu = PreparedImages::new();
    gpu.upsert_texture(TargetId(1), entry(10, 64, 64));
    gpu.upsert_texture(TargetId(2), entry(20, 64, 64));
    prepare_images(&mut cache, &set_of(&[]), &set_of(&[1]), &gpu);
    assert!(cache.contains_key(TargetId(1)));
    assert!(!cache.contains_key(TargetId(2)));
}

#[test]
fn unchanged_entry_is_reused_not_rebuilt() {
    let mut cache = PreparedImages::new();
    let mut gpu = PreparedImages::new();
    gpu.upsert_texture(TargetId(1), entry(10, 64, 64));
    prepare_images(&mut cache, &set_of(&[]), &set_of(&[1]), &gpu);
    assert_eq!(cache.get(TargetId(1)), Some(entry(10, 64, 64)));

    // Next frame the GPU table would hand out a fresh bind group, but the
    // existing entry must be kept as is.
    let mut gpu2 = PreparedImages::new();
    gpu2.upsert_texture(TargetId(1), entry(99, 64, 64));
    prepare_images(&mut cache, &set_of(&[]), &set_of(&[1]), &gpu2);
    assert_eq!(cache.get(TargetId(1)), Some(entry(10, 64, 64)));
}

#[test]
fn invalidated_and_unresolvable_target_is_evicted() {
    let mut cache = PreparedImages::new();
    let mut gpu = PreparedImages::new();
    gpu.upsert_texture(TargetId(1), entry(10, 64, 64));
    prepare_images(&mut cache, &set_of(&[]), &set_of(&[1]), &gpu);

    // The backing image was removed: invalidated, and the GPU no longer
    // resolves it.
    let gpu_gone = PreparedImages::new();
    prepare_images(&mut cache, &set_of(&[1]), &set_of(&[1]), &gpu_gone);
    assert_eq!(cache.get(TargetId(1)), None);
    assert_eq!(cache.len(), 0);
}

#[test]
fn invalidated_but_resolvable_target_is_rebuilt() {
    let mut cache = PreparedImages::new();
    let mut gpu = PreparedImages::new();
    gpu.upsert_texture(TargetId(1), entry(10, 64, 64));
    prepare_images(&mut cache, &set_of(&[]), &set_of(&[1]), &gpu);

    // The image changed: the old entry is evicted and a new bind group,
    // wrapping the new image, takes its place in the same pass.
    let mut gpu2 = PreparedImages::new();
    gpu2.upsert_texture(TargetId(1), entry(55, 128, 128));
    prepare_images(&mut cache, &set_of(&[1]), &set_of(&[1]), &gpu2);
    assert_eq!(cache.get(TargetId(1)), Some(entry(55, 128, 128)));
}

#[test]
fn detached_target_is_pruned_and_the_other_kept() {
    // Two targets attached to the same shader asset instance; detaching B
    // leaves A's entry untouched and B's entry pruned.
    let mut cache = PreparedImages::new();
    let mut gpu = PreparedImages::new();
    gpu.upsert_texture(TargetId(1), entry(10, 64, 64));
    gpu.upsert_texture(TargetId(2), entry(20, 64, 64));
    prepare_images(&mut cache, &set_of(&[]), &set_of(&[1, 2]), &gpu);
    assert_eq!(cache.len(), 2);

    prepare_images(&mut cache, &set_of(&[]), &set_of(&[1]), &gpu);
    assert_eq!(cache.get(TargetId(1)), Some(entry(10, 64, 64)));
    assert_eq!(cache.get(TargetId(2)), None);
    assert_eq!(cache.len(), 1);
}

#[test]
fn prune_is_skipped_when_counts_match() {
    // The prune step only runs on a size mismatch. With one stale entry
    // and one live-but-unresolvable target the counts match and the stale
    // entry survives the pass; the next successful preparation purges it.
    let mut cache = PreparedImages::new();
    let mut gpu = PreparedImages::new();
    gpu.upsert_texture(TargetId(1), entry(10, 64, 64));
    prepare_images(&mut cache, &set_of(&[]), &set_of(&[1]), &gpu);

    let gpu_none = PreparedImages::new();
    prepare_images(&mut cache, &set_of(&[]), &set_of(&[2]), &gpu_none);
    assert!(cache.contains_key(TargetId(1)));

    let mut gpu2 = PreparedImages::new();
    gpu2.upsert_texture(TargetId(2), entry(20, 32, 32));
    prepare_images(&mut cache, &set_of(&[]), &set_of(&[2]), &gpu2);
    assert!(!cache.contains_key(TargetId(1)));
    assert_eq!(cache.get(TargetId(2)), Some(entry(20, 32, 32)));
}

#[test]
fn unresolvable_target_is_retried_implicitly() {
    let mut cache = PreparedImages::new();
    let gpu_none = PreparedImages::new();
    prepare_images(&mut cache, &set_of(&[]), &set_of(&[1]), &gpu_none);
    assert_eq!(cache.len(), 0);

    // The image uploads a frame later; the same pass then prepares it.
    let mut gpu = PreparedImages::new();
    gpu.upsert_texture(TargetId(1), entry(10, 64, 64));
    prepare_images(&mut cache, &set_of(&[]), &set_of(&[1]), &gpu);
    assert_eq!(cache.get(TargetId(1)), Some(entry(10, 64, 64)));
}
