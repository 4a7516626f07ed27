use lycoric::render::{cluster_ranges, ranges_overlap, segment_mask, SegmentMask};

fn clusters() -> Vec<std::ops::Range<usize>> {
    vec![0..1, 1..2, 2..3]
}

#[test]
fn a_segment_lights_the_clusters_it_overlaps() {
    match segment_mask(&(1..3), &clusters(), true) {
        SegmentMask::Clusters(run) => assert_eq!(run, 1..3),
        other => panic!("unexpected mask {other:?}"),
    }
    match segment_mask(&(0..1), &clusters(), true) {
        SegmentMask::Clusters(run) => assert_eq!(run, 0..1),
        other => panic!("unexpected mask {other:?}"),
    }
}

#[test]
fn a_segment_past_every_cluster_lights_nothing() {
    assert!(matches!(segment_mask(&(5..6), &clusters(), true), SegmentMask::Empty));
}

#[test]
fn an_empty_segment_lights_nothing() {
    assert!(matches!(segment_mask(&(2..2), &clusters(), true), SegmentMask::Empty));
}

#[test]
fn without_clusters_a_segment_lights_the_layout_bounds() {
    assert!(matches!(segment_mask(&(0..4), &Vec::new(), true), SegmentMask::Bounds));
    assert!(matches!(segment_mask(&(0..4), &Vec::new(), false), SegmentMask::Empty));
}

#[test]
fn clusters_run_from_one_start_to_the_next() {
    let ranges = cluster_ranges(&vec![0, 2, 5], 6);
    assert_eq!(ranges, vec![Some(0..2), Some(2..5), Some(5..6)]);
}

#[test]
fn a_cluster_that_starts_at_the_end_of_the_text_is_dropped() {
    let ranges = cluster_ranges(&vec![0, 3], 3);
    assert_eq!(ranges, vec![Some(0..3), None]);
}

#[test]
fn byte_ranges_that_only_touch_do_not_overlap() {
    assert!(!ranges_overlap(&(0..2), &(2..4)));
    assert!(ranges_overlap(&(0..3), &(2..4)));
}
