use lycoric::sizing::{
    bucket, bucketed_size, earlier_time, layout_width_bucket, phase_scene_texture_budget,
    texture_byte_size, LARGE_SEEK_US, MANUAL_SCROLL_HOLD_US, MAX_CACHED_SCENES, PHASE_FRAME_COUNT,
    PHASE_TEXTURE_BUDGET_BYTES,
};
use lycoric::time::LyricTime;

#[test]
fn layout_widths_snap_to_eight_pixel_buckets() {
    assert_eq!(layout_width_bucket(640), 640);
    assert_eq!(layout_width_bucket(641), 640);
    assert_eq!(layout_width_bucket(643), 640);
    assert_eq!(layout_width_bucket(644), 648);
    assert_eq!(layout_width_bucket(1), 8);
    assert_eq!(layout_width_bucket(0), 0);
    assert_eq!(layout_width_bucket(-5), 0);
    assert_eq!(layout_width_bucket(i32::MAX), i32::MAX / 8 * 8);
}

#[test]
fn large_seek_threshold_ignores_small_anchor_resync_drift() {
    let expected = LyricTime::from_micros(1_000_000);
    let close = LyricTime::from_micros(1_100_000);
    let far = LyricTime::from_micros(5_000_000);
    assert!(close.as_micros().abs_diff(expected.as_micros()) <= LARGE_SEEK_US as u64);
    assert!(far.as_micros().abs_diff(expected.as_micros()) > LARGE_SEEK_US as u64);
}

#[test]
fn manual_deadline_is_based_on_the_last_interaction() {
    let first = 10_i64.saturating_add(MANUAL_SCROLL_HOLD_US);
    let drag_end = 500_i64.saturating_add(MANUAL_SCROLL_HOLD_US);
    assert!(drag_end > first);
}

#[test]
fn backdrop_sizes_round_up_to_sixty_four_pixels() {
    assert_eq!(bucket(1), 64);
    assert_eq!(bucket(64), 64);
    assert_eq!(bucket(65), 128);
    assert_eq!(bucket(0), 0);
    assert_eq!(bucket(-3), 0);
    assert_eq!(bucketed_size(400, 300), (448, 320));
}

#[test]
fn texture_bytes_count_every_frame_and_stay_in_budget() {
    let scene_budget = phase_scene_texture_budget();
    assert_eq!(scene_budget, 4 * 1024 * 1024);
    assert_eq!(scene_budget * MAX_CACHED_SCENES, PHASE_TEXTURE_BUDGET_BYTES);
    assert_eq!(texture_byte_size((100, 75), PHASE_FRAME_COUNT), Some(300_000));
    assert_eq!(texture_byte_size((-1, 75), 1), None);
    assert_eq!(texture_byte_size((0, 75), usize::MAX), Some(0));
}

#[test]
fn the_earlier_wakeup_wins() {
    let one = LyricTime::from_micros(1);
    let two = LyricTime::from_micros(2);
    assert_eq!(earlier_time(Some(two), Some(one)), Some(one));
    assert_eq!(earlier_time(Some(one), None), Some(one));
    assert_eq!(earlier_time(None, Some(two)), Some(two));
    assert_eq!(earlier_time(None, None), None);
}
