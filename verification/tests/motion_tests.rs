use lycoric::render::MotionTiming;

#[test]
fn negative_duration_and_stagger_count_as_none() {
    let timing = MotionTiming::new(10, -5, -1, 3, Some(2));
    assert_eq!((timing.duration_us, timing.stagger_us), (0, 0));
    assert_eq!(timing.total_duration_us(), 0);
    assert!(timing.finished(10));
}

#[test]
fn the_leg_lasts_until_the_furthest_staggered_line_has_moved() {
    let timing = MotionTiming::new(1_000, 300, 50, 4, Some(5));
    assert_eq!(timing.total_duration_us(), 500);
    assert!(!timing.finished(1_499));
    assert!(timing.finished(1_500));
}

#[test]
fn lines_further_from_the_focus_start_later_up_to_the_stagger_limit() {
    let timing = MotionTiming::new(1_000, 300, 50, 4, Some(5));
    assert_eq!(timing.line_elapsed_us(5, 1_100), 100);
    assert_eq!(timing.line_elapsed_us(3, 1_100), 0);
    assert_eq!(timing.line_elapsed_us(8, 1_100), -50);
    assert_eq!(timing.line_elapsed_us(50, 1_100), -100);
    let unfocused = MotionTiming::new(1_000, 300, 50, 4, None);
    assert_eq!(unfocused.line_elapsed_us(50, 1_100), 100);
}

#[test]
fn motion_timing_saturates() {
    let timing = MotionTiming::new(i64::MIN, i64::MAX, i64::MAX, usize::MAX, Some(0));
    assert_eq!(timing.total_duration_us(), i64::MAX);
    assert_eq!(timing.line_elapsed_us(7, i64::MAX), 0);
    assert_eq!(timing.line_elapsed_us(7, i64::MIN), -i64::MAX);
}
