use lycoric::render::{BatchKey, PixelExtent, TextureBudget};

#[test]
fn the_current_line_budget_holds_eight_mib() {
    let mut budget = TextureBudget::current_line();
    assert_eq!(budget.max_dimension(), 4096);
    let full_budget = PixelExtent { pixel_width: 4096, pixel_height: 512 };
    assert_eq!(budget.reserve(full_budget), Some(8 * 1024 * 1024));

    let extra = PixelExtent { pixel_width: 1, pixel_height: 1 };
    assert_eq!(budget.reserve(extra), None);
    assert_eq!(budget.used(), 8 * 1024 * 1024);
}

#[test]
fn releasing_a_reservation_restores_the_budget() {
    let mut budget = TextureBudget::current_line();
    let reserved = budget.reserve(PixelExtent { pixel_width: 10, pixel_height: 20 }).unwrap();
    assert_eq!(reserved, 800);
    assert_eq!(budget.used(), 800);
    budget.release(reserved);
    assert_eq!(budget.used(), 0);
    budget.release(5);
    assert_eq!(budget.used(), 0);
}

#[test]
fn a_texture_whose_byte_count_overflows_has_no_size() {
    assert_eq!(PixelExtent { pixel_width: usize::MAX, pixel_height: 2 }.byte_size(), None);
    assert_eq!(PixelExtent { pixel_width: 3, pixel_height: 5 }.byte_size(), Some(60));
}

#[test]
fn invalid_scale_never_becomes_a_unit_scale_batch() {
    let invalid = BatchKey::new(7, 1, f64::NAN.to_bits(), 2..8, Some(4), false);
    let unit = BatchKey::new(7, 1, 1.0f64.to_bits(), 2..8, Some(4), false);
    assert_ne!(invalid, unit);
}

#[test]
fn batch_key_invalidates_on_physical_scale_mismatch() {
    let first = BatchKey::new(7, 1, 1.0f64.to_bits(), 2..8, Some(4), false);
    let second = BatchKey::new(7, 1, 2.0f64.to_bits(), 2..8, Some(4), false);
    assert_ne!(first, second);
}

#[test]
fn a_manual_scroll_gives_another_batch_key() {
    let automatic = BatchKey::new(7, 1, 1.0f64.to_bits(), 2..8, Some(4), false);
    let manual = BatchKey::new(7, 1, 1.0f64.to_bits(), 2..8, Some(4), true);
    assert_ne!(automatic, manual);
    assert_eq!(automatic, BatchKey::new(7, 1, 1.0f64.to_bits(), 2..8, Some(4), false));
    assert_eq!((automatic.visible_start, automatic.visible_end), (2, 8));
}
