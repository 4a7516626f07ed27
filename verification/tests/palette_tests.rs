use lycoric::palette::{bin_index, dominant_bin, quantize, sample_cover, valid_buffer, ColorBin};

fn cover() -> Vec<u8> {
    vec![16, 24, 48, 255, 16, 24, 48, 255, 230, 48, 96, 255, 36, 180, 220, 255]
}

#[test]
fn colours_fall_in_the_bin_of_their_top_four_bits() {
    assert_eq!(bin_index(16, 24, 48), 275);
    assert_eq!(bin_index(255, 255, 255), 4095);
    assert_eq!(bin_index(0, 0, 15), 0);
}

#[test]
fn a_cover_is_sampled_into_its_histogram() {
    let bins = quantize(&cover(), 4, 1, 16, 1);
    assert_eq!(bins.len(), 4096);
    assert_eq!(bins[275], ColorBin { count: 2, red: 32, green: 48, blue: 96 });
    assert_eq!(bins[3638], ColorBin { count: 1, red: 230, green: 48, blue: 96 });
    assert_eq!(bins[701], ColorBin { count: 1, red: 36, green: 180, blue: 220 });
    assert_eq!(bins.iter().map(|bin| bin.count).sum::<u32>(), 4);
    assert_eq!(dominant_bin(&bins), Some(275));
}

#[test]
fn sampling_skips_pixels_between_steps_and_translucent_ones() {
    let mut pixels = cover();
    pixels[15] = 95;
    let bins = quantize(&pixels, 4, 1, 16, 2);
    assert_eq!(bins[275].count, 1);
    assert_eq!(bins[3638].count, 1);
    assert_eq!(bins[701].count, 0);
    let every = quantize(&pixels, 4, 1, 16, 1);
    assert_eq!(every[701].count, 0);
    assert_eq!(every[275].count, 2);
}

#[test]
fn the_last_of_the_fullest_bins_dominates() {
    let mut bins = vec![ColorBin::default(); 4096];
    bins[3].count = 5;
    bins[9].count = 5;
    bins[12].count = 2;
    assert_eq!(dominant_bin(&bins), Some(9));
    assert_eq!(dominant_bin(&vec![ColorBin::default(); 4096]), None);
}

#[test]
fn invalid_buffers_are_not_sampled() {
    assert!(!valid_buffer(&[], 10, 10, 40));
    assert!(sample_cover(&[], 10, 10, 40, 1).is_none());
    assert!(!valid_buffer(&cover(), 4, 1, 15));
    assert!(valid_buffer(&cover(), 4, 1, 16));
}

#[test]
fn a_fully_translucent_cover_has_no_dominant_colour() {
    let pixels = vec![200, 10, 10, 0, 10, 200, 10, 12];
    assert!(sample_cover(&pixels, 2, 1, 8, 1).is_none());
    let (bins, dominant) = sample_cover(&cover(), 4, 1, 16, 1).unwrap();
    assert_eq!(dominant, 275);
    assert_eq!(bins[dominant].count, 2);
}
