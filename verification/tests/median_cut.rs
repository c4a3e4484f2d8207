use rwal::backends::median_cut::{average, channel_ranges, MedianCut};
use rwal::colors::types::Rgb;
use rwal::error::RwalError;

// ── channel_ranges ───────────────────────────────────────────────────────────

#[test]
fn test_channel_ranges_uniform() {
    let pixels = vec![Rgb::new(100, 100, 100); 5];
    assert_eq!(channel_ranges(&pixels), (0, 0, 0));
}

#[test]
fn test_channel_ranges_detects_widest() {
    let pixels = vec![
        Rgb::new(0, 0, 0),
        Rgb::new(0, 0, 255), // blue has widest range
    ];
    let (r, g, b) = channel_ranges(&pixels);
    assert!(b > r && b > g);
}

#[test]
fn channel_ranges_exact_values() {
    let pixels = vec![Rgb::new(10, 200, 30), Rgb::new(60, 100, 30), Rgb::new(20, 150, 90)];
    assert_eq!(channel_ranges(&pixels), (50, 100, 60));
}

// ── average ──────────────────────────────────────────────────────────────────

#[test]
fn test_average_single_pixel() {
    let pixels = vec![Rgb::new(100, 150, 200)];
    assert_eq!(average(&pixels), Rgb::new(100, 150, 200));
}

#[test]
fn test_average_two_pixels() {
    let pixels = vec![Rgb::new(0, 0, 0), Rgb::new(200, 200, 200)];
    assert_eq!(average(&pixels), Rgb::new(100, 100, 100));
}

#[test]
fn average_truncates_toward_zero() {
    let pixels = vec![Rgb::new(0, 1, 2), Rgb::new(1, 2, 2), Rgb::new(1, 2, 3)];
    // sums 2, 5, 7 over 3 pixels
    assert_eq!(average(&pixels), Rgb::new(0, 1, 2));
}

// ── full generate ────────────────────────────────────────────────────────────

#[test]
fn test_generate_empty_errors() {
    assert!(matches!(
        MedianCut.generate(&[], 8, 0),
        Err(RwalError::NoColorsExtracted)
    ));
}

#[test]
fn generate_zero_count_errors() {
    let pixels = vec![Rgb::new(1, 2, 3); 4];
    assert!(matches!(MedianCut.generate(&pixels, 0, 0), Err(RwalError::NoColorsExtracted)));
}

#[test]
fn test_generate_solid_color() {
    let pixels = vec![Rgb::new(200, 100, 50); 200];
    let result = MedianCut.generate(&pixels, 4, 0).unwrap();
    assert!(result.iter().all(|c| c.r > 190 && c.g > 90 && c.b > 40));
}

#[test]
fn test_generate_two_distinct_colors() {
    let mut pixels = vec![Rgb::new(20, 20, 20); 200];
    pixels.extend(vec![Rgb::new(220, 220, 220); 200]);

    let result = MedianCut.generate(&pixels, 2, 0).unwrap();

    let has_dark = result.iter().any(|c| c.r < 100);
    let has_bright = result.iter().any(|c| c.r > 150);
    assert!(has_dark, "expected a dark color");
    assert!(has_bright, "expected a bright color");
}

#[test]
fn generate_splits_along_the_sorted_channel() {
    // Interleaved so that the halves only separate if the bucket is sorted first.
    let mut pixels = Vec::new();
    for i in 0..50u8 {
        pixels.push(Rgb::new(240, 0, i));
        pixels.push(Rgb::new(10, 0, i));
    }
    let result = MedianCut.generate(&pixels, 2, 0).unwrap();
    assert_eq!(result.len(), 2);
    assert!(result.iter().any(|c| c.r == 10));
    assert!(result.iter().any(|c| c.r == 240));
}

#[test]
fn test_generate_count_does_not_exceed_request() {
    let pixels: Vec<Rgb> = (0..200).map(|i| Rgb::new(i as u8, i as u8, i as u8)).collect();
    let result = MedianCut.generate(&pixels, 8, 0).unwrap();
    assert!(result.len() <= 8);
}

#[test]
fn generate_odd_count_truncates_buckets() {
    let pixels: Vec<Rgb> = (0..64).map(|i| Rgb::new(i as u8 * 4, 0, 0)).collect();
    let result = MedianCut.generate(&pixels, 3, 0).unwrap();
    assert_eq!(result.len(), 3);
}

// ── backend trait ────────────────────────────────────────────────────────────

#[test]
fn test_name_is_median_cut() {
    assert_eq!(MedianCut.name(), "median_cut");
}

#[test]
fn two_equally_frequent_colors_split_apart() {
    let a = Rgb::new(10, 90, 40);
    let b = Rgb::new(200, 60, 140);
    for n in [1usize, 2, 7, 50] {
        let pixels: Vec<Rgb> = [vec![a; n], vec![b; n]].concat();
        assert_eq!(MedianCut.generate(&pixels, 2, 0).unwrap(), vec![a, b]);
    }
}

#[test]
fn one_color_stays_one_color() {
    let c = Rgb::new(17, 34, 51);
    for count in [1usize, 2, 3, 8, 16] {
        let out = MedianCut.generate(&vec![c; 37], count, 5).unwrap();
        assert!(out.iter().all(|x| *x == c));
    }
}
