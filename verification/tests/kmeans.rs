use rwal::backends::kmeans::{centroids_converged, nearest_centroid, recompute_centroids, squared_distance, KMeans};
use rwal::colors::types::Rgb;
use rwal::error::RwalError;

fn solid(r: u8, g: u8, b: u8, n: usize) -> Vec<Rgb> {
    vec![Rgb::new(r, g, b); n]
}

// ── nearest_centroid ─────────────────────────────────────────────────────────

#[test]
fn test_nearest_centroid_exact_match() {
    let centroids = vec![Rgb::new(255, 0, 0), Rgb::new(0, 255, 0)];
    assert_eq!(nearest_centroid(&Rgb::new(255, 0, 0), &centroids), 0);
    assert_eq!(nearest_centroid(&Rgb::new(0, 255, 0), &centroids), 1);
}

#[test]
fn test_nearest_centroid_picks_closer_one() {
    let centroids = vec![Rgb::new(0, 0, 0), Rgb::new(255, 255, 255)];
    assert_eq!(nearest_centroid(&Rgb::new(10, 10, 10), &centroids), 0);
    assert_eq!(nearest_centroid(&Rgb::new(240, 240, 240), &centroids), 1);
}

#[test]
fn nearest_centroid_ties_go_to_the_first() {
    let centroids = vec![Rgb::new(0, 0, 0), Rgb::new(20, 20, 20), Rgb::new(0, 0, 0)];
    assert_eq!(nearest_centroid(&Rgb::new(10, 10, 10), &centroids), 0);
}

// ── squared_distance ─────────────────────────────────────────────────────────

#[test]
fn test_squared_distance_same_color_is_zero() {
    let c = Rgb::new(100, 150, 200);
    assert_eq!(squared_distance(&c, &c), 0);
}

#[test]
fn test_squared_distance_known_value() {
    let a = Rgb::new(0, 0, 0);
    let b = Rgb::new(1, 1, 1);
    assert_eq!(squared_distance(&a, &b), 3);
}

#[test]
fn squared_distance_extreme_value() {
    assert_eq!(squared_distance(&Rgb::new(0, 0, 0), &Rgb::new(255, 255, 255)), 195075);
}

// ── recompute_centroids ──────────────────────────────────────────────────────

#[test]
fn test_recompute_centroids_single_cluster() {
    let pixels = vec![Rgb::new(100, 100, 100), Rgb::new(200, 200, 200)];
    let assignments = vec![0, 0];
    let result = recompute_centroids(&pixels, &assignments, 1);
    assert_eq!(result[0], Rgb::new(150, 150, 150));
}

#[test]
fn test_recompute_centroids_two_clusters() {
    let pixels = vec![
        Rgb::new(0, 0, 0),
        Rgb::new(0, 0, 0),
        Rgb::new(255, 255, 255),
        Rgb::new(255, 255, 255),
    ];
    let assignments = vec![0, 0, 1, 1];
    let result = recompute_centroids(&pixels, &assignments, 2);
    assert_eq!(result[0], Rgb::new(0, 0, 0));
    assert_eq!(result[1], Rgb::new(255, 255, 255));
}

#[test]
fn recompute_centroids_empty_cluster_is_black() {
    let pixels = vec![Rgb::new(9, 9, 9)];
    let result = recompute_centroids(&pixels, &[0], 3);
    assert_eq!(result, vec![Rgb::new(9, 9, 9), Rgb::new(0, 0, 0), Rgb::new(0, 0, 0)]);
}

// ── convergence ──────────────────────────────────────────────────────────────

#[test]
fn test_converged_when_identical() {
    let a = vec![Rgb::new(100, 100, 100)];
    assert!(centroids_converged(&a, &a));
}

#[test]
fn test_not_converged_when_far_apart() {
    let a = vec![Rgb::new(0, 0, 0)];
    let b = vec![Rgb::new(255, 255, 255)];
    assert!(!centroids_converged(&a, &b));
}

#[test]
fn converged_threshold_is_two_units() {
    let a = vec![Rgb::new(0, 0, 0)];
    assert!(centroids_converged(&a, &[Rgb::new(1, 1, 1)]));
    assert!(!centroids_converged(&a, &[Rgb::new(2, 0, 0)]));
}

// ── full generate ────────────────────────────────────────────────────────────

#[test]
fn test_generate_empty_pixels_errors() {
    let result = KMeans.generate(&[], 8, 10);
    assert!(matches!(result, Err(RwalError::NoColorsExtracted)));
}

#[test]
fn test_generate_solid_red_returns_red() {
    let pixels = solid(255, 0, 0, 500);
    let result = KMeans.generate(&pixels, 4, 10).unwrap();
    assert!(result.iter().all(|c| c.r > 200 && c.g < 50 && c.b < 50));
}

#[test]
fn test_generate_returns_requested_count() {
    let pixels: Vec<Rgb> = (0..255).map(|i| Rgb::new(i, i, i)).collect();
    let result = KMeans.generate(&pixels, 8, 10).unwrap();
    assert_eq!(result.len(), 8);
}

#[test]
fn test_generate_fewer_pixels_than_k() {
    let pixels = vec![Rgb::new(255, 0, 0), Rgb::new(0, 255, 0), Rgb::new(0, 0, 255)];
    let result = KMeans.generate(&pixels, 8, 10);
    assert!(result.is_ok());
}

#[test]
fn generate_never_returns_more_colors_than_pixels() {
    let pixels = vec![Rgb::new(255, 0, 0), Rgb::new(0, 255, 0), Rgb::new(0, 0, 255)];
    let result = KMeans.generate(&pixels, 8, 10).unwrap();
    assert!(result.len() <= 3);
}

#[test]
fn test_generate_two_distinct_clusters() {
    let mut pixels = solid(10, 10, 10, 500);
    pixels.extend(solid(245, 245, 245, 500));

    let result = KMeans.generate(&pixels, 2, 15).unwrap();
    assert_eq!(result.len(), 2);

    let has_dark = result.iter().any(|c| c.r < 100);
    let has_bright = result.iter().any(|c| c.r > 150);
    assert!(has_dark, "expected a dark centroid");
    assert!(has_bright, "expected a bright centroid");
}

#[test]
fn generate_zero_rounds_returns_seeds_from_the_pixels() {
    let pixels = vec![Rgb::new(1, 2, 3), Rgb::new(200, 100, 50), Rgb::new(7, 7, 7)];
    let result = KMeans.generate(&pixels, 3, 0).unwrap();
    assert_eq!(result.len(), 3);
    assert!(result.iter().all(|c| pixels.contains(c)));
}

#[test]
fn name_is_accurate() {
    assert_eq!(KMeans.name(), "accurate");
}
