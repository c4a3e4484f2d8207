use image::{ImageBuffer, Rgb as ImageRgb};
use rwal::backends::kmeans::KMeans;
use rwal::backends::median_cut::MedianCut;
use rwal::backends::{from_name, Backend};
use rwal::colors::extractor::{extract, open_image, pixels_from_rgb8, sample_pixels, RgbImage, SAMPLE_SIZE};
use rwal::image_loader::load_image;
use rwal::colors::types::Rgb;
use rwal::error::RwalError;

fn image_of(img: ImageBuffer<ImageRgb<u8>, Vec<u8>>) -> RgbImage {
    let (w, h) = img.dimensions();
    RgbImage::from_raw(w, h, img.into_raw()).unwrap()
}

fn png_bytes(img: ImageBuffer<ImageRgb<u8>, Vec<u8>>) -> Vec<u8> {
    let mut out = std::io::Cursor::new(Vec::new());
    image::DynamicImage::ImageRgb8(img).write_to(&mut out, image::ImageOutputFormat::Png).unwrap();
    out.into_inner()
}

fn solid_png(r: u8, g: u8, b: u8, w: u32, h: u32) -> Vec<u8> {
    png_bytes(ImageBuffer::from_fn(w, h, |_, _| ImageRgb([r, g, b])))
}

fn solid_image(r: u8, g: u8, b: u8, w: u32, h: u32) -> RgbImage {
    image_of(ImageBuffer::from_fn(w, h, |_, _| ImageRgb([r, g, b])))
}

#[test]
fn pixels_from_packed_samples() {
    let px = pixels_from_rgb8(&[1, 2, 3, 4, 5, 6, 7]);
    assert_eq!(px, vec![Rgb::new(1, 2, 3), Rgb::new(4, 5, 6)]);
}

#[test]
fn from_raw_needs_three_bytes_per_pixel() {
    assert!(RgbImage::from_raw(2, 2, vec![0; 12]).is_some());
    assert!(RgbImage::from_raw(2, 2, vec![0; 11]).is_none());
    assert!(RgbImage::from_raw(2, 2, vec![0; 13]).is_none());
    assert!(RgbImage::from_raw(0, 5, vec![]).is_some());
}

#[test]
fn sample_pixels_keeps_a_small_image_as_it_is() {
    // 2×1 image, upscaled to 200×100 with nearest neighbours: left half red, right half blue
    let img = RgbImage::from_raw(2, 1, vec![255, 0, 0, 0, 0, 255]).unwrap();
    let px = sample_pixels(&img);
    assert_eq!(px.len(), 200 * 100);
    assert_eq!(px[0], Rgb::new(255, 0, 0));
    assert_eq!(px[199], Rgb::new(0, 0, 255));
}

#[test]
fn test_sample_pixels_returns_nonempty() {
    let pixels = sample_pixels(&solid_image(100, 150, 200, 800, 600));
    assert!(!pixels.is_empty());
}

#[test]
fn test_sample_pixels_count_matches_resized_dimensions() {
    let pixels = sample_pixels(&solid_image(10, 20, 30, 800, 600));
    assert!(pixels.len() <= (SAMPLE_SIZE * SAMPLE_SIZE) as usize);
    assert!(!pixels.is_empty());
}

#[test]
fn sample_pixels_keeps_the_aspect_ratio() {
    // 800×600 fits 200×150 within 200×200
    assert_eq!(sample_pixels(&solid_image(10, 20, 30, 800, 600)).len(), 200 * 150);
}

#[test]
fn test_sample_pixels_solid_red_all_red() {
    let pixels = sample_pixels(&solid_image(255, 0, 0, 400, 400));
    assert!(pixels.iter().all(|p| p.r > 200 && p.g < 10 && p.b < 10));
}

#[test]
fn test_sample_pixels_preserves_color_values() {
    let pixels = sample_pixels(&solid_image(123, 45, 67, 300, 300));
    for p in &pixels {
        assert!((p.r as i16 - 123).abs() <= 2);
        assert!((p.g as i16 - 45).abs() <= 2);
        assert!((p.b as i16 - 67).abs() <= 2);
    }
}

#[test]
fn test_sample_pixels_small_image_does_not_panic() {
    let pixels = sample_pixels(&solid_image(0, 0, 0, 1, 1));
    assert!(!pixels.is_empty());
}

#[test]
fn test_extract_returns_correct_count() {
    let img: ImageBuffer<ImageRgb<u8>, Vec<u8>> = ImageBuffer::from_fn(400, 400, |x, y| {
        ImageRgb([(x * 255 / 400) as u8, (y * 255 / 400) as u8, ((x + y) * 255 / 800) as u8])
    });
    let result = extract(&png_bytes(img), "png", &KMeans, 16, 10).unwrap();
    assert_eq!(result.len(), 16);
}

#[test]
fn test_extract_missing_file_errors() {
    // a file that cannot be read hands the library no image bytes
    let result = extract(&[], "png", &KMeans, 16, 10);
    assert!(matches!(result, Err(RwalError::ImageDecodeError(_))));
}

#[test]
fn extract_with_median_cut() {
    let result = extract(&solid_png(200, 100, 50, 64, 64), "png", &MedianCut, 4, 0).unwrap();
    assert!(result.iter().all(|c| *c == Rgb::new(200, 100, 50)));
}

#[test]
fn test_open_valid_image() {
    let img = open_image(&solid_png(255, 0, 0, 100, 100), "png").unwrap();
    assert_eq!((img.width(), img.height()), (100, 100));
    assert!(img.as_raw().chunks(3).all(|p| p == [255, 0, 0]));
}

#[test]
fn open_image_guesses_the_format_from_the_content() {
    let img = open_image(&solid_png(1, 2, 3, 4, 5), "jpg").unwrap();
    assert_eq!((img.width(), img.height()), (4, 5));
    assert_eq!(&img.as_raw()[0..3], &[1, 2, 3]);
}

#[test]
fn test_open_missing_file_errors() {
    // a file that cannot be read hands the library no image bytes
    assert!(matches!(open_image(&[], "png"), Err(RwalError::ImageDecodeError(_))));
}

#[test]
fn open_image_rejects_bytes_that_are_no_image() {
    assert!(matches!(open_image(b"not an image", "png"), Err(RwalError::ImageDecodeError(_))));
}

#[test]
fn load_image_decodes_in_the_named_format() {
    let png = solid_png(9, 8, 7, 3, 2);
    let img = load_image(&png, "png").unwrap();
    assert_eq!((img.width(), img.height()), (3, 2));
    assert_eq!(img.as_raw(), &[9, 8, 7, 9, 8, 7, 9, 8, 7, 9, 8, 7, 9, 8, 7, 9, 8, 7][..]);
    assert!(matches!(load_image(&png, "txt"), Err(RwalError::ImageDecodeError(_))));
    assert!(matches!(load_image(b"garbage", "png"), Err(RwalError::ImageDecodeError(_))));
}

#[test]
fn backends_by_name() {
    assert_eq!(from_name("accurate").unwrap().name(), "accurate");
    assert_eq!(from_name("fast").unwrap().name(), "median_cut");
    assert_eq!(from_name("kmeans").unwrap().name(), "accurate");
    assert_eq!(from_name("median_cut").unwrap().name(), "median_cut");
    assert!(matches!(from_name("magic"), Err(RwalError::UnsupportedBackend(n)) if n == "magic"));
    assert_eq!(rwal::backends::default().name(), "accurate");
}

#[test]
fn default_backend_is_kmeans_behind_the_trait() {
    let b: Box<dyn Backend> = rwal::backends::default();
    assert_eq!(b.name(), "accurate");
    assert!(matches!(b.generate(&[], 4, 10), Err(RwalError::NoColorsExtracted)));
}

#[test]
fn sample_pixels_only_copies_source_pixels() {
    let img = image_of(ImageBuffer::from_fn(333, 517, |x, y| {
        if (x / 7 + y / 5) % 2 == 0 { ImageRgb([10, 200, 30]) } else { ImageRgb([250, 1, 99]) }
    }));
    let px = sample_pixels(&img);
    assert!(px.iter().all(|p| *p == Rgb::new(10, 200, 30) || *p == Rgb::new(250, 1, 99)));
    assert!(px.contains(&Rgb::new(10, 200, 30)) && px.contains(&Rgb::new(250, 1, 99)));
}

fn encoded(img: ImageBuffer<ImageRgb<u8>, Vec<u8>>, format: image::ImageOutputFormat) -> Vec<u8> {
    let mut out = std::io::Cursor::new(Vec::new());
    image::DynamicImage::ImageRgb8(img).write_to(&mut out, format).unwrap();
    out.into_inner()
}

#[test]
fn open_image_decodes_gif_and_tiff() {
    let solid = || ImageBuffer::from_fn(6, 4, |_, _| ImageRgb([255u8, 0, 0]));
    for (bytes, ext) in [
        (encoded(solid(), image::ImageOutputFormat::Gif), "gif"),
        (encoded(solid(), image::ImageOutputFormat::Tiff), "tiff"),
    ] {
        let img = open_image(&bytes, ext).unwrap();
        assert_eq!((img.width(), img.height()), (6, 4));
        let px = &img.as_raw()[0..3];
        assert!(px[0] > 200 && px[1] < 10 && px[2] < 10);
        let img = load_image(&bytes, ext).unwrap();
        assert_eq!((img.width(), img.height()), (6, 4));
    }
}
