//! From an image file's bytes to raw dominant colors: decode, downsample to
//! at most 200×200 (nearest neighbour, aspect ratio kept), collect the
//! pixels, and hand them to the chosen backend. Reading the file happens
//! outside the library.
use vstd::prelude::*;
use crate::backends::Backend;
use crate::colors::types::Rgb;
use crate::error::RwalError;

verus! {

/// The image is resized to fit within this many pixels on each side.
pub const SAMPLE_SIZE: u32 = 200;

/// An 8-bit RGB image: `width`×`height` pixels, three bytes each, row by row.
pub struct RgbImage {
    width: u32,
    height: u32,
    data: Vec<u8>,
}

impl View for RgbImage {
    type V = (u32, u32, Seq<u8>);

    closed spec fn view(&self) -> (u32, u32, Seq<u8>) {
        (self.width, self.height, self.data@)
    }
}

impl RgbImage {
    /// The samples fill the image exactly.
    #[verifier::type_invariant]
    spec fn fits(self) -> bool {
        self.data@.len() == 3 * self.width * self.height
    }

    /// An image from its dimensions and raw samples; `None` unless there are
    /// exactly three bytes per pixel.
    pub fn from_raw(width: u32, height: u32, data: Vec<u8>) -> (r: Option<RgbImage>)
        ensures
            r is Some <==> data@.len() == 3 * width * height,
            r is Some ==> r->0@ == (width, height, data@),
    {
        let w = width as u128;
        let h = height as u128;
        assert(w * h <= 0xffff_ffff * 0xffff_ffff) by (nonlinear_arith)
            requires
                w <= 0xffff_ffff,
                h <= 0xffff_ffff,
        ;
        assert(3 * (w * h) == 3 * width * height) by (nonlinear_arith)
            requires
                w == width,
                h == height,
        ;
        if (data.len() as u128) == 3 * (w * h) {
            Some(RgbImage { width, height, data })
        } else {
            None
        }
    }

    /// The width in pixels.
    pub fn width(&self) -> (w: u32)
        ensures
            w == self@.0,
    {
        self.width
    }

    /// The height in pixels.
    pub fn height(&self) -> (h: u32)
        ensures
            h == self@.1,
    {
        self.height
    }

    /// The raw samples, three bytes per pixel, row by row.
    pub fn as_raw(&self) -> (d: &[u8])
        ensures
            d@ == self@.2,
    {
        self.data.as_slice()
    }
}

/// The samples of a `width`×`height` RGB image (three bytes per pixel)
/// resized to fit within `size`×`size` with nearest-neighbour filtering.
pub uninterp spec fn nearest_resized(width: u32, height: u32, data: Seq<u8>, size: u32) -> Seq<u8>;

/// Builds an `image::RgbImage` from the samples (`ImageBuffer::from_raw`,
/// which succeeds on exactly three bytes per pixel), then calls
/// `DynamicImage::resize(size, size, FilterType::Nearest)`, `to_rgb8` and
/// `into_raw`. The result is named `nearest_resized`; `resize` keeps the
/// aspect ratio and fits the image within `size`×`size` pixels, keeping each
/// side at least one pixel long, and the buffer it returns holds three bytes
/// per pixel. With the nearest filter each output pixel is read from exactly
/// one input pixel at weight one, so every pixel of a non-empty image's
/// result is one of its pixels.
#[verifier::external_body]
fn resize_nearest(width: u32, height: u32, data: &[u8], size: u32) -> (bytes: Vec<u8>)
    requires
        data@.len() == 3 * width * height,
        size >= 1,
    ensures
        bytes@ == nearest_resized(width, height, data@, size),
        bytes@.len() % 3 == 0,
        3 <= bytes@.len() <= 3 * size * size,
        width > 0 && height > 0 ==> forall|q: int|
            0 <= q < rgb_pixels(bytes@).len() ==> rgb_pixels(data@).contains(#[trigger] rgb_pixels(bytes@)[q]),
{
    let buf = ::image::RgbImage::from_raw(width, height, data.to_vec()).unwrap();
    ::image::DynamicImage::ImageRgb8(buf).resize(size, size, ::image::imageops::FilterType::Nearest).to_rgb8().into_raw()
}

/// The image that `bytes` decode to, as 8-bit RGB (width, height, samples),
/// its format guessed from the content and otherwise taken from the file
/// extension `ext`; `None` when it does not decode.
pub uninterp spec fn decoded_rgb8(bytes: Seq<u8>, ext: Seq<char>) -> Option<(u32, u32, Seq<u8>)>;

/// Decodes with the image crate as `image::io::Reader::open(path)` followed by
/// `with_guessed_format` and `decode` does (PNG, JPEG, GIF, WebP and TIFF are
/// built in): the format from the extension
/// (`ImageFormat::from_extension`), replaced by the one the first bytes show
/// if they show one; then `to_rgb8`. The result is named `decoded_rgb8`; on
/// failure the decoder's message is returned, and nothing is stated of it.
#[verifier::external_body]
fn decode_guessed(bytes: &[u8], ext: &str) -> (r: Result<(u32, u32, Vec<u8>), String>)
    ensures
        r is Err <==> decoded_rgb8(bytes@, ext@) is None,
        r is Ok ==> decoded_rgb8(bytes@, ext@) == Some((r->Ok_0.0, r->Ok_0.1, r->Ok_0.2@)),
        r is Ok ==> r->Ok_0.2@.len() == 3 * r->Ok_0.0 * r->Ok_0.1,
{
    let mut reader = ::image::io::Reader::new(std::io::Cursor::new(bytes));
    match ::image::ImageFormat::from_extension(ext) {
        Some(format) => reader.set_format(format),
        None => {},
    }
    match reader.with_guessed_format().map_err(|e| e.to_string())?.decode() {
        Ok(img) => {
            let rgb = img.to_rgb8();
            Ok((rgb.width(), rgb.height(), rgb.into_raw()))
        },
        Err(e) => Err(e.to_string()),
    }
}

/// Open an image from its file's bytes and extension, detecting the format
/// from the content first: exactly the decoded image, or `ImageDecodeError`
/// when the bytes do not decode.
pub fn open_image(bytes: &[u8], ext: &str) -> (r: Result<RgbImage, RwalError>)
    ensures
        match decoded_rgb8(bytes@, ext@) {
            None => r is Err && r->Err_0 is ImageDecodeError,
            Some(d) => r is Ok && r->Ok_0@ == d,
        },
{
    match decode_guessed(bytes, ext) {
        Ok((width, height, data)) => {
            let ghost d = (width, height, data@);
            match RgbImage::from_raw(width, height, data) {
                Some(img) => Ok(img),
                None => Err(RwalError::ImageDecodeError(String::new())),
            }
        },
        Err(message) => Err(RwalError::ImageDecodeError(message)),
    }
}

/// The pixels of packed RGB samples: pixel `i` is bytes `3i`, `3i+1`, `3i+2`.
pub open spec fn rgb_pixels(bytes: Seq<u8>) -> Seq<Rgb> {
    Seq::new(bytes.len() / 3, |i: int| Rgb { r: bytes[3 * i], g: bytes[3 * i + 1], b: bytes[3 * i + 2] })
}

/// Group packed RGB samples into pixels (a trailing partial pixel is dropped).
pub fn pixels_from_rgb8(bytes: &[u8]) -> (px: Vec<Rgb>)
    ensures
        px@ == rgb_pixels(bytes@),
{
    let len = bytes.len();
    let n = len / 3;
    let mut px: Vec<Rgb> = Vec::with_capacity(n);
    let mut i: usize = 0;
    while i < n
        invariant
            len == bytes@.len(),
            n == len / 3,
            i <= n,
            px@ == rgb_pixels(bytes@).take(i as int),
        decreases n - i,
    {
        assert(3 * i + 2 < bytes@.len()) by (nonlinear_arith)
            requires
                i < n,
                n == len / 3,
                len == bytes@.len(),
        ;
        px.push(Rgb::new(bytes[3 * i], bytes[3 * i + 1], bytes[3 * i + 2]));
        assert(rgb_pixels(bytes@).take(i + 1) =~= rgb_pixels(bytes@).take(i as int).push(rgb_pixels(bytes@)[i as int]));
        i = i + 1;
    }
    assert(rgb_pixels(bytes@).take(n as int) =~= rgb_pixels(bytes@));
    px
}

/// The pixels the image is sampled to: resized to fit within 200×200.
pub open spec fn sampled(img: (u32, u32, Seq<u8>)) -> Seq<Rgb> {
    rgb_pixels(nearest_resized(img.0, img.1, img.2, SAMPLE_SIZE))
}

/// Resize the image to fit within 200×200 and collect its pixels.
pub fn sample_pixels(img: &RgbImage) -> (px: Vec<Rgb>)
    ensures
        px@ == sampled(img@),
        1 <= px@.len() <= SAMPLE_SIZE * SAMPLE_SIZE,
        img@.0 > 0 && img@.1 > 0 ==> forall|i: int|
            0 <= i < px@.len() ==> rgb_pixels(img@.2).contains(#[trigger] px@[i]),
{
    proof {
        use_type_invariant(img);
    }
    let bytes = resize_nearest(img.width, img.height, img.data.as_slice(), SAMPLE_SIZE);
    pixels_from_rgb8(bytes.as_slice())
}

/// Open the image, sample it and run the backend on its pixels; an image
/// that does not decode gives `ImageDecodeError` and the backend is not run.
pub fn extract(bytes: &[u8], ext: &str, backend: &dyn Backend, count: usize, iterations: u8) -> (r: Result<Vec<Rgb>, RwalError>)
    requires
        backend.accepts(count as nat, iterations as nat),
    ensures
        match decoded_rgb8(bytes@, ext@) {
            None => r is Err && r->Err_0 is ImageDecodeError,
            Some(d) => backend.produces(sampled(d), count as nat, iterations as nat, r),
        },
{
    let img = match open_image(bytes, ext) {
        Ok(img) => img,
        Err(e) => {
            return Err(e);
        },
    };
    let pixels = sample_pixels(&img);
    backend.generate(pixels.as_slice(), count, iterations)
}

} // verus!
