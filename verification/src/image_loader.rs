//! Plain image loading: the format is the one the file extension names.
use vstd::prelude::*;
use crate::colors::extractor::RgbImage;
use crate::error::RwalError;

verus! {

/// The image that `bytes` decode to, as 8-bit RGB (width, height, samples),
/// in the format the file extension `ext` names; `None` when the extension
/// names no known format or the bytes do not decode in it.
pub uninterp spec fn decoded_rgb8_as_named(bytes: Seq<u8>, ext: Seq<char>) -> Option<(u32, u32, Seq<u8>)>;

/// Decodes with the image crate as `image::io::Reader::open(path)` followed by
/// `decode` does: the format from the extension (`ImageFormat::from_extension`),
/// none when it names none (the decoder then refuses), then `to_rgb8`. The
/// result is named `decoded_rgb8_as_named`; on failure the decoder's message
/// is returned, and nothing is stated of it.
#[verifier::external_body]
fn decode_as_named(bytes: &[u8], ext: &str) -> (r: Result<(u32, u32, Vec<u8>), String>)
    ensures
        r is Err <==> decoded_rgb8_as_named(bytes@, ext@) is None,
        r is Ok ==> decoded_rgb8_as_named(bytes@, ext@) == Some((r->Ok_0.0, r->Ok_0.1, r->Ok_0.2@)),
        r is Ok ==> r->Ok_0.2@.len() == 3 * r->Ok_0.0 * r->Ok_0.1,
{
    let mut reader = ::image::io::Reader::new(std::io::Cursor::new(bytes));
    match ::image::ImageFormat::from_extension(ext) {
        Some(format) => reader.set_format(format),
        None => {},
    }
    match reader.decode() {
        Ok(img) => {
            let rgb = img.to_rgb8();
            Ok((rgb.width(), rgb.height(), rgb.into_raw()))
        },
        Err(e) => Err(e.to_string()),
    }
}

/// Load an image from its file's bytes in the format its extension names:
/// exactly the decoded image, or `ImageDecodeError` when it does not decode.
pub fn load_image(bytes: &[u8], ext: &str) -> (r: Result<RgbImage, RwalError>)
    ensures
        match decoded_rgb8_as_named(bytes@, ext@) {
            None => r is Err && r->Err_0 is ImageDecodeError,
            Some(d) => r is Ok && r->Ok_0@ == d,
        },
{
    match decode_as_named(bytes, ext) {
        Ok((width, height, data)) => match RgbImage::from_raw(width, height, data) {
            Some(img) => Ok(img),
            None => Err(RwalError::ImageDecodeError(String::new())),
        },
        Err(message) => Err(RwalError::ImageDecodeError(message)),
    }
}

} // verus!
