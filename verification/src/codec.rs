use vstd::prelude::*;
use image::ImageEncoder;

verus! {

/// The ways a conversion can fail.
#[derive(Clone, Copy, Debug, PartialEq, Eq, Structural)]
pub enum ConvertError {
    /// The input's container format could not be guessed at all.
    InvalidInput,
    /// The format was guessed but the payload could not be decoded.
    UnsupportedFormat,
    /// The requested board has zero columns or zero rows.
    InvalidBoardSize,
    /// The rendered raster cannot be encoded; an internal failure.
    EncodeFailure,
}

/// Whether the built-in container-format signatures match the given bytes;
/// a function of the bytes alone.
pub uninterp spec fn guessable(bytes: Seq<u8>) -> bool;

/// Whether the given bytes decode as an image of their guessed built-in
/// format; a function of the bytes alone. Bytes that decode always have a
/// guessable format.
pub uninterp spec fn decode_ok(bytes: Seq<u8>) -> bool;

/// The luminance raster that decoding the given encoded image and resizing
/// it to the given dimensions with nearest-neighbor sampling yields; a
/// function of the bytes and the requested size alone.
pub uninterp spec fn decoded_of(bytes: Seq<u8>, width: int, height: int) -> Seq<u8>;

/// The JPEG encoding of a luminance raster of the given dimensions at the
/// fixed default quality; a function of the pixels and the size alone.
pub uninterp spec fn jpeg_of(pixels: Seq<u8>, width: int, height: int) -> Seq<u8>;

/// Relies on image's `guess_format` (built-in content signatures only; it
/// consults no process-global hook registry), `ImageReader::with_format`
/// and `decode` (a format set by `with_format` is `BuiltIn`, whose decoding
/// path likewise consults no hook registry), `DynamicImage::resize_exact`
/// with nearest-neighbor filtering, `to_luma8` and `ImageBuffer::into_raw`:
/// together they turn an encoded image into a luminance raster of exactly
/// `width` times `height` bytes, and every step is a function of the input
/// bytes and the requested size alone. Fails with `InvalidInput` exactly
/// when no built-in signature matches the content, and with
/// `UnsupportedFormat` exactly when a signature matches but the payload
/// cannot be decoded.
#[verifier::external_body]
pub(crate) fn decode_and_resize(bytes: &[u8], width: u32, height: u32) -> (r: Result<
    Vec<u8>,
    ConvertError,
>)
    ensures
        r matches Ok(v) ==> v@.len() == width as int * height as int && v@ == decoded_of(
            bytes@,
            width as int,
            height as int,
        ),
        r is Ok <==> decode_ok(bytes@),
        (r is Err && r->Err_0 == ConvertError::InvalidInput) <==> !guessable(bytes@),
        (r is Err && r->Err_0 == ConvertError::UnsupportedFormat) <==> (guessable(bytes@)
            && !decode_ok(bytes@)),
{
    let format = match image::guess_format(bytes) {
        Ok(f) => f,
        Err(_) => return Err(ConvertError::InvalidInput),
    };
    let reader = image::ImageReader::with_format(std::io::Cursor::new(bytes), format);
    let img = match reader.decode() {
        Ok(i) => i,
        Err(_) => return Err(ConvertError::UnsupportedFormat),
    };
    let buf = img.resize_exact(width, height, image::imageops::FilterType::Nearest).to_luma8();
    Ok(buf.into_raw())
}

/// Relies on image's `JpegEncoder::write_image` with `ExtendedColorType::L8`
/// at the default quality: it encodes a `width` times `height` luminance
/// raster as JPEG bytes, a function of the pixels and the dimensions alone.
/// The encoder asserts that the buffer length matches the dimensions, so
/// that is required here. Writing goes to an in-memory buffer, and the
/// encoder's only remaining error is a dimension outside 1..=65535, so
/// encoding in-range rasters succeeds.
#[verifier::external_body]
pub(crate) fn encode_jpeg(pixels: &Vec<u8>, width: u32, height: u32) -> (r: Result<
    Vec<u8>,
    ConvertError,
>)
    requires
        pixels@.len() == width as int * height as int,
    ensures
        r matches Ok(v) ==> v@ == jpeg_of(pixels@, width as int, height as int),
        r matches Err(e) ==> e == ConvertError::EncodeFailure,
        1 <= width <= 65535 && 1 <= height <= 65535 ==> r is Ok,
{
    let mut out: Vec<u8> = Vec::new();
    let encoder = image::codecs::jpeg::JpegEncoder::new(&mut out);
    match encoder.write_image(pixels, width, height, image::ExtendedColorType::L8) {
        Ok(()) => Ok(out),
        Err(_) => Err(ConvertError::EncodeFailure),
    }
}

} // verus!
