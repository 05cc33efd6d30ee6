use vstd::prelude::*;
use crate::error::ImgError;

verus! {

/// An 8-bit RGBA image buffer of the `image` crate, ready to be encoded. Verus does not
/// look inside it; what it holds is known through `rgba_buffer_bytes`.
#[verifier::external_body]
pub struct RgbaBuffer {
    /// The buffer itself, for the encoder.
    pub image: image::RgbaImage,
}

/// The raw channel bytes that an RGBA image buffer holds, row by row.
pub uninterp spec fn rgba_buffer_bytes(img: RgbaBuffer) -> Seq<u8>;

/// The width and height, in pixels, that an RGBA image buffer was made with.
pub uninterp spec fn rgba_buffer_dimensions(img: RgbaBuffer) -> (u32, u32);

/// `ImageBuffer::from_raw` for 8-bit RGBA pixels. The `image` crate builds the buffer
/// exactly when `data` holds at least `width * height * 4` bytes (its required size is
/// computed with checked arithmetic, so a size past `usize::MAX` never fits), and then
/// keeps `width`, `height` and `data` itself as the pixel storage.
#[verifier::external_body]
fn rgba_buffer_from_raw(width: u32, height: u32, data: Vec<u8>) -> (img: Option<RgbaBuffer>)
    ensures
        img is Some <==> width * height * 4 <= data@.len(),
        img matches Some(b) ==> rgba_buffer_bytes(b) == data@ && rgba_buffer_dimensions(b) == (width, height),
{
    image::ImageBuffer::from_raw(width, height, data).map(|image| RgbaBuffer { image })
}

/// `ImageBuffer::dimensions`: the width and height that the buffer holds.
#[verifier::external_body]
fn rgba_buffer_size(img: &RgbaBuffer) -> (dims: (u32, u32))
    ensures
        dims == rgba_buffer_dimensions(*img),
{
    img.image.dimensions()
}

/// `ImageBuffer::into_raw`: gives up the buffer and returns its pixel storage. Every
/// constructor of an `ImageBuffer` makes sure that the storage holds at least
/// `width * height` pixels, and no method shortens it.
#[verifier::external_body]
fn rgba_buffer_into_raw(img: RgbaBuffer) -> (data: Vec<u8>)
    ensures
        data@ == rgba_buffer_bytes(img),
        data@.len() >= rgba_buffer_dimensions(img).0 * rgba_buffer_dimensions(img).1 * 4,
{
    img.image.into_raw()
}

/// What the `image` crate makes of the file bytes `bytes` when it reads them in the format
/// that the file extension `ext` names, the decoded image turned into 8-bit RGBA: its
/// width, height and buffer, or the text of the error that it reports.
pub uninterp spec fn decoded_rgba(ext: Seq<char>, bytes: Seq<u8>) -> DecodeOutcome;

/// A decoded image (width, height, RGBA buffer), or the text of a decoding error.
pub type DecodeOutcome = Result<(u32, u32, Seq<u8>), Seq<char>>;

/// An encoded file, or the text of an encoding error.
pub type EncodeOutcome = Result<Seq<u8>, Seq<char>>;

/// What the `image` crate writes for a `width` x `height` RGBA image whose buffer is
/// `pixels`, in the format that the file extension `ext` names: the file bytes, or the
/// text of the error that it reports.
pub uninterp spec fn encoded_image(ext: Seq<char>, width: u32, height: u32, pixels: Seq<u8>) -> EncodeOutcome;

/// Decodes image file bytes with the `image` crate: `ImageFormat::from_extension` picks the
/// format from the extension `ext`, an extension that names none being reported as the
/// crate's unsupported-extension error, `load_from_memory_with_format` decodes the bytes, and
/// `DynamicImage::to_rgba8` converts the pixels. The contract claims only that the
/// outcome, the buffer or the error text, is `decoded_rgba` of `ext` and `bytes`.
#[verifier::external_body]
fn decode_rgba(ext: &str, bytes: &[u8]) -> (res: Result<RgbaBuffer, String>)
    ensures
        res matches Ok(b) ==> decoded_rgba(ext@, bytes@)
            == DecodeOutcome::Ok((rgba_buffer_dimensions(b).0, rgba_buffer_dimensions(b).1, rgba_buffer_bytes(b))),
        res matches Err(m) ==> decoded_rgba(ext@, bytes@) == DecodeOutcome::Err(m@),
{
    image::ImageFormat::from_extension(ext)
        .ok_or_else(|| image::ImageError::Unsupported(image::error::ImageFormatHint::PathExtension(ext.into()).into()))
        .and_then(|format| image::load_from_memory_with_format(bytes, format))
        .map(|img| RgbaBuffer { image: img.to_rgba8() })
        .map_err(|e| e.to_string())
}

/// Encodes an RGBA image buffer with the `image` crate: `ImageFormat::from_extension`
/// picks the format from the extension `ext`, an extension that names none being reported
/// as the crate's unsupported-extension error, and `DynamicImage::write_to` writes the
/// encoded file into memory. The PNG encoder asserts that the buffer holds exactly
/// `width * height` pixels, hence the `requires`. The contract claims only that the
/// outcome, the file bytes or the error text, is `encoded_image` of `ext` and of the
/// buffer's dimensions and bytes.
#[verifier::external_body]
fn encode_rgba(ext: &str, img: RgbaBuffer) -> (res: Result<Vec<u8>, String>)
    requires
        rgba_buffer_bytes(img).len() == rgba_buffer_dimensions(img).0 * rgba_buffer_dimensions(img).1 * 4,
    ensures
        res matches Ok(v) ==> encoded_image(ext@, rgba_buffer_dimensions(img).0, rgba_buffer_dimensions(img).1, rgba_buffer_bytes(img))
            == EncodeOutcome::Ok(v@),
        res matches Err(m) ==> encoded_image(ext@, rgba_buffer_dimensions(img).0, rgba_buffer_dimensions(img).1, rgba_buffer_bytes(img))
            == EncodeOutcome::Err(m@),
{
    let mut out = std::io::Cursor::new(Vec::new());
    image::ImageFormat::from_extension(ext)
        .ok_or_else(|| image::ImageError::Unsupported(image::error::ImageFormatHint::PathExtension(ext.into()).into()))
        .and_then(|format| image::DynamicImage::ImageRgba8(img.image).write_to(&mut out, format))
        .map(|()| out.into_inner())
        .map_err(|e| e.to_string())
}

/// A decoded image: its dimensions and its pixels as RGBA bytes, row by row.
pub struct ImageData {
    /// Width in pixels.
    pub width: u32,
    /// Height in pixels.
    pub height: u32,
    /// Four bytes per pixel (red, green, blue, alpha), rows from top to bottom.
    pub data: Vec<u8>,
}

/// Text of the error reported when the pixel bytes are too few for the dimensions.
pub open spec fn short_buffer_text() -> Seq<char> {
    "The parameter is malformed: Не удалось создать ImageBuffer из сырых данных"@
}

impl ImageData {
    /// Takes the dimensions and the pixel bytes out of an RGBA image buffer.
    pub fn from_rgba_buffer(buffer: RgbaBuffer) -> (img: Self)
        ensures
            (img.width, img.height) == rgba_buffer_dimensions(buffer),
            img.data@ == rgba_buffer_bytes(buffer),
            img.width * img.height * 4 <= img.data@.len(),
    {
        let (width, height) = rgba_buffer_size(&buffer);
        let data = rgba_buffer_into_raw(buffer);
        ImageData { width, height, data }
    }

    /// Turns the image into an RGBA image buffer of the `image` crate, ready to be
    /// encoded; fails when the pixel bytes are too few for the dimensions.
    pub fn into_rgba_buffer(self) -> (res: Result<RgbaBuffer, ImgError>)
        ensures
            res is Ok <==> self.width * self.height * 4 <= self.data@.len(),
            res matches Ok(b) ==> rgba_buffer_bytes(b) == self.data@ && rgba_buffer_dimensions(b) == (self.width, self.height),
            res matches Err(e) ==> e matches ImgError::Image(m) && m@ == short_buffer_text(),
    {
        match rgba_buffer_from_raw(self.width, self.height, self.data) {
            Some(buffer) => Ok(buffer),
            None => Err(ImgError::Image(String::from_str("The parameter is malformed: Не удалось создать ImageBuffer из сырых данных"))),
        }
    }

    /// Decodes the bytes of an image file whose extension is `ext` (such as `png`) into
    /// RGBA pixels; fails with an image error where the `image` crate cannot.
    pub fn decode(ext: &str, bytes: &[u8]) -> (res: Result<ImageData, ImgError>)
        ensures
            res is Ok <==> decoded_rgba(ext@, bytes@) is Ok,
            res matches Ok(img) ==> decoded_rgba(ext@, bytes@) == DecodeOutcome::Ok((img.width, img.height, img.data@)),
            res matches Ok(img) ==> img.width * img.height * 4 <= img.data@.len(),
            res matches Err(e) ==> e matches ImgError::Image(m) && decoded_rgba(ext@, bytes@) == DecodeOutcome::Err(m@),
    {
        match decode_rgba(ext, bytes) {
            Ok(buffer) => Ok(ImageData::from_rgba_buffer(buffer)),
            Err(m) => Err(ImgError::Image(m)),
        }
    }

    /// Encodes the image as a file in the format that the extension `ext` names (such as
    /// `png`); fails with an image error when the pixel bytes are too few for the
    /// dimensions, or where the `image` crate cannot encode it. More bytes than the
    /// dimensions take are not accepted: the encoder stops the program on them.
    pub fn encode(self, ext: &str) -> (res: Result<Vec<u8>, ImgError>)
        requires
            self.data@.len() <= self.width * self.height * 4,
        ensures
            res is Ok <==> self.width * self.height * 4 <= self.data@.len()
                && encoded_image(ext@, self.width, self.height, self.data@) is Ok,
            res matches Ok(v) ==> encoded_image(ext@, self.width, self.height, self.data@) == EncodeOutcome::Ok(v@),
            res matches Err(e) ==> e matches ImgError::Image(m) && if self.width * self.height * 4 > self.data@.len() {
                m@ == short_buffer_text()
            } else {
                encoded_image(ext@, self.width, self.height, self.data@) == EncodeOutcome::Err(m@)
            },
    {
        match self.into_rgba_buffer() {
            Ok(buffer) => match encode_rgba(ext, buffer) {
                Ok(file) => Ok(file),
                Err(m) => Err(ImgError::Image(m)),
            },
            Err(e) => Err(e),
        }
    }
}

} // verus!
