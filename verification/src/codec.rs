use vstd::prelude::*;

use image::ImageEncoder;

use crate::canvas::Canvas;
use crate::error::RenderError;

verus! {

/// The PNG encoding of an RGBA8 pixel buffer: a pure function of the bytes
/// and the dimensions.
pub uninterp spec fn png_of(data: Seq<u8>, width: u32, height: u32) -> Seq<u8>;

/// Relies on `image::codecs::png::PngEncoder::write_image` (RGBA8, no
/// palette, no interlacing): writing into a `Vec` with matching dimensions
/// has no failure path, the encoder is deterministic, and the stream begins
/// with the eight PNG signature bytes.
#[verifier::external_body]
fn encode_rgba_png(data: &Vec<u8>, width: u32, height: u32) -> (r: Vec<u8>)
    requires
        data@.len() == 4 * width * height,
        width > 0,
        height > 0,
    ensures
        r@ == png_of(data@, width, height),
        r@.len() > 8,
        r@[0] == 137 && r@[1] == 80 && r@[2] == 78 && r@[3] == 71,
        r@[4] == 13 && r@[5] == 10 && r@[6] == 26 && r@[7] == 10,
{
    let mut buf: Vec<u8> = Vec::new();
    let encoder = image::codecs::png::PngEncoder::new(&mut buf);
    encoder.write_image(data.as_slice(), width, height, image::ColorType::Rgba8).unwrap();
    buf
}

/// Decoding `bytes` answers `r`: whenever the bytes are the encoding of some
/// well-formed buffer, that very buffer and its dimensions come back.
pub open spec fn png_decodes_to(bytes: Seq<u8>, r: Option<(u32, u32, Vec<u8>)>) -> bool {
    forall|d: Seq<u8>, w: u32, h: u32|
        d.len() == 4 * w * h && w > 0 && h > 0 && bytes == #[trigger] png_of(d, w, h)
            ==> (r matches Some(t) && t.0 == w && t.1 == h && t.2@ == d)
}

/// Relies on `image::io::Reader` with its allocation limits lifted and
/// `to_rgba8`: PNG is lossless, so decoding an encoding of any size yields
/// the dimensions and the very bytes that were encoded.
#[verifier::external_body]
pub fn decode_png(bytes: &Vec<u8>) -> (r: Option<(u32, u32, Vec<u8>)>)
    ensures
        png_decodes_to(bytes@, r),
{
    let cur = std::io::Cursor::new(bytes.as_slice());
    let mut reader = image::io::Reader::with_format(cur, image::ImageFormat::Png);
    reader.no_limits();
    match reader.decode() {
        Ok(img) => {
            let rgba = img.to_rgba8();
            let (w, h) = (rgba.width(), rgba.height());
            Some((w, h, rgba.into_raw()))
        },
        Err(_) => None,
    }
}

/// Serialize a finished canvas to PNG bytes, RGBA8 channel order. A
/// well-formed canvas always encodes; the result is exactly the encoder's
/// stream, which starts with the PNG signature.
pub fn encode_png(canvas: &Canvas) -> (r: Result<Vec<u8>, RenderError>)
    requires
        canvas.wf(),
        canvas.width > 0,
        canvas.height > 0,
    ensures
        r matches Ok(b) && b@ == png_of(canvas.data@, canvas.width, canvas.height) && b@.len()
            > 0,
{
    Ok(encode_rgba_png(&canvas.data, canvas.width, canvas.height))
}

/// Encoding a canvas to PNG and decoding the bytes again yields the same
/// dimensions and the identical pixel buffer.
pub proof fn lemma_png_round_trip(c: Canvas, bytes: Vec<u8>, back: Option<(u32, u32, Vec<u8>)>)
    requires
        c.wf(),
        c.width > 0,
        c.height > 0,
        bytes@ == png_of(c.data@, c.width, c.height),
        png_decodes_to(bytes@, back),
    ensures
        back matches Some(t) && t.0 == c.width && t.1 == c.height && t.2@ == c.data@,
{
    assert(c.data@.len() == 4 * c.width * c.height);
}

} // verus!
