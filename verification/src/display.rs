//! What leaves the buffer for a screen or a file: packed window pixels and
//! an encoded PNG stream.

use crate::image::Image;
use vstd::prelude::*;

verus! {

/// The 32-bit window pixel of an opaque colour: alpha 255 in the top byte,
/// then red, green and blue.
pub open spec fn argb(r: u8, g: u8, b: u8) -> u32 {
    (0xff00_0000 + r as int * 0x1_0000 + g as int * 0x100 + b as int) as u32
}

/// Packs one colour into a window pixel.
pub fn pack_argb(r: u8, g: u8, b: u8) -> (pixel: u32)
    ensures
        pixel == argb(r, g, b),
        pixel >> 24 == 0xff,
        (pixel >> 16) & 0xff == r,
        (pixel >> 8) & 0xff == g,
        pixel & 0xff == b,
{
    let red: u32 = r as u32;
    let green: u32 = g as u32;
    let blue: u32 = b as u32;
    let pixel: u32 = 0xff << 24 | red << 16 | green << 8 | blue;
    assert(pixel == 0xff00_0000 + red * 0x1_0000 + green * 0x100 + blue && pixel >> 24 == 0xff
        && (pixel >> 16) & 0xff == red && (pixel >> 8) & 0xff == green && pixel & 0xff == blue)
        by (bit_vector)
        requires
            red < 256,
            green < 256,
            blue < 256,
            pixel == 0xffu32 << 24 | red << 16 | green << 8 | blue,
    ;
    pixel
}

/// A window frame from displayable bytes: one packed pixel for every three
/// bytes, in the same order. Bytes after the last full triple are left out.
pub fn argb_frame(rgb: &Vec<u8>) -> (frame: Vec<u32>)
    ensures
        frame@.len() == rgb@.len() / 3,
        forall|k: int|
            0 <= k < frame@.len() ==> #[trigger] frame@[k] == argb(
                rgb@[3 * k],
                rgb@[3 * k + 1],
                rgb@[3 * k + 2],
            ),
{
    let n: usize = rgb.len() / 3;
    let mut frame: Vec<u32> = Vec::new();
    let mut k: usize = 0;
    while k < n
        invariant
            k <= n,
            n == rgb@.len() / 3,
            frame@.len() == k,
            forall|m: int|
                0 <= m < k ==> #[trigger] frame@[m] == argb(
                    rgb@[3 * m],
                    rgb@[3 * m + 1],
                    rgb@[3 * m + 2],
                ),
        decreases n - k,
    {
        assert(3 * k + 2 < rgb@.len() == rgb.len());
        let at: usize = 3 * k;
        frame.push(pack_argb(rgb[at], rgb[at + 1], rgb[at + 2]));
        k = k + 1;
    }
    frame
}

/// The error type of the `png` crate's encoder, carried through unread.
#[verifier::external_type_specification]
#[verifier::external_body]
pub struct ExEncodingError(png::EncodingError);

/// What the `png` crate's encoder makes of an image of `width` by `height`
/// pixels, eight bits a channel, red, green, blue, whose rows from the top
/// down are `rgb`: the PNG stream that it writes, or `None` where it gives
/// up.
pub uninterp spec fn png_stream(width: u32, height: u32, rgb: Seq<u8>) -> Option<Seq<u8>>;

/// Runs `png::Encoder` over a sink in memory: `Encoder::new`, colour type
/// RGB, bit depth eight, `write_header`, `Writer::write_image_data`, and the
/// closing chunk that dropping the writer appends.
///
/// Believed, not proved: whether the encoder succeeds, and the stream that
/// it writes, depend on these dimensions and bytes alone, since the sink is
/// a vector in memory and the encoder reads nothing else. Nothing is claimed
/// of which inputs succeed. Zero dimensions and a buffer of another
/// size than `3 * width * height`, which the encoder refuses, are kept away.
#[verifier::external_body]
fn write_png(width: u32, height: u32, rgb: &Vec<u8>) -> (outcome: Result<
    Vec<u8>,
    png::EncodingError,
>)
    requires
        width > 0,
        height > 0,
        rgb@.len() == 3 * (width as int * height as int),
    ensures
        match outcome {
            Ok(stream) => png_stream(width, height, rgb@) == Some(stream@),
            Err(_) => png_stream(width, height, rgb@).is_none(),
        },
{
    let mut sink: Vec<u8> = Vec::new();
    let mut encoder = png::Encoder::new(&mut sink, width, height);
    encoder.set_color(png::ColorType::RGB);
    encoder.set_depth(png::BitDepth::Eight);
    let mut writer = encoder.write_header()?;
    writer.write_image_data(rgb)?;
    drop(writer);
    Ok(sink)
}

/// Why an image could not be encoded.
#[derive(Clone, Copy, Debug, PartialEq, Eq, Structural)]
pub enum SaveError {
    /// The image has no pixels: its width or its height is zero.
    EmptyImage,
    /// The bytes are not three for every pixel.
    WrongSize,
    /// The encoder gave up.
    Encoder,
}

/// What `encode_png` returns for an outcome of the encoder: the stream as it
/// is, or `SaveError::Encoder` for any failure.
pub fn encoded(outcome: Result<Vec<u8>, png::EncodingError>) -> (r: Result<Vec<u8>, SaveError>)
    ensures
        match outcome {
            Ok(stream) => r == Ok::<Vec<u8>, SaveError>(stream),
            Err(_) => r == Err::<Vec<u8>, SaveError>(SaveError::Encoder),
        },
{
    match outcome {
        Ok(stream) => Ok(stream),
        Err(_) => Err(SaveError::Encoder),
    }
}

/// Whether `len` bytes are three for every pixel of a `width` by `height`
/// image.
pub open spec fn fits(width: u32, height: u32, len: int) -> bool {
    len == 3 * (width as int * height as int)
}

/// Encodes displayable bytes, rows from the top down, as a PNG stream.
///
/// An image without pixels and a buffer of the wrong size are refused before
/// the encoder runs; past that the result is what the encoder makes of the
/// arguments: its stream, or `SaveError::Encoder` where it gives up.
pub fn encode_png(width: u32, height: u32, rgb: &Vec<u8>) -> (r: Result<Vec<u8>, SaveError>)
    ensures
        r == Err::<Vec<u8>, SaveError>(SaveError::EmptyImage) <==> width == 0 || height == 0,
        r == Err::<Vec<u8>, SaveError>(SaveError::WrongSize) <==> width > 0 && height > 0 && !fits(
            width,
            height,
            rgb@.len() as int,
        ),
        width > 0 && height > 0 && fits(width, height, rgb@.len() as int) ==> match png_stream(
            width,
            height,
            rgb@,
        ) {
            Some(s) => r matches Ok(stream) && stream@ == s,
            None => r == Err::<Vec<u8>, SaveError>(SaveError::Encoder),
        },
{
    if width == 0 || height == 0 {
        return Err(SaveError::EmptyImage);
    }
    assert(width as int * height as int <= 0xffff_ffff * 0xffff_ffff) by (nonlinear_arith)
        requires
            width <= 0xffff_ffff,
            height <= 0xffff_ffff,
    ;
    let pixels: u64 = width as u64 * height as u64;
    let wanted: u128 = 3 * (pixels as u128);
    if rgb.len() as u128 != wanted {
        return Err(SaveError::WrongSize);
    }
    encoded(write_png(width, height, rgb))
}

impl<P: Copy> Image<P> {
    /// The image as a PNG stream: a snapshot under `tone`, encoded.
    ///
    /// An image without pixels is refused; past that the result is what the
    /// encoder makes of a snapshot: its stream, or `SaveError::Encoder`
    /// where it gives up.
    pub fn to_png<F: Fn(P, u32) -> (u8, u8, u8)>(&self, tone: F) -> (r: Result<Vec<u8>, SaveError>)
        requires
            self.wf(),
            forall|k: int|
                0 <= k < self.data@.len() ==> call_requires(
                    tone,
                    (#[trigger] self.data@[k], self.spec_divisor()),
                ),
        ensures
            r == Err::<Vec<u8>, SaveError>(SaveError::EmptyImage) <==> self.width == 0
                || self.height == 0,
            r != Err::<Vec<u8>, SaveError>(SaveError::WrongSize),
            self.width > 0 && self.height > 0 ==> exists|rgb: Seq<u8>|
                self.is_snapshot(tone, rgb) && match png_stream(self.width, self.height, rgb) {
                    Some(s) => r matches Ok(stream) && stream@ == s,
                    None => r == Err::<Vec<u8>, SaveError>(SaveError::Encoder),
                },
    {
        let rgb: Vec<u8> = self.snapshot_rgb8(tone);
        let r = encode_png(self.width, self.height, &rgb);
        proof {
            if self.width > 0 && self.height > 0 {
                assert(fits(self.width, self.height, rgb@.len() as int));
                assert(self.is_snapshot(tone, rgb@));
            }
        }
        r
    }
}

} // verus!
