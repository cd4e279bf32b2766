//! Reference stills: frames kept as PNG files to compare with.

use crate::cache_support::{cache_root, cache_root_dir};
use crate::paths::{join, join_path};
use crate::text::{begins, decimal, option_view, owned, push_decimal};
use vstd::prelude::*;
use vstd::string::*;

verus! {

/// The directory of the stills.
pub open spec fn stills_dir(cache_home: Option<Seq<char>>, home: Option<Seq<char>>) -> Seq<char> {
    cache_root("reference_stills"@, cache_home, home)
}

/// The directory of the stills, from the environment.
pub fn reference_stills_dir(cache_home: &Option<String>, home: &Option<String>) -> (r: String)
    ensures
        r@ == stills_dir(option_view(*cache_home), option_view(*home)),
{
    cache_root_dir("reference_stills", cache_home, home)
}

/// The path of a still.
pub fn still_path(filename: &str, cache_home: &Option<String>, home: &Option<String>) -> (r: String)
    ensures
        r@ == join_path(stills_dir(option_view(*cache_home), option_view(*home)), filename@),
{
    join(&reference_stills_dir(cache_home, home), filename)
}

/// The file name of a new still.
pub fn filename_for_id(id: &str) -> (r: String)
    ensures
        r@ == id@ + ".png"@,
{
    let mut r = owned(id);
    r.append(".png");
    r
}

/// A frame: rows of pixels of red, green, blue and alpha.
#[derive(Debug)]
pub struct ScopeFrame {
    pub data: Vec<u8>,
    pub width: usize,
    pub height: usize,
}

/// A picture as it stands in a PNG file: its size, the bits of a sample, the number of its colour
/// type and its bytes.
#[derive(Debug)]
pub struct RawPng {
    pub width: u32,
    pub height: u32,
    pub depth: u8,
    pub color: u8,
    pub data: Vec<u8>,
}

/// Where the work on a PNG file stopped, with the words of the codec.
#[derive(Debug)]
pub enum PngFailure {
    Header(String),
    Pixels(String),
}

/// The colour type of pixels with three samples.
pub const COLOR_RGB: u8 = 2;

/// The colour type of pixels with four samples.
pub const COLOR_RGBA: u8 = 6;

/// The picture in the bytes of a PNG file, with its size, bits for each sample, colour type and
/// rows; none where the bytes cannot be decoded.
pub uninterp spec fn png_image(bytes: Seq<u8>) -> Option<(u32, u32, u8, u8, Seq<u8>)>;

/// The number in four bytes, the highest first.
pub open spec fn four_bytes(s: Seq<u8>, at: int) -> int {
    ((s[at] * 256 + s[at + 1]) * 256 + s[at + 2]) * 256 + s[at + 3]
}

/// The bits of a pixel, by the bits of a sample and the colour type in a header; none where the two
/// do not go together.
pub open spec fn pixel_bits(depth: u8, color: u8) -> int {
    let small = depth == 1 || depth == 2 || depth == 4;
    let large = depth == 8 || depth == 16;
    if color == 0 && (small || large) {
        depth as int
    } else if color == COLOR_RGB && large {
        3 * depth
    } else if color == 3 && (small || depth == 8) {
        depth as int
    } else if color == 4 && large {
        2 * depth
    } else if color == COLOR_RGBA && large {
        4 * depth
    } else {
        0
    }
}

/// The bytes of a picture, whose rows each fill whole bytes.
pub open spec fn picture_bytes(width: int, height: int, bits: int) -> int {
    (width * bits + 7) / 8 * height
}

/// Whether memory for the picture can be asked for, by what the header states. Shorter files hold
/// no header.
pub open spec fn fits_memory(bytes: Seq<u8>) -> bool {
    bytes.len() < 26 || picture_bytes(
        four_bytes(bytes, 16),
        four_bytes(bytes, 20),
        pixel_bits(bytes[24], bytes[25]),
    ) <= isize::MAX
}

/// `Decoder::new`, `Decoder::read_info` and `Reader::next_frame` of png: the picture in the bytes
/// of a file, without any transformation. That bytes which cannot be decoded give an error, and
/// others their picture, is all that is claimed; what the picture is has the name `png_image`.
#[verifier::external_body]
fn decode_png(bytes: &Vec<u8>) -> (r: Result<RawPng, PngFailure>)
    requires
        fits_memory(bytes@),
    ensures
        match r {
            Ok(p) => png_image(bytes@) == Some((p.width, p.height, p.depth, p.color, p.data@)),
            Err(_) => png_image(bytes@) is None,
        },
{
    let decoder = png::Decoder::new(bytes.as_slice());
    let mut reader = decoder.read_info().map_err(|e| PngFailure::Header(e.to_string()))?;
    let mut data = vec![0u8; reader.output_buffer_size()];
    let info = reader.next_frame(&mut data).map_err(|e| PngFailure::Pixels(e.to_string()))?;
    data.truncate(info.buffer_size());
    let depth = info.bit_depth as u8;
    let color = info.color_type as u8;
    Ok(RawPng { width: info.width, height: info.height, depth, color, data })
}

/// `Encoder::write_header` and `Writer::write_image_data` of png, into memory: the bytes of a file
/// with eight bits for each sample and pixels of red, green, blue and alpha. It fails where the
/// size is zero or does not match the bytes, and else gives a file, whose header states the size and
/// the kind of pixels: a picture that memory holds already fits there again. The format is lossless:
/// where a row is within the 64 MiB that the decoder takes, the file decodes to the picture.
#[verifier::external_body]
fn encode_png(width: u32, height: u32, data: &Vec<u8>) -> (r: Result<Vec<u8>, PngFailure>)
    requires
        width * height * 4 <= usize::MAX,
    ensures
        match r {
            Ok(bytes) => width > 0 && height > 0 && data@.len() == width * height * 4
                && fits_memory(bytes@) && (width <= 0x100_0000 ==> png_image(bytes@) == Some(
                (width, height, 8u8, COLOR_RGBA, data@),
            )),
            Err(_) => width == 0 || height == 0 || data@.len() != width * height * 4,
        },
{
    let mut bytes = Vec::new();
    let mut encoder = png::Encoder::new(&mut bytes, width, height);
    encoder.set_color(png::ColorType::Rgba);
    encoder.set_depth(png::BitDepth::Eight);
    let mut writer = encoder.write_header().map_err(|e| PngFailure::Header(e.to_string()))?;
    writer.write_image_data(data).map_err(|e| PngFailure::Pixels(e.to_string()))?;
    drop(writer);
    Ok(bytes)
}

/// The product, at most the largest number.
pub open spec fn saturated(n: int) -> int {
    if n > usize::MAX {
        usize::MAX as int
    } else {
        n
    }
}

/// The bytes that a frame of this size has.
pub open spec fn frame_bytes(width: usize, height: usize) -> int {
    saturated(saturated(width * height) * 4)
}

/// Why a frame is not written.
pub open spec fn frame_problem(frame: ScopeFrame) -> Option<Seq<char>> {
    let need = frame_bytes(frame.width, frame.height);
    if frame.width == 0 || frame.height == 0 {
        Some("frame has zero dimensions"@)
    } else if frame.data@.len() < need {
        Some(
            "frame buffer incomplete: have "@ + decimal(frame.data@.len()) + ", need "@ + decimal(
                need as nat,
            ),
        )
    } else {
        None
    }
}

fn capped_product(a: usize, b: usize) -> (r: usize)
    ensures
        r == saturated(a * b),
{
    match a.checked_mul(b) {
        Some(n) => n,
        None => usize::MAX,
    }
}

proof fn lemma_saturation(w: usize, h: usize)
    ensures
        frame_bytes(w, h) % 4 == 0 <==> w * h * 4 <= usize::MAX,
        w * h * 4 <= usize::MAX ==> frame_bytes(w, h) == w * h * 4,
{
    assert(w * h >= 0) by (nonlinear_arith);
    assert(usize::MAX % 4 == 3);
}

proof fn lemma_smaller_frame(w: int, h: int, w1: int, h1: int)
    requires
        0 < w,
        0 < h,
        0 <= w1 <= w,
        0 <= h1 <= h,
    ensures
        w1 * h1 * 4 <= w * h * 4,
        w1 * h1 * 4 == w * h * 4 ==> w1 == w && h1 == h,
{
    assert(w1 * h1 <= w * h) by (nonlinear_arith)
        requires
            0 < w,
            0 < h,
            0 <= w1 <= w,
            0 <= h1 <= h,
    ;
    if w1 * h1 == w * h {
        assert(w1 == w && h1 == h) by (nonlinear_arith)
            requires
                0 < w,
                0 < h,
                0 <= w1 <= w,
                0 <= h1 <= h,
                w1 * h1 == w * h,
        ;
    }
}

/// What is said of a failure: the words for the stage, then those of the codec.
fn failure_text(header: &str, pixels: &str, e: PngFailure) -> (r: String)
    ensures
        r@ == (match e {
            PngFailure::Header(m) => header@ + m@,
            PngFailure::Pixels(m) => pixels@ + m@,
        }),
        begins(r@, header@) || begins(r@, pixels@),
{
    match e {
        PngFailure::Header(m) => {
            let mut r = owned(header);
            r.append(&m);
            proof {
                assert(r@.subrange(0, header@.len() as int) =~= header@);
            }
            r
        },
        PngFailure::Pixels(m) => {
            let mut r = owned(pixels);
            r.append(&m);
            proof {
                assert(r@.subrange(0, pixels@.len() as int) =~= pixels@);
            }
            r
        },
    }
}

/// Writes a frame as the bytes of a PNG file. Bytes of the frame beyond its size are left out. A
/// frame whose sides the format can hold is always written.
pub fn write_png(frame: &ScopeFrame) -> (r: Result<Vec<u8>, String>)
    ensures
        frame_problem(*frame) matches Some(e) ==> (r matches Err(x) && x@ == e),
        frame_problem(*frame) is None ==> (r is Ok <==> frame.width <= u32::MAX && frame.height
            <= u32::MAX && frame.width * frame.height * 4 <= usize::MAX),
        frame_problem(*frame) is None ==> (r matches Err(x) ==> begins(x@, "png header: "@) || begins(
            x@,
            "png write: "@,
        )),
        r matches Ok(bytes) ==> fits_memory(bytes@),
        r matches Ok(bytes) ==> frame.width <= 0x100_0000 ==> png_image(bytes@) == Some(
            (
                frame.width as u32,
                frame.height as u32,
                8u8,
                COLOR_RGBA,
                frame.data@.subrange(0, frame.width * frame.height * 4),
            ),
        ),
{
    let w: usize = frame.width;
    let h: usize = frame.height;
    if w == 0 || h == 0 {
        return Err(owned("frame has zero dimensions"));
    }
    let expected: usize = capped_product(capped_product(w, h), 4);
    proof {
        assert(expected == frame_bytes(w, h));
    }
    if frame.data.len() < expected {
        let mut e = owned("frame buffer incomplete: have ");
        push_decimal(&mut e, frame.data.len() as u64);
        e.append(", need ");
        push_decimal(&mut e, expected as u64);
        return Err(e);
    }
    if expected % 4 != 0 {
        let e = owned("png write: frame too large");
        proof {
            lemma_saturation(w, h);
            reveal_strlit("png write: ");
            reveal_strlit("png write: frame too large");
            assert(e@.subrange(0, 11) =~= "png write: "@);
        }
        return Err(e);
    }
    let ghost size = w * h * 4;
    proof {
        lemma_saturation(w, h);
        assert((w as u32) <= w && (w <= 0xffff_ffff ==> (w as u32) == w)) by (bit_vector);
        assert((h as u32) <= h && (h <= 0xffff_ffff ==> (h as u32) == h)) by (bit_vector);
        lemma_smaller_frame(w as int, h as int, (w as u32) as int, (h as u32) as int);
    }
    let mut pixels: Vec<u8> = Vec::new();
    let mut i: usize = 0;
    proof {
        assert(pixels@ =~= frame.data@.subrange(0, 0));
    }
    while i < expected
        invariant
            i <= expected <= frame.data@.len(),
            pixels@ == frame.data@.subrange(0, i as int),
        decreases expected - i,
    {
        pixels.push(frame.data[i]);
        i = i + 1;
        proof {
            assert(pixels@ =~= frame.data@.subrange(0, i as int));
        }
    }
    proof {
        assert(pixels@.len() == size);
    }
    match encode_png(w as u32, h as u32, &pixels) {
        Ok(bytes) => Ok(bytes),
        Err(e) => Err(failure_text("png header: ", "png write: ", e)),
    }
}

/// A still that can be drawn: rows of pixels of red, green, blue and alpha.
#[derive(Debug)]
pub struct DecodedStill {
    pub rgba: Vec<u8>,
    pub width: u32,
    pub height: u32,
}

/// Opaque pixels with four samples from pixels with three. Bytes that make no pixel are left out.
pub open spec fn opaque_pixels(rgb: Seq<u8>) -> Seq<u8> {
    Seq::new(
        rgb.len() / 3 * 4,
        |i: int|
            if i % 4 == 3 {
                255
            } else {
                rgb[i / 4 * 3 + i % 4]
            },
    )
}

/// The name of a number of bits for each sample.
pub open spec fn depth_name(depth: u8) -> Seq<char> {
    if depth == 1 {
        "One"@
    } else if depth == 2 {
        "Two"@
    } else if depth == 4 {
        "Four"@
    } else if depth == 8 {
        "Eight"@
    } else {
        "Sixteen"@
    }
}

/// The name of a colour type.
pub open spec fn color_name(color: u8) -> Seq<char> {
    if color == 0 {
        "Grayscale"@
    } else if color == COLOR_RGB {
        "Rgb"@
    } else if color == 3 {
        "Indexed"@
    } else if color == 4 {
        "GrayscaleAlpha"@
    } else {
        "Rgba"@
    }
}

/// The still that a picture gives, with its size and pixels, or why it gives none. Only eight bits
/// for each sample are taken, with or without alpha.
pub open spec fn still_of(p: (u32, u32, u8, u8, Seq<u8>)) -> Result<
    (u32, u32, Seq<u8>),
    Seq<char>,
> {
    if p.2 != 8 {
        Err("unsupported PNG bit depth: "@ + depth_name(p.2))
    } else if p.3 == COLOR_RGBA {
        Ok((p.0, p.1, p.4))
    } else if p.3 == COLOR_RGB {
        Ok((p.0, p.1, opaque_pixels(p.4)))
    } else {
        Err("unsupported PNG color type: "@ + color_name(p.3))
    }
}

fn depth_text(depth: u8) -> (r: &'static str)
    ensures
        r@ == depth_name(depth),
{
    if depth == 1 {
        "One"
    } else if depth == 2 {
        "Two"
    } else if depth == 4 {
        "Four"
    } else if depth == 8 {
        "Eight"
    } else {
        "Sixteen"
    }
}

fn color_text(color: u8) -> (r: &'static str)
    ensures
        r@ == color_name(color),
{
    if color == 0 {
        "Grayscale"
    } else if color == COLOR_RGB {
        "Rgb"
    } else if color == 3 {
        "Indexed"
    } else if color == 4 {
        "GrayscaleAlpha"
    } else {
        "Rgba"
    }
}

fn made_opaque(rgb: &Vec<u8>) -> (r: Vec<u8>)
    ensures
        r@ == opaque_pixels(rgb@),
{
    let mut out: Vec<u8> = Vec::new();
    let pixels: usize = rgb.len() / 3;
    let mut k: usize = 0;
    while k < pixels
        invariant
            k <= pixels,
            pixels == rgb@.len() / 3,
            rgb@.len() <= usize::MAX,
            out@.len() == k * 4,
            forall|i: int| 0 <= i < k * 4 ==> #[trigger] out@[i] == opaque_pixels(rgb@)[i],
        decreases pixels - k,
    {
        out.push(rgb[k * 3]);
        out.push(rgb[k * 3 + 1]);
        out.push(rgb[k * 3 + 2]);
        out.push(255);
        k = k + 1;
    }
    proof {
        assert(out@ =~= opaque_pixels(rgb@));
    }
    out
}

/// `still_of` a picture that has been decoded.
pub fn still_from(p: RawPng) -> (r: Result<DecodedStill, String>)
    ensures
        match still_of((p.width, p.height, p.depth, p.color, p.data@)) {
            Ok(s) => r matches Ok(d) && (d.width, d.height, d.rgba@) == s,
            Err(e) => r matches Err(x) && x@ == e,
        },
{
    if p.depth != 8 {
        let mut e = owned("unsupported PNG bit depth: ");
        e.append(depth_text(p.depth));
        return Err(e);
    }
    if p.color == COLOR_RGBA {
        return Ok(DecodedStill { rgba: p.data, width: p.width, height: p.height });
    }
    if p.color == COLOR_RGB {
        let rgba = made_opaque(&p.data);
        return Ok(DecodedStill { rgba, width: p.width, height: p.height });
    }
    let mut e = owned("unsupported PNG color type: ");
    e.append(color_text(p.color));
    Err(e)
}

fn bits_of_pixel(depth: u8, color: u8) -> (r: u32)
    ensures
        r == pixel_bits(depth, color),
        r <= 64,
{
    let small: bool = depth == 1 || depth == 2 || depth == 4;
    let large: bool = depth == 8 || depth == 16;
    if color == 0 && (small || large) {
        depth as u32
    } else if color == COLOR_RGB && large {
        3 * depth as u32
    } else if color == 3 && (small || depth == 8) {
        depth as u32
    } else if color == 4 && large {
        2 * depth as u32
    } else if color == COLOR_RGBA && large {
        4 * depth as u32
    } else {
        0
    }
}

/// Whether the picture that the bytes announce can be held in memory.
pub fn announced_size_fits(bytes: &Vec<u8>) -> (r: bool)
    ensures
        r == fits_memory(bytes@),
{
    if bytes.len() < 26 {
        return true;
    }
    let w: u128 = ((bytes[16] as u128 * 256 + bytes[17] as u128) * 256 + bytes[18] as u128) * 256
        + bytes[19] as u128;
    let h: u128 = ((bytes[20] as u128 * 256 + bytes[21] as u128) * 256 + bytes[22] as u128) * 256
        + bytes[23] as u128;
    let bits: u128 = bits_of_pixel(bytes[24], bytes[25]) as u128;
    proof {
        assert(w * bits <= 0xffff_ffff * 64) by (nonlinear_arith)
            requires
                w <= 0xffff_ffff,
                bits <= 64,
        ;
    }
    let row: u128 = (w * bits + 7) / 8;
    proof {
        assert(row * h <= 0xffff_ffff * 9 * 0xffff_ffff) by (nonlinear_arith)
            requires
                row <= 0xffff_ffff * 9,
                h <= 0xffff_ffff,
        ;
    }
    row * h <= isize::MAX as u128
}

/// Loads a still from the bytes of a PNG file.
pub fn load_decoded(bytes: &Vec<u8>) -> (r: Result<DecodedStill, String>)
    requires
        fits_memory(bytes@),
    ensures
        match png_image(bytes@) {
            Some(p) => match still_of(p) {
                Ok(s) => r matches Ok(d) && (d.width, d.height, d.rgba@) == s,
                Err(e) => r matches Err(x) && x@ == e,
            },
            None => r matches Err(x) && (begins(x@, "png read_info: "@) || begins(
                x@,
                "png next_frame: "@,
            )),
        },
{
    match decode_png(bytes) {
        Ok(p) => still_from(p),
        Err(e) => Err(failure_text("png read_info: ", "png next_frame: ", e)),
    }
}

/// A frame that was written comes back as it was: a file that holds what `write_png` promises
/// gives the size and the pixels of the frame.
pub proof fn lemma_written_frame_reads_back(frame: ScopeFrame, bytes: Seq<u8>)
    requires
        png_image(bytes) == Some(
            (
                frame.width as u32,
                frame.height as u32,
                8u8,
                COLOR_RGBA,
                frame.data@.subrange(0, frame.width * frame.height * 4),
            ),
        ),
    ensures
        png_image(bytes) matches Some(p) && still_of(p) == Ok::<(u32, u32, Seq<u8>), Seq<char>>(
            (
                frame.width as u32,
                frame.height as u32,
                frame.data@.subrange(0, frame.width * frame.height * 4),
            ),
        ),
{
}

/// Pixels that are made opaque keep their colours.
pub proof fn lemma_opaque_keeps_colours(rgb: Seq<u8>, pixel: int, sample: int)
    requires
        0 <= pixel < rgb.len() / 3,
        0 <= sample < 3,
    ensures
        opaque_pixels(rgb)[pixel * 4 + sample] == rgb[pixel * 3 + sample],
        opaque_pixels(rgb)[pixel * 4 + 3] == 255,
{
}

/// Pixels that are made opaque are so: every fourth byte is full, and there are as many pixels as
/// before.
pub proof fn lemma_opaque_is_opaque(rgb: Seq<u8>, pixel: int)
    requires
        0 <= pixel,
        3 * pixel + 2 < rgb.len(),
    ensures
        opaque_pixels(rgb).len() == rgb.len() / 3 * 4,
        opaque_pixels(rgb)[4 * pixel] == rgb[3 * pixel],
        opaque_pixels(rgb)[4 * pixel + 1] == rgb[3 * pixel + 1],
        opaque_pixels(rgb)[4 * pixel + 2] == rgb[3 * pixel + 2],
        opaque_pixels(rgb)[4 * pixel + 3] == 255,
{
    assert((4 * pixel) / 4 == pixel && (4 * pixel) % 4 == 0);
    assert((4 * pixel + 1) / 4 == pixel && (4 * pixel + 1) % 4 == 1);
    assert((4 * pixel + 2) / 4 == pixel && (4 * pixel + 2) % 4 == 2);
    assert((4 * pixel + 3) / 4 == pixel && (4 * pixel + 3) % 4 == 3);
}

/// A picture with eight bits and transparency is taken as it is; one without gets opaque pixels; no
/// other is taken.
pub proof fn lemma_still_of(width: u32, height: u32, depth: u8, color: u8, pixels: Seq<u8>)
    ensures
        match still_of((width, height, depth, color, pixels)) {
            Ok(s) => depth == 8 && s.0 == width && s.1 == height && ((color == COLOR_RGBA && s.2
                == pixels) || (color == COLOR_RGB && s.2 == opaque_pixels(pixels))),
            Err(_) => depth != 8 || (color != COLOR_RGBA && color != COLOR_RGB),
        },
{
}

/// A frame needs four bytes for each pixel.
pub proof fn lemma_frame_bytes(width: usize, height: usize)
    ensures
        width * height * 4 <= usize::MAX ==> frame_bytes(width, height) == width * height * 4,
        width * height * 4 > usize::MAX ==> frame_bytes(width, height) == usize::MAX,
{
    assert(width * height >= 0) by (nonlinear_arith);
}

} // verus!
