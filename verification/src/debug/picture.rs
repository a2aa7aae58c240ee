//! Pictures for the debug server.

use base64::Engine;
use vstd::prelude::*;

verus! {

/// Size of video memory in pixels.
pub const VRAM_WIDTH: u32 = 1024;

pub const VRAM_HEIGHT: u32 = 512;

/// Number of pixels of video memory.
pub const VRAM_PIXELS: usize = 524288;

/// Five bits of a channel spread over eight.
pub open spec fn widened(c: int) -> int {
    c * 8 + c / 4
}

/// The channels of a pixel in eight bits each.
pub open spec fn pixel_channels(px: u16) -> (int, int, int) {
    (
        widened((px as int) % 32),
        widened(((px as int) / 32) % 32),
        widened(((px as int) / 1024) % 32),
    )
}

/// The red, green and blue of a pixel; its top bit is ignored.
pub fn bgr555_to_rgb8(px: u16) -> (rgb: (u8, u8, u8))
    ensures
        (rgb.0 as int, rgb.1 as int, rgb.2 as int) == pixel_channels(px),
{
    let r5: u8 = (px & 0x1F) as u8;
    let g5: u8 = ((px >> 5) & 0x1F) as u8;
    let b5: u8 = ((px >> 10) & 0x1F) as u8;
    assert(px & 0x1F == px % 32 && (px >> 5) & 0x1F == (px / 32) % 32 && (px >> 10) & 0x1F == (px
        / 1024) % 32) by (bit_vector);
    (widen(r5), widen(g5), widen(b5))
}

fn widen(c: u8) -> (wide: u8)
    requires
        c < 32,
    ensures
        wide == widened(c as int),
{
    assert((c << 3) | (c >> 2) == c * 8 + c / 4) by (bit_vector)
        requires
            c < 32,
    ;
    (c << 3) | (c >> 2)
}

/// Pixels as opaque red, green, blue and alpha bytes.
pub open spec fn rgba_bytes(words: Seq<u16>) -> Seq<u8> {
    Seq::new(
        4 * words.len(),
        |i: int|
            {
                let channels = pixel_channels(words[i / 4]);
                if i % 4 == 0 {
                    channels.0 as u8
                } else if i % 4 == 1 {
                    channels.1 as u8
                } else if i % 4 == 2 {
                    channels.2 as u8
                } else {
                    255
                }
            },
    )
}

/// The pixels of video memory as bytes.
pub open spec fn vram_pixels(words: Seq<u16>) -> Seq<u16> {
    if words.len() <= 524288 {
        words
    } else {
        words.take(524288)
    }
}

/// The pixels of video memory as bytes.
pub fn vram_rgba(words: &Vec<u16>) -> (rgba: Vec<u8>)
    ensures
        rgba@ == rgba_bytes(vram_pixels(words@)),
{
    let mut rgba: Vec<u8> = Vec::new();
    let mut end: usize = words.len();
    if end > VRAM_PIXELS {
        end = VRAM_PIXELS;
    }
    let ghost pixels = vram_pixels(words@);
    let mut i: usize = 0;
    while i < end
        invariant
            pixels == vram_pixels(words@),
            end == pixels.len(),
            end <= words@.len(),
            i <= end,
            rgba@.len() == 4 * i,
            forall|j: int| 0 <= j < rgba@.len() ==> #[trigger] rgba@[j] == rgba_bytes(pixels)[j],
        decreases end - i,
    {
        let ghost before = rgba@;
        let (r, g, b) = bgr555_to_rgb8(words[i]);
        rgba.push(r);
        rgba.push(g);
        rgba.push(b);
        rgba.push(255);
        proof {
            assert(pixels[i as int] == words@[i as int]);
            let whole = rgba_bytes(pixels);
            assert forall|j: int| 0 <= j < rgba@.len() implies #[trigger] rgba@[j] == whole[j] by {
                if j < before.len() {
                    assert(rgba@[j] == before[j]);
                } else {
                    assert(j / 4 == i);
                }
            }
        }
        i = i + 1;
    }
    assert(rgba@ =~= rgba_bytes(pixels));
    rgba
}

/// Why there is no picture.
#[derive(Debug, PartialEq, Eq)]
pub enum PngError {
    /// There are fewer pixels than the size asks for, or the size is too large
    /// for any buffer.
    TooShort,
    /// What the encoder says.
    Encoder(String),
}

/// What the `image` crate's PNG encoder gives for pixels of a size: the bytes
/// of the file, or what it says when it fails.
pub uninterp spec fn png_encoding(pixels: Seq<u8>, width: u32, height: u32) -> Result<
    Seq<u8>,
    Seq<char>,
>;

/// A buffer holds a picture of a size: there are four bytes per pixel, and the
/// bytes of a row can be counted, also where there is no row.
pub open spec fn holds_picture(rgba: Seq<u8>, width: u32, height: u32) -> bool {
    rgba.len() >= 4 * (width * height) && 4 * width <= usize::MAX
}

/// Makes a picture with `image::RgbaImage::from_raw` and
/// `image::RgbaImage::write_to` in the PNG format. The first refuses a buffer
/// with fewer than four bytes per pixel, and a width whose row of four bytes per
/// pixel is longer than a `usize` counts, even if the height is zero. The second
/// encodes as many bytes as there are pixels, and what comes out depends on those
/// and the size alone.
#[verifier::external_body]
fn encode_png(rgba: Vec<u8>, width: u32, height: u32) -> (png: Result<Vec<u8>, PngError>)
    ensures
        match png {
            Ok(bytes) => holds_picture(rgba@, width, height) && png_encoding(
                rgba@.take(4 * (width * height)),
                width,
                height,
            ) == Ok::<Seq<u8>, Seq<char>>(bytes@),
            Err(PngError::TooShort) => !holds_picture(rgba@, width, height),
            Err(PngError::Encoder(text)) => holds_picture(rgba@, width, height) && png_encoding(
                rgba@.take(4 * (width * height)),
                width,
                height,
            ) == Err::<Seq<u8>, Seq<char>>(text@),
        },
{
    match image::RgbaImage::from_raw(width, height, rgba) {
        None => Err(PngError::TooShort),
        Some(picture) => {
            let mut file = std::io::Cursor::new(Vec::new());
            match picture.write_to(&mut file, image::ImageFormat::Png) {
                Ok(()) => Ok(file.into_inner()),
                Err(error) => Err(PngError::Encoder(error.to_string())),
            }
        },
    }
}

/// What is said when there is no picture.
pub open spec fn png_error_text(error: PngError) -> Seq<char> {
    match error {
        PngError::TooShort => "rgba buffer does not match dimensions"@,
        PngError::Encoder(text) => "png encode: "@ + text@,
    }
}

/// A picture, or what is said when there is none.
pub fn png_reply(png: Result<Vec<u8>, PngError>) -> (reply: Result<Vec<u8>, String>)
    ensures
        match (png, reply) {
            (Ok(bytes), Ok(sent)) => sent@ == bytes@,
            (Err(error), Err(text)) => text@ == png_error_text(error),
            _ => false,
        },
{
    match png {
        Ok(bytes) => Ok(bytes),
        Err(PngError::TooShort) => Err(String::from_str("rgba buffer does not match dimensions")),
        Err(PngError::Encoder(text)) => {
            let mut message = String::from_str("png encode: ");
            message.append(text.as_str());
            Err(message)
        },
    }
}

/// A reply says what the encoder gave.
pub open spec fn replies_png(
    rgba: Seq<u8>,
    width: u32,
    height: u32,
    reply: Result<Vec<u8>, String>,
) -> bool {
    let size = 4 * (width * height);
    if !holds_picture(rgba, width, height) {
        reply matches Err(text) && text@ == "rgba buffer does not match dimensions"@
    } else {
        match png_encoding(rgba.take(size), width, height) {
            Ok(bytes) => reply matches Ok(sent) && sent@ == bytes,
            Err(said) => reply matches Err(text) && text@ == "png encode: "@ + said,
        }
    }
}

/// Makes a picture of red, green, blue and alpha bytes.
pub fn png_from_rgba(rgba: Vec<u8>, width: u32, height: u32) -> (reply: Result<Vec<u8>, String>)
    ensures
        replies_png(rgba@, width, height, reply),
{
    let png = encode_png(rgba, width, height);
    png_reply(png)
}

/// A picture of the screen, if a game is loaded.
pub fn screenshot(screen: Option<(Vec<u8>, u32, u32)>) -> (reply: Result<Vec<u8>, String>)
    ensures
        match screen {
            Some((rgba, width, height)) => replies_png(rgba@, width, height, reply),
            None => reply matches Err(text) && text@ == "no game loaded"@,
        },
{
    match screen {
        Some((rgba, width, height)) => png_from_rgba(rgba, width, height),
        None => Err(String::from_str("no game loaded")),
    }
}

/// A picture of all video memory, if a game is loaded.
pub fn dump_vram(words: Option<&Vec<u16>>) -> (reply: Result<Vec<u8>, String>)
    ensures
        match words {
            Some(words) => replies_png(rgba_bytes(vram_pixels(words@)), 1024, 512, reply),
            None => reply matches Err(text) && text@ == "no game loaded"@,
        },
{
    match words {
        Some(words) => {
            let rgba = vram_rgba(words);
            png_from_rgba(rgba, VRAM_WIDTH, VRAM_HEIGHT)
        },
        None => Err(String::from_str("no game loaded")),
    }
}

/// The character that stands for six bits.
pub open spec fn sextet(v: int) -> char {
    if v < 26 {
        (65 + v) as char
    } else if v < 52 {
        (71 + v) as char
    } else if v < 62 {
        (v - 4) as char
    } else if v == 62 {
        '+'
    } else {
        '/'
    }
}

/// Bytes in the standard base 64 alphabet, three bytes in four characters, the
/// end filled up with `=`.
pub open spec fn base64_text(bytes: Seq<u8>) -> Seq<char>
    decreases bytes.len(),
{
    if bytes.len() == 0 {
        Seq::empty()
    } else if bytes.len() == 1 {
        let a = bytes[0] as int;
        seq![sextet(a / 4), sextet((a % 4) * 16), '=', '=']
    } else if bytes.len() == 2 {
        let a = bytes[0] as int;
        let b = bytes[1] as int;
        seq![sextet(a / 4), sextet((a % 4) * 16 + b / 16), sextet((b % 16) * 4), '=']
    } else {
        let a = bytes[0] as int;
        let b = bytes[1] as int;
        let c = bytes[2] as int;
        seq![
            sextet(a / 4),
            sextet((a % 4) * 16 + b / 16),
            sextet((b % 16) * 4 + c / 64),
            sextet(c % 64),
        ] + base64_text(bytes.skip(3))
    }
}

/// Encodes with `base64::engine::general_purpose::STANDARD`: the standard
/// alphabet, with padding. It fails on bytes whose text would not fit in
/// memory, so those are left out.
#[verifier::external_body]
fn encode_base64(bytes: &Vec<u8>) -> (text: String)
    requires
        (bytes@.len() + 2) / 3 * 4 <= isize::MAX,
    ensures
        text@ == base64_text(bytes@),
{
    base64::engine::general_purpose::STANDARD.encode(bytes)
}

/// What is sent for a picture.
#[derive(Debug, PartialEq, Eq)]
pub struct ImageContent {
    /// The picture in base 64.
    pub data: String,
    pub mime_type: &'static str,
}

/// What is sent for a picture.
pub fn png_result(png: &Vec<u8>) -> (content: ImageContent)
    requires
        (png@.len() + 2) / 3 * 4 <= isize::MAX,
    ensures
        content.data@ == base64_text(png@),
        content.mime_type@ == "image/png"@,
{
    ImageContent { data: encode_base64(png), mime_type: "image/png" }
}

/// A pixel holds red in its lowest five bits, green above and blue above that;
/// the highest bit counts for nothing.
pub proof fn law_pixels_hold_three_channels(r: int, g: int, b: int, top: bool, px: u16)
    requires
        0 <= r < 32,
        0 <= g < 32,
        0 <= b < 32,
        px == r + 32 * g + 1024 * b + if top {
            0x8000int
        } else {
            0
        },
    ensures
        pixel_channels(px) == (widened(r), widened(g), widened(b)),
{
    let mark: int = if top {
        1
    } else {
        0
    };
    let above_green = b + 32 * mark;
    let above_red = g + 32 * above_green;
    let whole = px as int;
    assert(whole == 32 * above_red + r);
    assert(whole % 32 == r && whole / 32 == above_red);
    assert(above_red % 32 == g && above_red / 32 == above_green);
    assert(whole / 1024 == above_green) by {
        vstd::arithmetic::div_mod::lemma_div_denominator(whole, 32, 32);
    }
    assert(above_green % 32 == b);
}

/// A channel is spread over the whole range: none stays none, full becomes full,
/// brighter stays brighter, and its five bits can be read back.
pub proof fn law_channels_span_the_range(c: int, d: int)
    requires
        0 <= c < 32,
        0 <= d < 32,
    ensures
        widened(0) == 0,
        widened(31) == 255,
        0 <= widened(c) <= 255,
        widened(c) / 8 == c,
        c < d ==> widened(c) < widened(d),
{
}

/// Every pixel becomes four bytes: red, green, blue, and full opacity.
pub proof fn law_pixels_become_four_bytes(words: Seq<u16>, i: int)
    requires
        0 <= i < words.len(),
    ensures
        ({
            let rgba = rgba_bytes(words);
            &&& rgba.len() == 4 * words.len()
            &&& (rgba[4 * i] as int, rgba[4 * i + 1] as int, rgba[4 * i + 2] as int)
                == pixel_channels(words[i])
            &&& rgba[4 * i + 3] == 255
        }),
{
    assert((4 * i) / 4 == i && (4 * i + 1) / 4 == i && (4 * i + 2) / 4 == i && (4 * i + 3) / 4 == i);
    let px = words[i] as int;
    law_channels_span_the_range(px % 32, 0);
    law_channels_span_the_range((px / 32) % 32, 0);
    law_channels_span_the_range((px / 1024) % 32, 0);
}

/// A video memory of full size is shown whole, and never more than that.
pub proof fn law_video_memory_is_shown_whole(words: Seq<u16>)
    ensures
        words.len() == 1024 * 512 ==> vram_pixels(words) == words,
        vram_pixels(words).len() <= 1024 * 512,
        forall|i: int| 0 <= i < vram_pixels(words).len() ==> #[trigger] vram_pixels(words)[i]
            == words[i],
        words.len() >= 1024 * 512 ==> holds_picture(rgba_bytes(vram_pixels(words)), 1024, 512),
{
}

/// No two values of six bits are written alike, and three bytes make four
/// characters.
pub proof fn law_base64_tells_bytes_apart(v: int, w: int, bytes: Seq<u8>)
    requires
        0 <= v < 64,
        0 <= w < 64,
    ensures
        sextet(v) == sextet(w) ==> v == w,
        sextet(v) != '=',
        base64_text(bytes).len() == (bytes.len() + 2) / 3 * 4,
    decreases bytes.len(),
{
    if bytes.len() >= 3 {
        law_base64_tells_bytes_apart(v, w, bytes.skip(3));
    }
}

/// A text of base64 holds its bytes: of every four characters the first six bits
/// come first, and at the end equals signs stand for what is missing.
pub proof fn law_base64_is_read_back(bytes: Seq<u8>)
    ensures
        bytes.len() >= 3 ==> exists|p: int, q: int, r: int, s: int| #[trigger]
            quartet(p, q, r, s) && base64_text(bytes).take(4) == seq![
                sextet(p),
                sextet(q),
                sextet(r),
                sextet(s),
            ] && bytes[0] == p * 4 + q / 16 && bytes[1] == (q % 16) * 16 + r / 4 && bytes[2] == (r
                % 4) * 64 + s,
        bytes.len() >= 3 ==> base64_text(bytes).skip(4) == base64_text(bytes.skip(3)),
        bytes.len() == 2 ==> exists|p: int, q: int, r: int, s: int| #[trigger]
            quartet(p, q, r, s) && base64_text(bytes) == seq![sextet(p), sextet(q), sextet(r), '=']
                && bytes[0] == p * 4 + q / 16 && bytes[1] == (q % 16) * 16 + r / 4 && r % 4 == 0,
        bytes.len() == 1 ==> exists|p: int, q: int, r: int, s: int| #[trigger]
            quartet(p, q, r, s) && base64_text(bytes) == seq![sextet(p), sextet(q), '=', '=']
                && bytes[0] == p * 4 + q / 16 && q % 16 == 0,
        bytes.len() == 0 ==> base64_text(bytes).len() == 0,
{
    let text = base64_text(bytes);
    if bytes.len() >= 3 {
        let a = bytes[0] as int;
        let b = bytes[1] as int;
        let c = bytes[2] as int;
        let (p, q, r, s) = (a / 4, (a % 4) * 16 + b / 16, (b % 16) * 4 + c / 64, c % 64);
        assert(quartet(p, q, r, s));
        assert(text.take(4) =~= seq![sextet(p), sextet(q), sextet(r), sextet(s)]);
        assert(text.skip(4) =~= base64_text(bytes.skip(3)));
    } else if bytes.len() == 2 {
        let a = bytes[0] as int;
        let b = bytes[1] as int;
        assert(quartet(a / 4, (a % 4) * 16 + b / 16, (b % 16) * 4, 0));
    } else if bytes.len() == 1 {
        let a = bytes[0] as int;
        assert(quartet(a / 4, (a % 4) * 16, 0, 0));
    }
}

/// Four values of six bits.
pub open spec fn quartet(p: int, q: int, r: int, s: int) -> bool {
    0 <= p < 64 && 0 <= q < 64 && 0 <= r < 64 && 0 <= s < 64
}

} // verus!
