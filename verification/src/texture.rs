//! Wall textures: RGBA pixel data decoded from an image file.

use vstd::prelude::*;

verus! {

/// An image as `width * height` pixels of four bytes each, red, green, blue
/// and alpha, row by row.
pub struct Texture {
    pub width: u32,
    pub height: u32,
    pub data: Vec<u8>,
}

/// A pixel as one 0xAARRGGBB word.
pub open spec fn pack_argb(r: u8, g: u8, b: u8, a: u8) -> u32 {
    (a as int * 0x1000000 + r as int * 0x10000 + g as int * 0x100 + b as int) as u32
}

proof fn lemma_pack_bits(r: u32, g: u32, b: u32, a: u32)
    by (bit_vector)
    requires
        r < 256,
        g < 256,
        b < 256,
        a < 256,
    ensures
        (a << 24u32) | (r << 16u32) | (g << 8u32) | b == a * 0x1000000 + r * 0x10000 + g * 0x100
            + b,
{
}

/// Each byte of a packed pixel reads back from its place in the word:
/// alpha from bits 24 to 31, red from 16 to 23, green from 8 to 15, blue
/// from 0 to 7.
pub proof fn lemma_pixel_channels(r: u8, g: u8, b: u8, a: u8)
    ensures
        (pack_argb(r, g, b, a) >> 24u32) & 0xFF == a,
        (pack_argb(r, g, b, a) >> 16u32) & 0xFF == r,
        (pack_argb(r, g, b, a) >> 8u32) & 0xFF == g,
        pack_argb(r, g, b, a) & 0xFF == b,
{
    let p = pack_argb(r, g, b, a);
    let (r32, g32, b32, a32) = (r as u32, g as u32, b as u32, a as u32);
    assert(p == a32 * 0x1000000 + r32 * 0x10000 + g32 * 0x100 + b32);
    assert((p >> 24u32) & 0xFF == a32 && (p >> 16u32) & 0xFF == r32 && (p >> 8u32) & 0xFF == g32
        && p & 0xFF == b32) by (bit_vector)
        requires
            p == a32 * 0x1000000 + r32 * 0x10000 + g32 * 0x100 + b32,
            r32 < 256,
            g32 < 256,
            b32 < 256,
            a32 < 256,
    ;
}

impl Texture {
    /// The data holds four bytes for each of the `width * height` pixels.
    pub open spec fn wf(&self) -> bool {
        self.data@.len() == 4 * self.width * self.height
    }

    /// Pixel number `index` (row by row) as one 0xAARRGGBB word.
    pub fn get_pixel(&self, index: usize) -> (p: u32)
        requires
            index * 4 + 3 < self.data@.len(),
        ensures
            p == pack_argb(
                self.data@[index * 4],
                self.data@[index * 4 + 1],
                self.data@[index * 4 + 2],
                self.data@[index * 4 + 3],
            ),
    {
        let n = self.data.len();
        assert(index * 4 + 3 < n);
        let r = self.data[index * 4] as u32;
        let g = self.data[index * 4 + 1] as u32;
        let b = self.data[index * 4 + 2] as u32;
        let a = self.data[index * 4 + 3] as u32;
        proof {
            lemma_pack_bits(r, g, b, a);
        }
        (a << 24) | (r << 16) | (g << 8) | b
    }
}

/// In a well-formed texture every pixel number below `width * height` can be
/// read with `get_pixel`.
pub proof fn lemma_pixels_readable(t: &Texture, index: int)
    requires
        t.wf(),
        0 <= index < t.width * t.height,
    ensures
        index * 4 + 3 < t.data@.len(),
{
    let n = t.width * t.height;
    assert(index * 4 + 3 < 4 * n) by (nonlinear_arith)
        requires
            0 <= index < n;
    assert(4 * t.width * t.height == 4 * n) by (nonlinear_arith)
        requires
            n == t.width * t.height;
}

/// What the image crate decodes `bytes` to, in the format named by the
/// extension of `path`: width, height and RGBA bytes, or nothing when the
/// extension names no format or the bytes do not decode in it. The extension
/// is found by the target platform's path rules, fixed for a build.
pub uninterp spec fn decoded_image(bytes: Seq<u8>, path: Seq<char>) -> Option<(u32, u32, Seq<u8>)>;

/// Calls `image::ImageFormat::from_path(path)` for the format, then
/// `image::load_from_memory_with_format(bytes, format)`, and hands back the
/// image's `width()`, `height()` and `to_rgba8().into_raw()`. The contract
/// claims only that the result is `decoded_image(bytes, path)`, a function of
/// the two arguments: the decoder reads no other state; and that the RGBA
/// bytes are four per pixel, as `to_rgba8` builds them.
#[verifier::external_body]
fn decode_rgba(bytes: &[u8], path: &str) -> (r: Option<(u32, u32, Vec<u8>)>)
    ensures
        match r {
            Some(t) => decoded_image(bytes@, path@) == Some((t.0, t.1, t.2@)) && t.2@.len() == 4
                * t.0 * t.1,
            None => decoded_image(bytes@, path@) is None,
        },
{
    let format = image::ImageFormat::from_path(path).ok()?;
    let img = image::load_from_memory_with_format(bytes, format).ok()?;
    Some((img.width(), img.height(), img.to_rgba8().into_raw()))
}

/// The message of a texture that cannot be loaded.
pub open spec fn texture_error_message() -> Seq<char> {
    "Error cargando la textura"@
}

/// A texture from a decoded image (width, height, RGBA bytes), or the
/// loading error when there is none.
pub fn texture_from_decoded(decoded: Option<(u32, u32, Vec<u8>)>) -> (r: Result<Texture, String>)
    ensures
        match decoded {
            Some(t) => r matches Ok(tex) && tex.width == t.0 && tex.height == t.1 && tex.data@
                == t.2@,
            None => r matches Err(e) && e@ == texture_error_message(),
        },
        (decoded matches Some(t) && t.2@.len() == 4 * t.0 * t.1) ==> (r matches Ok(tex)
            && tex.wf()),
{
    match decoded {
        Some((width, height, data)) => Ok(Texture { width, height, data }),
        None => Err("Error cargando la textura".to_owned()),
    }
}

/// Loads a texture from the bytes of an image file found at `path`, whose
/// extension names the format.
pub fn load_texture_from_bytes(bytes: &[u8], path: &str) -> (r: Result<Texture, String>)
    ensures
        match decoded_image(bytes@, path@) {
            Some(t) => r matches Ok(tex) && tex.width == t.0 && tex.height == t.1 && tex.data@
                == t.2,
            None => r matches Err(e) && e@ == texture_error_message(),
        },
        r matches Ok(tex) ==> tex.wf(),
{
    let decoded = decode_rgba(bytes, path);
    texture_from_decoded(decoded)
}

} // verus!
