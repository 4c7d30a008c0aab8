use vstd::prelude::*;

use crate::text::AlphaBitmap;

verus! {

#[verifier::external_type_specification]
#[verifier::external_body]
pub struct ExImageError(image::ImageError);

/// What decoding `bytes` as an image file of the built-in format that its
/// magic bytes name gives: its width, its height and its pixels as 8-bit RGBA
/// rows; `None` where no such format is named or the bytes do not decode.
pub uninterp spec fn decoded_rgba8(bytes: Seq<u8>) -> Option<(u32, u32, Seq<u8>)>;

/// Relies on image::guess_format, which picks a built-in format from the
/// magic bytes at the start, on image::load_from_memory_with_format, which
/// decodes the bytes in that format with the built-in decoder (neither
/// consults the hooks that can be registered at run time, so the outcome
/// depends on the bytes alone), and on DynamicImage::to_rgba8, which gives the
/// decoded image as a buffer of four bytes for each of its width × height
/// pixels.
#[verifier::external_body]
fn decode_rgba8(bytes: &[u8]) -> (r: Result<(u32, u32, Vec<u8>), image::ImageError>)
    ensures
        match r {
            Ok((w, h, px)) => decoded_rgba8(bytes@) == Some((w, h, px@)) && px@.len() == 4 * w * h,
            Err(_) => decoded_rgba8(bytes@) is None,
        },
{
    let format = image::guess_format(bytes)?;
    let img = image::load_from_memory_with_format(bytes, format)?;
    Ok((img.width(), img.height(), img.to_rgba8().into_raw()))
}

/// Why texture data could not be prepared.
#[derive(Clone, Copy, Debug, PartialEq, Eq, Structural)]
pub enum TextureError {
    /// The bytes are no image file that can be decoded.
    Decode,
    /// The size does not fit the upload layout: a row of `4 × width` bytes and
    /// the height must each fit in a `u32`.
    TooLarge,
}

/// The pixels of a texture as the GPU receives them: 8-bit RGBA rows, top
/// to bottom.
#[derive(Debug)]
pub struct TextureData {
    pub width: u32,
    pub height: u32,
    pub rgba: Vec<u8>,
}

/// Each coverage value becomes a white pixel with that alpha.
pub open spec fn rgba_of_alpha(alpha: Seq<u8>) -> Seq<u8>
    decreases alpha.len(),
{
    if alpha.len() == 0 {
        Seq::empty()
    } else {
        rgba_of_alpha(alpha.drop_last()) + seq![255u8, 255u8, 255u8, alpha.last()]
    }
}

proof fn lemma_rgba_of_alpha_len(alpha: Seq<u8>)
    ensures
        rgba_of_alpha(alpha).len() == 4 * alpha.len(),
    decreases alpha.len(),
{
    if alpha.len() > 0 {
        lemma_rgba_of_alpha_len(alpha.drop_last());
    }
}

impl TextureData {
    pub open spec fn wf(&self) -> bool {
        &&& self.rgba@.len() == 4 * self.width * self.height
        &&& 4 * self.width <= u32::MAX
    }

    /// A single opaque white pixel.
    pub fn white() -> (r: Self)
        ensures
            r.wf(),
            r.width == 1,
            r.height == 1,
            r.rgba@ == seq![255u8, 255u8, 255u8, 255u8],
    {
        let rgba: Vec<u8> = vec![255u8, 255u8, 255u8, 255u8];
        assert(rgba@ =~= seq![255u8, 255u8, 255u8, 255u8]);
        TextureData { width: 1, height: 1, rgba }
    }

    /// Decodes an image file of any format that can be recognised from its
    /// bytes.
    pub fn from_bytes(bytes: &[u8]) -> (r: Result<Self, TextureError>)
        ensures
            match decoded_rgba8(bytes@) {
                None => r == Err::<Self, TextureError>(TextureError::Decode),
                Some((w, h, px)) => if 4 * w <= u32::MAX {
                    &&& r is Ok
                    &&& r->Ok_0.wf()
                    &&& r->Ok_0.width == w
                    &&& r->Ok_0.height == h
                    &&& r->Ok_0.rgba@ == px
                } else {
                    r == Err::<Self, TextureError>(TextureError::TooLarge)
                },
            },
    {
        match decode_rgba8(bytes) {
            Ok((width, height, rgba)) => {
                if width > u32::MAX / 4 {
                    Err(TextureError::TooLarge)
                } else {
                    Ok(TextureData { width, height, rgba })
                }
            },
            Err(_) => Err(TextureError::Decode),
        }
    }

    /// A white texture whose alpha is the bitmap's coverage, so that it can be
    /// tinted.
    pub fn from_alpha_bitmap(bitmap: &AlphaBitmap) -> (r: Result<Self, TextureError>)
        requires
            bitmap.wf(),
        ensures
            if bitmap.width <= u32::MAX / 4 && bitmap.height <= u32::MAX && 4 * bitmap.pixels@.len()
                <= usize::MAX {
                &&& r is Ok
                &&& r->Ok_0.wf()
                &&& r->Ok_0.width == bitmap.width
                &&& r->Ok_0.height == bitmap.height
                &&& r->Ok_0.rgba@ == rgba_of_alpha(bitmap.pixels@)
            } else {
                r == Err::<Self, TextureError>(TextureError::TooLarge)
            },
    {
        if bitmap.width > (u32::MAX / 4) as usize || bitmap.height > u32::MAX as usize
            || bitmap.pixels.len() > usize::MAX / 4 {
            return Err(TextureError::TooLarge);
        }
        let mut rgba: Vec<u8> = Vec::new();
        let mut i: usize = 0;
        while i < bitmap.pixels.len()
            invariant
                i <= bitmap.pixels@.len(),
                rgba@ == rgba_of_alpha(bitmap.pixels@.take(i as int)),
            decreases bitmap.pixels@.len() - i,
        {
            let alpha = bitmap.pixels[i];
            rgba.push(255u8);
            rgba.push(255u8);
            rgba.push(255u8);
            rgba.push(alpha);
            proof {
                assert(bitmap.pixels@.take(i + 1).drop_last() =~= bitmap.pixels@.take(i as int));
                assert(rgba@ =~= rgba_of_alpha(bitmap.pixels@.take(i + 1)));
            }
            i = i + 1;
        }
        proof {
            assert(bitmap.pixels@.take(bitmap.pixels@.len() as int) =~= bitmap.pixels@);
            lemma_rgba_of_alpha_len(bitmap.pixels@);
            let w = bitmap.width as int;
            let h = bitmap.height as int;
            assert(4 * (w * h) == 4 * w * h) by (nonlinear_arith);
        }
        Ok(TextureData { width: bitmap.width as u32, height: bitmap.height as u32, rgba })
    }

    /// The bytes of one row of the upload.
    pub fn bytes_per_row(&self) -> (r: u32)
        requires
            self.wf(),
        ensures
            r == 4 * self.width,
    {
        4 * self.width
    }
}

} // verus!
