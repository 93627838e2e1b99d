use vstd::prelude::*;
use vstd::arithmetic::div_mod::lemma_fundamental_div_mod_converse;
use fast_image_resize::images::Image as FirImage;
use fast_image_resize::{PixelType, Resizer};
use crate::config::{join_path, path_join};
use crate::util::hash::{thumb_cache_key, thumb_key};

verus! {

#[verifier::external_type_specification]
#[verifier::external_body]
pub struct ExImageError(image::ImageError);

/// A thumbnail to be made: the media item, its file and the file's
/// modification time.
pub struct GenJob {
    pub item_id: i64,
    pub path: String,
    pub mtime: i64,
}

/// Why a thumbnail could not be rendered.
#[derive(PartialEq, Eq, Structural, Clone, Copy, Debug)]
pub enum ThumbnailError {
    /// The image's extension names no format, or its bytes do not decode.
    Decode,
    /// The JPEG encoder refused the thumbnail's size (zero, or above 65535).
    Encode,
}

/// The JPEG quality of the thumbnails.
pub const THUMB_JPEG_QUALITY: u8 = 85;

pub open spec fn jpg_suffix() -> Seq<char> {
    seq!['.', 'j', 'p', 'g']
}

/// Where the thumbnail of `source` (modified at `mtime`) is kept: a file
/// named by the cache key with the `.jpg` extension, in the thumbnail
/// directory.
pub open spec fn thumb_file_path(thumb_dir: Seq<char>, source: Seq<char>, mtime: i64) -> Seq<char> {
    path_join(thumb_dir, thumb_key(source, mtime) + jpg_suffix())
}

/// The path of the thumbnail of `source_path` as it was at `source_mtime`.
pub fn thumb_path_for(source_path: &str, source_mtime: i64, thumb_dir: &str) -> (r: String)
    ensures
        r@ == thumb_file_path(thumb_dir@, source_path@, source_mtime),
{
    let mut name = thumb_cache_key(source_path, source_mtime);
    let suffix: &str = ".jpg";
    proof {
        reveal_strlit(".jpg");
        assert(suffix@ =~= jpg_suffix());
    }
    name.append(suffix);
    join_path(thumb_dir, name.as_str())
}

/// The largest square centred in a width x height image.
#[derive(PartialEq, Eq, Structural, Clone, Copy, Debug)]
pub struct SquareCrop {
    pub x: u32,
    pub y: u32,
    pub side: u32,
}

pub open spec fn centered_square(width: u32, height: u32) -> SquareCrop {
    let side = if width <= height { width } else { height };
    SquareCrop {
        x: ((width - side) / 2) as u32,
        y: ((height - side) / 2) as u32,
        side,
    }
}

/// The centred square of side min(width, height).
pub fn center_square(width: u32, height: u32) -> (r: SquareCrop)
    ensures
        r == centered_square(width, height),
        r.x + r.side <= width,
        r.y + r.side <= height,
{
    let side = if width <= height { width } else { height };
    SquareCrop { x: (width - side) / 2, y: (height - side) / 2, side }
}

/// The side x side square at (x, y) of an RGBA image `width` pixels wide,
/// row by row, four bytes per pixel.
pub open spec fn square_crop(pixels: Seq<u8>, width: int, x: int, y: int, side: int) -> Seq<u8> {
    Seq::new(
        (side * side * 4) as nat,
        |i: int| pixels[((y + (i / 4) / side) * width + x + (i / 4) % side) * 4 + i % 4],
    )
}

/// Calls image's `imageops::crop_imm` and `SubImage::to_image` on the RGBA
/// buffer: the result holds, row by row, the pixels of the side x side
/// square at (x, y). Inside the image the crop is not clamped, and
/// `ImageBuffer::from_raw` accepts a buffer of exactly width*height*4 bytes.
#[verifier::external_body]
fn crop_rgba(pixels: Vec<u8>, width: u32, height: u32, x: u32, y: u32, side: u32) -> (r: Vec<u8>)
    requires
        pixels.len() == width * height * 4,
        x + side <= width,
        y + side <= height,
    ensures
        r@ == square_crop(pixels@, width as int, x as int, y as int, side as int),
{
    let img = image::RgbaImage::from_raw(width, height, pixels).unwrap_or_default();
    image::imageops::crop_imm(&img, x, y, side, side).to_image().into_raw()
}

/// The RGBA pixels that fast_image_resize's `Resizer::resize` (default
/// options: Lanczos3 convolution) makes of a src_side square of RGBA pixels
/// at dst_side x dst_side.
pub uninterp spec fn resized_rgba(src: Seq<u8>, src_side: u32, dst_side: u32) -> Seq<u8>;

/// Calls fast_image_resize's `Resizer::resize` (default options, U8x4
/// pixels) from a src_side square to a dst_side square. Its result is a
/// function of the pixels and the two sides: the crate computes the same
/// pixels on every CPU extension it may pick at run time (its own tests hold
/// them all to one result). The source also shows that it keeps the pixels
/// when both sides are equal and leaves the zeroed destination when the
/// source is empty. Both images are U8x4 and the source buffer has the full
/// size, so neither `from_vec_u8` nor `resize` returns an error here.
#[verifier::external_body]
fn resize_rgba_square(src: Vec<u8>, src_side: u32, dst_side: u32) -> (r: Vec<u8>)
    requires
        src.len() == src_side * src_side * 4,
        dst_side * dst_side * 4 <= usize::MAX,
    ensures
        r@ == resized_rgba(src@, src_side, dst_side),
        r.len() == dst_side * dst_side * 4,
        src_side == dst_side ==> r@ == src@,
        src_side == 0 ==> r@ == Seq::new((dst_side * dst_side * 4) as nat, |i: int| 0u8),
{
    let mut dst = FirImage::new(dst_side, dst_side, PixelType::U8x4);
    if let Ok(src_image) = FirImage::from_vec_u8(src_side, src_side, src, PixelType::U8x4) {
        let _ = Resizer::new().resize(&src_image, &mut dst, None);
    }
    dst.into_vec()
}

/// The bytes of the JPEG file that image's encoder writes for an RGB8 image.
pub uninterp spec fn jpeg_rgb8(rgb: Seq<u8>, width: u32, height: u32, quality: u8) -> Seq<u8>;

/// Calls image's `JpegEncoder::new_with_quality(..).encode(.., Rgb8)` into
/// memory. The encoder refuses a width or height of 0 or above 65535 and
/// otherwise cannot fail writing to a `Vec`; its bytes are named.
#[verifier::external_body]
fn encode_jpeg(rgb: &[u8], width: u32, height: u32, quality: u8) -> (r: Result<Vec<u8>, image::ImageError>)
    requires
        rgb@.len() == width * height * 3,
    ensures
        r is Ok <==> (1 <= width <= 65535 && 1 <= height <= 65535),
        match r {
            Ok(bytes) => bytes@ == jpeg_rgb8(rgb@, width, height, quality),
            Err(_) => true,
        },
{
    let mut out: Vec<u8> = Vec::new();
    let res = image::codecs::jpeg::JpegEncoder::new_with_quality(&mut out, quality).encode(
        rgb,
        width,
        height,
        image::ExtendedColorType::Rgb8,
    );
    res.map(|_| out)
}

/// The RGB bytes of RGBA pixels: the alpha byte of every pixel dropped.
pub open spec fn rgb_of(rgba: Seq<u8>) -> Seq<u8> {
    Seq::new(((rgba.len() + 1) / 4 * 3) as nat, |i: int| rgba[(i / 3) * 4 + i % 3])
}

proof fn lemma_rgb_index(q: int, k: int)
    requires
        0 <= q,
        0 <= k < 3,
    ensures
        ((3 * q + k) / 3) * 4 + (3 * q + k) % 3 == 4 * q + k,
{
    lemma_fundamental_div_mod_converse(3 * q + k, 3, q, k);
}

/// Drops the alpha byte of each four-byte pixel (a last pixel of three
/// bytes keeps them).
pub fn rgba_to_rgb(rgba: &[u8]) -> (r: Vec<u8>)
    requires
        rgba@.len() % 4 == 0 || rgba@.len() % 4 == 3,
    ensures
        r@ == rgb_of(rgba@),
{
    let n = rgba.len();
    let mut out: Vec<u8> = Vec::new();
    let mut j: usize = 0;
    while j < n
        invariant
            n == rgba@.len(),
            n % 4 == 0 || n % 4 == 3,
            j % 4 == 0,
            j <= n,
            out@.len() == j / 4 * 3,
            forall|t: int| 0 <= t < out@.len() ==> out@[t] == rgba@[(t / 3) * 4 + t % 3],
        decreases n - j,
    {
        assert(j + 3 <= n);
        let ghost q: int = j as int / 4;
        let ghost before = out@;
        out.push(rgba[j]);
        out.push(rgba[j + 1]);
        out.push(rgba[j + 2]);
        proof {
            assert(j as int == 4 * q);
            assert forall|t: int| 0 <= t < out@.len() implies out@[t] == rgba@[(t / 3) * 4 + t % 3] by {
                if t >= before.len() {
                    let k = t - 3 * q;
                    lemma_rgb_index(q, k);
                }
            }
        }
        if n - j < 4 {
            j = n;
            proof {
                assert(out@.len() == 3 * q + 3);
            }
            assert(out@ =~= rgb_of(rgba@));
            return out;
        }
        j = j + 4;
    }
    assert(out@ =~= rgb_of(rgba@));
    out
}

/// The centred square of an RGBA image `width` pixels wide.
pub open spec fn centered_crop(pixels: Seq<u8>, width: u32, height: u32) -> Seq<u8> {
    let c = centered_square(width, height);
    square_crop(pixels, width as int, c.x as int, c.y as int, c.side as int)
}

/// The JPEG bytes of a thumbnail of `rgba` pixels, thumb_size on a side.
pub open spec fn thumbnail_jpeg(rgba: Seq<u8>, thumb_size: u32) -> Seq<u8> {
    jpeg_rgb8(rgb_of(rgba), thumb_size, thumb_size, THUMB_JPEG_QUALITY)
}

/// The thumbnail that `render_thumbnail` makes of an RGBA image: its centred
/// square, resized to thumb_size x thumb_size, as JPEG.
pub open spec fn thumbnail_of(pixels: Seq<u8>, width: u32, height: u32, thumb_size: u32) -> Seq<u8> {
    thumbnail_jpeg(
        resized_rgba(centered_crop(pixels, width, height), centered_square(width, height).side, thumb_size),
        thumb_size,
    )
}

/// The centred square of side min(width, height) of an RGBA image, row by
/// row.
pub fn center_crop_rgba(pixels: Vec<u8>, width: u32, height: u32) -> (r: Vec<u8>)
    requires
        pixels@.len() == width * height * 4,
    ensures
        r@ == centered_crop(pixels@, width, height),
        r@.len() == centered_square(width, height).side * centered_square(width, height).side * 4,
{
    let crop = center_square(width, height);
    crop_rgba(pixels, width, height, crop.x, crop.y, crop.side)
}

/// The JPEG (quality 85) of thumb_size x thumb_size RGBA pixels, without
/// alpha; the encoder takes sizes 1 to 65535.
pub fn encode_thumbnail(rgba: &[u8], thumb_size: u32) -> (r: Result<Vec<u8>, ThumbnailError>)
    requires
        rgba@.len() == thumb_size * thumb_size * 4,
    ensures
        r is Ok <==> (1 <= thumb_size <= 65535),
        match r {
            Ok(bytes) => bytes@ == thumbnail_jpeg(rgba@, thumb_size),
            Err(e) => e == ThumbnailError::Encode,
        },
{
    proof {
        assert(rgba@.len() % 4 == 0) by (nonlinear_arith)
            requires
                rgba@.len() == thumb_size * thumb_size * 4,
        ;
    }
    let rgb = rgba_to_rgb(rgba);
    proof {
        assert(rgb@.len() == thumb_size * thumb_size * 3) by (nonlinear_arith)
            requires
                rgb@.len() == (rgba@.len() + 1) / 4 * 3,
                rgba@.len() == thumb_size * thumb_size * 4,
        ;
    }
    match encode_jpeg(rgb.as_slice(), thumb_size, thumb_size, THUMB_JPEG_QUALITY) {
        Ok(bytes) => Ok(bytes),
        Err(_) => Err(ThumbnailError::Encode),
    }
}

/// The thumbnail of an RGBA image: its centred square, resized to
/// thumb_size x thumb_size, without alpha, as JPEG bytes of quality 85.
/// It is made exactly when the encoder takes the size; when the square
/// already has the thumbnail's size its pixels are kept as they are.
pub fn render_thumbnail(pixels: Vec<u8>, width: u32, height: u32, thumb_size: u32) -> (r: Result<Vec<u8>, ThumbnailError>)
    requires
        pixels@.len() == width * height * 4,
        thumb_size * thumb_size * 4 <= usize::MAX,
    ensures
        r is Ok <==> (1 <= thumb_size <= 65535),
        match r {
            Ok(bytes) => {
                &&& bytes@ == thumbnail_of(pixels@, width, height, thumb_size)
                &&& centered_square(width, height).side == thumb_size ==> bytes@ == thumbnail_jpeg(
                    centered_crop(pixels@, width, height),
                    thumb_size,
                )
            },
            Err(e) => e == ThumbnailError::Encode,
        },
{
    let crop = center_square(width, height);
    proof {
        assert(crop.side * crop.side <= width * height) by (nonlinear_arith)
            requires
                crop.side <= width,
                crop.side <= height,
        ;
    }
    let square = center_crop_rgba(pixels, width, height);
    let resized = resize_rgba_square(square, crop.side, thumb_size);
    encode_thumbnail(resized.as_slice(), thumb_size)
}

/// The RGBA pixels, width and height that image's `image::open` gives for a
/// file with these bytes and this extension; `None` where it fails.
pub uninterp spec fn decoded_rgba8(bytes: Seq<u8>, ext: Seq<char>) -> Option<(Seq<u8>, u32, u32)>;

/// Decodes image bytes as `image::open` does for a file with extension
/// `ext`: the format is the one the extension names (`ImageFormat::
/// from_extension`), read through `ImageReader::with_format(..).decode()`,
/// then converted with `to_rgba8`. The result depends on the bytes and the
/// extension alone; `to_rgba8` gives four bytes per pixel.
#[verifier::external_body]
fn decode_rgba8(bytes: &[u8], ext: &str) -> (r: Option<(Vec<u8>, u32, u32)>)
    ensures
        match r {
            Some((p, w, h)) => decoded_rgba8(bytes@, ext@) == Some((p@, w, h)) && p@.len() == w * h * 4,
            None => decoded_rgba8(bytes@, ext@) is None,
        },
{
    let format = image::ImageFormat::from_extension(ext)?;
    let img = image::ImageReader::with_format(std::io::Cursor::new(bytes), format).decode().ok()?.to_rgba8();
    let (w, h) = img.dimensions();
    Some((img.into_raw(), w, h))
}

/// Decodes the bytes of an image file with extension `ext` to RGBA pixels,
/// width and height; `Decode` when the extension names no format or the
/// bytes do not decode.
pub fn decode_rgba(bytes: &[u8], ext: &str) -> (r: Result<(Vec<u8>, u32, u32), ThumbnailError>)
    ensures
        match r {
            Ok((p, w, h)) => decoded_rgba8(bytes@, ext@) == Some((p@, w, h)) && p@.len() == w * h * 4,
            Err(e) => decoded_rgba8(bytes@, ext@) is None && e == ThumbnailError::Decode,
        },
{
    match decode_rgba8(bytes, ext) {
        Some(img) => Ok(img),
        None => Err(ThumbnailError::Decode),
    }
}

/// The thumbnail of an image file's bytes: decoded as its extension says,
/// then its centred square resized to thumb_size x thumb_size as JPEG.
pub fn thumbnail_from_bytes(bytes: &[u8], ext: &str, thumb_size: u32) -> (r: Result<Vec<u8>, ThumbnailError>)
    requires
        thumb_size * thumb_size * 4 <= usize::MAX,
    ensures
        match decoded_rgba8(bytes@, ext@) {
            None => r == Err::<Vec<u8>, ThumbnailError>(ThumbnailError::Decode),
            Some((p, w, h)) => if 1 <= thumb_size <= 65535 {
                r matches Ok(jpeg) && jpeg@ == thumbnail_of(p, w, h, thumb_size)
            } else {
                r == Err::<Vec<u8>, ThumbnailError>(ThumbnailError::Encode)
            },
        },
{
    match decode_rgba(bytes, ext) {
        Ok((p, w, h)) => render_thumbnail(p, w, h, thumb_size),
        Err(e) => Err(e),
    }
}

} // verus!
