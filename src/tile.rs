//! Turning the bytes of one downloaded tile into a tile of the canvas.

use vstd::prelude::*;
use crate::error::SliderError;
use crate::raster::Raster;
use crate::stitch::Tile;

verus! {

/// The png crate's decoding error, carried through as an opaque value.
#[verifier::external_type_specification]
#[verifier::external_body]
pub struct ExPngDecodingError(png::DecodingError);

/// The png crate's code for the colour type RGB.
pub const PNG_COLOR_RGB: u8 = 2;

/// One decoded PNG frame: its size, the png crate's colour-type code, bits
/// per sample, and samples.
pub struct PngFrame {
    pub width: u32,
    pub height: u32,
    pub color: u8,
    pub bit_depth: u8,
    pub data: Vec<u8>,
}

/// What the png crate makes of the first frame of the image `bytes` decoded
/// into a buffer of `buf_len` bytes: width, height, colour-type code, bits per
/// sample and the buffer; `None` when decoding fails.
pub uninterp spec fn png_first_frame(bytes: Seq<u8>, buf_len: usize) -> Option<(u32, u32, u8, u8, Seq<u8>)>;

/// Relies on png::Decoder::new, png::Decoder::read_info and
/// png::Reader::next_frame to decode the first frame of a PNG image into a
/// buffer of `buf_len` bytes; the samples come back in that same buffer.
#[verifier::external_body]
fn decode_png(bytes: &[u8], buf_len: usize) -> (r: Result<PngFrame, png::DecodingError>)
    ensures
        r is Ok <==> png_first_frame(bytes@, buf_len) is Some,
        r matches Ok(f) ==> png_first_frame(bytes@, buf_len) == Some(
            (f.width, f.height, f.color, f.bit_depth, f.data@),
        ),
        r matches Ok(f) ==> f.data@.len() == buf_len,
{
    let mut reader = png::Decoder::new(bytes).read_info()?;
    let mut data = vec![0u8; buf_len];
    let info = reader.next_frame(&mut data)?;
    Ok(PngFrame {
        width: info.width,
        height: info.height,
        color: info.color_type as u8,
        bit_depth: info.bit_depth as u8,
        data,
    })
}

/// Whether a frame of the given size, colour code, depth and sample count is
/// an 8-bit RGB image of `native_width` by `native_height` pixels.
pub open spec fn frame_fits(
    width: u32,
    height: u32,
    color: u8,
    bit_depth: u8,
    samples: nat,
    native_width: u32,
    native_height: u32,
) -> bool {
    &&& color == PNG_COLOR_RGB
    &&& bit_depth == 8
    &&& width == native_width
    &&& height == native_height
    &&& samples == 3 * (native_width as int * native_height as int)
}

/// What `image::imageops::resize` with the Lanczos3 filter makes of the samples
/// `data` of a `width` by `height` RGB image, scaled to `new_width` by
/// `new_height`.
pub uninterp spec fn lanczos3_resized(
    data: Seq<u8>,
    width: u32,
    height: u32,
    new_width: u32,
    new_height: u32,
) -> Seq<u8>;

/// Relies on image::imageops::resize with the Lanczos3 filter: the result has
/// the requested size, and is a plain copy when the size is unchanged.
#[verifier::external_body]
pub(crate) fn resize_lanczos3(img: &Raster, new_width: u32, new_height: u32) -> (r: Raster)
    requires
        img.wf(),
        3 * (new_width as int * new_height as int) <= usize::MAX,
    ensures
        r.wf(),
        r.width == new_width,
        r.height == new_height,
        r.data@ == lanczos3_resized(img.data@, img.width, img.height, new_width, new_height),
        new_width == img.width && new_height == img.height ==> r.data@ == img.data@,
{
    let src = image::RgbImage::from_raw(img.width, img.height, img.data.clone()).unwrap();
    let out = image::imageops::resize(&src, new_width, new_height, image::imageops::FilterType::Lanczos3);
    Raster { width: new_width, height: new_height, data: out.into_raw() }
}

/// Checks a decoded frame: it must be 8-bit RGB of exactly `native_width` by
/// `native_height` pixels. Anything else is a decode failure.
pub fn frame_to_raster(frame: PngFrame, native_width: u32, native_height: u32) -> (r: Result<Raster, SliderError>)
    ensures
        r matches Ok(img) ==> img.wf() && img.width == native_width && img.height == native_height
            && img.data@ == frame.data@,
        r is Ok <==> frame_fits(frame.width, frame.height, frame.color, frame.bit_depth, frame.data@.len(), native_width, native_height),
        r is Err ==> r == Err::<Raster, SliderError>(SliderError::Decode),
{
    if frame.color != PNG_COLOR_RGB || frame.bit_depth != 8 || frame.width != native_width
        || frame.height != native_height {
        return Err(SliderError::Decode);
    }
    match Raster::from_samples(native_width, native_height, frame.data) {
        Some(img) => Ok(img),
        None => Err(SliderError::Decode),
    }
}

/// Makes tile `(x, y)` from a decoded frame: the frame must be 8-bit RGB of
/// `native_width` by `native_height` pixels, and is scaled to `tile_size` square.
pub fn tile_from_frame(
    frame: PngFrame,
    x: u32,
    y: u32,
    native_width: u32,
    native_height: u32,
    tile_size: u32,
) -> (r: Result<Tile, SliderError>)
    requires
        3 * (tile_size as int * tile_size as int) <= usize::MAX,
    ensures
        r is Ok <==> frame_fits(frame.width, frame.height, frame.color, frame.bit_depth, frame.data@.len(), native_width, native_height),
        r matches Ok(t) ==> t.x == x && t.y == y && t.image.wf() && t.image.width == tile_size
            && t.image.height == tile_size
            && t.image.data@ == lanczos3_resized(frame.data@, native_width, native_height, tile_size, tile_size),
        r is Err ==> r == Err::<Tile, SliderError>(SliderError::Decode),
{
    let native = match frame_to_raster(frame, native_width, native_height) {
        Ok(img) => img,
        Err(e) => return Err(e),
    };
    let image = resize_lanczos3(&native, tile_size, tile_size);
    Ok(Tile { x, y, image })
}

/// Decodes the PNG bytes of tile `(x, y)`, which must be an 8-bit RGB image of
/// `native_width` by `native_height` pixels, and scales it to `tile_size`
/// square.
pub fn decode_tile(
    bytes: &[u8],
    x: u32,
    y: u32,
    native_width: u32,
    native_height: u32,
    tile_size: u32,
) -> (r: Result<Tile, SliderError>)
    requires
        3 * (native_width as int * native_height as int) <= usize::MAX,
        3 * (tile_size as int * tile_size as int) <= usize::MAX,
    ensures
        r is Ok <==> (png_first_frame(bytes@, (3 * (native_width * native_height)) as usize) matches Some(
            f,
        ) && frame_fits(f.0, f.1, f.2, f.3, f.4.len(), native_width, native_height)),
        r matches Ok(t) ==> (png_first_frame(bytes@, (3 * (native_width * native_height)) as usize) matches Some(
            f,
        ) && t.x == x && t.y == y && t.image.wf() && t.image.width == tile_size && t.image.height == tile_size
            && t.image.data@ == lanczos3_resized(f.4, native_width, native_height, tile_size, tile_size)),
        r is Err ==> r == Err::<Tile, SliderError>(SliderError::Decode),
{
    let buf_len: usize = 3 * (native_width as usize * native_height as usize);
    match decode_png(bytes, buf_len) {
        Ok(frame) => tile_from_frame(frame, x, y, native_width, native_height, tile_size),
        Err(_) => Err(SliderError::Decode),
    }
}

} // verus!
