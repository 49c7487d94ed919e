//! Turning a mapped BGRA frame into a PNG image: the checks on the frame
//! size, the strided BGRA to RGBA copy, and the PNG encoding.
use vstd::prelude::*;
use crate::error::{out_of_range_message, AppError};
use crate::text::decimal_spec;

verus! {

// ---------------------------------------------------------------------
// Frame size
// ---------------------------------------------------------------------

/// The width and height of a frame's content size: both must be
/// nonnegative (`u32::try_from`), else the error names the first bad one.
pub fn frame_dimensions(width: i32, height: i32) -> (r: Result<(u32, u32), AppError>)
    ensures
        width >= 0 && height >= 0 ==> r == Ok::<(u32, u32), AppError>((width as u32, height as u32)),
        width < 0 ==> (r matches Err(e) && e.summary@ == "窗口宽度无效"@ && e.detail@ == "窗口宽度无效"@
            + ": "@ + out_of_range_message()),
        width >= 0 && height < 0 ==> (r matches Err(e) && e.summary@ == "窗口高度无效"@ && e.detail@
            == "窗口高度无效"@ + ": "@ + out_of_range_message()),
{
    if width < 0 {
        return Err(AppError::msg("out of range integral type conversion attempted").context("窗口宽度无效"));
    }
    if height < 0 {
        return Err(AppError::msg("out of range integral type conversion attempted").context("窗口高度无效"));
    }
    Ok((width as u32, height as u32))
}

/// The length of a mapped frame, `row_pitch * height` bytes, unless it
/// does not fit in a `usize` (`帧缓冲区长度溢出`).
pub fn mapped_frame_len(row_pitch: u32, height: u32) -> (r: Result<usize, AppError>)
    ensures
        row_pitch * height <= usize::MAX ==> r == Ok::<usize, AppError>((row_pitch * height) as usize),
        row_pitch * height > usize::MAX ==> (r matches Err(e) && e.summary@ == "帧缓冲区长度溢出"@
            && e.detail@ == "帧缓冲区长度溢出"@),
{
    match (row_pitch as usize).checked_mul(height as usize) {
        Some(len) => Ok(len),
        None => Err(AppError::msg("帧缓冲区长度溢出")),
    }
}

// ---------------------------------------------------------------------
// BGRA to RGBA
// ---------------------------------------------------------------------

/// Byte `c` of pixel `x` in row `y` of a buffer with rows `stride` bytes
/// apart and four bytes per pixel.
pub open spec fn pixel_byte(buf: Seq<u8>, stride: int, y: int, x: int, c: int) -> u8 {
    buf[y * stride + 4 * x + c]
}

/// The source byte that becomes byte `c` of an RGBA pixel read from a
/// BGRA pixel: blue and red trade places.
pub open spec fn bgra_source_channel(c: int) -> int {
    if c == 0 {
        2
    } else if c == 2 {
        0
    } else {
        c
    }
}

/// Whether a buffer of `len` bytes holds `height` rows of `width` pixels
/// that start `stride` bytes apart.
pub open spec fn strided_fits(len: int, width: int, height: int, stride: int) -> bool {
    &&& width > 0
    &&& height > 0
    &&& 4 * width <= stride
    &&& (height - 1) * stride + 4 * width <= len
}

/// Whether every pixel of `dst` (rows `dst_stride` apart) is the pixel at
/// the same place of `src` (rows `src_stride` apart) with blue and red
/// swapped.
pub open spec fn pixels_swapped(
    dst: Seq<u8>,
    dst_stride: int,
    src: Seq<u8>,
    src_stride: int,
    width: int,
    height: int,
) -> bool {
    forall|y: int, x: int, c: int|
        0 <= y < height && 0 <= x < width && 0 <= c < 4 ==> #[trigger] pixel_byte(dst, dst_stride, y, x, c)
            == pixel_byte(src, src_stride, y, x, bgra_source_channel(c))
}

/// Whether byte `i` of a buffer lies in one of the `height` rows of
/// `width` pixels that start `stride` bytes apart.
pub open spec fn in_pixel_rows(i: int, width: int, height: int, stride: int) -> bool {
    i / stride < height && i % stride < 4 * width
}

/// `garb::bytes::bgra_to_rgba_strided`: after checking that both buffers
/// hold `height` rows of `width` pixels at their strides (else it fails
/// with `SizeError::InvalidStride`, whose text is given below, and
/// writes nothing), it copies every pixel with blue and red swapped and
/// leaves the padding bytes between rows as they were. The swap is done
/// on native-endian words; the byte mapping stated is that of
/// little-endian targets, the only ones this library is built for.
#[verifier::external_body]
fn garb_bgra_to_rgba_strided(
    src: &[u8],
    dst: &mut Vec<u8>,
    width: usize,
    height: usize,
    src_stride: usize,
    dst_stride: usize,
) -> (r: Result<(), String>)
    ensures
        final(dst)@.len() == old(dst)@.len(),
        r is Ok <==> (strided_fits(src@.len() as int, width as int, height as int, src_stride as int)
            && strided_fits(old(dst)@.len() as int, width as int, height as int, dst_stride as int)),
        r matches Err(m) ==> final(dst)@ == old(dst)@ && m@
            == "stride, dimensions, or buffer size are inconsistent"@,
        r is Ok ==> pixels_swapped(
            final(dst)@,
            dst_stride as int,
            src@,
            src_stride as int,
            width as int,
            height as int,
        ),
        r is Ok ==> forall|i: int|
            0 <= i < old(dst)@.len() && !in_pixel_rows(i, width as int, height as int, dst_stride as int)
                ==> #[trigger] final(dst)@[i] == old(dst)@[i],
{
    match garb::bytes::bgra_to_rgba_strided(src, dst.as_mut_slice(), width, height, src_stride, dst_stride) {
        Ok(()) => Ok(()),
        Err(error) => Err(error.to_string()),
    }
}

/// The outcome of converting a BGRA frame: the RGBA image (rows packed,
/// `4 * width` bytes each) when the sizes fit and the source holds the
/// frame; else the first error: `像素行长度溢出`, `RGBA 缓冲区长度溢出`,
/// or `BGRA 转 RGBA 失败` with garb's size error as its cause.
pub open spec fn convert_bgra_spec(
    source: Seq<u8>,
    row_pitch: int,
    width: int,
    height: int,
    r: Result<Vec<u8>, AppError>,
) -> bool {
    if 4 * width > usize::MAX {
        r matches Err(e) && e.summary@ == "像素行长度溢出"@ && e.detail@ == "像素行长度溢出"@
    } else if 4 * width * height > usize::MAX {
        r matches Err(e) && e.summary@ == "RGBA 缓冲区长度溢出"@ && e.detail@ == "RGBA 缓冲区长度溢出"@
    } else if !strided_fits(source.len() as int, width, height, row_pitch) {
        r matches Err(e) && e.summary@ == "BGRA 转 RGBA 失败"@ && e.detail@ == "BGRA 转 RGBA 失败"@
            + ": "@ + "stride, dimensions, or buffer size are inconsistent"@
    } else {
        r matches Ok(rgba) && rgba@.len() == 4 * width * height && pixels_swapped(
            rgba@,
            4 * width,
            source,
            row_pitch,
            width,
            height,
        )
    }
}

/// Copies a mapped BGRA frame whose rows are `row_pitch` bytes apart
/// into a packed RGBA image.
pub fn convert_bgra_frame(source: &[u8], row_pitch: usize, width: u32, height: u32) -> (r: Result<Vec<u8>, AppError>)
    ensures
        convert_bgra_spec(source@, row_pitch as int, width as int, height as int, r),
{
    let width_usize = width as usize;
    let height_usize = height as usize;
    let pixel_row_len = match width_usize.checked_mul(4) {
        Some(n) => n,
        None => {
            return Err(AppError::msg("像素行长度溢出"));
        },
    };
    let rgba_len = match pixel_row_len.checked_mul(height_usize) {
        Some(n) => n,
        None => {
            assert(4 * width * height == pixel_row_len * height);
            return Err(AppError::msg("RGBA 缓冲区长度溢出"));
        },
    };
    assert(4 * width * height == rgba_len);
    let mut rgba: Vec<u8> = vec![0; rgba_len];
    proof {
        if height > 0 {
            assert((height - 1) * pixel_row_len + pixel_row_len == pixel_row_len * height) by (nonlinear_arith);
        }
    }
    match garb_bgra_to_rgba_strided(source, &mut rgba, width_usize, height_usize, row_pitch, pixel_row_len) {
        Ok(()) => Ok(rgba),
        Err(m) => Err(AppError::from_text(m).context("BGRA 转 RGBA 失败")),
    }
}

// ---------------------------------------------------------------------
// PNG
// ---------------------------------------------------------------------

/// The bytes that the `png` crate writes for an 8-bit RGBA image of the
/// given size with `Compression::Fastest` and default settings otherwise.
pub uninterp spec fn png_rgba8_fastest(rgba: Seq<u8>, width: u32, height: u32) -> Seq<u8>;

/// The eight bytes that begin every PNG file.
pub open spec fn png_signature() -> Seq<u8> {
    seq![137u8, 80u8, 78u8, 71u8, 13u8, 10u8, 26u8, 10u8]
}

/// Encodes with `png::Encoder` (RGBA, 8 bits per sample, fastest
/// compression) into a `Vec`: it writes the PNG signature and header,
/// fails on a zero width or height (`Zero width not allowed`, `Zero
/// height not allowed`) and on image data whose length is not
/// `4 * width * height` (`wrong data size, expected … got …`); writing to
/// memory does not fail otherwise. The bytes written are named
/// `png_rgba8_fastest`; they begin with the PNG signature.
#[verifier::external_body]
fn png_encode_rgba8(rgba: &[u8], width: u32, height: u32) -> (r: Result<Vec<u8>, String>)
    requires
        4 * width * height <= usize::MAX,
    ensures
        r is Ok <==> (width > 0 && height > 0 && rgba@.len() == 4 * width * height),
        r matches Ok(png) ==> png@ == png_rgba8_fastest(rgba@, width, height) && png@.len() >= 8
            && png@.take(8) == png_signature(),
        r matches Err(m) ==> m@ == if width == 0 {
            "Zero width not allowed"@
        } else if height == 0 {
            "Zero height not allowed"@
        } else {
            "wrong data size, expected "@ + decimal_spec((4 * width * height) as nat) + " got "@
                + decimal_spec(rgba@.len())
        },
{
    let mut output = std::io::Cursor::new(Vec::new());
    let mut encoder = png::Encoder::new(&mut output, width, height);
    encoder.set_color(png::ColorType::Rgba);
    encoder.set_depth(png::BitDepth::Eight);
    encoder.set_compression(png::Compression::Fastest);
    let mut writer = match encoder.write_header() { Ok(writer) => writer, Err(error) => return Err(error.to_string()) };
    if let Err(error) = writer.write_image_data(rgba) { return Err(error.to_string()); }
    if let Err(error) = writer.finish() { return Err(error.to_string()); }
    Ok(output.into_inner())
}

/// Encodes an RGBA image of the given size as a PNG file.
pub fn encode_png(rgba: &[u8], width: u32, height: u32) -> (r: Result<Vec<u8>, AppError>)
    requires
        4 * width * height <= usize::MAX,
    ensures
        r is Ok <==> (width > 0 && height > 0 && rgba@.len() == 4 * width * height),
        r matches Ok(png) ==> png@ == png_rgba8_fastest(rgba@, width, height),
        width == 0 ==> (r matches Err(e) && e.summary@ == "Zero width not allowed"@ && e.detail@
            == e.summary@),
        width > 0 && height == 0 ==> (r matches Err(e) && e.summary@ == "Zero height not allowed"@
            && e.detail@ == e.summary@),
        width > 0 && height > 0 && rgba@.len() != 4 * width * height ==> (r matches Err(e) && e.summary@
            == "wrong data size, expected "@ + decimal_spec((4 * width * height) as nat) + " got "@
            + decimal_spec(rgba@.len()) && e.detail@ == e.summary@),
{
    match png_encode_rgba8(rgba, width, height) {
        Ok(png) => Ok(png),
        Err(m) => Err(AppError::from_text(m)),
    }
}

/// Turns a mapped BGRA frame into a PNG file: converts it to RGBA, then
/// encodes it.
pub fn encode_bgra_frame(source: &[u8], row_pitch: usize, width: u32, height: u32) -> (r: Result<Vec<u8>, AppError>)
    ensures
        4 * width * height <= usize::MAX && width > 0 && height > 0 && strided_fits(
            source@.len() as int,
            width as int,
            height as int,
            row_pitch as int,
        ) ==> (r matches Ok(png) && exists|rgba: Seq<u8>|
            rgba.len() == 4 * width * height && pixels_swapped(
                rgba,
                4 * width,
                source@,
                row_pitch as int,
                width as int,
                height as int,
            ) && png@ == #[trigger] png_rgba8_fastest(rgba, width, height)),
        !(4 * width * height <= usize::MAX && strided_fits(
            source@.len() as int,
            width as int,
            height as int,
            row_pitch as int,
        )) ==> convert_bgra_spec(source@, row_pitch as int, width as int, height as int, r),
{
    let rgba = convert_bgra_frame(source, row_pitch, width, height)?;
    encode_png(rgba.as_slice(), width, height)
}

} // verus!
