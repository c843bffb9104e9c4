//! Pixel and sample conversions, the session clock and the timing arithmetic
//! that the cue player and the sender share.
use vstd::prelude::*;
use vstd::string::*;

use std::time::Instant;

use crate::clock::{duration_as_nanos, instant_elapsed, instant_now};

verus! {

/// OMT timestamps count 100 ns ticks.
pub const TICKS_PER_SECOND: i64 = 10_000_000;

/// OMT refuses video smaller than this in either dimension.
pub const MIN_VIDEO_DIM: u32 = 16;

/// Why a video frame or an audio block could not be converted.
#[derive(Debug, Clone, PartialEq, Eq)]
pub enum MediaError {
    TooSmall { width: u32, height: u32 },
    InvalidPitch { pitch: u32, width: u32 },
    BufferTooSmall { needed: usize, actual: usize },
    EmptyAudio,
    ChannelLengthMismatch,
}

/// The message shown for `e`.
pub open spec fn media_error_text(e: MediaError) -> Seq<char> {
    match e {
        MediaError::TooSmall { width, height } => "video "@ + decimal(width as nat) + "x"@
            + decimal(height as nat) + " is smaller than the OMT minimum "@ + decimal(
            MIN_VIDEO_DIM as nat,
        ) + "x"@ + decimal(MIN_VIDEO_DIM as nat),
        MediaError::InvalidPitch { pitch, width } => "pitch "@ + decimal(pitch as nat)
            + " is smaller than width "@ + decimal(width as nat) + " * 4"@,
        MediaError::BufferTooSmall { needed, actual } => "buffer has "@ + decimal(actual as nat)
            + " bytes, need at least "@ + decimal(needed as nat),
        MediaError::EmptyAudio => "audio buffer is empty"@,
        MediaError::ChannelLengthMismatch => "planar audio channels have different lengths"@,
    }
}

impl MediaError {
    /// The message shown to the user.
    pub fn message(&self) -> (text: String)
        ensures
            text@ == media_error_text(*self),
    {
        match self {
            MediaError::TooSmall { width, height } => {
                let mut t = String::from_str("video ");
                t.append(decimal_string(*width as u64).as_str());
                t.append("x");
                t.append(decimal_string(*height as u64).as_str());
                t.append(" is smaller than the OMT minimum ");
                t.append(decimal_string(MIN_VIDEO_DIM as u64).as_str());
                t.append("x");
                t.append(decimal_string(MIN_VIDEO_DIM as u64).as_str());
                t
            },
            MediaError::InvalidPitch { pitch, width } => {
                let mut t = String::from_str("pitch ");
                t.append(decimal_string(*pitch as u64).as_str());
                t.append(" is smaller than width ");
                t.append(decimal_string(*width as u64).as_str());
                t.append(" * 4");
                t
            },
            MediaError::BufferTooSmall { needed, actual } => {
                let mut t = String::from_str("buffer has ");
                t.append(decimal_string(*actual as u64).as_str());
                t.append(" bytes, need at least ");
                t.append(decimal_string(*needed as u64).as_str());
                t
            },
            MediaError::EmptyAudio => String::from_str("audio buffer is empty"),
            MediaError::ChannelLengthMismatch => String::from_str(
                "planar audio channels have different lengths",
            ),
        }
    }
}

/// A tightly packed BGRA8 frame.
#[derive(Debug, Clone, PartialEq, Eq)]
pub struct ConvertedVideo {
    pub width: u32,
    pub height: u32,
    pub stride: i32,
    pub bgra: Vec<u8>,
    pub has_alpha: bool,
}

/// `x` clamped to the range of `usize`, as `saturating_mul` leaves it.
pub open spec fn saturate_usize(x: int) -> int {
    if x > usize::MAX {
        usize::MAX as int
    } else {
        x
    }
}

/// Channel `c` of an output pixel is read from channel `swizzle(c)` of the
/// input pixel: red and blue trade places, green and alpha stay.
pub open spec fn swizzle(c: int) -> int {
    if c == 0 {
        2
    } else if c == 2 {
        0
    } else {
        c
    }
}

/// Byte offset of channel `c` of pixel `(x, y)` in rows of `row` bytes.
pub open spec fn pixel_offset(row: int, y: int, x: int, c: int) -> int {
    y * row + 4 * x + c
}

/// The error `rgba_to_tight_bgra` reports for these dimensions and a source
/// of `len` bytes, or `None` where it converts.
pub open spec fn rgba_convert_error(width: u32, height: u32, pitch: u32, len: int) -> Option<
    MediaError,
> {
    if width < MIN_VIDEO_DIM || height < MIN_VIDEO_DIM {
        Some(MediaError::TooSmall { width, height })
    } else if (pitch as int) < saturate_usize(4 * width) {
        Some(MediaError::InvalidPitch { pitch, width })
    } else if len < saturate_usize(pitch * height) {
        Some(
            MediaError::BufferTooSmall {
                needed: saturate_usize(pitch * height) as usize,
                actual: len as usize,
            },
        )
    } else {
        None
    }
}

/// `bgra` holds the `width` x `height` pixels of the RGBA image `src`
/// (rows `pitch` bytes apart) as tightly packed BGRA.
pub open spec fn is_tight_bgra_of(
    bgra: Seq<u8>,
    src: Seq<u8>,
    width: int,
    height: int,
    pitch: int,
) -> bool {
    &&& bgra.len() == 4 * width * height
    &&& forall|y: int, x: int, c: int|
        0 <= y < height && 0 <= x < width && 0 <= c < 4 ==> #[trigger] bgra[pixel_offset(
            4 * width,
            y,
            x,
            c,
        )] == src[pixel_offset(pitch, y, x, swizzle(c))]
}

/// The alpha byte of pixel `(x, y)` is not fully opaque.
pub open spec fn is_translucent(src: Seq<u8>, pitch: int, y: int, x: int) -> bool {
    src[pixel_offset(pitch, y, x, 3)] != 255
}

/// Some pixel of the `width` x `height` RGBA image is not fully opaque.
pub open spec fn any_translucent(src: Seq<u8>, width: int, height: int, pitch: int) -> bool {
    exists|y: int, x: int|
        0 <= y < height && 0 <= x < width && #[trigger] is_translucent(src, pitch, y, x)
}

/// An image is translucent exactly when some pixel inside it has an alpha
/// byte other than 255: one such pixel, in any row and column, is enough, and
/// an image that is not translucent has every alpha byte at 255.
pub proof fn lemma_translucent_iff_some_alpha(
    src: Seq<u8>,
    width: int,
    height: int,
    pitch: int,
    y: int,
    x: int,
)
    ensures
        (0 <= y < height && 0 <= x < width && src[y * pitch + 4 * x + 3] != 255) ==> any_translucent(
            src,
            width,
            height,
            pitch,
        ),
        (!any_translucent(src, width, height, pitch) && 0 <= y < height && 0 <= x < width)
            ==> src[y * pitch + 4 * x + 3] == 255,
{
    assert(pixel_offset(pitch, y, x, 3) == y * pitch + 4 * x + 3);
    if 0 <= y < height && 0 <= x < width && src[y * pitch + 4 * x + 3] != 255 {
        assert(is_translucent(src, pitch, y, x));
    }
}

proof fn lemma_any_translucent_by_alpha(src: Seq<u8>, width: int, height: int, pitch: int)
    ensures
        any_translucent(src, width, height, pitch) == exists|y: int, x: int|
            0 <= y < height && 0 <= x < width && #[trigger] src[pixel_offset(pitch, y, x, 3)]
                != 255,
{
    if any_translucent(src, width, height, pitch) {
        let (y, x) = choose|y: int, x: int|
            0 <= y < height && 0 <= x < width && #[trigger] is_translucent(src, pitch, y, x);
        assert(src[pixel_offset(pitch, y, x, 3)] != 255);
    } else {
        assert forall|y: int, x: int|
            0 <= y < height && 0 <= x < width implies #[trigger] src[pixel_offset(
            pitch,
            y,
            x,
            3,
        )] == 255 by {
            if src[pixel_offset(pitch, y, x, 3)] != 255 {
                assert(is_translucent(src, pitch, y, x));
            }
        }
    }
}

proof fn lemma_row_step(row: int, y: int, bound: int)
    requires
        0 <= row,
        0 <= y < bound,
    ensures
        y * row + row <= bound * row,
        0 <= y * row,
{
    assert((y + 1) * row <= bound * row) by (nonlinear_arith)
        requires
            0 <= row,
            y + 1 <= bound,
    ;
    assert(y * row + row == (y + 1) * row) by (nonlinear_arith);
    assert(0 <= y * row) by (nonlinear_arith)
        requires
            0 <= row,
            0 <= y,
    ;
}

proof fn lemma_earlier_row(row: int, yy: int, y: int)
    requires
        0 <= row,
        0 <= yy < y,
    ensures
        yy * row + row <= y * row,
{
    lemma_row_step(row, yy, y);
}

/// Convert AviUtl2 scene RGBA8 (possibly padded pitch) into tightly packed BGRA8.
pub fn rgba_to_tight_bgra(width: u32, height: u32, pitch: u32, src: &[u8]) -> (res: Result<
    ConvertedVideo,
    MediaError,
>)
    requires
        src@.len() <= isize::MAX,
    ensures
        match rgba_convert_error(width, height, pitch, src@.len() as int) {
            Some(e) => res == Err::<ConvertedVideo, MediaError>(e),
            None => res matches Ok(v) && {
                &&& v.width == width
                &&& v.height == height
                &&& v.stride == (4 * width) as i32
                &&& is_tight_bgra_of(v.bgra@, src@, width as int, height as int, pitch as int)
                &&& v.has_alpha == any_translucent(src@, width as int, height as int, pitch as int)
                &&& v.has_alpha == exists|y: int, x: int|
                    0 <= y < height && 0 <= x < width && #[trigger] src@[pixel_offset(
                        pitch as int,
                        y,
                        x,
                        3,
                    )] != 255
            },
        },
{
    if width < MIN_VIDEO_DIM || height < MIN_VIDEO_DIM {
        return Err(MediaError::TooSmall { width, height });
    }
    let row_bytes: usize = match (width as usize).checked_mul(4) {
        Some(r) => r,
        None => usize::MAX,
    };
    let pitch_usize = pitch as usize;
    if pitch_usize < row_bytes {
        return Err(MediaError::InvalidPitch { pitch, width });
    }
    let needed: usize = match pitch_usize.checked_mul(height as usize) {
        Some(n) => n,
        None => usize::MAX,
    };
    if src.len() < needed {
        return Err(MediaError::BufferTooSmall { needed, actual: src.len() });
    }
    assert(needed == pitch * height) by {
        assert(src@.len() < usize::MAX);
    }
    assert(row_bytes == 4 * width) by {
        if 4 * (width as int) > usize::MAX {
            assert(pitch_usize == usize::MAX);
            assert(pitch_usize * (height as int) >= pitch_usize) by (nonlinear_arith)
                requires
                    height >= 1,
            ;
        }
    }
    let w = width as usize;
    let h = height as usize;
    let ghost row = 4 * (width as int);
    let ghost p = pitch as int;
    let mut bgra: Vec<u8> = Vec::new();
    let mut has_alpha = false;
    let mut y: usize = 0;
    while y < h
        invariant
            w == width,
            h == height,
            row == 4 * w,
            row_bytes == row,
            p == pitch_usize,
            row <= p,
            h * p <= src@.len(),
            src@.len() <= isize::MAX,
            0 <= y <= h,
            bgra@.len() == y * row,
            forall|yy: int, xx: int, c: int|
                0 <= yy < y && 0 <= xx < w && 0 <= c < 4 ==> #[trigger] bgra@[pixel_offset(
                    row,
                    yy,
                    xx,
                    c,
                )] == src@[pixel_offset(p, yy, xx, swizzle(c))],
            has_alpha == exists|yy: int, xx: int|
                0 <= yy < y && 0 <= xx < w && #[trigger] is_translucent(src@, p, yy, xx),
        decreases h - y,
    {
        proof {
            lemma_row_step(p, y as int, h as int);
            lemma_row_step(row, y as int, h as int);
        }
        let src_off = y * pitch_usize;
        let mut x: usize = 0;
        while x < w
            invariant
                w == width,
                h == height,
                row == 4 * w,
                p == pitch_usize,
                row <= p,
                h * p <= src@.len(),
                src@.len() <= isize::MAX,
                0 <= y < h,
                src_off == y * p,
                y * p + p <= h * p,
                0 <= x <= w,
                bgra@.len() == y * row + 4 * x,
                forall|yy: int, xx: int, c: int|
                    0 <= yy < y && 0 <= xx < w && 0 <= c < 4 ==> #[trigger] bgra@[pixel_offset(
                        row,
                        yy,
                        xx,
                        c,
                    )] == src@[pixel_offset(p, yy, xx, swizzle(c))],
                forall|xx: int, c: int|
                    0 <= xx < x && 0 <= c < 4 ==> #[trigger] bgra@[pixel_offset(
                        row,
                        y as int,
                        xx,
                        c,
                    )] == src@[pixel_offset(p, y as int, xx, swizzle(c))],
                has_alpha == exists|yy: int, xx: int|
                    (0 <= yy < y && 0 <= xx < w || yy == y && 0 <= xx < x)
                        && #[trigger] is_translucent(src@, p, yy, xx),
            decreases w - x,
        {
            let i = src_off + x * 4;
            let r = src[i];
            let g = src[i + 1];
            let b = src[i + 2];
            let a = src[i + 3];
            let ghost before = bgra@;
            bgra.push(b);
            bgra.push(g);
            bgra.push(r);
            bgra.push(a);
            proof {
                let yi = y as int;
                let xi = x as int;
                assert(bgra@ == before + seq![b, g, r, a]);
                assert forall|yy: int, xx: int, c: int|
                    0 <= yy < y && 0 <= xx < w && 0 <= c < 4 implies #[trigger] bgra@[pixel_offset(
                    row,
                    yy,
                    xx,
                    c,
                )] == src@[pixel_offset(p, yy, xx, swizzle(c))] by {
                    lemma_earlier_row(row, yy, yi);
                    assert(bgra@[pixel_offset(row, yy, xx, c)] == before[pixel_offset(
                        row,
                        yy,
                        xx,
                        c,
                    )]);
                }
                assert forall|xx: int, c: int|
                    0 <= xx < x + 1 && 0 <= c < 4 implies #[trigger] bgra@[pixel_offset(
                    row,
                    yi,
                    xx,
                    c,
                )] == src@[pixel_offset(p, yi, xx, swizzle(c))] by {
                    if xx < xi {
                        assert(bgra@[pixel_offset(row, yi, xx, c)] == before[pixel_offset(
                            row,
                            yi,
                            xx,
                            c,
                        )]);
                    }
                }
            }
            if a != 255 {
                has_alpha = true;
                assert(is_translucent(src@, p, y as int, x as int));
            }
            proof {
                let yi = y as int;
                let xi = x as int;
                if !has_alpha {
                    assert forall|yy: int, xx: int|
                        (0 <= yy < y && 0 <= xx < w || yy == y && 0 <= xx < x + 1) implies !#[trigger] is_translucent(
                        src@,
                        p,
                        yy,
                        xx,
                    ) by {
                        if yy == yi && xx == xi {
                            assert(src@[pixel_offset(p, yi, xi, 3)] == a);
                        }
                    }
                }
            }
            x += 1;
        }
        y += 1;
        proof {
            assert(bgra@.len() == y * row) by {
                lemma_row_step(row, (y - 1) as int, y as int);
                assert((y - 1) * row + row == y * row) by (nonlinear_arith);
            }
        }
    }
    proof {
        assert(bgra@.len() == 4 * width * height) by (nonlinear_arith)
            requires
                bgra@.len() == h * row,
                row == 4 * w,
                w == width,
                h == height,
        ;
    }
    proof {
        lemma_any_translucent_by_alpha(src@, width as int, height as int, pitch as int);
    }
    Ok(ConvertedVideo { width, height, stride: row_bytes as i32, bgra, has_alpha })
}


/// `downscale_bgra_to_rgba` declines these dimensions or a buffer of `len`
/// bytes.
pub open spec fn preview_rejects(width: u32, height: u32, len: int, max_width: u32) -> bool {
    width < MIN_VIDEO_DIM || height < MIN_VIDEO_DIM || max_width < 1 || len < saturate_usize(
        saturate_usize(4 * width) * height,
    )
}

/// The preview size `downscale_bgra_to_rgba` picks: at most `max_width`
/// wide, the height scaled in proportion, both at least 1.
pub open spec fn preview_size(width: u32, height: u32, max_width: u32) -> (int, int) {
    let dst_w = if width < max_width { width as int } else { max_width as int };
    let dst_h = (height as int * dst_w) / (width as int);
    (dst_w, if dst_h < 1 { 1 } else { dst_h })
}

/// `out` is the `dst_w` x `dst_h` RGBA nearest-neighbour sample of the BGRA
/// image `bgra` of `width` x `height`: output pixel `(x, y)` is input pixel
/// `(x * width / dst_w, y * height / dst_h)`.
pub open spec fn is_rgba_sample_of(
    out: Seq<u8>,
    bgra: Seq<u8>,
    width: int,
    height: int,
    dst_w: int,
    dst_h: int,
) -> bool {
    &&& out.len() == 4 * dst_w * dst_h
    &&& forall|y: int, x: int, c: int|
        0 <= y < dst_h && 0 <= x < dst_w && 0 <= c < 4 ==> #[trigger] out[pixel_offset(
            4 * dst_w,
            y,
            x,
            c,
        )] == bgra[pixel_offset(4 * width, y * height / dst_h, x * width / dst_w, swizzle(c))]
}

proof fn lemma_u32_product(a: int, b: int)
    requires
        0 <= a <= u32::MAX,
        0 <= b <= u32::MAX,
    ensures
        0 <= a * b <= u64::MAX,
{
    assert(0 <= a * b <= u32::MAX * u32::MAX) by (nonlinear_arith)
        requires
            0 <= a <= u32::MAX,
            0 <= b <= u32::MAX,
    ;
}

proof fn lemma_scaled_index(i: int, n: int, m: int)
    requires
        0 <= i < m,
        1 <= m,
        1 <= n,
    ensures
        0 <= i * n / m < n,
{
    assert(0 <= i * n) by (nonlinear_arith)
        requires
            0 <= i,
            1 <= n,
    ;
    assert(i * n < m * n) by (nonlinear_arith)
        requires
            0 <= i < m,
            1 <= n,
    ;
    assert(i * n / m < n) by (nonlinear_arith)
        requires
            0 <= i * n < m * n,
            1 <= m,
    ;
    assert(0 <= i * n / m) by (nonlinear_arith)
        requires
            0 <= i * n,
            1 <= m,
    ;
}

/// Downscale packed BGRA and convert to RGBA for the plugin preview.
pub fn downscale_bgra_to_rgba(width: u32, height: u32, bgra: &[u8], max_width: u32) -> (res:
    Option<(u32, u32, Vec<u8>)>)
    requires
        bgra@.len() <= isize::MAX,
    ensures
        match res {
            None => preview_rejects(width, height, bgra@.len() as int, max_width),
            Some((dst_w, dst_h, out)) => {
                &&& !preview_rejects(width, height, bgra@.len() as int, max_width)
                &&& (dst_w as int, dst_h as int) == preview_size(width, height, max_width)
                &&& is_rgba_sample_of(
                    out@,
                    bgra@,
                    width as int,
                    height as int,
                    dst_w as int,
                    dst_h as int,
                )
            },
        },
{
    if width < MIN_VIDEO_DIM || height < MIN_VIDEO_DIM || max_width < 1 {
        return None;
    }
    let row: usize = match (width as usize).checked_mul(4) {
        Some(r) => r,
        None => usize::MAX,
    };
    let needed: usize = match row.checked_mul(height as usize) {
        Some(n) => n,
        None => usize::MAX,
    };
    if bgra.len() < needed {
        return None;
    }
    proof {
        assert(bgra@.len() < usize::MAX);
        if 4 * (width as int) > usize::MAX {
            assert(row * (height as int) >= row) by (nonlinear_arith)
                requires
                    height >= 1,
            ;
        }
        assert(row == 4 * width);
        assert(needed == row * height);
    }
    let dst_w: u32 = if width < max_width { width } else { max_width };
    proof {
        lemma_u32_product(height as int, dst_w as int);
    }
    let scaled: u64 = (height as u64) * (dst_w as u64) / (width as u64);
    proof {
        assert((height as int) * (dst_w as int) <= (height as int) * (width as int)) by (
        nonlinear_arith)
            requires
                dst_w <= width,
        ;
        assert((height as int) * (dst_w as int) / (width as int) <= height as int) by (
        nonlinear_arith)
            requires
                (height as int) * (dst_w as int) <= (height as int) * (width as int),
                width >= 1,
        ;
    }
    let dst_h: u32 = if scaled < 1 { 1 } else { scaled as u32 };
    let ghost w = width as int;
    let ghost h = height as int;
    let ghost dw = dst_w as int;
    let ghost dh = dst_h as int;
    let ghost orow = 4 * dw;
    let mut out: Vec<u8> = Vec::new();
    let mut y: u32 = 0;
    while y < dst_h
        invariant
            w == width,
            h == height,
            dw == dst_w,
            dh == dst_h,
            orow == 4 * dw,
            w >= 16,
            h >= 16,
            1 <= dw <= w,
            1 <= dh <= h,
            row == 4 * w,
            row * h <= bgra@.len(),
            bgra@.len() <= isize::MAX,
            0 <= y <= dh,
            out@.len() == y * orow,
            forall|yy: int, xx: int, c: int|
                0 <= yy < y && 0 <= xx < dw && 0 <= c < 4 ==> #[trigger] out@[pixel_offset(
                    orow,
                    yy,
                    xx,
                    c,
                )] == bgra@[pixel_offset(row as int, yy * h / dh, xx * w / dw, swizzle(c))],
        decreases dh - y,
    {
        proof {
            lemma_u32_product(y as int, height as int);
        }
        let src_y: u64 = (y as u64) * (height as u64) / (dst_h as u64);
        proof {
            lemma_scaled_index(y as int, h, dh);
            lemma_row_step(row as int, src_y as int, h);
        }
        let mut x: u32 = 0;
        while x < dst_w
            invariant
                w == width,
                h == height,
                dw == dst_w,
                dh == dst_h,
                orow == 4 * dw,
                1 <= dw <= w,
                1 <= dh <= h,
                row == 4 * w,
                row * h <= bgra@.len(),
                bgra@.len() <= isize::MAX,
                0 <= y < dh,
                src_y == y * h / dh,
                0 <= src_y < h,
                src_y * row + row <= h * row,
                0 <= x <= dw,
                out@.len() == y * orow + 4 * x,
                forall|yy: int, xx: int, c: int|
                    0 <= yy < y && 0 <= xx < dw && 0 <= c < 4 ==> #[trigger] out@[pixel_offset(
                        orow,
                        yy,
                        xx,
                        c,
                    )] == bgra@[pixel_offset(row as int, yy * h / dh, xx * w / dw, swizzle(c))],
                forall|xx: int, c: int|
                    0 <= xx < x && 0 <= c < 4 ==> #[trigger] out@[pixel_offset(
                        orow,
                        y as int,
                        xx,
                        c,
                    )] == bgra@[pixel_offset(row as int, src_y as int, xx * w / dw, swizzle(c))],
            decreases dw - x,
        {
            proof {
                lemma_u32_product(x as int, width as int);
            }
            let src_x: u64 = (x as u64) * (width as u64) / (dst_w as u64);
            proof {
                lemma_scaled_index(x as int, w, dw);
                assert(src_y * row <= h * row);
            }
            let src = (src_y as usize) * row + (src_x as usize) * 4;
            let b = bgra[src];
            let g = bgra[src + 1];
            let r = bgra[src + 2];
            let a = bgra[src + 3];
            let ghost before = out@;
            out.push(r);
            out.push(g);
            out.push(b);
            out.push(a);
            proof {
                let yi = y as int;
                let xi = x as int;
                assert(out@ == before + seq![r, g, b, a]);
                assert forall|yy: int, xx: int, c: int|
                    0 <= yy < y && 0 <= xx < dw && 0 <= c < 4 implies #[trigger] out@[pixel_offset(
                    orow,
                    yy,
                    xx,
                    c,
                )] == bgra@[pixel_offset(row as int, yy * h / dh, xx * w / dw, swizzle(c))] by {
                    lemma_earlier_row(orow, yy, yi);
                    assert(out@[pixel_offset(orow, yy, xx, c)] == before[pixel_offset(
                        orow,
                        yy,
                        xx,
                        c,
                    )]);
                }
                assert forall|xx: int, c: int|
                    0 <= xx < x + 1 && 0 <= c < 4 implies #[trigger] out@[pixel_offset(
                    orow,
                    yi,
                    xx,
                    c,
                )] == bgra@[pixel_offset(row as int, src_y as int, xx * w / dw, swizzle(c))] by {
                    if xx < xi {
                        assert(out@[pixel_offset(orow, yi, xx, c)] == before[pixel_offset(
                            orow,
                            yi,
                            xx,
                            c,
                        )]);
                    }
                }
            }
            x += 1;
        }
        y += 1;
        proof {
            assert((y - 1) * orow + orow == y * orow) by (nonlinear_arith);
        }
    }
    proof {
        assert(out@.len() == 4 * dw * dh) by (nonlinear_arith)
            requires
                out@.len() == dh * orow,
                orow == 4 * dw,
        ;
    }
    Some((dst_w, dst_h, out))
}


/// Where a byte of a tightly packed image of `width` pixels a row lies:
/// index `i` is channel `i % 4` of pixel `((i % 4w) / 4, i / 4w)`.
proof fn lemma_tight_index(i: int, width: int, height: int)
    requires
        width >= 1,
        0 <= i < 4 * width * height,
    ensures
        0 <= i / (4 * width) < height,
        0 <= (i % (4 * width)) / 4 < width,
        0 <= (i % (4 * width)) % 4 < 4,
        i == pixel_offset(4 * width, i / (4 * width), (i % (4 * width)) / 4, (i % (4 * width)) % 4),
{
    let row = 4 * width;
    let y = i / row;
    let r = i % row;
    vstd::arithmetic::div_mod::lemma_fundamental_div_mod(i, row);
    vstd::arithmetic::div_mod::lemma_fundamental_div_mod(r, 4);
    vstd::arithmetic::div_mod::lemma_mod_bound(i, row);
    vstd::arithmetic::div_mod::lemma_mod_bound(r, 4);
    assert(0 <= y < height) by (nonlinear_arith)
        requires
            row >= 4,
            0 <= i < row * height,
            i == row * y + r,
            0 <= r < row,
    ;
    assert(0 <= r / 4 < width) by (nonlinear_arith)
        requires
            0 <= r < 4 * width,
            r == 4 * (r / 4) + r % 4,
            0 <= r % 4 < 4,
    ;
    assert(i == y * row + 4 * (r / 4) + r % 4) by (nonlinear_arith)
        requires
            i == row * y + r,
            r == 4 * (r / 4) + r % 4,
    ;
}

/// Converting a full-size RGBA frame to BGRA and previewing it at its own
/// size (no wider than the limit) gives back the RGBA frame unchanged.
pub proof fn lemma_preview_round_trip(
    src: Seq<u8>,
    bgra: Seq<u8>,
    out: Seq<u8>,
    width: u32,
    height: u32,
    max_width: u32,
)
    requires
        width >= MIN_VIDEO_DIM,
        height >= MIN_VIDEO_DIM,
        max_width >= width,
        src.len() == 4 * width * height,
        is_tight_bgra_of(bgra, src, width as int, height as int, 4 * width),
    ensures
        !preview_rejects(width, height, bgra.len() as int, max_width),
        preview_size(width, height, max_width) == (width as int, height as int),
        is_rgba_sample_of(out, bgra, width as int, height as int, width as int, height as int)
            ==> out == src,
{
    let w = width as int;
    let h = height as int;
    assert(saturate_usize(saturate_usize(4 * w) * h) <= 4 * w * h) by (nonlinear_arith)
        requires
            w >= 1,
            h >= 1,
            saturate_usize(4 * w) <= 4 * w,
            saturate_usize(saturate_usize(4 * w) * h) <= saturate_usize(4 * w) * h,
    ;
    vstd::arithmetic::div_mod::lemma_div_by_multiple(h, w);
    assert(h * w == w * h) by (nonlinear_arith);
    if is_rgba_sample_of(out, bgra, w, h, w, h) {
        assert forall|i: int| 0 <= i < out.len() implies out[i] == src[i] by {
            lemma_tight_index(i, w, h);
            let y = i / (4 * w);
            let x = (i % (4 * w)) / 4;
            let c = (i % (4 * w)) % 4;
            vstd::arithmetic::div_mod::lemma_div_by_multiple(y, h);
            vstd::arithmetic::div_mod::lemma_div_by_multiple(x, w);
            assert(y * h == h * y && x * w == w * x) by (nonlinear_arith);
            assert(out[pixel_offset(4 * w, y, x, c)] == bgra[pixel_offset(
                4 * w,
                y,
                x,
                swizzle(c),
            )]);
            assert(bgra[pixel_offset(4 * w, y, x, swizzle(c))] == src[pixel_offset(
                4 * w,
                y,
                x,
                swizzle(swizzle(c)),
            )]);
        }
        assert(out =~= src);
    }
}

/// Byte `b` (0 = least significant) of the little-endian encoding of `x`.
pub open spec fn le_byte(x: u32, b: int) -> u8 {
    if b == 0 {
        (x % 256) as u8
    } else if b == 1 {
        ((x / 256) % 256) as u8
    } else if b == 2 {
        ((x / 65536) % 256) as u8
    } else {
        (x / 16777216) as u8
    }
}

/// The samples of each plane.
pub open spec fn plane_views(planes: Seq<&[u32]>) -> Seq<Seq<u32>> {
    planes.map_values(|p: &[u32]| p@)
}

/// The length of the longest plane.
pub open spec fn max_plane_len(planes: Seq<Seq<u32>>) -> nat
    decreases planes.len(),
{
    if planes.len() == 0 {
        0
    } else {
        let m = max_plane_len(planes.drop_last());
        if planes.last().len() > m {
            planes.last().len()
        } else {
            m
        }
    }
}

/// The error `planar_f32_le` reports for these planes, or `None`.
pub open spec fn planar_error(planes: Seq<Seq<u32>>) -> Option<MediaError> {
    if planes.len() == 0 || forall|i: int| 0 <= i < planes.len() ==> #[trigger] planes[i].len() == 0 {
        Some(MediaError::EmptyAudio)
    } else if exists|i: int|
        0 <= i < planes.len() && #[trigger] planes[i].len() != 0 && planes[i].len()
            != max_plane_len(planes) {
        Some(MediaError::ChannelLengthMismatch)
    } else {
        None
    }
}

/// `out` holds the planes one after another, each sample as its four
/// little-endian bytes, an empty plane as `samples` zero samples.
pub open spec fn is_planar_le_of(out: Seq<u8>, planes: Seq<Seq<u32>>, samples: nat) -> bool {
    &&& out.len() == planes.len() * (4 * samples)
    &&& forall|i: int, k: int, b: int|
        0 <= i < planes.len() && 0 <= k < samples && 0 <= b < 4 ==> #[trigger] out[pixel_offset(
            4 * (samples as int),
            i,
            k,
            b,
        )] == if planes[i].len() == 0 {
            0u8
        } else {
            le_byte(planes[i][k], b)
        }
}

proof fn lemma_max_plane_len_step(planes: Seq<Seq<u32>>, i: int)
    requires
        0 <= i < planes.len(),
    ensures
        max_plane_len(planes.take(i + 1)) == if planes[i].len() > max_plane_len(planes.take(i)) {
            planes[i].len()
        } else {
            max_plane_len(planes.take(i))
        },
{
    assert(planes.take(i + 1).drop_last() =~= planes.take(i));
}

proof fn lemma_max_plane_len_bounds(planes: Seq<Seq<u32>>)
    ensures
        forall|i: int| 0 <= i < planes.len() ==> #[trigger] planes[i].len() <= max_plane_len(planes),
    decreases planes.len(),
{
    if planes.len() > 0 {
        lemma_max_plane_len_bounds(planes.drop_last());
        assert forall|i: int| 0 <= i < planes.len() implies #[trigger] planes[i].len()
            <= max_plane_len(planes) by {
            if i < planes.len() - 1 {
                assert(planes.drop_last()[i] == planes[i]);
            }
        }
    }
}

/// Write `x` as its four little-endian bytes.
fn push_le_bytes(out: &mut Vec<u8>, x: u32)
    ensures
        final(out)@ == old(out)@ + seq![le_byte(x, 0), le_byte(x, 1), le_byte(x, 2), le_byte(x, 3)],
{
    out.push((x % 256) as u8);
    out.push(((x / 256) % 256) as u8);
    out.push(((x / 65536) % 256) as u8);
    out.push((x / 16777216) as u8);
}

/// Serialize planar f32 channels as little-endian bytes, concatenated per
/// channel. Each sample is given by its IEEE 754 bit pattern (`f32::to_bits`),
/// whose little-endian bytes are the sample's.
pub fn planar_f32_le(planes: &[&[u32]]) -> (res: Result<Vec<u8>, MediaError>)
    requires
        planar_error(plane_views(planes@)) is None ==> planes@.len() * (4 * max_plane_len(
            plane_views(planes@),
        )) <= isize::MAX,
    ensures
        match planar_error(plane_views(planes@)) {
            Some(e) => res == Err::<Vec<u8>, MediaError>(e),
            None => res matches Ok(out) && is_planar_le_of(
                out@,
                plane_views(planes@),
                max_plane_len(plane_views(planes@)),
            ),
        },
{
    let ghost ps = plane_views(planes@);
    let n = planes.len();
    let mut samples: usize = 0;
    let mut any_nonempty = false;
    let mut i: usize = 0;
    while i < n
        invariant
            n == planes@.len(),
            ps == plane_views(planes@),
            0 <= i <= n,
            samples == max_plane_len(ps.take(i as int)),
            any_nonempty == exists|j: int| 0 <= j < i && #[trigger] ps[j].len() != 0,
        decreases n - i,
    {
        proof {
            lemma_max_plane_len_step(ps, i as int);
        }
        let len = planes[i].len();
        assert(len == ps[i as int].len());
        if len > samples {
            samples = len;
        }
        if len != 0 {
            any_nonempty = true;
        }
        i += 1;
    }
    assert(ps.take(n as int) =~= ps);
    if !any_nonempty {
        return Err(MediaError::EmptyAudio);
    }
    let mut mismatch = false;
    let mut i: usize = 0;
    while i < n
        invariant
            n == planes@.len(),
            ps == plane_views(planes@),
            samples == max_plane_len(ps),
            0 <= i <= n,
            mismatch == exists|j: int|
                0 <= j < i && #[trigger] ps[j].len() != 0 && ps[j].len() != samples,
        decreases n - i,
    {
        let len = planes[i].len();
        assert(len == ps[i as int].len());
        if len != 0 && len != samples {
            mismatch = true;
        }
        i += 1;
    }
    if mismatch {
        return Err(MediaError::ChannelLengthMismatch);
    }
    proof {
        lemma_max_plane_len_bounds(ps);
    }
    let ghost blk = 4 * (samples as int);
    let mut out: Vec<u8> = Vec::new();
    let mut i: usize = 0;
    while i < n
        invariant
            n == planes@.len(),
            ps == plane_views(planes@),
            samples == max_plane_len(ps),
            blk == 4 * samples,
            n * blk <= isize::MAX,
            forall|j: int| 0 <= j < n ==> #[trigger] ps[j].len() == 0 || ps[j].len() == samples,
            0 <= i <= n,
            out@.len() == i * blk,
            forall|ii: int, k: int, b: int|
                0 <= ii < i && 0 <= k < samples && 0 <= b < 4 ==> #[trigger] out@[pixel_offset(
                    blk,
                    ii,
                    k,
                    b,
                )] == if ps[ii].len() == 0 {
                    0u8
                } else {
                    le_byte(ps[ii][k], b)
                },
        decreases n - i,
    {
        proof {
            lemma_row_step(blk, i as int, n as int);
        }
        let plane: &[u32] = planes[i];
        assert(plane@ == ps[i as int]);
        let empty = plane.len() == 0;
        let mut k: usize = 0;
        while k < samples
            invariant
                ps == plane_views(planes@),
                blk == 4 * samples,
                0 <= i < n,
                n == planes@.len(),
                i * blk + blk <= n * blk,
                n * blk <= isize::MAX,
                plane@ == ps[i as int],
                empty == (plane@.len() == 0),
                plane@.len() == 0 || plane@.len() == samples,
                0 <= k <= samples,
                out@.len() == i * blk + 4 * k,
                forall|ii: int, kk: int, b: int|
                    0 <= ii < i && 0 <= kk < samples && 0 <= b < 4 ==> #[trigger] out@[pixel_offset(
                        blk,
                        ii,
                        kk,
                        b,
                    )] == if ps[ii].len() == 0 {
                        0u8
                    } else {
                        le_byte(ps[ii][kk], b)
                    },
                forall|kk: int, b: int|
                    0 <= kk < k && 0 <= b < 4 ==> #[trigger] out@[pixel_offset(
                        blk,
                        i as int,
                        kk,
                        b,
                    )] == if plane@.len() == 0 {
                        0u8
                    } else {
                        le_byte(plane@[kk], b)
                    },
            decreases samples - k,
        {
            let x: u32 = if empty { 0 } else { plane[k] };
            let ghost before = out@;
            push_le_bytes(&mut out, x);
            proof {
                let ii0 = i as int;
                let k0 = k as int;
                if empty {
                    assert(le_byte(0, 0) == 0u8 && le_byte(0, 1) == 0u8 && le_byte(0, 2) == 0u8
                        && le_byte(0, 3) == 0u8);
                }
                assert forall|ii: int, kk: int, b: int|
                    0 <= ii < i && 0 <= kk < samples && 0 <= b < 4 implies #[trigger] out@[pixel_offset(
                    blk,
                    ii,
                    kk,
                    b,
                )] == if ps[ii].len() == 0 {
                    0u8
                } else {
                    le_byte(ps[ii][kk], b)
                } by {
                    lemma_earlier_row(blk, ii, ii0);
                    assert(out@[pixel_offset(blk, ii, kk, b)] == before[pixel_offset(
                        blk,
                        ii,
                        kk,
                        b,
                    )]);
                }
                assert forall|kk: int, b: int|
                    0 <= kk < k + 1 && 0 <= b < 4 implies #[trigger] out@[pixel_offset(
                    blk,
                    ii0,
                    kk,
                    b,
                )] == if plane@.len() == 0 {
                    0u8
                } else {
                    le_byte(plane@[kk], b)
                } by {
                    if kk < k0 {
                        assert(out@[pixel_offset(blk, ii0, kk, b)] == before[pixel_offset(
                            blk,
                            ii0,
                            kk,
                            b,
                        )]);
                    }
                }
            }
            k += 1;
        }
        i += 1;
        proof {
            assert((i - 1) * blk + blk == i * blk) by (nonlinear_arith);
        }
    }
    Ok(out)
}


/// The step that `SessionClock` takes from its last timestamp `last` when the
/// clock reads `candidate`: the reading where it is later, else one tick past
/// `last` (saturating at `i64::MAX`).
pub open spec fn monotonic_step(last: i64, candidate: i64) -> i64 {
    if candidate <= last {
        if last == i64::MAX {
            last
        } else {
            (last + 1) as i64
        }
    } else {
        candidate
    }
}

/// Whole 100 ns ticks in `nanos` nanoseconds, truncated to `i64` as a cast
/// does.
pub fn ticks_from_nanos(nanos: u128) -> (t: i64)
    ensures
        t == (nanos / 100) as i64,
{
    (nanos / 100) as i64
}

/// A per-session clock that hands out strictly increasing 100 ns timestamps.
#[derive(Debug)]
pub struct SessionClock {
    start: Instant,
    last: i64,
}

impl SessionClock {
    #[verifier::type_invariant]
    spec fn wf(self) -> bool {
        self.last >= -1
    }

    /// The last timestamp handed out, `-1` before the first.
    pub closed spec fn last_tick(&self) -> i64 {
        self.last
    }

    pub fn new() -> (clock: Self)
        ensures
            clock.last_tick() == -1,
    {
        Self { start: instant_now(), last: -1 }
    }

    /// Ticks of 100 ns since the session started, read from the monotonic
    /// clock (see `ticks_from_nanos`).
    pub fn elapsed_ticks(&self) -> i64 {
        let nanos = duration_as_nanos(&instant_elapsed(&self.start));
        ticks_from_nanos(nanos)
    }

    /// Take the next timestamp given the clock reading `candidate`.
    pub fn next_monotonic_at(&mut self, candidate: i64) -> (next: i64)
        ensures
            next == monotonic_step(old(self).last_tick(), candidate),
            final(self).last_tick() == next,
    {
        proof {
            use_type_invariant(&*self);
        }
        let next = if candidate <= self.last {
            if self.last == i64::MAX {
                self.last
            } else {
                self.last + 1
            }
        } else {
            candidate
        };
        self.last = next;
        next
    }

    /// Monotonic 100 ns timestamp derived from the session [`Instant`].
    pub fn next_monotonic(&mut self) -> (next: i64)
        ensures
            exists|candidate: i64| next == monotonic_step(old(self).last_tick(), candidate),
            next > old(self).last_tick() || old(self).last_tick() == i64::MAX,
            next >= 0,
            final(self).last_tick() == next,
    {
        proof {
            use_type_invariant(&*self);
        }
        let candidate = self.elapsed_ticks();
        let next = self.next_monotonic_at(candidate);
        proof {
            lemma_monotonic_step_increases(old(self).last_tick(), candidate);
        }
        next
    }

    pub fn last(&self) -> (last: i64)
        ensures
            last == self.last_tick(),
    {
        self.last
    }
}

impl Default for SessionClock {
    fn default() -> (clock: Self)
        ensures
            clock.last_tick() == -1,
    {
        Self::new()
    }
}

/// Timestamps only move forward: each one the clock hands out is later than
/// the one before (until `i64::MAX`), and none is negative once the clock
/// starts from `-1`.
pub proof fn lemma_monotonic_step_increases(last: i64, candidate: i64)
    requires
        last >= -1,
    ensures
        monotonic_step(last, candidate) > last || last == i64::MAX,
        monotonic_step(last, candidate) >= 0,
        monotonic_step(last, candidate) >= candidate || last == i64::MAX,
{
}

/// `n` where `n >= 1`, else 1.
pub open spec fn at_least_one(n: int) -> int {
    if n < 1 {
        1
    } else {
        n
    }
}

/// Ticks between frames at `fps_n / fps_d` frames per second.
pub fn video_interval_ticks(fps_n: i32, fps_d: i32) -> (ticks: i64)
    ensures
        ticks == (TICKS_PER_SECOND * at_least_one(fps_d as int)) / at_least_one(fps_n as int),
{
    let n: i64 = if fps_n < 1 { 1 } else { fps_n as i64 };
    let d: i64 = if fps_d < 1 { 1 } else { fps_d as i64 };
    (TICKS_PER_SECOND * d) / n
}

/// Ticks spanned by `samples` samples at `sample_rate` Hz.
pub fn audio_interval_ticks(samples: i32, sample_rate: i32) -> (ticks: i64)
    ensures
        ticks == (TICKS_PER_SECOND * at_least_one(samples as int)) / at_least_one(
            sample_rate as int,
        ),
{
    let samples: i64 = if samples < 1 { 1 } else { samples as i64 };
    let rate: i64 = if sample_rate < 1 { 1 } else { sample_rate as i64 };
    (TICKS_PER_SECOND * samples) / rate
}

/// Audio samples per video frame, rounded down.
pub open spec fn spec_samples_per_frame(sample_rate: u32, fps_n: i32, fps_d: i32) -> int {
    (at_least_one(sample_rate as int) * at_least_one(fps_d as int)) / at_least_one(fps_n as int)
}

pub fn samples_per_frame(sample_rate: u32, fps_n: i32, fps_d: i32) -> (samples: u64)
    ensures
        samples == spec_samples_per_frame(sample_rate, fps_n, fps_d),
{
    let rate: u64 = if sample_rate < 1 { 1 } else { sample_rate as u64 };
    let n: u64 = if fps_n < 1 { 1 } else { fps_n as u64 };
    let d: u64 = if fps_d < 1 { 1 } else { fps_d as u64 };
    proof {
        lemma_u32_product(rate as int, d as int);
    }
    (rate * d) / n
}

/// Bytes of the video of a bake: four per pixel per frame (at least one frame).
pub open spec fn bake_video_bytes(width: u32, height: u32, frames: u32) -> int {
    at_least_one(frames as int) * width * height * 4
}

/// Bytes of the audio of a bake: two channels of four-byte samples.
pub open spec fn bake_audio_bytes(frames: u32, sample_rate: u32, fps_n: i32, fps_d: i32) -> int {
    at_least_one(frames as int) * spec_samples_per_frame(sample_rate, fps_n, fps_d) * 2 * 4
}

/// Both parts of the estimate fit in a `u64`.
pub open spec fn bake_estimate_fits(
    width: u32,
    height: u32,
    frames: u32,
    sample_rate: u32,
    fps_n: i32,
    fps_d: i32,
) -> bool {
    &&& bake_video_bytes(width, height, frames) <= u64::MAX
    &&& bake_audio_bytes(frames, sample_rate, fps_n, fps_d) <= u64::MAX
}

/// Memory a bake of these dimensions takes, video and audio together,
/// saturating at `u64::MAX`.
pub fn estimate_bake_bytes(
    width: u32,
    height: u32,
    frames: u32,
    sample_rate: u32,
    fps_n: i32,
    fps_d: i32,
) -> (bytes: u64)
    requires
        bake_estimate_fits(width, height, frames, sample_rate, fps_n, fps_d),
    ensures
        bytes == saturate_u64(
            bake_video_bytes(width, height, frames) + bake_audio_bytes(
                frames,
                sample_rate,
                fps_n,
                fps_d,
            ),
        ),
{
    let frames: u64 = if frames < 1 { 1 } else { frames as u64 };
    let spf = samples_per_frame(sample_rate, fps_n, fps_d);
    proof {
        lemma_u32_product(frames as int, width as int);
        let fw = frames * width;
        assert(fw * height <= fw * height * 4) by (nonlinear_arith)
            requires
                fw * height >= 0,
        ;
        assert(frames * spf <= frames * spf * 2 * 4) by (nonlinear_arith)
            requires
                frames * spf >= 0,
        ;
        assert(frames * spf * 2 <= frames * spf * 2 * 4) by (nonlinear_arith)
            requires
                frames * spf >= 0,
        ;
    }
    let video = frames * (width as u64) * (height as u64) * 4;
    let audio = frames * spf * 2 * 4;
    video.saturating_add(audio)
}

/// `x` clamped to the range of `u64`.
pub open spec fn saturate_u64(x: int) -> int {
    if x > u64::MAX {
        u64::MAX as int
    } else {
        x
    }
}

/// Where the playhead stands.
#[derive(Debug, Clone, Copy, PartialEq, Eq, Structural)]
pub enum Playhead {
    Frame(u32),
    PastEnd,
}

/// Nanoseconds in a second.
pub const NANOS_PER_SECOND: u64 = 1_000_000_000;

/// The frame shown `elapsed_nanos` after playback started at
/// `fps_n / fps_d` frames per second (rounded down), or past the end once it
/// is beyond `last_frame`.
pub open spec fn playhead_at(elapsed_nanos: u64, fps_n: i32, fps_d: i32, last_frame: u32) -> Playhead {
    let frame = (elapsed_nanos * at_least_one(fps_n as int)) / (at_least_one(fps_d as int)
        * NANOS_PER_SECOND);
    let frame = if frame > u32::MAX {
        u32::MAX as int
    } else {
        frame
    };
    if frame > last_frame {
        Playhead::PastEnd
    } else {
        Playhead::Frame(frame as u32)
    }
}

/// The playhead after `elapsed_nanos` of wall-clock playback: it follows the
/// clock and skips frames rather than catching up.
pub fn playhead_frame(elapsed_nanos: u64, fps_n: i32, fps_d: i32, last_frame: u32) -> (head:
    Playhead)
    ensures
        head == playhead_at(elapsed_nanos, fps_n, fps_d, last_frame),
{
    let n: u128 = if fps_n < 1 { 1 } else { fps_n as u128 };
    let d: u128 = if fps_d < 1 { 1 } else { fps_d as u128 };
    proof {
        assert(elapsed_nanos * n <= u64::MAX * (i32::MAX as int)) by (nonlinear_arith)
            requires
                0 <= elapsed_nanos <= u64::MAX,
                1 <= n <= i32::MAX,
        ;
        assert(d * NANOS_PER_SECOND <= (i32::MAX as int) * NANOS_PER_SECOND) by (nonlinear_arith)
            requires
                1 <= d <= i32::MAX,
        ;
        assert(d * NANOS_PER_SECOND >= 1) by (nonlinear_arith)
            requires
                1 <= d,
        ;
    }
    let frame: u128 = (elapsed_nanos as u128) * n / (d * (NANOS_PER_SECOND as u128));
    let frame: u32 = if frame > u32::MAX as u128 { u32::MAX } else { frame as u32 };
    if frame > last_frame {
        Playhead::PastEnd
    } else {
        Playhead::Frame(frame)
    }
}

/// The playhead never moves backwards while the clock runs: a later reading
/// shows a later or the same frame, and once past the end it stays there.
pub proof fn lemma_playhead_monotonic(e1: u64, e2: u64, fps_n: i32, fps_d: i32, last_frame: u32)
    requires
        e1 <= e2,
    ensures
        playhead_at(e1, fps_n, fps_d, last_frame) is PastEnd ==> playhead_at(
            e2,
            fps_n,
            fps_d,
            last_frame,
        ) is PastEnd,
        playhead_at(e2, fps_n, fps_d, last_frame) matches Playhead::Frame(f2) ==> playhead_at(
            e1,
            fps_n,
            fps_d,
            last_frame,
        ) matches Playhead::Frame(f1) && f1 <= f2,
{
    let n = at_least_one(fps_n as int);
    let k = at_least_one(fps_d as int) * NANOS_PER_SECOND;
    assert(k > 0) by (nonlinear_arith)
        requires
            k == at_least_one(fps_d as int) * NANOS_PER_SECOND,
            at_least_one(fps_d as int) >= 1,
    ;
    vstd::arithmetic::mul::lemma_mul_inequality(e1 as int, e2 as int, n);
    vstd::arithmetic::div_mod::lemma_div_is_ordered(e1 * n, e2 * n, k);
}


/// The decimal digits of `n`, most significant first, without leading zeros.
pub open spec fn decimal(n: nat) -> Seq<char>
    decreases n,
{
    let digit = ((48 + n % 10) as u32) as char;
    if n < 10 {
        seq![digit]
    } else {
        decimal(n / 10).push(digit)
    }
}

/// `x / m` rounded to the nearest integer, ties to even.
pub open spec fn round_half_even_div(x: nat, m: nat) -> nat
    recommends
        m > 0,
{
    let q = x / m;
    let r = x % m;
    if 2 * r < m {
        q
    } else if 2 * r > m {
        q + 1
    } else if q % 2 == 0 {
        q
    } else {
        q + 1
    }
}

/// The gap between neighbouring `f64` values around `b`: 1 below 2^53, then
/// doubling with each power of two.
pub open spec fn f64_spacing(b: nat) -> nat
    decreases b,
{
    if b < 0x20_0000_0000_0000 {
        1
    } else {
        2 * f64_spacing(b / 2)
    }
}

/// The value of `b as f64`: `b` rounded to the nearest `f64`, ties to even.
pub open spec fn f64_value(b: nat) -> nat {
    round_half_even_div(b, f64_spacing(b)) * f64_spacing(b)
}

/// Two decimal places: a leading zero below ten.
pub open spec fn two_digits(n: nat) -> Seq<char> {
    if n < 10 {
        "0"@ + decimal(n)
    } else {
        decimal(n)
    }
}

pub const KIB: u64 = 1024;

pub const MIB: u64 = 1024 * 1024;

pub const GIB: u64 = 1024 * 1024 * 1024;

/// The text `format_bytes` gives `bytes`: in GiB with two decimals, MiB with
/// one or KiB with none, rounded half to even, or plain bytes below a KiB.
pub open spec fn bytes_text(bytes: u64) -> Seq<char> {
    if bytes >= GIB {
        let q = round_half_even_div(f64_value(bytes as nat) * 100, GIB as nat);
        decimal(q / 100) + "."@ + two_digits(q % 100) + " GiB"@
    } else if bytes >= MIB {
        let q = round_half_even_div(bytes as nat * 10, MIB as nat);
        decimal(q / 10) + "."@ + decimal(q % 10) + " MiB"@
    } else if bytes >= KIB {
        decimal(round_half_even_div(bytes as nat, KIB as nat)) + " KiB"@
    } else {
        decimal(bytes as nat) + " B"@
    }
}

/// The decimal digit `d` as text.
fn digit_text(d: u64) -> (t: &'static str)
    requires
        d < 10,
    ensures
        t@ == seq![((48 + d) as u32) as char],
{
    proof {
        reveal_strlit("0");
        reveal_strlit("1");
        reveal_strlit("2");
        reveal_strlit("3");
        reveal_strlit("4");
        reveal_strlit("5");
        reveal_strlit("6");
        reveal_strlit("7");
        reveal_strlit("8");
        reveal_strlit("9");
    }
    match d {
        0 => "0",
        1 => "1",
        2 => "2",
        3 => "3",
        4 => "4",
        5 => "5",
        6 => "6",
        7 => "7",
        8 => "8",
        _ => "9",
    }
}

/// `n` written in decimal digits, without sign or leading zeros.
pub(crate) fn decimal_string(n: u64) -> (s: String)
    ensures
        s@ == decimal(n as nat),
    decreases n,
{
    let mut s = if n < 10 {
        String::new()
    } else {
        decimal_string(n / 10)
    };
    s.append(digit_text(n % 10));
    s
}

pub(crate) fn round_half_even(x: u128, m: u128) -> (q: u128)
    requires
        0 < m <= 0x1_0000_0000_0000_0000_0000_0000,
        x <= 0x1_0000_0000_0000_0000_0000_0000,
    ensures
        q == round_half_even_div(x as nat, m as nat),
        q <= x / m + 1,
{
    let q = x / m;
    let r = x % m;
    if 2 * r < m {
        q
    } else if 2 * r > m {
        q + 1
    } else if q % 2 == 0 {
        q
    } else {
        q + 1
    }
}

fn spacing(b: u64) -> (m: u128)
    ensures
        m == f64_spacing(b as nat),
        1 <= m <= 4096,
{
    let mut x: u64 = b;
    let mut m: u128 = 1;
    while x >= 0x20_0000_0000_0000
        invariant
            m * f64_spacing(x as nat) == f64_spacing(b as nat),
            1 <= m,
            m * x <= b,
            m == 1 || x >= 0x10_0000_0000_0000,
        decreases x,
    {
        assert(m * x >= m * 0x20_0000_0000_0000) by (nonlinear_arith)
            requires
                m >= 1,
                x >= 0x20_0000_0000_0000,
        ;
        assert((m * 2) * (x / 2) <= m * x) by (nonlinear_arith)
            requires
                m >= 1,
                x >= 0,
        ;
        assert(m * f64_spacing(x as nat) == (m * 2) * f64_spacing((x / 2) as nat)) by (
        nonlinear_arith)
            requires
                f64_spacing(x as nat) == 2 * f64_spacing((x / 2) as nat),
        ;
        x = x / 2;
        m = m * 2;
    }
    assert(f64_spacing(x as nat) == 1);
    assert(m * f64_spacing(x as nat) == m) by (nonlinear_arith)
        requires
            f64_spacing(x as nat) == 1,
    ;
    assert(m <= 4096) by (nonlinear_arith)
        requires
            m >= 1,
            m * x <= b,
            b <= u64::MAX,
            m == 1 || x >= 0x10_0000_0000_0000,
    ;
    m
}

/// A byte count for the user: GiB with two decimals, MiB with one, KiB with
/// none, or bytes.
pub fn format_bytes(bytes: u64) -> (text: String)
    ensures
        text@ == bytes_text(bytes),
{
    if bytes >= GIB {
        let m = spacing(bytes);
        let r = round_half_even(bytes as u128, m);
        proof {
            let b = bytes as int;
            let mi = m as int;
            assert(round_half_even_div(bytes as nat, m as nat) <= b / mi + 1);
            assert((b / mi) * mi <= b) by (nonlinear_arith)
                requires
                    mi > 0,
                    b >= 0,
            ;
            assert(r * mi <= (b / mi + 1) * mi) by (
            nonlinear_arith)
                requires
                    mi > 0,
                    r <= b / mi + 1,
            ;
            assert((b / mi + 1) * mi == (b / mi) * mi + mi) by (nonlinear_arith);
            assert(mi <= 4096);
        }
        let v = r * m;
        let q = round_half_even(v * 100, GIB as u128);
        assert(q <= v * 100 / (GIB as int) + 1);
        let whole = decimal_string((q / 100) as u64);
        let frac = (q % 100) as u64;
        let mut text = whole;
        text.append(".");
        if frac < 10 {
            text.append("0");
        }
        let digits = decimal_string(frac);
        text.append(digits.as_str());
        text.append(" GiB");
        assert(text@ =~= bytes_text(bytes));
        text
    } else if bytes >= MIB {
        let q = round_half_even((bytes as u128) * 10, MIB as u128);
        assert(q <= (bytes as int) * 10 / (MIB as int) + 1);
        let mut text = decimal_string((q / 10) as u64);
        text.append(".");
        let digit = decimal_string((q % 10) as u64);
        text.append(digit.as_str());
        text.append(" MiB");
        assert(text@ =~= bytes_text(bytes));
        text
    } else if bytes >= KIB {
        let q = round_half_even(bytes as u128, KIB as u128);
        assert(q <= (bytes as int) / (KIB as int) + 1);
        let mut text = decimal_string(q as u64);
        text.append(" KiB");
        text
    } else {
        let mut text = decimal_string(bytes);
        text.append(" B");
        text
    }
}

} // verus!
