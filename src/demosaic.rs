//! Conversion of raw frames into RGB pixels, one converter per format.
use vstd::prelude::*;
use vstd::arithmetic::div_mod::lemma_fundamental_div_mod;
use crate::cam::{Cam, resolution_ok};
use crate::format::PixelFormat;
use crate::rggb;
use crate::rggb::bayer_value;

verus! {

/// Clamps a channel value into `0..=255`.
pub open spec fn clamp_channel(v: int) -> int {
    if v < 0 {
        0
    } else if v > 255 {
        255
    } else {
        v
    }
}

/// `R = Y + 1.402 (Cr - 128)`, clamped, then truncated.
pub open spec fn yuv_red(y: int, cr: int) -> int {
    clamp_channel((1000 * y + 1402 * (cr - 128)) / 1000)
}

/// `G = Y - 0.344136 (Cb - 128) - 0.714136 (Cr - 128)`, clamped, then truncated.
pub open spec fn yuv_green(y: int, cb: int, cr: int) -> int {
    clamp_channel((1_000_000 * y - 344_136 * (cb - 128) - 714_136 * (cr - 128)) / 1_000_000)
}

/// `B = Y + 1.772 (Cb - 128)`, clamped, then truncated.
pub open spec fn yuv_blue(y: int, cb: int) -> int {
    clamp_channel((1000 * y + 1772 * (cb - 128)) / 1000)
}

/// Blue-difference chroma of pixel `i` of a packed 4:2:2 frame: pixels pair
/// up as `Y0 Cb Y1 Cr`, both pixels of a pair sharing its chroma.
pub open spec fn yuyv_cb(frame: Seq<u8>, i: int) -> int {
    if i % 2 == 0 {
        frame[2 * i + 1] as int
    } else {
        frame[2 * i - 1] as int
    }
}

/// Red-difference chroma of pixel `i` of a packed 4:2:2 frame.
pub open spec fn yuyv_cr(frame: Seq<u8>, i: int) -> int {
    if i % 2 == 0 {
        frame[2 * i + 3] as int
    } else {
        frame[2 * i + 1] as int
    }
}

/// Channel `c` of pixel `i` of a packed 4:2:2 frame.
pub open spec fn yuyv_channel(frame: Seq<u8>, i: int, c: int) -> int {
    let y = frame[2 * i] as int;
    if c == 0 {
        yuv_red(y, yuyv_cr(frame, i))
    } else if c == 1 {
        yuv_green(y, yuyv_cb(frame, i), yuyv_cr(frame, i))
    } else {
        yuv_blue(y, yuyv_cb(frame, i))
    }
}

/// Channel `c` (0 red, 1 green, 2 blue) of pixel `i` of a raw frame of the
/// given format and resolution.
pub open spec fn decoded_channel(
    format: PixelFormat,
    resolution: (u32, u32),
    frame: Seq<u8>,
    i: int,
    c: int,
) -> int {
    let w = resolution.0 as int;
    let h = resolution.1 as int;
    match format {
        PixelFormat::Yuyv => yuyv_channel(frame, i, c),
        PixelFormat::Grey => frame[i] as int,
        PixelFormat::Rggb => bayer_value(frame, w, h, i % w, i / w, c),
        PixelFormat::Bgr3 => frame[3 * i + 2 - c] as int,
        PixelFormat::Rgb3 => frame[3 * i + c] as int,
    }
}

/// The first `n` pixels of `out` are the decoded pixels of `frame`.
pub open spec fn decodes_to(
    out: Seq<[u8; 3]>,
    format: PixelFormat,
    resolution: (u32, u32),
    frame: Seq<u8>,
    n: int,
) -> bool {
    forall|i: int, c: int|
        0 <= i < n && 0 <= c < 3 ==> #[trigger] out[i]@[c] == decoded_channel(
            format,
            resolution,
            frame,
            i,
            c,
        )
}

/// `clamp(num / scale)`, with `num / scale` rounded towards minus infinity.
fn scaled_channel(num: i64, scale: i64) -> (r: u8)
    requires
        scale > 0,
    ensures
        r == clamp_channel(num / scale),
{
    if num < 0 {
        proof {
            lemma_fundamental_div_mod(num as int, scale as int);
            let q = num / scale;
            assert(q < 0) by (nonlinear_arith)
                requires
                    num == scale * q + num % scale,
                    0 <= num % scale < scale,
                    num < 0,
            ;
        }
        0
    } else {
        let q = (num as u64) / (scale as u64);
        if q > 255 {
            255
        } else {
            q as u8
        }
    }
}

/// Converts one luma/chroma sample into RGB.
fn yuv_to_rgb(y: u8, cb: u8, cr: u8) -> (r: [u8; 3])
    ensures
        r@[0] == yuv_red(y as int, cr as int),
        r@[1] == yuv_green(y as int, cb as int, cr as int),
        r@[2] == yuv_blue(y as int, cb as int),
{
    let y = y as i64;
    let cb = cb as i64 - 128;
    let cr = cr as i64 - 128;
    let r = scaled_channel(1000 * y + 1402 * cr, 1000);
    let g = scaled_channel(1_000_000 * y - 344_136 * cb - 714_136 * cr, 1_000_000);
    let b = scaled_channel(1000 * y + 1772 * cb, 1000);
    [r, g, b]
}

fn demosaic_rggb(cam: &Cam, buf: &mut Vec<[u8; 3]>, frame: &[u8])
    requires
        cam@.format == PixelFormat::Rggb,
        old(buf)@.len() == cam@.pixels,
        frame@.len() == cam@.frame_size,
    ensures
        final(buf)@.len() == cam@.pixels,
        decodes_to(final(buf)@, cam@.format, cam@.resolution, frame@, cam@.pixels as int),
{
    proof {
        use_type_invariant(cam);
    }
    let res = cam.get_resolution();
    rggb::demosaic(frame, buf, res[0] as usize, res[1] as usize);
}

fn demosaic_yuyv(cam: &Cam, buf: &mut Vec<[u8; 3]>, frame: &[u8])
    requires
        cam@.format == PixelFormat::Yuyv,
        old(buf)@.len() == cam@.pixels,
        frame@.len() == cam@.frame_size,
    ensures
        final(buf)@.len() == cam@.pixels,
        decodes_to(final(buf)@, cam@.format, cam@.resolution, frame@, cam@.pixels as int),
{
    proof {
        use_type_invariant(cam);
    }
    let pixels = cam.get_pixels();
    let frame_len: usize = frame.len();
    let mut i: usize = 0;
    while i < pixels
        invariant
            frame_len == frame@.len(),
            cam@.format == PixelFormat::Yuyv,
            pixels == cam@.pixels,
            pixels % 2 == 0,
            frame@.len() == 2 * pixels,
            buf@.len() == pixels,
            i <= pixels,
            decodes_to(buf@, cam@.format, cam@.resolution, frame@, i as int),
        decreases pixels - i,
    {
        let (y, cb, cr) = if i % 2 == 0 {
            (frame[2 * i], frame[2 * i + 1], frame[2 * i + 3])
        } else {
            (frame[2 * i], frame[2 * i - 1], frame[2 * i + 1])
        };
        let p = yuv_to_rgb(y, cb, cr);
        buf.set(i, p);
        i = i + 1;
    }
}

fn demosaic_grey(cam: &Cam, buf: &mut Vec<[u8; 3]>, frame: &[u8])
    requires
        cam@.format == PixelFormat::Grey,
        old(buf)@.len() == cam@.pixels,
        frame@.len() == cam@.frame_size,
    ensures
        final(buf)@.len() == cam@.pixels,
        decodes_to(final(buf)@, cam@.format, cam@.resolution, frame@, cam@.pixels as int),
{
    proof {
        use_type_invariant(cam);
    }
    let pixels = cam.get_pixels();
    let frame_len: usize = frame.len();
    let mut i: usize = 0;
    while i < pixels
        invariant
            frame_len == frame@.len(),
            cam@.format == PixelFormat::Grey,
            pixels == cam@.pixels,
            frame@.len() == pixels,
            buf@.len() == pixels,
            i <= pixels,
            decodes_to(buf@, cam@.format, cam@.resolution, frame@, i as int),
        decreases pixels - i,
    {
        let v = frame[i];
        buf.set(i, [v, v, v]);
        i = i + 1;
    }
}

fn demosaic_bgr3(cam: &Cam, buf: &mut Vec<[u8; 3]>, frame: &[u8])
    requires
        cam@.format == PixelFormat::Bgr3,
        old(buf)@.len() == cam@.pixels,
        frame@.len() == cam@.frame_size,
    ensures
        final(buf)@.len() == cam@.pixels,
        decodes_to(final(buf)@, cam@.format, cam@.resolution, frame@, cam@.pixels as int),
{
    proof {
        use_type_invariant(cam);
    }
    let pixels = cam.get_pixels();
    let frame_len: usize = frame.len();
    let mut i: usize = 0;
    while i < pixels
        invariant
            frame_len == frame@.len(),
            cam@.format == PixelFormat::Bgr3,
            pixels == cam@.pixels,
            frame@.len() == 3 * pixels,
            buf@.len() == pixels,
            i <= pixels,
            decodes_to(buf@, cam@.format, cam@.resolution, frame@, i as int),
        decreases pixels - i,
    {
        buf.set(i, [frame[3 * i + 2], frame[3 * i + 1], frame[3 * i]]);
        i = i + 1;
    }
}

fn demosaic_rgb3(cam: &Cam, buf: &mut Vec<[u8; 3]>, frame: &[u8])
    requires
        cam@.format == PixelFormat::Rgb3,
        old(buf)@.len() == cam@.pixels,
        frame@.len() == cam@.frame_size,
    ensures
        final(buf)@.len() == cam@.pixels,
        decodes_to(final(buf)@, cam@.format, cam@.resolution, frame@, cam@.pixels as int),
{
    proof {
        use_type_invariant(cam);
    }
    let pixels = cam.get_pixels();
    let frame_len: usize = frame.len();
    let mut i: usize = 0;
    while i < pixels
        invariant
            frame_len == frame@.len(),
            cam@.format == PixelFormat::Rgb3,
            pixels == cam@.pixels,
            frame@.len() == 3 * pixels,
            buf@.len() == pixels,
            i <= pixels,
            decodes_to(buf@, cam@.format, cam@.resolution, frame@, i as int),
        decreases pixels - i,
    {
        buf.set(i, [frame[3 * i], frame[3 * i + 1], frame[3 * i + 2]]);
        i = i + 1;
    }
}

/// Decodes a raw frame of the device's format into `buf`, one RGB triple per
/// pixel.
pub fn demosaic(cam: &Cam, buf: &mut Vec<[u8; 3]>, frame: &[u8])
    requires
        old(buf)@.len() == cam@.pixels,
        frame@.len() == cam@.frame_size,
    ensures
        final(buf)@.len() == cam@.pixels,
        decodes_to(final(buf)@, cam@.format, cam@.resolution, frame@, cam@.pixels as int),
{
    match cam.pixel_format() {
        PixelFormat::Yuyv => demosaic_yuyv(cam, buf, frame),
        PixelFormat::Rggb => demosaic_rggb(cam, buf, frame),
        PixelFormat::Grey => demosaic_grey(cam, buf, frame),
        PixelFormat::Bgr3 => demosaic_bgr3(cam, buf, frame),
        PixelFormat::Rgb3 => demosaic_rgb3(cam, buf, frame),
    }
}

/// Whatever the luma and chroma, each converted channel lies in `0..=255`:
/// values beyond either end are clamped.
pub proof fn lemma_yuyv_in_range(frame: Seq<u8>, i: int, c: int)
    ensures
        0 <= yuyv_channel(frame, i, c) <= 255,
{
}

/// A packed 4:2:2 frame whose every byte is 128 (mid luma, neutral chroma)
/// decodes to mid gray `(128, 128, 128)` at every pixel.
pub proof fn lemma_yuyv_midpoint(resolution: (u32, u32), frame: Seq<u8>)
    requires
        resolution_ok(PixelFormat::Yuyv, resolution),
        frame.len() == 2 * (resolution.0 * resolution.1),
        forall|j: int| 0 <= j < frame.len() ==> #[trigger] frame[j] == 128,
    ensures
        forall|i: int, c: int|
            0 <= i < resolution.0 * resolution.1 && 0 <= c < 3 ==> #[trigger] decoded_channel(
                PixelFormat::Yuyv,
                resolution,
                frame,
                i,
                c,
            ) == 128,
{
    let n = resolution.0 * resolution.1;
    assert forall|i: int, c: int| 0 <= i < n && 0 <= c < 3 implies #[trigger] decoded_channel(
        PixelFormat::Yuyv,
        resolution,
        frame,
        i,
        c,
    ) == 128 by {
        assert(frame[2 * i] == 128);
        if i % 2 == 0 {
            assert(frame[2 * i + 1] == 128);
            assert(frame[2 * i + 3] == 128);
        } else {
            assert(frame[2 * i - 1] == 128);
            assert(frame[2 * i + 1] == 128);
        }
    }
}

} // verus!
