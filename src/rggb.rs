//! Bilinear demosaicing of an RGGB sensor plane.
//!
//! The sensor samples one channel per pixel in a repeating 2x2 tile: channel 0
//! (red) at even column / even row, channel 2 (blue) at odd column / odd row and
//! channel 1 (green) at the two remaining sites. A missing channel at a pixel is
//! the truncated average of the samples of that channel among the pixel's eight
//! neighbours that lie inside the image.
use vstd::prelude::*;
use vstd::arithmetic::div_mod::lemma_fundamental_div_mod;
use vstd::arithmetic::div_mod::lemma_fundamental_div_mod_converse;
use vstd::arithmetic::div_mod::lemma_div_multiples_vanish;

verus! {

/// The channel that the sensor samples at `(x, y)`.
pub open spec fn native_channel(x: int, y: int) -> int {
    if x % 2 == 0 && y % 2 == 0 {
        0
    } else if x % 2 == 1 && y % 2 == 1 {
        2
    } else {
        1
    }
}

/// The raw sample at `(x, y)` of a plane `w` pixels wide.
pub open spec fn sample(data: Seq<u8>, w: int, x: int, y: int) -> int {
    data[y * w + x] as int
}

/// Whether `(x, y)` lies inside a `w` x `h` image and samples channel `c`.
pub open spec fn has_sample(w: int, h: int, x: int, y: int, c: int) -> bool {
    0 <= x < w && 0 <= y < h && native_channel(x, y) == c
}

pub open spec fn weight(w: int, h: int, x: int, y: int, c: int) -> int {
    if has_sample(w, h, x, y, c) {
        1
    } else {
        0
    }
}

pub open spec fn contribution(data: Seq<u8>, w: int, h: int, x: int, y: int, c: int) -> int {
    if has_sample(w, h, x, y, c) {
        sample(data, w, x, y)
    } else {
        0
    }
}

/// Sum of the channel-`c` samples among the eight neighbours of `(x, y)`.
pub open spec fn neighbour_sum(data: Seq<u8>, w: int, h: int, x: int, y: int, c: int) -> int {
    contribution(data, w, h, x - 1, y - 1, c) + contribution(data, w, h, x, y - 1, c)
        + contribution(data, w, h, x + 1, y - 1, c) + contribution(data, w, h, x - 1, y, c)
        + contribution(data, w, h, x + 1, y, c) + contribution(data, w, h, x - 1, y + 1, c)
        + contribution(data, w, h, x, y + 1, c) + contribution(data, w, h, x + 1, y + 1, c)
}

/// Number of the channel-`c` samples among the eight neighbours of `(x, y)`.
pub open spec fn neighbour_count(w: int, h: int, x: int, y: int, c: int) -> int {
    weight(w, h, x - 1, y - 1, c) + weight(w, h, x, y - 1, c) + weight(w, h, x + 1, y - 1, c)
        + weight(w, h, x - 1, y, c) + weight(w, h, x + 1, y, c) + weight(w, h, x - 1, y + 1, c)
        + weight(w, h, x, y + 1, c) + weight(w, h, x + 1, y + 1, c)
}

/// Demosaiced value of channel `c` at `(x, y)`: the sample itself where the
/// sensor measured that channel, else the truncated neighbour average.
#[verifier::opaque]
pub open spec fn bayer_value(data: Seq<u8>, w: int, h: int, x: int, y: int, c: int) -> int {
    if native_channel(x, y) == c {
        sample(data, w, x, y)
    } else {
        neighbour_sum(data, w, h, x, y, c) / neighbour_count(w, h, x, y, c)
    }
}

/// The output pixel at `(x, y)`.
pub open spec fn px(out: Seq<[u8; 3]>, w: int, x: int, y: int) -> [u8; 3] {
    out[y * w + x]
}

/// The output pixel at `(x, y)` holds the demosaiced value of each channel.
pub open spec fn pixel_ok(out: Seq<[u8; 3]>, data: Seq<u8>, w: int, h: int, x: int, y: int) -> bool {
    &&& px(out, w, x, y)@[0] == bayer_value(data, w, h, x, y, 0)
    &&& px(out, w, x, y)@[1] == bayer_value(data, w, h, x, y, 1)
    &&& px(out, w, x, y)@[2] == bayer_value(data, w, h, x, y, 2)
}

/// Sizes that the demosaic engine works on.
pub open spec fn plane_ok(data: Seq<u8>, out: Seq<[u8; 3]>, w: int, h: int) -> bool {
    &&& w % 2 == 0 && h % 2 == 0
    &&& w >= 4 && h >= 4
    &&& data.len() == w * h
    &&& out.len() == w * h
}

/// The 2x2 block with top-left pixel `(x, y)` was written correctly, and no
/// other pixel changed.
pub open spec fn block_written(
    new: Seq<[u8; 3]>,
    old: Seq<[u8; 3]>,
    data: Seq<u8>,
    w: int,
    h: int,
    x: int,
    y: int,
) -> bool {
    &&& new.len() == old.len()
    &&& pixel_ok(new, data, w, h, x, y)
    &&& pixel_ok(new, data, w, h, x + 1, y)
    &&& pixel_ok(new, data, w, h, x, y + 1)
    &&& pixel_ok(new, data, w, h, x + 1, y + 1)
    &&& forall|qx: int, qy: int|
        0 <= qx < w && 0 <= qy < h && !(x <= qx <= x + 1 && y <= qy <= y + 1)
            ==> #[trigger] px(new, w, qx, qy) == px(old, w, qx, qy)
}

proof fn lemma_index_in_image(w: int, h: int, x: int, y: int)
    requires
        0 <= x < w,
        0 <= y < h,
    ensures
        0 <= y * w + x < w * h,
{
    assert(0 <= y * w + x < w * h) by (nonlinear_arith)
        requires
            0 <= x < w,
            0 <= y < h,
    ;
}

proof fn lemma_index_injective(w: int, x1: int, y1: int, x2: int, y2: int)
    requires
        0 <= x1 < w,
        0 <= x2 < w,
        y1 * w + x1 == y2 * w + x2,
    ensures
        x1 == x2,
        y1 == y2,
{
    let i = y1 * w + x1;
    lemma_fundamental_div_mod_converse(i, w, y1, x1);
    lemma_fundamental_div_mod_converse(i, w, y2, x2);
}

/// Flat index of pixel `(x, y)` in a plane `width` pixels wide.
pub fn get_idx(x: usize, y: usize, width: usize) -> (r: usize)
    requires
        y * width + x <= usize::MAX,
    ensures
        r == y * width + x,
{
    assert(y * width <= y * width + x);
    y * width + x
}

/// Reads the raw sample at `(x, y)`, widened so that sums of four fit.
fn get(data: &[u8], x: usize, y: usize, w: usize, h: usize) -> (r: u16)
    requires
        data@.len() == w * h,
        x < w,
        y < h,
    ensures
        r == sample(data@, w as int, x as int, y as int),
{
    let _len = data.len();
    proof {
        lemma_index_in_image(w as int, h as int, x as int, y as int);
    }
    data[get_idx(x, y, w)] as u16
}

/// Writes the output pixel at `(x, y)`, leaving every other pixel as it was.
fn set(buf: &mut Vec<[u8; 3]>, x: usize, y: usize, w: usize, h: usize, val: [u8; 3])
    requires
        old(buf)@.len() == w * h,
        x < w,
        y < h,
    ensures
        final(buf)@.len() == w * h,
        px(final(buf)@, w as int, x as int, y as int) == val,
        forall|qx: int, qy: int|
            0 <= qx < w && 0 <= qy < h && !(qx == x && qy == y) ==> #[trigger] px(
                final(buf)@,
                w as int,
                qx,
                qy,
            ) == px(old(buf)@, w as int, qx, qy),
{
    let _len = buf.len();
    proof {
        lemma_index_in_image(w as int, h as int, x as int, y as int);
    }
    let idx = get_idx(x, y, w);
    buf.set(idx, val);
    proof {
        assert forall|qx: int, qy: int|
            0 <= qx < w && 0 <= qy < h && !(qx == x && qy == y) implies #[trigger] px(
                buf@,
                w as int,
                qx,
                qy,
            ) == px(old(buf)@, w as int, qx, qy) by {
            lemma_index_in_image(w as int, h as int, qx, qy);
            if qy * w + qx == y * w + x {
                lemma_index_injective(w as int, qx, qy, x as int, y as int);
            }
        }
    }
}

// Sample positions around a block whose top-left pixel (x, y) is position 4:
//
//   0  1  2
//   3  4  5  6
//   7  8  9  10
//      11 12 13
//
// and the channel each of them samples:
//
//   b  g  b
//   g  r  g  r
//   b  g  b  g
//      r  g  r

/// Block away from every edge.
#[verifier::rlimit(40)]
fn interior(buf: &mut Vec<[u8; 3]>, data: &[u8], x: usize, y: usize, w: usize, h: usize)
    requires
        plane_ok(data@, old(buf)@, w as int, h as int),
        x % 2 == 0,
        y % 2 == 0,
        2 <= x && x + 4 <= w,
        2 <= y && y + 4 <= h,
    ensures
        block_written(final(buf)@, old(buf)@, data@, w as int, h as int, x as int, y as int),
{
    let g1 = get(data, x, y - 1, w, h);
    let g3 = get(data, x - 1, y, w, h);
    let g5 = get(data, x + 1, y, w, h);
    let g8 = get(data, x, y + 1, w, h);
    let g10 = get(data, x + 2, y + 1, w, h);
    let g12 = get(data, x + 1, y + 2, w, h);

    let b0 = get(data, x - 1, y - 1, w, h);
    let b2 = get(data, x + 1, y - 1, w, h);
    let b7 = get(data, x - 1, y + 1, w, h);
    let b9 = get(data, x + 1, y + 1, w, h);

    let r4 = get(data, x, y, w, h);
    let r6 = get(data, x + 2, y, w, h);
    let r11 = get(data, x, y + 2, w, h);
    let r13 = get(data, x + 2, y + 2, w, h);

    let ghost (d, wi, hi, xi, yi) = (data@, w as int, h as int, x as int, y as int);
    assert(bayer_value(d, wi, hi, xi, yi, 0) == r4) by {
        reveal(bayer_value);
    }
    assert(bayer_value(d, wi, hi, xi, yi, 1) == (g1 + g3 + g5 + g8) / 4) by {
        reveal(bayer_value);
        assert(neighbour_count(wi, hi, xi, yi, 1) == 4);
    }
    assert(bayer_value(d, wi, hi, xi, yi, 2) == (b0 + b2 + b7 + b9) / 4) by {
        reveal(bayer_value);
        assert(neighbour_count(wi, hi, xi, yi, 2) == 4);
    }
    assert(bayer_value(d, wi, hi, xi + 1, yi, 0) == (r4 + r6) / 2) by {
        reveal(bayer_value);
        assert(neighbour_count(wi, hi, xi + 1, yi, 0) == 2);
    }
    assert(bayer_value(d, wi, hi, xi + 1, yi, 1) == g5) by {
        reveal(bayer_value);
    }
    assert(bayer_value(d, wi, hi, xi + 1, yi, 2) == (b2 + b9) / 2) by {
        reveal(bayer_value);
        assert(neighbour_count(wi, hi, xi + 1, yi, 2) == 2);
    }
    assert(bayer_value(d, wi, hi, xi, yi + 1, 0) == (r4 + r11) / 2) by {
        reveal(bayer_value);
        assert(neighbour_count(wi, hi, xi, yi + 1, 0) == 2);
    }
    assert(bayer_value(d, wi, hi, xi, yi + 1, 1) == g8) by {
        reveal(bayer_value);
    }
    assert(bayer_value(d, wi, hi, xi, yi + 1, 2) == (b7 + b9) / 2) by {
        reveal(bayer_value);
        assert(neighbour_count(wi, hi, xi, yi + 1, 2) == 2);
    }
    assert(bayer_value(d, wi, hi, xi + 1, yi + 1, 0) == (r4 + r6 + r11 + r13) / 4) by {
        reveal(bayer_value);
        assert(neighbour_count(wi, hi, xi + 1, yi + 1, 0) == 4);
    }
    assert(bayer_value(d, wi, hi, xi + 1, yi + 1, 1) == (g5 + g8 + g10 + g12) / 4) by {
        reveal(bayer_value);
        assert(neighbour_count(wi, hi, xi + 1, yi + 1, 1) == 4);
    }
    assert(bayer_value(d, wi, hi, xi + 1, yi + 1, 2) == b9) by {
        reveal(bayer_value);
    }

    set(buf, x, y, w, h, [r4 as u8, ((g1 + g3 + g5 + g8) / 4) as u8, ((b0 + b2 + b7 + b9) / 4) as u8]);
    set(buf, x + 1, y, w, h, [((r4 + r6) / 2) as u8, g5 as u8, ((b2 + b9) / 2) as u8]);
    set(buf, x, y + 1, w, h, [((r4 + r11) / 2) as u8, g8 as u8, ((b7 + b9) / 2) as u8]);
    set(buf, x + 1, y + 1, w, h, [((r4 + r6 + r11 + r13) / 4) as u8, ((g5 + g8 + g10 + g12) / 4) as u8, b9 as u8]);
}

/// Block on the top edge, away from the corners.
#[verifier::rlimit(40)]
fn first_row(buf: &mut Vec<[u8; 3]>, data: &[u8], x: usize, w: usize, h: usize)
    requires
        plane_ok(data@, old(buf)@, w as int, h as int),
        x % 2 == 0,
        2 <= x && x + 4 <= w,
    ensures
        block_written(final(buf)@, old(buf)@, data@, w as int, h as int, x as int, 0),
{
    let y: usize = 0;

    let g3 = get(data, x - 1, y, w, h);
    let g5 = get(data, x + 1, y, w, h);
    let g8 = get(data, x, y + 1, w, h);
    let g10 = get(data, x + 2, y + 1, w, h);
    let g12 = get(data, x + 1, y + 2, w, h);

    let b7 = get(data, x - 1, y + 1, w, h);
    let b9 = get(data, x + 1, y + 1, w, h);

    let r4 = get(data, x, y, w, h);
    let r6 = get(data, x + 2, y, w, h);
    let r11 = get(data, x, y + 2, w, h);
    let r13 = get(data, x + 2, y + 2, w, h);

    let ghost (d, wi, hi, xi, yi) = (data@, w as int, h as int, x as int, y as int);
    assert(bayer_value(d, wi, hi, xi, yi, 0) == r4) by {
        reveal(bayer_value);
    }
    assert(bayer_value(d, wi, hi, xi, yi, 1) == (g3 + g5 + g8) / 3) by {
        reveal(bayer_value);
        assert(neighbour_count(wi, hi, xi, yi, 1) == 3);
    }
    assert(bayer_value(d, wi, hi, xi, yi, 2) == (b7 + b9) / 2) by {
        reveal(bayer_value);
        assert(neighbour_count(wi, hi, xi, yi, 2) == 2);
    }
    assert(bayer_value(d, wi, hi, xi + 1, yi, 0) == (r4 + r6) / 2) by {
        reveal(bayer_value);
        assert(neighbour_count(wi, hi, xi + 1, yi, 0) == 2);
    }
    assert(bayer_value(d, wi, hi, xi + 1, yi, 1) == g5) by {
        reveal(bayer_value);
    }
    assert(bayer_value(d, wi, hi, xi + 1, yi, 2) == b9) by {
        reveal(bayer_value);
        assert(neighbour_count(wi, hi, xi + 1, yi, 2) == 1);
    }
    assert(bayer_value(d, wi, hi, xi, yi + 1, 0) == (r4 + r11) / 2) by {
        reveal(bayer_value);
        assert(neighbour_count(wi, hi, xi, yi + 1, 0) == 2);
    }
    assert(bayer_value(d, wi, hi, xi, yi + 1, 1) == g8) by {
        reveal(bayer_value);
    }
    assert(bayer_value(d, wi, hi, xi, yi + 1, 2) == (b7 + b9) / 2) by {
        reveal(bayer_value);
        assert(neighbour_count(wi, hi, xi, yi + 1, 2) == 2);
    }
    assert(bayer_value(d, wi, hi, xi + 1, yi + 1, 0) == (r4 + r6 + r11 + r13) / 4) by {
        reveal(bayer_value);
        assert(neighbour_count(wi, hi, xi + 1, yi + 1, 0) == 4);
    }
    assert(bayer_value(d, wi, hi, xi + 1, yi + 1, 1) == (g5 + g8 + g10 + g12) / 4) by {
        reveal(bayer_value);
        assert(neighbour_count(wi, hi, xi + 1, yi + 1, 1) == 4);
    }
    assert(bayer_value(d, wi, hi, xi + 1, yi + 1, 2) == b9) by {
        reveal(bayer_value);
    }

    set(buf, x, y, w, h, [r4 as u8, ((g3 + g5 + g8) / 3) as u8, ((b7 + b9) / 2) as u8]);
    set(buf, x + 1, y, w, h, [((r4 + r6) / 2) as u8, g5 as u8, b9 as u8]);
    set(buf, x, y + 1, w, h, [((r4 + r11) / 2) as u8, g8 as u8, ((b7 + b9) / 2) as u8]);
    set(buf, x + 1, y + 1, w, h, [((r4 + r6 + r11 + r13) / 4) as u8, ((g5 + g8 + g10 + g12) / 4) as u8, b9 as u8]);
}

/// Block on the bottom edge, away from the corners.
#[verifier::rlimit(40)]
fn last_row(buf: &mut Vec<[u8; 3]>, data: &[u8], x: usize, w: usize, h: usize)
    requires
        plane_ok(data@, old(buf)@, w as int, h as int),
        x % 2 == 0,
        2 <= x && x + 4 <= w,
    ensures
        block_written(final(buf)@, old(buf)@, data@, w as int, h as int, x as int, h - 2),
{
    let y: usize = h - 2;

    let g1 = get(data, x, y - 1, w, h);
    let g3 = get(data, x - 1, y, w, h);
    let g5 = get(data, x + 1, y, w, h);
    let g8 = get(data, x, y + 1, w, h);
    let g10 = get(data, x + 2, y + 1, w, h);

    let b0 = get(data, x - 1, y - 1, w, h);
    let b2 = get(data, x + 1, y - 1, w, h);
    let b7 = get(data, x - 1, y + 1, w, h);
    let b9 = get(data, x + 1, y + 1, w, h);

    let r4 = get(data, x, y, w, h);
    let r6 = get(data, x + 2, y, w, h);

    let ghost (d, wi, hi, xi, yi) = (data@, w as int, h as int, x as int, y as int);
    assert(bayer_value(d, wi, hi, xi, yi, 0) == r4) by {
        reveal(bayer_value);
    }
    assert(bayer_value(d, wi, hi, xi, yi, 1) == (g1 + g3 + g5 + g8) / 4) by {
        reveal(bayer_value);
        assert(neighbour_count(wi, hi, xi, yi, 1) == 4);
    }
    assert(bayer_value(d, wi, hi, xi, yi, 2) == (b0 + b2 + b7 + b9) / 4) by {
        reveal(bayer_value);
        assert(neighbour_count(wi, hi, xi, yi, 2) == 4);
    }
    assert(bayer_value(d, wi, hi, xi + 1, yi, 0) == (r4 + r6) / 2) by {
        reveal(bayer_value);
        assert(neighbour_count(wi, hi, xi + 1, yi, 0) == 2);
    }
    assert(bayer_value(d, wi, hi, xi + 1, yi, 1) == g5) by {
        reveal(bayer_value);
    }
    assert(bayer_value(d, wi, hi, xi + 1, yi, 2) == (b2 + b9) / 2) by {
        reveal(bayer_value);
        assert(neighbour_count(wi, hi, xi + 1, yi, 2) == 2);
    }
    assert(bayer_value(d, wi, hi, xi, yi + 1, 0) == r4) by {
        reveal(bayer_value);
        assert(neighbour_count(wi, hi, xi, yi + 1, 0) == 1);
    }
    assert(bayer_value(d, wi, hi, xi, yi + 1, 1) == g8) by {
        reveal(bayer_value);
    }
    assert(bayer_value(d, wi, hi, xi, yi + 1, 2) == (b7 + b9) / 2) by {
        reveal(bayer_value);
        assert(neighbour_count(wi, hi, xi, yi + 1, 2) == 2);
    }
    assert(bayer_value(d, wi, hi, xi + 1, yi + 1, 0) == (r4 + r6) / 2) by {
        reveal(bayer_value);
        assert(neighbour_count(wi, hi, xi + 1, yi + 1, 0) == 2);
    }
    assert(bayer_value(d, wi, hi, xi + 1, yi + 1, 1) == (g5 + g8 + g10) / 3) by {
        reveal(bayer_value);
        assert(neighbour_count(wi, hi, xi + 1, yi + 1, 1) == 3);
    }
    assert(bayer_value(d, wi, hi, xi + 1, yi + 1, 2) == b9) by {
        reveal(bayer_value);
    }

    set(buf, x, y, w, h, [r4 as u8, ((g1 + g3 + g5 + g8) / 4) as u8, ((b0 + b2 + b7 + b9) / 4) as u8]);
    set(buf, x + 1, y, w, h, [((r4 + r6) / 2) as u8, g5 as u8, ((b2 + b9) / 2) as u8]);
    set(buf, x, y + 1, w, h, [r4 as u8, g8 as u8, ((b7 + b9) / 2) as u8]);
    set(buf, x + 1, y + 1, w, h, [((r4 + r6) / 2) as u8, ((g5 + g8 + g10) / 3) as u8, b9 as u8]);
}

/// Block on the left edge, away from the corners.
#[verifier::rlimit(40)]
fn first_column(buf: &mut Vec<[u8; 3]>, data: &[u8], y: usize, w: usize, h: usize)
    requires
        plane_ok(data@, old(buf)@, w as int, h as int),
        y % 2 == 0,
        2 <= y && y + 4 <= h,
    ensures
        block_written(final(buf)@, old(buf)@, data@, w as int, h as int, 0, y as int),
{
    let x: usize = 0;

    let g1 = get(data, x, y - 1, w, h);
    let g5 = get(data, x + 1, y, w, h);
    let g8 = get(data, x, y + 1, w, h);
    let g10 = get(data, x + 2, y + 1, w, h);
    let g12 = get(data, x + 1, y + 2, w, h);

    let b2 = get(data, x + 1, y - 1, w, h);
    let b9 = get(data, x + 1, y + 1, w, h);

    let r4 = get(data, x, y, w, h);
    let r6 = get(data, x + 2, y, w, h);
    let r11 = get(data, x, y + 2, w, h);
    let r13 = get(data, x + 2, y + 2, w, h);

    let ghost (d, wi, hi, xi, yi) = (data@, w as int, h as int, x as int, y as int);
    assert(bayer_value(d, wi, hi, xi, yi, 0) == r4) by {
        reveal(bayer_value);
    }
    assert(bayer_value(d, wi, hi, xi, yi, 1) == (g1 + g5 + g8) / 3) by {
        reveal(bayer_value);
        assert(neighbour_count(wi, hi, xi, yi, 1) == 3);
    }
    assert(bayer_value(d, wi, hi, xi, yi, 2) == (b2 + b9) / 2) by {
        reveal(bayer_value);
        assert(neighbour_count(wi, hi, xi, yi, 2) == 2);
    }
    assert(bayer_value(d, wi, hi, xi + 1, yi, 0) == (r4 + r6) / 2) by {
        reveal(bayer_value);
        assert(neighbour_count(wi, hi, xi + 1, yi, 0) == 2);
    }
    assert(bayer_value(d, wi, hi, xi + 1, yi, 1) == g5) by {
        reveal(bayer_value);
    }
    assert(bayer_value(d, wi, hi, xi + 1, yi, 2) == (b2 + b9) / 2) by {
        reveal(bayer_value);
        assert(neighbour_count(wi, hi, xi + 1, yi, 2) == 2);
    }
    assert(bayer_value(d, wi, hi, xi, yi + 1, 0) == (r4 + r11) / 2) by {
        reveal(bayer_value);
        assert(neighbour_count(wi, hi, xi, yi + 1, 0) == 2);
    }
    assert(bayer_value(d, wi, hi, xi, yi + 1, 1) == g8) by {
        reveal(bayer_value);
    }
    assert(bayer_value(d, wi, hi, xi, yi + 1, 2) == b9) by {
        reveal(bayer_value);
        assert(neighbour_count(wi, hi, xi, yi + 1, 2) == 1);
    }
    assert(bayer_value(d, wi, hi, xi + 1, yi + 1, 0) == (r4 + r6 + r11 + r13) / 4) by {
        reveal(bayer_value);
        assert(neighbour_count(wi, hi, xi + 1, yi + 1, 0) == 4);
    }
    assert(bayer_value(d, wi, hi, xi + 1, yi + 1, 1) == (g5 + g8 + g10 + g12) / 4) by {
        reveal(bayer_value);
        assert(neighbour_count(wi, hi, xi + 1, yi + 1, 1) == 4);
    }
    assert(bayer_value(d, wi, hi, xi + 1, yi + 1, 2) == b9) by {
        reveal(bayer_value);
    }

    set(buf, x, y, w, h, [r4 as u8, ((g1 + g5 + g8) / 3) as u8, ((b2 + b9) / 2) as u8]);
    set(buf, x + 1, y, w, h, [((r4 + r6) / 2) as u8, g5 as u8, ((b2 + b9) / 2) as u8]);
    set(buf, x, y + 1, w, h, [((r4 + r11) / 2) as u8, g8 as u8, b9 as u8]);
    set(buf, x + 1, y + 1, w, h, [((r4 + r6 + r11 + r13) / 4) as u8, ((g5 + g8 + g10 + g12) / 4) as u8, b9 as u8]);
}

/// Block on the right edge, away from the corners.
#[verifier::rlimit(40)]
fn last_column(buf: &mut Vec<[u8; 3]>, data: &[u8], y: usize, w: usize, h: usize)
    requires
        plane_ok(data@, old(buf)@, w as int, h as int),
        y % 2 == 0,
        2 <= y && y + 4 <= h,
    ensures
        block_written(final(buf)@, old(buf)@, data@, w as int, h as int, w - 2, y as int),
{
    let x: usize = w - 2;

    let g1 = get(data, x, y - 1, w, h);
    let g3 = get(data, x - 1, y, w, h);
    let g5 = get(data, x + 1, y, w, h);
    let g8 = get(data, x, y + 1, w, h);
    let g12 = get(data, x + 1, y + 2, w, h);

    let b0 = get(data, x - 1, y - 1, w, h);
    let b2 = get(data, x + 1, y - 1, w, h);
    let b7 = get(data, x - 1, y + 1, w, h);
    let b9 = get(data, x + 1, y + 1, w, h);

    let r4 = get(data, x, y, w, h);
    let r11 = get(data, x, y + 2, w, h);

    let ghost (d, wi, hi, xi, yi) = (data@, w as int, h as int, x as int, y as int);
    assert(bayer_value(d, wi, hi, xi, yi, 0) == r4) by {
        reveal(bayer_value);
    }
    assert(bayer_value(d, wi, hi, xi, yi, 1) == (g1 + g3 + g5 + g8) / 4) by {
        reveal(bayer_value);
        assert(neighbour_count(wi, hi, xi, yi, 1) == 4);
    }
    assert(bayer_value(d, wi, hi, xi, yi, 2) == (b0 + b2 + b7 + b9) / 4) by {
        reveal(bayer_value);
        assert(neighbour_count(wi, hi, xi, yi, 2) == 4);
    }
    assert(bayer_value(d, wi, hi, xi + 1, yi, 0) == r4) by {
        reveal(bayer_value);
        assert(neighbour_count(wi, hi, xi + 1, yi, 0) == 1);
    }
    assert(bayer_value(d, wi, hi, xi + 1, yi, 1) == g5) by {
        reveal(bayer_value);
    }
    assert(bayer_value(d, wi, hi, xi + 1, yi, 2) == (b2 + b9) / 2) by {
        reveal(bayer_value);
        assert(neighbour_count(wi, hi, xi + 1, yi, 2) == 2);
    }
    assert(bayer_value(d, wi, hi, xi, yi + 1, 0) == (r4 + r11) / 2) by {
        reveal(bayer_value);
        assert(neighbour_count(wi, hi, xi, yi + 1, 0) == 2);
    }
    assert(bayer_value(d, wi, hi, xi, yi + 1, 1) == g8) by {
        reveal(bayer_value);
    }
    assert(bayer_value(d, wi, hi, xi, yi + 1, 2) == (b7 + b9) / 2) by {
        reveal(bayer_value);
        assert(neighbour_count(wi, hi, xi, yi + 1, 2) == 2);
    }
    assert(bayer_value(d, wi, hi, xi + 1, yi + 1, 0) == (r4 + r11) / 2) by {
        reveal(bayer_value);
        assert(neighbour_count(wi, hi, xi + 1, yi + 1, 0) == 2);
    }
    assert(bayer_value(d, wi, hi, xi + 1, yi + 1, 1) == (g5 + g8 + g12) / 3) by {
        reveal(bayer_value);
        assert(neighbour_count(wi, hi, xi + 1, yi + 1, 1) == 3);
    }
    assert(bayer_value(d, wi, hi, xi + 1, yi + 1, 2) == b9) by {
        reveal(bayer_value);
    }

    set(buf, x, y, w, h, [r4 as u8, ((g1 + g3 + g5 + g8) / 4) as u8, ((b0 + b2 + b7 + b9) / 4) as u8]);
    set(buf, x + 1, y, w, h, [r4 as u8, g5 as u8, ((b2 + b9) / 2) as u8]);
    set(buf, x, y + 1, w, h, [((r4 + r11) / 2) as u8, g8 as u8, ((b7 + b9) / 2) as u8]);
    set(buf, x + 1, y + 1, w, h, [((r4 + r11) / 2) as u8, ((g5 + g8 + g12) / 3) as u8, b9 as u8]);
}

/// Top-left block.
#[verifier::rlimit(40)]
fn top_left_corner(buf: &mut Vec<[u8; 3]>, data: &[u8], w: usize, h: usize)
    requires
        plane_ok(data@, old(buf)@, w as int, h as int),
    ensures
        block_written(final(buf)@, old(buf)@, data@, w as int, h as int, 0, 0),
{
    let x: usize = 0;
    let y: usize = 0;

    let g5 = get(data, x + 1, y, w, h);
    let g8 = get(data, x, y + 1, w, h);
    let g10 = get(data, x + 2, y + 1, w, h);
    let g12 = get(data, x + 1, y + 2, w, h);

    let b9 = get(data, x + 1, y + 1, w, h);

    let r4 = get(data, x, y, w, h);
    let r6 = get(data, x + 2, y, w, h);
    let r11 = get(data, x, y + 2, w, h);
    let r13 = get(data, x + 2, y + 2, w, h);

    let ghost (d, wi, hi, xi, yi) = (data@, w as int, h as int, x as int, y as int);
    assert(bayer_value(d, wi, hi, xi, yi, 0) == r4) by {
        reveal(bayer_value);
    }
    assert(bayer_value(d, wi, hi, xi, yi, 1) == (g5 + g8) / 2) by {
        reveal(bayer_value);
        assert(neighbour_count(wi, hi, xi, yi, 1) == 2);
    }
    assert(bayer_value(d, wi, hi, xi, yi, 2) == b9) by {
        reveal(bayer_value);
        assert(neighbour_count(wi, hi, xi, yi, 2) == 1);
    }
    assert(bayer_value(d, wi, hi, xi + 1, yi, 0) == (r4 + r6) / 2) by {
        reveal(bayer_value);
        assert(neighbour_count(wi, hi, xi + 1, yi, 0) == 2);
    }
    assert(bayer_value(d, wi, hi, xi + 1, yi, 1) == g5) by {
        reveal(bayer_value);
    }
    assert(bayer_value(d, wi, hi, xi + 1, yi, 2) == b9) by {
        reveal(bayer_value);
        assert(neighbour_count(wi, hi, xi + 1, yi, 2) == 1);
    }
    assert(bayer_value(d, wi, hi, xi, yi + 1, 0) == (r4 + r11) / 2) by {
        reveal(bayer_value);
        assert(neighbour_count(wi, hi, xi, yi + 1, 0) == 2);
    }
    assert(bayer_value(d, wi, hi, xi, yi + 1, 1) == g8) by {
        reveal(bayer_value);
    }
    assert(bayer_value(d, wi, hi, xi, yi + 1, 2) == b9) by {
        reveal(bayer_value);
        assert(neighbour_count(wi, hi, xi, yi + 1, 2) == 1);
    }
    assert(bayer_value(d, wi, hi, xi + 1, yi + 1, 0) == (r4 + r6 + r11 + r13) / 4) by {
        reveal(bayer_value);
        assert(neighbour_count(wi, hi, xi + 1, yi + 1, 0) == 4);
    }
    assert(bayer_value(d, wi, hi, xi + 1, yi + 1, 1) == (g5 + g8 + g10 + g12) / 4) by {
        reveal(bayer_value);
        assert(neighbour_count(wi, hi, xi + 1, yi + 1, 1) == 4);
    }
    assert(bayer_value(d, wi, hi, xi + 1, yi + 1, 2) == b9) by {
        reveal(bayer_value);
    }

    set(buf, x, y, w, h, [r4 as u8, ((g5 + g8) / 2) as u8, b9 as u8]);
    set(buf, x + 1, y, w, h, [((r4 + r6) / 2) as u8, g5 as u8, b9 as u8]);
    set(buf, x, y + 1, w, h, [((r4 + r11) / 2) as u8, g8 as u8, b9 as u8]);
    set(buf, x + 1, y + 1, w, h, [((r4 + r6 + r11 + r13) / 4) as u8, ((g5 + g8 + g10 + g12) / 4) as u8, b9 as u8]);
}

/// Top-right block.
#[verifier::rlimit(40)]
fn top_right_corner(buf: &mut Vec<[u8; 3]>, data: &[u8], w: usize, h: usize)
    requires
        plane_ok(data@, old(buf)@, w as int, h as int),
    ensures
        block_written(final(buf)@, old(buf)@, data@, w as int, h as int, w - 2, 0),
{
    let x: usize = w - 2;
    let y: usize = 0;

    let g3 = get(data, x - 1, y, w, h);
    let g5 = get(data, x + 1, y, w, h);
    let g8 = get(data, x, y + 1, w, h);
    let g12 = get(data, x + 1, y + 2, w, h);

    let b7 = get(data, x - 1, y + 1, w, h);
    let b9 = get(data, x + 1, y + 1, w, h);

    let r4 = get(data, x, y, w, h);
    let r11 = get(data, x, y + 2, w, h);

    let ghost (d, wi, hi, xi, yi) = (data@, w as int, h as int, x as int, y as int);
    assert(bayer_value(d, wi, hi, xi, yi, 0) == r4) by {
        reveal(bayer_value);
    }
    assert(bayer_value(d, wi, hi, xi, yi, 1) == (g3 + g5 + g8) / 3) by {
        reveal(bayer_value);
        assert(neighbour_count(wi, hi, xi, yi, 1) == 3);
    }
    assert(bayer_value(d, wi, hi, xi, yi, 2) == (b7 + b9) / 2) by {
        reveal(bayer_value);
        assert(neighbour_count(wi, hi, xi, yi, 2) == 2);
    }
    assert(bayer_value(d, wi, hi, xi + 1, yi, 0) == r4) by {
        reveal(bayer_value);
        assert(neighbour_count(wi, hi, xi + 1, yi, 0) == 1);
    }
    assert(bayer_value(d, wi, hi, xi + 1, yi, 1) == g5) by {
        reveal(bayer_value);
    }
    assert(bayer_value(d, wi, hi, xi + 1, yi, 2) == b9) by {
        reveal(bayer_value);
        assert(neighbour_count(wi, hi, xi + 1, yi, 2) == 1);
    }
    assert(bayer_value(d, wi, hi, xi, yi + 1, 0) == (r4 + r11) / 2) by {
        reveal(bayer_value);
        assert(neighbour_count(wi, hi, xi, yi + 1, 0) == 2);
    }
    assert(bayer_value(d, wi, hi, xi, yi + 1, 1) == g8) by {
        reveal(bayer_value);
    }
    assert(bayer_value(d, wi, hi, xi, yi + 1, 2) == (b7 + b9) / 2) by {
        reveal(bayer_value);
        assert(neighbour_count(wi, hi, xi, yi + 1, 2) == 2);
    }
    assert(bayer_value(d, wi, hi, xi + 1, yi + 1, 0) == (r4 + r11) / 2) by {
        reveal(bayer_value);
        assert(neighbour_count(wi, hi, xi + 1, yi + 1, 0) == 2);
    }
    assert(bayer_value(d, wi, hi, xi + 1, yi + 1, 1) == (g5 + g8 + g12) / 3) by {
        reveal(bayer_value);
        assert(neighbour_count(wi, hi, xi + 1, yi + 1, 1) == 3);
    }
    assert(bayer_value(d, wi, hi, xi + 1, yi + 1, 2) == b9) by {
        reveal(bayer_value);
    }

    set(buf, x, y, w, h, [r4 as u8, ((g3 + g5 + g8) / 3) as u8, ((b7 + b9) / 2) as u8]);
    set(buf, x + 1, y, w, h, [r4 as u8, g5 as u8, b9 as u8]);
    set(buf, x, y + 1, w, h, [((r4 + r11) / 2) as u8, g8 as u8, ((b7 + b9) / 2) as u8]);
    set(buf, x + 1, y + 1, w, h, [((r4 + r11) / 2) as u8, ((g5 + g8 + g12) / 3) as u8, b9 as u8]);
}

/// Bottom-left block.
#[verifier::rlimit(40)]
fn bottom_left_corner(buf: &mut Vec<[u8; 3]>, data: &[u8], w: usize, h: usize)
    requires
        plane_ok(data@, old(buf)@, w as int, h as int),
    ensures
        block_written(final(buf)@, old(buf)@, data@, w as int, h as int, 0, h - 2),
{
    let x: usize = 0;
    let y: usize = h - 2;

    let g1 = get(data, x, y - 1, w, h);
    let g5 = get(data, x + 1, y, w, h);
    let g8 = get(data, x, y + 1, w, h);
    let g10 = get(data, x + 2, y + 1, w, h);

    let b2 = get(data, x + 1, y - 1, w, h);
    let b9 = get(data, x + 1, y + 1, w, h);

    let r4 = get(data, x, y, w, h);
    let r6 = get(data, x + 2, y, w, h);

    let ghost (d, wi, hi, xi, yi) = (data@, w as int, h as int, x as int, y as int);
    assert(bayer_value(d, wi, hi, xi, yi, 0) == r4) by {
        reveal(bayer_value);
    }
    assert(bayer_value(d, wi, hi, xi, yi, 1) == (g1 + g5 + g8) / 3) by {
        reveal(bayer_value);
        assert(neighbour_count(wi, hi, xi, yi, 1) == 3);
    }
    assert(bayer_value(d, wi, hi, xi, yi, 2) == (b2 + b9) / 2) by {
        reveal(bayer_value);
        assert(neighbour_count(wi, hi, xi, yi, 2) == 2);
    }
    assert(bayer_value(d, wi, hi, xi + 1, yi, 0) == (r4 + r6) / 2) by {
        reveal(bayer_value);
        assert(neighbour_count(wi, hi, xi + 1, yi, 0) == 2);
    }
    assert(bayer_value(d, wi, hi, xi + 1, yi, 1) == g5) by {
        reveal(bayer_value);
    }
    assert(bayer_value(d, wi, hi, xi + 1, yi, 2) == (b2 + b9) / 2) by {
        reveal(bayer_value);
        assert(neighbour_count(wi, hi, xi + 1, yi, 2) == 2);
    }
    assert(bayer_value(d, wi, hi, xi, yi + 1, 0) == r4) by {
        reveal(bayer_value);
        assert(neighbour_count(wi, hi, xi, yi + 1, 0) == 1);
    }
    assert(bayer_value(d, wi, hi, xi, yi + 1, 1) == g8) by {
        reveal(bayer_value);
    }
    assert(bayer_value(d, wi, hi, xi, yi + 1, 2) == b9) by {
        reveal(bayer_value);
        assert(neighbour_count(wi, hi, xi, yi + 1, 2) == 1);
    }
    assert(bayer_value(d, wi, hi, xi + 1, yi + 1, 0) == (r4 + r6) / 2) by {
        reveal(bayer_value);
        assert(neighbour_count(wi, hi, xi + 1, yi + 1, 0) == 2);
    }
    assert(bayer_value(d, wi, hi, xi + 1, yi + 1, 1) == (g5 + g8 + g10) / 3) by {
        reveal(bayer_value);
        assert(neighbour_count(wi, hi, xi + 1, yi + 1, 1) == 3);
    }
    assert(bayer_value(d, wi, hi, xi + 1, yi + 1, 2) == b9) by {
        reveal(bayer_value);
    }

    set(buf, x, y, w, h, [r4 as u8, ((g1 + g5 + g8) / 3) as u8, ((b2 + b9) / 2) as u8]);
    set(buf, x + 1, y, w, h, [((r4 + r6) / 2) as u8, g5 as u8, ((b2 + b9) / 2) as u8]);
    set(buf, x, y + 1, w, h, [r4 as u8, g8 as u8, b9 as u8]);
    set(buf, x + 1, y + 1, w, h, [((r4 + r6) / 2) as u8, ((g5 + g8 + g10) / 3) as u8, b9 as u8]);
}

/// Bottom-right block.
#[verifier::rlimit(40)]
fn bottom_right_corner(buf: &mut Vec<[u8; 3]>, data: &[u8], w: usize, h: usize)
    requires
        plane_ok(data@, old(buf)@, w as int, h as int),
    ensures
        block_written(final(buf)@, old(buf)@, data@, w as int, h as int, w - 2, h - 2),
{
    let x: usize = w - 2;
    let y: usize = h - 2;

    let g1 = get(data, x, y - 1, w, h);
    let g3 = get(data, x - 1, y, w, h);
    let g5 = get(data, x + 1, y, w, h);
    let g8 = get(data, x, y + 1, w, h);

    let b0 = get(data, x - 1, y - 1, w, h);
    let b2 = get(data, x + 1, y - 1, w, h);
    let b7 = get(data, x - 1, y + 1, w, h);
    let b9 = get(data, x + 1, y + 1, w, h);

    let r4 = get(data, x, y, w, h);

    let ghost (d, wi, hi, xi, yi) = (data@, w as int, h as int, x as int, y as int);
    assert(bayer_value(d, wi, hi, xi, yi, 0) == r4) by {
        reveal(bayer_value);
    }
    assert(bayer_value(d, wi, hi, xi, yi, 1) == (g1 + g3 + g5 + g8) / 4) by {
        reveal(bayer_value);
        assert(neighbour_count(wi, hi, xi, yi, 1) == 4);
    }
    assert(bayer_value(d, wi, hi, xi, yi, 2) == (b0 + b2 + b7 + b9) / 4) by {
        reveal(bayer_value);
        assert(neighbour_count(wi, hi, xi, yi, 2) == 4);
    }
    assert(bayer_value(d, wi, hi, xi + 1, yi, 0) == r4) by {
        reveal(bayer_value);
        assert(neighbour_count(wi, hi, xi + 1, yi, 0) == 1);
    }
    assert(bayer_value(d, wi, hi, xi + 1, yi, 1) == g5) by {
        reveal(bayer_value);
    }
    assert(bayer_value(d, wi, hi, xi + 1, yi, 2) == (b2 + b9) / 2) by {
        reveal(bayer_value);
        assert(neighbour_count(wi, hi, xi + 1, yi, 2) == 2);
    }
    assert(bayer_value(d, wi, hi, xi, yi + 1, 0) == r4) by {
        reveal(bayer_value);
        assert(neighbour_count(wi, hi, xi, yi + 1, 0) == 1);
    }
    assert(bayer_value(d, wi, hi, xi, yi + 1, 1) == g8) by {
        reveal(bayer_value);
    }
    assert(bayer_value(d, wi, hi, xi, yi + 1, 2) == (b7 + b9) / 2) by {
        reveal(bayer_value);
        assert(neighbour_count(wi, hi, xi, yi + 1, 2) == 2);
    }
    assert(bayer_value(d, wi, hi, xi + 1, yi + 1, 0) == r4) by {
        reveal(bayer_value);
        assert(neighbour_count(wi, hi, xi + 1, yi + 1, 0) == 1);
    }
    assert(bayer_value(d, wi, hi, xi + 1, yi + 1, 1) == (g5 + g8) / 2) by {
        reveal(bayer_value);
        assert(neighbour_count(wi, hi, xi + 1, yi + 1, 1) == 2);
    }
    assert(bayer_value(d, wi, hi, xi + 1, yi + 1, 2) == b9) by {
        reveal(bayer_value);
    }

    set(buf, x, y, w, h, [r4 as u8, ((g1 + g3 + g5 + g8) / 4) as u8, ((b0 + b2 + b7 + b9) / 4) as u8]);
    set(buf, x + 1, y, w, h, [r4 as u8, g5 as u8, ((b2 + b9) / 2) as u8]);
    set(buf, x, y + 1, w, h, [r4 as u8, g8 as u8, ((b7 + b9) / 2) as u8]);
    set(buf, x + 1, y + 1, w, h, [r4 as u8, ((g5 + g8) / 2) as u8, b9 as u8]);
}

/// Every pixel of the block rows above `by`, and of the first `bx` blocks of
/// block row `by`, holds its demosaiced value.
pub open spec fn done_upto(out: Seq<[u8; 3]>, data: Seq<u8>, w: int, h: int, bx: int, by: int) -> bool {
    forall|qx: int, qy: int|
        0 <= qx < w && 0 <= qy < h && (qy < 2 * by || (qy < 2 * by + 2 && qx < 2 * bx))
            ==> #[trigger] pixel_ok(out, data, w, h, qx, qy)
}

proof fn lemma_done_step(
    new: Seq<[u8; 3]>,
    old: Seq<[u8; 3]>,
    data: Seq<u8>,
    w: int,
    h: int,
    bx: int,
    by: int,
)
    requires
        done_upto(old, data, w, h, bx, by),
        block_written(new, old, data, w, h, 2 * bx, 2 * by),
        0 <= bx,
        0 <= by,
    ensures
        done_upto(new, data, w, h, bx + 1, by),
{
    assert forall|qx: int, qy: int|
        0 <= qx < w && 0 <= qy < h && (qy < 2 * by || (qy < 2 * by + 2 && qx < 2 * (bx + 1)))
            implies #[trigger] pixel_ok(new, data, w, h, qx, qy) by {
        if 2 * bx <= qx <= 2 * bx + 1 && 2 * by <= qy <= 2 * by + 1 {
            if qx == 2 * bx && qy == 2 * by {
            } else if qx == 2 * bx {
            } else if qy == 2 * by {
            } else {
            }
        } else {
            assert(px(new, w, qx, qy) == px(old, w, qx, qy));
            assert(pixel_ok(old, data, w, h, qx, qy));
        }
    }
}

proof fn lemma_done_row(out: Seq<[u8; 3]>, data: Seq<u8>, w: int, h: int, by: int)
    requires
        done_upto(out, data, w, h, w / 2, by),
        w % 2 == 0,
    ensures
        done_upto(out, data, w, h, 0, by + 1),
{
    assert forall|qx: int, qy: int|
        0 <= qx < w && 0 <= qy < h && (qy < 2 * (by + 1) || (qy < 2 * (by + 1) + 2 && qx < 0))
            implies #[trigger] pixel_ok(out, data, w, h, qx, qy) by {
        if qy < 2 * by {
        } else {
            assert(qx < 2 * (w / 2));
        }
    }
}

/// Demosaics an RGGB plane of `width` x `height` samples into RGB pixels,
/// block by block: the four corners, the four edges and the interior each use
/// only the neighbours that exist there.
pub fn demosaic(data: &[u8], buf: &mut Vec<[u8; 3]>, width: usize, height: usize)
    requires
        plane_ok(data@, old(buf)@, width as int, height as int),
    ensures
        final(buf)@.len() == width * height,
        forall|i: int, c: int|
            0 <= i < width * height && 0 <= c < 3 ==> #[trigger] final(buf)@[i]@[c] == bayer_value(
                data@,
                width as int,
                height as int,
                i % (width as int),
                i / (width as int),
                c,
            ),
{
    let ghost (d, w, h) = (data@, width as int, height as int);
    let half_w = width / 2;
    let half_h = height / 2;

    let ghost prev = buf@;
    top_left_corner(buf, data, width, height);
    proof {
        lemma_done_step(buf@, prev, d, w, h, 0, 0);
    }
    let mut bx: usize = 1;
    while bx < half_w - 1
        invariant
            plane_ok(d, buf@, w, h),
            d == data@,
            w == width,
            h == height,
            half_w == w / 2,
            1 <= bx <= half_w - 1,
            done_upto(buf@, d, w, h, bx as int, 0),
        decreases half_w - bx,
    {
        let ghost prev = buf@;
        first_row(buf, data, 2 * bx, width, height);
        proof {
            lemma_done_step(buf@, prev, d, w, h, bx as int, 0);
        }
        bx = bx + 1;
    }
    let ghost prev = buf@;
    top_right_corner(buf, data, width, height);
    proof {
        lemma_done_step(buf@, prev, d, w, h, half_w - 1, 0);
        lemma_done_row(buf@, d, w, h, 0);
    }

    let mut by: usize = 1;
    while by < half_h - 1
        invariant
            plane_ok(d, buf@, w, h),
            d == data@,
            w == width,
            h == height,
            half_w == w / 2,
            half_h == h / 2,
            1 <= by <= half_h - 1,
            done_upto(buf@, d, w, h, 0, by as int),
        decreases half_h - by,
    {
        let ghost prev = buf@;
        first_column(buf, data, 2 * by, width, height);
        proof {
            lemma_done_step(buf@, prev, d, w, h, 0, by as int);
        }
        let mut bx: usize = 1;
        while bx < half_w - 1
            invariant
                plane_ok(d, buf@, w, h),
                d == data@,
                w == width,
                h == height,
                half_w == w / 2,
                half_h == h / 2,
                1 <= by < half_h - 1,
                1 <= bx <= half_w - 1,
                done_upto(buf@, d, w, h, bx as int, by as int),
            decreases half_w - bx,
        {
            let ghost prev = buf@;
            interior(buf, data, 2 * bx, 2 * by, width, height);
            proof {
                lemma_done_step(buf@, prev, d, w, h, bx as int, by as int);
            }
            bx = bx + 1;
        }
        let ghost prev = buf@;
        last_column(buf, data, 2 * by, width, height);
        proof {
            lemma_done_step(buf@, prev, d, w, h, half_w - 1, by as int);
            lemma_done_row(buf@, d, w, h, by as int);
        }
        by = by + 1;
    }

    let ghost prev = buf@;
    bottom_left_corner(buf, data, width, height);
    proof {
        lemma_done_step(buf@, prev, d, w, h, 0, half_h - 1);
    }
    let mut bx: usize = 1;
    while bx < half_w - 1
        invariant
            plane_ok(d, buf@, w, h),
            d == data@,
            w == width,
            h == height,
            half_w == w / 2,
            half_h == h / 2,
            1 <= bx <= half_w - 1,
            done_upto(buf@, d, w, h, bx as int, half_h - 1),
        decreases half_w - bx,
    {
        let ghost prev = buf@;
        last_row(buf, data, 2 * bx, width, height);
        proof {
            lemma_done_step(buf@, prev, d, w, h, bx as int, half_h - 1);
        }
        bx = bx + 1;
    }
    let ghost prev = buf@;
    bottom_right_corner(buf, data, width, height);
    proof {
        lemma_done_step(buf@, prev, d, w, h, half_w - 1, half_h - 1);
        lemma_done_row(buf@, d, w, h, half_h - 1);
        assert forall|i: int, c: int| 0 <= i < w * h && 0 <= c < 3 implies #[trigger] buf@[i]@[c]
            == bayer_value(d, w, h, i % w, i / w, c) by {
            lemma_pixel_of_index(w, h, i);
            assert(pixel_ok(buf@, d, w, h, i % w, i / w));
        }
    }
}

/// A flat index `i` names the pixel `(i % w, i / w)` of the image.
proof fn lemma_pixel_of_index(w: int, h: int, i: int)
    requires
        0 <= i < w * h,
        w > 0,
    ensures
        0 <= i % w < w,
        0 <= i / w < h,
        (i / w) * w + i % w == i,
{
    lemma_fundamental_div_mod(i, w);
    let q = i / w;
    assert(w * q == q * w) by (nonlinear_arith);
    assert(0 <= q < h) by (nonlinear_arith)
        requires
            i == w * q + i % w,
            0 <= i % w < w,
            0 <= i < w * h,
            w > 0,
    ;
}

/// Every sample of channel `c` in the mosaic holds `vals[c]`.
pub open spec fn uniform_mosaic(data: Seq<u8>, w: int, h: int, vals: Seq<u8>) -> bool {
    forall|x: int, y: int|
        0 <= x < w && 0 <= y < h ==> #[trigger] sample(data, w, x, y) == vals[native_channel(x, y)]
}

proof fn lemma_uniform_contribution(
    data: Seq<u8>,
    w: int,
    h: int,
    vals: Seq<u8>,
    x: int,
    y: int,
    c: int,
)
    requires
        uniform_mosaic(data, w, h, vals),
    ensures
        contribution(data, w, h, x, y, c) == weight(w, h, x, y, c) * vals[c],
{
    if has_sample(w, h, x, y, c) {
        assert(sample(data, w, x, y) == vals[native_channel(x, y)]);
    }
}

proof fn lemma_uniform_at(data: Seq<u8>, w: int, h: int, vals: Seq<u8>, x: int, y: int, c: int)
    requires
        w % 2 == 0,
        h % 2 == 0,
        w >= 4,
        h >= 4,
        uniform_mosaic(data, w, h, vals),
        0 <= x < w,
        0 <= y < h,
        0 <= c < 3,
    ensures
        bayer_value(data, w, h, x, y, c) == vals[c],
{
    reveal(bayer_value);
    if native_channel(x, y) == c {
        assert(sample(data, w, x, y) == vals[native_channel(x, y)]);
    } else {
        lemma_uniform_contribution(data, w, h, vals, x - 1, y - 1, c);
        lemma_uniform_contribution(data, w, h, vals, x, y - 1, c);
        lemma_uniform_contribution(data, w, h, vals, x + 1, y - 1, c);
        lemma_uniform_contribution(data, w, h, vals, x - 1, y, c);
        lemma_uniform_contribution(data, w, h, vals, x + 1, y, c);
        lemma_uniform_contribution(data, w, h, vals, x - 1, y + 1, c);
        lemma_uniform_contribution(data, w, h, vals, x, y + 1, c);
        lemma_uniform_contribution(data, w, h, vals, x + 1, y + 1, c);
        let n = neighbour_count(w, h, x, y, c);
        let s = neighbour_sum(data, w, h, x, y, c);
        let v = vals[c] as int;
        let a = seq![
            weight(w, h, x - 1, y - 1, c),
            weight(w, h, x, y - 1, c),
            weight(w, h, x + 1, y - 1, c),
            weight(w, h, x - 1, y, c),
            weight(w, h, x + 1, y, c),
            weight(w, h, x - 1, y + 1, c),
            weight(w, h, x, y + 1, c),
            weight(w, h, x + 1, y + 1, c),
        ];
        assert(s == n * v) by (nonlinear_arith)
            requires
                n == a[0] + a[1] + a[2] + a[3] + a[4] + a[5] + a[6] + a[7],
                s == a[0] * v + a[1] * v + a[2] * v + a[3] * v + a[4] * v + a[5] * v + a[6] * v
                    + a[7] * v,
        ;
        // Every pixel has a neighbour of each channel it does not sample.
        if x % 2 == 0 && y % 2 == 0 {
            if c == 1 {
                assert(weight(w, h, x + 1, y, c) == 1);
            } else {
                assert(weight(w, h, x + 1, y + 1, c) == 1);
            }
        } else if x % 2 == 1 && y % 2 == 1 {
            if c == 1 {
                assert(weight(w, h, x - 1, y, c) == 1);
            } else {
                assert(weight(w, h, x - 1, y - 1, c) == 1);
            }
        } else if x % 2 == 1 {
            if c == 0 {
                assert(weight(w, h, x - 1, y, c) == 1);
            } else {
                assert(weight(w, h, x, y + 1, c) == 1);
            }
        } else {
            if c == 0 {
                assert(weight(w, h, x, y - 1, c) == 1);
            } else {
                assert(weight(w, h, x + 1, y, c) == 1);
            }
        }
        assert(n > 0);
        lemma_div_multiples_vanish(v, n);
        assert(n * v == v * n) by (nonlinear_arith);
    }
}

/// Demosaicing a mosaic in which every sample of a channel holds the same
/// value reproduces those values at every pixel: the reduced averages at the
/// edges and corners agree with the full ones of the interior.
pub proof fn lemma_uniform_mosaic(data: Seq<u8>, w: int, h: int, vals: Seq<u8>)
    requires
        w % 2 == 0,
        h % 2 == 0,
        w >= 4,
        h >= 4,
        data.len() == w * h,
        vals.len() == 3,
        uniform_mosaic(data, w, h, vals),
    ensures
        forall|x: int, y: int, c: int|
            0 <= x < w && 0 <= y < h && 0 <= c < 3 ==> #[trigger] bayer_value(data, w, h, x, y, c)
                == vals[c],
{
    assert forall|x: int, y: int, c: int|
        0 <= x < w && 0 <= y < h && 0 <= c < 3 implies #[trigger] bayer_value(data, w, h, x, y, c)
        == vals[c] by {
        lemma_uniform_at(data, w, h, vals, x, y, c);
    }
}

} // verus!
