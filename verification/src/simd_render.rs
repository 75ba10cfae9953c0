//! Framebuffer fills: opaque and alpha-blended rectangles, tiled patterns and
//! nearest-neighbour scaled blits, each clipped to the framebuffer.
//!
//! Pixels are ARGB `u32`s stored row by row, `fb_w` per row; pixel `(x, y)`
//! is at index `y * fb_w + x`.

use vstd::prelude::*;
use crate::gpu_backend::{chan, in_rect};

verus! {

/// Fixed-point reciprocal of 255 used by the blender: `floor(2^23 / 255)`.
pub const DIV255_MUL: u32 = 32897;

// ---------------------------------------------------------------------------
// Clipping
// ---------------------------------------------------------------------------

/// Lower edge of a span clipped at zero.
pub open spec fn clip_lo(a: int) -> int {
    if a < 0 { 0 } else { a }
}

/// Upper edge of a span clipped at `lim`.
pub open spec fn clip_hi(a: int, lim: int) -> int {
    if a < lim { a } else { lim }
}

/// The framebuffer holds `fb_w * fb_h` pixels and its sides fit the `i32`
/// coordinates the fills work in.
pub open spec fn fb_fits(len: int, fb_w: usize, fb_h: usize) -> bool {
    &&& fb_w <= i32::MAX
    &&& fb_h <= i32::MAX
    &&& fb_w * fb_h <= len
}

/// Pixel `i` lies in the rectangle at `(x, y)` of size `rw` x `rh` after
/// clipping to the `fb_w` x `fb_h` framebuffer.
pub open spec fn in_clipped(i: int, fb_w: usize, fb_h: usize, x: int, y: int, rw: int, rh: int) -> bool {
    in_rect(i, fb_w as int, clip_lo(x), clip_hi(x + rw, fb_w as int), clip_lo(y), clip_hi(y + rh, fb_h as int))
}

// ---------------------------------------------------------------------------
// Alpha blending with the fixed-point divide by 255
// ---------------------------------------------------------------------------

/// `v / 255` in the fixed-point form of the blender: `(v * 32897 + 32768) >> 23`.
pub open spec fn div255(v: int) -> int {
    (v * 32897 + 32768) / 8388608
}

/// `color` laid over `dst` by the alpha of `color`, every channel (alpha
/// included) mixed as `div255(src * a + dst * (255 - a))`, alpha taking 255
/// as its source value.
pub open spec fn alpha_over(dst: u32, color: u32) -> u32 {
    let a = chan(color, 24) as int;
    let inv = 255 - a;
    let oa = div255(a * 255 + chan(dst, 24) * inv);
    let or = div255(chan(color, 16) * a + chan(dst, 16) * inv);
    let og = div255(chan(color, 8) * a + chan(dst, 8) * inv);
    let ob = div255(chan(color, 0) * a + chan(dst, 0) * inv);
    (oa * 16777216 + or * 65536 + og * 256 + ob) as u32
}

/// What an alpha fill leaves in a pixel holding `old`: the colour itself when
/// opaque, `old` when fully transparent, otherwise the blend.
pub open spec fn alpha_fill_pixel(old: u32, color: u32) -> u32 {
    if chan(color, 24) == 255 {
        color
    } else if chan(color, 24) == 0 {
        old
    } else {
        alpha_over(old, color)
    }
}

proof fn lemma_shr23(x: u32)
    by (bit_vector)
    ensures
        x >> 23u32 == x / 8388608,
{
}

proof fn lemma_pack4(a: u32, r: u32, g: u32, b: u32)
    by (bit_vector)
    requires
        a <= 255,
        r <= 255,
        g <= 255,
        b <= 255,
    ensures
        (a << 24u32) | (r << 16u32) | (g << 8u32) | b == a * 16777216 + r * 65536 + g * 256 + b,
{
}

proof fn lemma_chan_le(c: u32, shift: u32)
    by (bit_vector)
    ensures
        (c >> shift) & 0xFFu32 <= 0xFFu32,
{
}

proof fn lemma_mix_le(s: int, d: int, a: int)
    requires
        0 <= s <= 255,
        0 <= d <= 255,
        0 <= a <= 255,
    ensures
        0 <= s * a + d * (255 - a) <= 65025,
{
    assert(0 <= s * a + d * (255 - a) <= 65025) by (nonlinear_arith)
        requires
            0 <= s <= 255,
            0 <= d <= 255,
            0 <= a <= 255,
    ;
}

/// `div255` of a mixed channel.
fn div255_channel(v: u32) -> (r: u32)
    requires
        v <= 65025,
    ensures
        r as int == div255(v as int),
        r <= 255,
{
    assert(v * 32897 + 32768 < 2147483648) by (nonlinear_arith)
        requires
            v <= 65025,
    ;
    let x = v * DIV255_MUL + 32768;
    proof {
        lemma_shr23(x);
    }
    x >> 23
}

/// Lays `color` over `dst` by the alpha of `color` (the blend of `alpha_over`).
pub fn alpha_over_pixel(dst: u32, color: u32) -> (r: u32)
    ensures
        r == alpha_over(dst, color),
{
    let src_a = (color >> 24) & 0xFF;
    proof {
        lemma_chan_le(color, 24);
    }
    let inv_a = 255 - src_a;
    let src_r = (color >> 16) & 0xFF;
    let src_g = (color >> 8) & 0xFF;
    let src_b = color & 0xFF;
    let dst_a = (dst >> 24) & 0xFF;
    let dst_r = (dst >> 16) & 0xFF;
    let dst_g = (dst >> 8) & 0xFF;
    let dst_b = dst & 0xFF;
    proof {
        lemma_chan_le(color, 24);
        lemma_chan_le(color, 16);
        lemma_chan_le(color, 8);
        lemma_chan_le(dst, 24);
        lemma_chan_le(dst, 16);
        lemma_chan_le(dst, 8);
        assert(color & 0xFFu32 == (color >> 0u32) & 0xFFu32) by (bit_vector);
        assert(dst & 0xFFu32 == (dst >> 0u32) & 0xFFu32) by (bit_vector);
        lemma_chan_le(color, 0);
        lemma_chan_le(dst, 0);
        lemma_mix_le(255, dst_a as int, src_a as int);
        lemma_mix_le(src_r as int, dst_r as int, src_a as int);
        lemma_mix_le(src_g as int, dst_g as int, src_a as int);
        lemma_mix_le(src_b as int, dst_b as int, src_a as int);
        assert(src_a * 255 == 255 * src_a);
    }
    let out_a = div255_channel(src_a * 255 + dst_a * inv_a);
    let out_r = div255_channel(src_r * src_a + dst_r * inv_a);
    let out_g = div255_channel(src_g * src_a + dst_g * inv_a);
    let out_b = div255_channel(src_b * src_a + dst_b * inv_a);
    proof {
        lemma_pack4(out_a, out_r, out_g, out_b);
    }
    (out_a << 24) | (out_r << 16) | (out_g << 8) | out_b
}

// ---------------------------------------------------------------------------
// The shared pixel loop
// ---------------------------------------------------------------------------

/// How a fill computes the new value of a pixel.
enum Paint {
    /// Every pixel becomes the colour.
    Solid(u32),
    /// The colour is blended over every pixel (`alpha_over`).
    Alpha(u32),
    /// A `pw` x `ph` pattern repeated from origin `(ox, oy)`.
    Pattern { ox: i32, oy: i32, pw: usize, ph: usize },
    /// A `sw` x `sh` image sampled with 16.16 fixed-point steps from origin `(ox, oy)`.
    Scaled { ox: i32, oy: i32, step_x: u64, step_y: u64, sw: usize, sh: usize },
}

/// Index into the pattern for pixel `(x, y)`.
pub open spec fn pattern_index(ox: int, oy: int, pw: int, ph: int, x: int, y: int) -> int {
    ((y - oy) % ph) * pw + (x - ox) % pw
}

/// Index into the source image for pixel `(x, y)` of a scaled blit.
pub open spec fn scaled_index(ox: int, oy: int, step_x: int, step_y: int, sw: int, sh: int, x: int, y: int) -> int {
    (((y - oy) * step_y / 65536) % sh) * sw + ((x - ox) * step_x / 65536) % sw
}

spec fn paint_ok_at(p: Paint, src_len: int, x: int, y: int) -> bool {
    match p {
        Paint::Solid(_) => true,
        Paint::Alpha(_) => true,
        Paint::Pattern { ox, oy, pw, ph } => {
            &&& pw > 0
            &&& ph > 0
            &&& ph * pw <= src_len
            &&& ox <= x < ox + 0x1_0000_0000
            &&& oy <= y < oy + 0x1_0000_0000
        },
        Paint::Scaled { ox, oy, step_x, step_y, sw, sh } => {
            &&& sw > 0
            &&& sh > 0
            &&& sh * sw <= src_len
            &&& step_x < 0x1_0000_0000
            &&& step_y < 0x1_0000_0000
            &&& ox <= x < ox + 0x1_0000_0000
            &&& oy <= y < oy + 0x1_0000_0000
        },
    }
}

spec fn paint_pixel(p: Paint, src: Seq<u32>, old: u32, x: int, y: int) -> u32 {
    match p {
        Paint::Solid(c) => c,
        Paint::Alpha(c) => alpha_over(old, c),
        Paint::Pattern { ox, oy, pw, ph } => src[pattern_index(ox as int, oy as int, pw as int, ph as int, x, y)],
        Paint::Scaled { ox, oy, step_x, step_y, sw, sh } => src[scaled_index(
            ox as int,
            oy as int,
            step_x as int,
            step_y as int,
            sw as int,
            sh as int,
            x,
            y,
        )],
    }
}

proof fn lemma_grid_index(a: int, b: int, w: int, h: int)
    requires
        w > 0,
        h > 0,
        0 <= a,
        0 <= b,
    ensures
        0 <= (a % h) * w + b % w < h * w,
{
    let q = a % h;
    let r = b % w;
    assert(0 <= q < h);
    assert(0 <= r < w);
    assert(0 <= q * w + r < h * w) by (nonlinear_arith)
        requires
            0 <= q < h,
            0 <= r < w,
    ;
}

proof fn lemma_wide_product(a: int, b: int)
    requires
        0 <= a < 0x1_0000_0000,
        0 <= b < 0x1_0000_0000,
    ensures
        0 <= a * b < 0x1_0000_0000_0000_0000,
{
    assert(0 <= a * b < 0x1_0000_0000_0000_0000) by (nonlinear_arith)
        requires
            0 <= a < 0x1_0000_0000,
            0 <= b < 0x1_0000_0000,
    ;
}

fn paint_apply(p: &Paint, src: &[u32], old: u32, x: usize, y: usize) -> (r: u32)
    requires
        paint_ok_at(*p, src@.len() as int, x as int, y as int),
    ensures
        r == paint_pixel(*p, src@, old, x as int, y as int),
{
    match p {
        Paint::Solid(c) => *c,
        Paint::Alpha(c) => alpha_over_pixel(old, *c),
        Paint::Pattern { ox, oy, pw, ph } => {
            let _n = src.len();
            let dy = (y as i64 - *oy as i64) as u64;
            let dx = (x as i64 - *ox as i64) as u64;
            let row = (dy % (*ph as u64)) as usize;
            let col = (dx % (*pw as u64)) as usize;
            proof {
                lemma_grid_index(dy as int, dx as int, *pw as int, *ph as int);
                assert(row as int == (dy as int) % (*ph as int));
                assert(col as int == (dx as int) % (*pw as int));
                assert(row * *pw + col < *ph * *pw);
            }
            src[row * *pw + col]
        },
        Paint::Scaled { ox, oy, step_x, step_y, sw, sh } => {
            let _n = src.len();
            let dy = (y as i64 - *oy as i64) as u64;
            let dx = (x as i64 - *ox as i64) as u64;
            proof {
                lemma_wide_product(dy as int, *step_y as int);
                lemma_wide_product(dx as int, *step_x as int);
            }
            let sy = dy * *step_y / 65536;
            let sx = dx * *step_x / 65536;
            let row = (sy % (*sh as u64)) as usize;
            let col = (sx % (*sw as u64)) as usize;
            proof {
                lemma_grid_index(sy as int, sx as int, *sw as int, *sh as int);
                assert(row as int == (sy as int) % (*sh as int));
                assert(col as int == (sx as int) % (*sw as int));
                assert(row * *sw + col < *sh * *sw);
            }
            src[row * *sw + col]
        },
    }
}

proof fn lemma_div_mod_of(y: int, w: int, x: int)
    requires
        w > 0,
        0 <= x < w,
    ensures
        (y * w + x) / w == y,
        (y * w + x) % w == x,
{
    vstd::arithmetic::div_mod::lemma_fundamental_div_mod_converse(y * w + x, w, y, x);
}

proof fn lemma_same_pixel(i: int, w: int, y: int, x: int)
    requires
        w > 0,
        0 <= x < w,
        i / w == y,
        i % w == x,
    ensures
        i == y * w + x,
{
    vstd::arithmetic::div_mod::lemma_fundamental_div_mod(i, w);
    assert(w * (i / w) == y * w) by (nonlinear_arith)
        requires
            i / w == y,
    ;
}

proof fn lemma_row_bound(y: int, w: int, x: int, ye: int, xe: int, len: int)
    requires
        0 <= y < ye,
        0 <= x < xe,
        xe <= w,
        (ye - 1) * w + xe <= len,
    ensures
        0 <= y * w,
        y * w + x < len,
{
    assert(0 <= y * w) by (nonlinear_arith)
        requires
            0 <= y,
            0 <= x < xe <= w,
    ;
    assert(y * w <= (ye - 1) * w) by (nonlinear_arith)
        requires
            y <= ye - 1,
            0 <= w,
    ;
}

/// Rewrites columns `[xs, xe)` of rows `[ys, ye)` with `paint_pixel`.
fn paint_rect(fb: &mut Vec<u32>, fb_w: usize, xs: usize, xe: usize, ys: usize, ye: usize, p: &Paint, src: &[u32])
    requires
        xs < xe <= fb_w,
        ys < ye,
        (ye - 1) * fb_w + xe <= old(fb)@.len(),
        forall|x: int, y: int|
            xs <= x < xe && ys <= y < ye ==> #[trigger] paint_ok_at(*p, src@.len() as int, x, y),
    ensures
        final(fb)@.len() == old(fb)@.len(),
        forall|i: int| 0 <= i < old(fb)@.len() ==> #[trigger] final(fb)@[i] == (
            if in_rect(i, fb_w as int, xs as int, xe as int, ys as int, ye as int) {
                paint_pixel(*p, src@, old(fb)@[i], i % (fb_w as int), i / (fb_w as int))
            } else {
                old(fb)@[i]
            }),
{
    let ghost old_fb = fb@;
    let ghost w = fb_w as int;
    let fb_len = fb.len();
    let mut y = ys;
    while y < ye
        invariant
            fb@.len() == old_fb.len(),
            old_fb.len() == fb_len,
            w == fb_w,
            w > 0,
            xs < xe <= fb_w,
            ys <= y <= ye,
            (ye - 1) * fb_w + xe <= old_fb.len(),
            forall|x: int, yy: int|
                xs <= x < xe && ys <= yy < ye ==> #[trigger] paint_ok_at(*p, src@.len() as int, x, yy),
            forall|i: int| 0 <= i < old_fb.len() ==> #[trigger] fb@[i] == (
                if in_rect(i, w, xs as int, xe as int, ys as int, y as int) {
                    paint_pixel(*p, src@, old_fb[i], i % w, i / w)
                } else {
                    old_fb[i]
                }),
        decreases ye - y,
    {
        proof {
            lemma_row_bound(y as int, w, xs as int, ye as int, xe as int, old_fb.len() as int);
        }
        let row = y * fb_w;
        let mut x = xs;
        while x < xe
            invariant
                fb@.len() == old_fb.len(),
                old_fb.len() == fb_len,
                w == fb_w,
                w > 0,
                xs <= x <= xe,
                xe <= fb_w,
                ys <= y < ye,
                row == y * fb_w,
                (ye - 1) * fb_w + xe <= old_fb.len(),
                forall|xx: int, yy: int|
                    xs <= xx < xe && ys <= yy < ye ==> #[trigger] paint_ok_at(*p, src@.len() as int, xx, yy),
                forall|i: int| 0 <= i < old_fb.len() ==> #[trigger] fb@[i] == (
                    if in_rect(i, w, xs as int, xe as int, ys as int, y as int)
                        || (i / w == y && xs <= i % w < x) {
                        paint_pixel(*p, src@, old_fb[i], i % w, i / w)
                    } else {
                        old_fb[i]
                    }),
            decreases xe - x,
        {
            proof {
                lemma_row_bound(y as int, w, x as int, ye as int, xe as int, old_fb.len() as int);
                lemma_div_mod_of(y as int, w, x as int);
                assert(paint_ok_at(*p, src@.len() as int, x as int, y as int));
            }
            let idx = row + x;
            let old_px = fb[idx];
            let new_px = paint_apply(p, src, old_px, x, y);
            let ghost before = fb@;
            fb.set(idx, new_px);
            proof {
                assert forall|i: int| 0 <= i < old_fb.len() implies #[trigger] fb@[i] == (
                    if in_rect(i, w, xs as int, xe as int, ys as int, y as int)
                        || (i / w == y && xs <= i % w < x + 1) {
                        paint_pixel(*p, src@, old_fb[i], i % w, i / w)
                    } else {
                        old_fb[i]
                    }) by {
                    if i != idx {
                        assert(fb@[i] == before[i]);
                        if i / w == y && i % w == x {
                            lemma_same_pixel(i, w, y as int, x as int);
                        }
                    } else {
                        assert(before[i] == old_fb[i]);
                    }
                }
            }
            x = x + 1;
        }
        proof {
            assert forall|i: int| 0 <= i < old_fb.len() implies #[trigger] fb@[i] == (
                if in_rect(i, w, xs as int, xe as int, ys as int, y + 1) {
                    paint_pixel(*p, src@, old_fb[i], i % w, i / w)
                } else {
                    old_fb[i]
                }) by {
                vstd::arithmetic::div_mod::lemma_fundamental_div_mod(i, w);
            }
        }
        y = y + 1;
    }
}

// ---------------------------------------------------------------------------
// Public fills
// ---------------------------------------------------------------------------

/// Nothing of the rectangle is left after clipping.
pub open spec fn clipped_empty(fb_w: usize, fb_h: usize, x: int, y: int, rw: int, rh: int) -> bool {
    clip_lo(x) >= clip_hi(x + rw, fb_w as int) || clip_lo(y) >= clip_hi(y + rh, fb_h as int)
}

/// The far edges of the rectangle fit in `i32`, as the fills compute them.
pub open spec fn edges_fit(x: i32, y: i32, rw: i32, rh: i32) -> bool {
    &&& i32::MIN <= x + rw <= i32::MAX
    &&& i32::MIN <= y + rh <= i32::MAX
}

proof fn lemma_fb_rows(ye: int, xe: int, w: int, h: int)
    requires
        1 <= ye <= h,
        0 <= xe <= w,
    ensures
        (ye - 1) * w + xe <= w * h,
{
    assert((ye - 1) * w + xe <= w * h) by (nonlinear_arith)
        requires
            1 <= ye <= h,
            0 <= xe <= w,
    ;
}

/// The rectangle clipped to the framebuffer as `(xs, xe, ys, ye)`, or `None`
/// when nothing of it is left.
fn clip_rect(fb_w: usize, fb_h: usize, x: i32, y: i32, rw: i32, rh: i32) -> (r: Option<(usize, usize, usize, usize)>)
    requires
        fb_w <= i32::MAX,
        fb_h <= i32::MAX,
        edges_fit(x, y, rw, rh),
    ensures
        r is None <==> clipped_empty(fb_w, fb_h, x as int, y as int, rw as int, rh as int),
        r matches Some((xs, xe, ys, ye)) ==> {
            &&& xs == clip_lo(x as int)
            &&& xe == clip_hi(x + rw, fb_w as int)
            &&& ys == clip_lo(y as int)
            &&& ye == clip_hi(y + rh, fb_h as int)
            &&& xs < xe <= fb_w
            &&& ys < ye <= fb_h
        },
{
    let w = fb_w as i32;
    let h = fb_h as i32;
    let x1 = if x < 0 { 0 } else { x };
    let y1 = if y < 0 { 0 } else { y };
    let x2 = if x + rw < w { x + rw } else { w };
    let y2 = if y + rh < h { y + rh } else { h };
    if x1 >= x2 || y1 >= y2 {
        None
    } else {
        Some((x1 as usize, x2 as usize, y1 as usize, y2 as usize))
    }
}

/// Fills the rectangle at `(x, y)` of size `rw` x `rh`, clipped to the
/// framebuffer, with `color`.
pub fn fill_rect_simd(fb: &mut Vec<u32>, fb_w: usize, fb_h: usize, x: i32, y: i32, rw: i32, rh: i32, color: u32)
    requires
        fb_fits(old(fb)@.len() as int, fb_w, fb_h),
        edges_fit(x, y, rw, rh),
    ensures
        final(fb)@.len() == old(fb)@.len(),
        forall|i: int| 0 <= i < old(fb)@.len() ==> #[trigger] final(fb)@[i] == (
            if in_clipped(i, fb_w, fb_h, x as int, y as int, rw as int, rh as int) {
                color
            } else {
                old(fb)@[i]
            }),
{
    match clip_rect(fb_w, fb_h, x, y, rw, rh) {
        None => {},
        Some((xs, xe, ys, ye)) => {
            proof {
                lemma_fb_rows(ye as int, xe as int, fb_w as int, fb_h as int);
            }
            let empty: [u32; 0] = [];
            paint_rect(fb, fb_w, xs, xe, ys, ye, &Paint::Solid(color), &empty);
        },
    }
}

/// Same fill as `fill_rect_simd`, for callers whose coordinates are already
/// checked.
pub fn fill_rect_clipped(fb: &mut Vec<u32>, fb_w: usize, fb_h: usize, x: i32, y: i32, rw: i32, rh: i32, color: u32)
    requires
        fb_fits(old(fb)@.len() as int, fb_w, fb_h),
        edges_fit(x, y, rw, rh),
    ensures
        final(fb)@.len() == old(fb)@.len(),
        forall|i: int| 0 <= i < old(fb)@.len() ==> #[trigger] final(fb)@[i] == (
            if in_clipped(i, fb_w, fb_h, x as int, y as int, rw as int, rh as int) {
                color
            } else {
                old(fb)@[i]
            }),
{
    fill_rect_simd(fb, fb_w, fb_h, x, y, rw, rh, color);
}

/// Lays `color` over the rectangle at `(x, y)` of size `rw` x `rh`, clipped
/// to the framebuffer, by its alpha: an opaque colour is written as is, a
/// fully transparent one changes nothing, any other is blended into each pixel.
pub fn fill_rect_alpha_simd(fb: &mut Vec<u32>, fb_w: usize, fb_h: usize, x: i32, y: i32, rw: i32, rh: i32, color: u32)
    requires
        fb_fits(old(fb)@.len() as int, fb_w, fb_h),
        edges_fit(x, y, rw, rh),
    ensures
        final(fb)@.len() == old(fb)@.len(),
        forall|i: int| 0 <= i < old(fb)@.len() ==> #[trigger] final(fb)@[i] == (
            if in_clipped(i, fb_w, fb_h, x as int, y as int, rw as int, rh as int) {
                alpha_fill_pixel(old(fb)@[i], color)
            } else {
                old(fb)@[i]
            }),
{
    match clip_rect(fb_w, fb_h, x, y, rw, rh) {
        None => {},
        Some((xs, xe, ys, ye)) => {
            proof {
                lemma_fb_rows(ye as int, xe as int, fb_w as int, fb_h as int);
                lemma_chan_le(color, 24);
            }
            let src_a = (color >> 24) & 0xFF;
            let empty: [u32; 0] = [];
            if src_a >= 255 {
                paint_rect(fb, fb_w, xs, xe, ys, ye, &Paint::Solid(color), &empty);
            } else if src_a == 0 {
                proof {
                    assert forall|i: int| 0 <= i < fb@.len() implies #[trigger] fb@[i] == (
                        if in_clipped(i, fb_w, fb_h, x as int, y as int, rw as int, rh as int) {
                            alpha_fill_pixel(fb@[i], color)
                        } else {
                            fb@[i]
                        }) by {}
                }
            } else {
                paint_rect(fb, fb_w, xs, xe, ys, ye, &Paint::Alpha(color), &empty);
            }
        },
    }
}

/// Rows of a pattern `pattern_w` pixels wide: `len / pattern_w`.
pub open spec fn pattern_rows(len: int, pattern_w: int) -> int {
    len / pattern_w
}

/// Fills the rectangle at `(dst_x, dst_y)` of size `rw` x `rh`, clipped to
/// the framebuffer, with `pattern` (rows of `pattern_w` pixels) repeated in
/// both directions from the rectangle's corner.
pub fn fill_pattern_simd(
    fb: &mut Vec<u32>,
    fb_w: usize,
    fb_h: usize,
    dst_x: i32,
    dst_y: i32,
    rw: i32,
    rh: i32,
    pattern: &[u32],
    pattern_w: usize,
)
    requires
        fb_fits(old(fb)@.len() as int, fb_w, fb_h),
        edges_fit(dst_x, dst_y, rw, rh),
        !clipped_empty(fb_w, fb_h, dst_x as int, dst_y as int, rw as int, rh as int) ==> 0 < pattern_w <= pattern@.len(),
    ensures
        final(fb)@.len() == old(fb)@.len(),
        forall|i: int| 0 <= i < old(fb)@.len() ==> #[trigger] final(fb)@[i] == (
            if in_clipped(i, fb_w, fb_h, dst_x as int, dst_y as int, rw as int, rh as int) {
                pattern@[pattern_index(
                    dst_x as int,
                    dst_y as int,
                    pattern_w as int,
                    pattern_rows(pattern@.len() as int, pattern_w as int),
                    i % (fb_w as int),
                    i / (fb_w as int),
                )]
            } else {
                old(fb)@[i]
            }),
{
    match clip_rect(fb_w, fb_h, dst_x, dst_y, rw, rh) {
        None => {},
        Some((xs, xe, ys, ye)) => {
            proof {
                lemma_fb_rows(ye as int, xe as int, fb_w as int, fb_h as int);
            }
            let len = pattern.len();
            let pattern_h = len / pattern_w;
            proof {
                vstd::arithmetic::div_mod::lemma_fundamental_div_mod(len as int, pattern_w as int);
                assert(pattern_h >= 1) by {
                    vstd::arithmetic::div_mod::lemma_div_is_ordered(pattern_w as int, len as int, pattern_w as int);
                    vstd::arithmetic::div_mod::lemma_div_by_self(pattern_w as int);
                }
                assert(pattern_h * pattern_w <= len) by (nonlinear_arith)
                    requires
                        pattern_w * pattern_h + (len as int) % (pattern_w as int) == len,
                        0 <= (len as int) % (pattern_w as int),
                ;
            }
            let p = Paint::Pattern { ox: dst_x, oy: dst_y, pw: pattern_w, ph: pattern_h };
            paint_rect(fb, fb_w, xs, xe, ys, ye, &p, pattern);
        },
    }
}

/// Fixed-point 16.16 step of a scaled blit: `src` source pixels over `dst`
/// destination pixels, the source size taken modulo 65536 as its 16.16 form
/// wraps in 32 bits.
pub open spec fn scale_step(src: usize, dst: i32) -> int {
    ((src as int % 65536) * 65536) / (if dst < 1 { 1 } else { dst as int })
}

fn scale_step_exec(src: usize, dst: i32) -> (r: u64)
    ensures
        r as int == scale_step(src, dst),
        r < 0x1_0000_0000,
{
    let d: u64 = if dst < 1 { 1 } else { dst as u64 };
    let s = (src % 65536) as u64;
    proof {
        assert(s * 65536 < 0x1_0000_0000);
        vstd::arithmetic::div_mod::lemma_div_is_ordered_by_denominator(s as int * 65536, 1, d as int);
    }
    s * 65536 / d
}

/// Copies `src` (`src_w` x `src_h`) scaled to `dst_w` x `dst_h` at
/// `(dst_x, dst_y)`, clipped to the framebuffer, by nearest-neighbour
/// sampling with 16.16 fixed-point steps. An empty `src` changes nothing.
pub fn blit_scaled(
    fb: &mut Vec<u32>,
    fb_w: usize,
    fb_h: usize,
    dst_x: i32,
    dst_y: i32,
    dst_w: i32,
    dst_h: i32,
    src: &[u32],
    src_w: usize,
    src_h: usize,
)
    requires
        fb_fits(old(fb)@.len() as int, fb_w, fb_h),
        edges_fit(dst_x, dst_y, dst_w, dst_h),
        !clipped_empty(fb_w, fb_h, dst_x as int, dst_y as int, dst_w as int, dst_h as int) && src@.len() > 0
            ==> src_w > 0 && src_h > 0 && src_w * src_h <= src@.len(),
    ensures
        final(fb)@.len() == old(fb)@.len(),
        forall|i: int| 0 <= i < old(fb)@.len() ==> #[trigger] final(fb)@[i] == (
            if src@.len() > 0 && in_clipped(i, fb_w, fb_h, dst_x as int, dst_y as int, dst_w as int, dst_h as int) {
                src@[scaled_index(
                    dst_x as int,
                    dst_y as int,
                    scale_step(src_w, dst_w),
                    scale_step(src_h, dst_h),
                    src_w as int,
                    src_h as int,
                    i % (fb_w as int),
                    i / (fb_w as int),
                )]
            } else {
                old(fb)@[i]
            }),
{
    if src.len() == 0 {
        return;
    }
    match clip_rect(fb_w, fb_h, dst_x, dst_y, dst_w, dst_h) {
        None => {},
        Some((xs, xe, ys, ye)) => {
            proof {
                lemma_fb_rows(ye as int, xe as int, fb_w as int, fb_h as int);
                assert(src_h * src_w == src_w * src_h) by (nonlinear_arith);
            }
            let step_x = scale_step_exec(src_w, dst_w);
            let step_y = scale_step_exec(src_h, dst_h);
            let p = Paint::Scaled { ox: dst_x, oy: dst_y, step_x, step_y, sw: src_w, sh: src_h };
            paint_rect(fb, fb_w, xs, xe, ys, ye, &p, src);
        },
    }
}

/// Touches one pixel in every 64 of the first `fb_size` pixels (at most
/// 4096 of them) by reading it and writing it back, to bring the buffer into
/// cache; the contents stay as they were.
pub fn warm_cache(fb: &mut Vec<u32>, fb_size: usize)
    requires
        fb_size <= old(fb)@.len(),
    ensures
        final(fb)@ == old(fb)@,
{
    let ghost orig = fb@;
    let chunks = fb_size / 64;
    let limit = if chunks < 4096 { chunks } else { 4096 };
    let mut chunk: usize = 0;
    while chunk < limit
        invariant
            fb@ == orig,
            fb_size <= orig.len(),
            limit <= fb_size / 64,
            chunk <= limit,
        decreases limit - chunk,
    {
        let idx = chunk * 64;
        if idx + 16 <= fb_size {
            let val = fb[idx];
            fb.set(idx, val);
            assert(fb@ =~= orig);
        }
        chunk = chunk + 1;
    }
}

// ---------------------------------------------------------------------------
// Fills as functions of the framebuffer
// ---------------------------------------------------------------------------

/// The framebuffer `s` after `fill_rect_simd`.
pub open spec fn filled(s: Seq<u32>, fb_w: usize, fb_h: usize, x: int, y: int, rw: int, rh: int, color: u32) -> Seq<u32> {
    Seq::new(s.len(), |i: int| if in_clipped(i, fb_w, fb_h, x, y, rw, rh) { color } else { s[i] })
}

/// The framebuffer `s` after `fill_rect_alpha_simd`.
pub open spec fn alpha_filled(s: Seq<u32>, fb_w: usize, fb_h: usize, x: int, y: int, rw: int, rh: int, color: u32) -> Seq<u32> {
    Seq::new(s.len(), |i: int| if in_clipped(i, fb_w, fb_h, x, y, rw, rh) { alpha_fill_pixel(s[i], color) } else { s[i] })
}

/// What `fill_rect_simd` ensures, pixel by pixel, is `filled`.
pub proof fn lemma_filled(s: Seq<u32>, t: Seq<u32>, fb_w: usize, fb_h: usize, x: int, y: int, rw: int, rh: int, color: u32)
    requires
        t.len() == s.len(),
        forall|i: int| 0 <= i < s.len() ==> #[trigger] t[i] == (if in_clipped(i, fb_w, fb_h, x, y, rw, rh) { color } else { s[i] }),
    ensures
        t == filled(s, fb_w, fb_h, x, y, rw, rh, color),
{
    assert(t =~= filled(s, fb_w, fb_h, x, y, rw, rh, color));
}

/// What `fill_rect_alpha_simd` ensures, pixel by pixel, is `alpha_filled`.
pub proof fn lemma_alpha_filled(s: Seq<u32>, t: Seq<u32>, fb_w: usize, fb_h: usize, x: int, y: int, rw: int, rh: int, color: u32)
    requires
        t.len() == s.len(),
        forall|i: int| 0 <= i < s.len() ==> #[trigger] t[i] == (if in_clipped(i, fb_w, fb_h, x, y, rw, rh) {
            alpha_fill_pixel(s[i], color)
        } else {
            s[i]
        }),
    ensures
        t == alpha_filled(s, fb_w, fb_h, x, y, rw, rh, color),
{
    assert(t =~= alpha_filled(s, fb_w, fb_h, x, y, rw, rh, color));
}

} // verus!
