//! World rendering helpers on an ARGB framebuffer: the palette, darkened
//! shades, rectangle outlines, the vehicle sprite and the 5 x 7 bitmap font.

use vstd::prelude::*;
use crate::gpu_backend::{chan, in_rect};
use crate::simd_render::{fill_rect_simd, fb_fits, filled, lemma_filled};
use crate::ecs::BuildingType;
use crate::sim::{decimal, digit_char, two_digits};
use crate::simd_render::{fill_rect_alpha_simd, alpha_filled, lemma_alpha_filled};

verus! {

pub const COLOR_GRASS: u32 = 0xFF_4A_7C_3F;
pub const COLOR_DIRT: u32 = 0xFF_9B_8C_70;
pub const COLOR_SAND: u32 = 0xFF_C4_B8_8C;
pub const COLOR_WATER: u32 = 0xFF_2A_5A_8A;
pub const COLOR_BACKGROUND: u32 = 0xFF_1A_1A_2E;
pub const COLOR_ZONE_RESIDENTIAL: u32 = 0x22_7B_A0_5C;
pub const COLOR_ZONE_COMMERCIAL: u32 = 0x22_5C_8A_B8;
pub const COLOR_ZONE_INDUSTRIAL: u32 = 0x22_B0_7A_6E;
pub const COLOR_ZONE_AGRICULTURAL: u32 = 0x22_8C_A8_6A;
pub const COLOR_LANE_LINE: u32 = 0x33_AA_AA_AA;
pub const COLOR_CAR: u32 = 0xFF_CC_CC_CC;
pub const COLOR_CAR_ALT: u32 = 0xFF_4A_6A_8A;
pub const COLOR_UI_TEXT: u32 = 0xFF_FF_FF_FF;
pub const COLOR_UI_BG: u32 = 0xAA_00_00_00;
pub const COLOR_ZONE_ROAD: u32 = 0x18_6B_6B_6B;
pub const COLOR_ZONE_PARK: u32 = 0x18_5A_8C_4A;
pub const COLOR_BUILDING_HOUSE: u32 = 0xFF_C4_8E_6A;
pub const COLOR_BUILDING_APARTMENT: u32 = 0xFF_A0_A0_A8;
pub const COLOR_BUILDING_SHOP: u32 = 0xFF_5C_A0_B8;
pub const COLOR_BUILDING_OFFICE: u32 = 0xFF_7A_8B_98;
pub const COLOR_BUILDING_FACTORY: u32 = 0xFF_8A_7A_6E;
pub const COLOR_BUILDING_FARM: u32 = 0xFF_8C_A8_6A;
pub const COLOR_BUILDING_HOSPITAL: u32 = 0xFF_E8_E8_F0;
pub const COLOR_BUILDING_SCHOOL: u32 = 0xFF_E8_D8_8C;
pub const COLOR_BUILDING_POLICE: u32 = 0xFF_5C_70_C4;
pub const COLOR_CONGESTION_LOW: u32 = 0x44_4C_AF_50;
pub const COLOR_CONGESTION_MED: u32 = 0x44_FF_C1_07;
pub const COLOR_CONGESTION_HIGH: u32 = 0x44_EF_53_50;

// ---------------------------------------------------------------------------
// Shades
// ---------------------------------------------------------------------------

/// Channel `c` lowered by `amount`, not below 0.
pub open spec fn lowered(c: u32, amount: u32) -> u32 {
    if c >= amount { (c - amount) as u32 } else { 0 }
}

/// `color` with each colour channel lowered by `amount` (not below 0) and
/// the alpha kept.
pub open spec fn darken_spec(color: u32, amount: u32) -> u32 {
    (color & 0xFF00_0000u32) | (lowered(chan(color, 16), amount) << 16u32) | (lowered(chan(color, 8), amount) << 8u32)
        | lowered(chan(color, 0), amount)
}

proof fn lemma_chan_le(c: u32, shift: u32)
    by (bit_vector)
    ensures
        (c >> shift) & 0xFFu32 <= 0xFFu32,
{
}

/// `color` with each colour channel lowered by `amount`, alpha kept.
pub fn darken(color: u32, amount: u32) -> (r: u32)
    ensures
        r == darken_spec(color, amount),
{
    let r = ((color >> 16) & 0xFF).saturating_sub(amount);
    let g = ((color >> 8) & 0xFF).saturating_sub(amount);
    let b = (color & 0xFF).saturating_sub(amount);
    proof {
        assert(color & 0xFFu32 == (color >> 0u32) & 0xFFu32) by (bit_vector);
    }
    (color & 0xFF00_0000) | (r << 16) | (g << 8) | b
}

/// Darkening never brightens: every colour channel of the result is at most
/// the matching channel of the colour, and the alpha is kept.
pub proof fn lemma_darken_darkens(color: u32, amount: u32, shift: u32)
    requires
        shift == 0 || shift == 8 || shift == 16,
    ensures
        chan(darken_spec(color, amount), shift) <= chan(color, shift),
        chan(darken_spec(color, amount), 24) == chan(color, 24),
{
    let r = lowered(chan(color, 16), amount);
    let g = lowered(chan(color, 8), amount);
    let b = lowered(chan(color, 0), amount);
    lemma_chan_le(color, 16);
    lemma_chan_le(color, 8);
    lemma_chan_le(color, 0);
    assert(r <= 255 && g <= 255 && b <= 255);
    assert(
        ((((color & 0xFF00_0000u32) | (r << 16u32) | (g << 8u32) | b) >> 24u32) & 0xFFu32 == (color >> 24u32) & 0xFFu32)
        && ((((color & 0xFF00_0000u32) | (r << 16u32) | (g << 8u32) | b) >> 16u32) & 0xFFu32 == r)
        && ((((color & 0xFF00_0000u32) | (r << 16u32) | (g << 8u32) | b) >> 8u32) & 0xFFu32 == g)
        && ((((color & 0xFF00_0000u32) | (r << 16u32) | (g << 8u32) | b) >> 0u32) & 0xFFu32 == b)
    ) by (bit_vector)
        requires
            r <= 255,
            g <= 255,
            b <= 255,
    ;
}

// ---------------------------------------------------------------------------
// Outlines
// ---------------------------------------------------------------------------

/// Pixel `(px, py)` of a `w` x `h` framebuffer lies on the outline of the
/// rectangle at `(x, y)` of size `rw` x `rh`: its far edges are clipped to
/// the framebuffer, its near edges drawn only when on it.
pub open spec fn on_outline(px: int, py: int, w: int, h: int, x: int, y: int, rw: int, rh: int) -> bool {
    let x1 = if x < 0 { 0 } else { x };
    let y1 = if y < 0 { 0 } else { y };
    let x2 = if x + rw - 1 < w - 1 { x + rw - 1 } else { w - 1 };
    let y2 = if y + rh - 1 < h - 1 { y + rh - 1 } else { h - 1 };
    &&& x1 <= x2 && y1 <= y2
    &&& {
        ||| x1 <= px <= x2 && ((py == y && 0 <= y < h) || (py == y2 && 0 <= y2 < h))
        ||| y1 <= py <= y2 && ((px == x && 0 <= x < w) || (px == x2 && 0 <= x2 < w))
    }
}

/// The framebuffer `s` after `rect_outline`.
pub open spec fn outlined(s: Seq<u32>, w: usize, h: usize, x: int, y: int, rw: int, rh: int, color: u32) -> Seq<u32> {
    Seq::new(s.len(), |i: int|
        if in_rect(i, w as int, 0, w as int, 0, h as int) && on_outline(i % (w as int), i / (w as int), w as int, h as int, x, y, rw, rh) {
            color
        } else {
            s[i]
        })
}

/// The far edges of the outline fit in `i32`.
pub open spec fn outline_fits(x: i32, y: i32, rw: i32, rh: i32) -> bool {
    &&& i32::MIN + 1 <= x + rw <= i32::MAX
    &&& i32::MIN + 1 <= y + rh <= i32::MAX
}

/// Draws the one-pixel outline of the rectangle at `(x, y)` of size
/// `rw` x `rh` (see `on_outline`).
pub fn rect_outline(fb: &mut Vec<u32>, fb_w: usize, fb_h: usize, x: i32, y: i32, rw: i32, rh: i32, color: u32)
    requires
        fb_fits(old(fb)@.len() as int, fb_w, fb_h),
        outline_fits(x, y, rw, rh),
    ensures
        final(fb)@ == outlined(old(fb)@, fb_w, fb_h, x as int, y as int, rw as int, rh as int, color),
{
    let ghost s0 = fb@;
    let w = fb_w as i32;
    let h = fb_h as i32;
    let x1 = if x < 0 { 0 } else { x };
    let y1 = if y < 0 { 0 } else { y };
    let x2 = if x + rw - 1 < w - 1 { x + rw - 1 } else { w - 1 };
    let y2 = if y + rh - 1 < h - 1 { y + rh - 1 } else { h - 1 };
    if x1 > x2 || y1 > y2 {
        assert(fb@ =~= outlined(s0, fb_w, fb_h, x as int, y as int, rw as int, rh as int, color));
        return;
    }
    let ghost s1 = if 0 <= y < h { filled(s0, fb_w, fb_h, x1 as int, y as int, x2 - x1 + 1, 1, color) } else { s0 };
    if y >= 0 && y < h {
        fill_rect_simd(fb, fb_w, fb_h, x1, y, x2 - x1 + 1, 1, color);
        proof {
            lemma_filled(s0, fb@, fb_w, fb_h, x1 as int, y as int, x2 - x1 + 1, 1, color);
        }
    }
    let ghost s2 = if 0 <= y2 < h { filled(s1, fb_w, fb_h, x1 as int, y2 as int, x2 - x1 + 1, 1, color) } else { s1 };
    if y2 >= 0 && y2 < h {
        fill_rect_simd(fb, fb_w, fb_h, x1, y2, x2 - x1 + 1, 1, color);
        proof {
            lemma_filled(s1, fb@, fb_w, fb_h, x1 as int, y2 as int, x2 - x1 + 1, 1, color);
        }
    }
    let ghost s3 = if 0 <= x < w { filled(s2, fb_w, fb_h, x as int, y1 as int, 1, y2 - y1 + 1, color) } else { s2 };
    if x >= 0 && x < w {
        fill_rect_simd(fb, fb_w, fb_h, x, y1, 1, y2 - y1 + 1, color);
        proof {
            lemma_filled(s2, fb@, fb_w, fb_h, x as int, y1 as int, 1, y2 - y1 + 1, color);
        }
    }
    if x2 >= 0 && x2 < w {
        fill_rect_simd(fb, fb_w, fb_h, x2, y1, 1, y2 - y1 + 1, color);
        proof {
            lemma_filled(s3, fb@, fb_w, fb_h, x2 as int, y1 as int, 1, y2 - y1 + 1, color);
        }
    }
    assert(fb@ =~= outlined(s0, fb_w, fb_h, x as int, y as int, rw as int, rh as int, color));
}

// ---------------------------------------------------------------------------
// Bitmap text
// ---------------------------------------------------------------------------

/// The 5 x 7 glyph of a character, row `r` in bits `5r` to `5r + 4`, the
/// leftmost column in the highest bit: letters (either case), digits and
/// `: . / [ ]`; every other character is blank.
pub open spec fn glyph_code(ch: char) -> u64 {
    let c = ch as u32;
    if c == 65 || c == 97 { 0x4631FC62Eu64 }
    else if c == 66 || c == 98 { 0x7A31F463Eu64 }
    else if c == 67 || c == 99 { 0x3A308422Eu64 }
    else if c == 68 || c == 100 { 0x7A318C63Eu64 }
    else if c == 69 || c == 101 { 0x7E10F421Fu64 }
    else if c == 70 || c == 102 { 0x4210F421Fu64 }
    else if c == 71 || c == 103 { 0x3A319C22Eu64 }
    else if c == 72 || c == 104 { 0x4631FC631u64 }
    else if c == 73 || c == 105 { 0x38842108Eu64 }
    else if c == 74 || c == 106 { 0x3A3108427u64 }
    else if c == 75 || c == 107 { 0x4654C5251u64 }
    else if c == 76 || c == 108 { 0x7E1084210u64 }
    else if c == 77 || c == 109 { 0x46318D771u64 }
    else if c == 78 || c == 110 { 0x46319D731u64 }
    else if c == 79 || c == 111 { 0x3A318C62Eu64 }
    else if c == 80 || c == 112 { 0x4210F463Eu64 }
    else if c == 81 || c == 113 { 0x36558C62Eu64 }
    else if c == 82 || c == 114 { 0x4654F463Eu64 }
    else if c == 83 || c == 115 { 0x3A217422Eu64 }
    else if c == 84 || c == 116 { 0x10842109Fu64 }
    else if c == 85 || c == 117 { 0x3A318C631u64 }
    else if c == 86 || c == 118 { 0x108A54631u64 }
    else if c == 87 || c == 119 { 0x4775AC631u64 }
    else if c == 88 || c == 120 { 0x454421151u64 }
    else if c == 89 || c == 121 { 0x108421151u64 }
    else if c == 90 || c == 122 { 0x7E082083Fu64 }
    else if c == 48 { 0x3A39ACE2Eu64 }
    else if c == 49 { 0x388421184u64 }
    else if c == 50 { 0x7D041062Eu64 }
    else if c == 51 { 0x3A211105Fu64 }
    else if c == 52 { 0x085F928C2u64 }
    else if c == 53 { 0x3A210FA1Fu64 }
    else if c == 54 { 0x3A31F4106u64 }
    else if c == 55 { 0x21082083Fu64 }
    else if c == 56 { 0x3A317462Eu64 }
    else if c == 57 { 0x30417C62Eu64 }
    else if c == 58 { 0x018C03180u64 }
    else if c == 46 { 0x318000000u64 }
    else if c == 47 { 0x001041041u64 }
    else if c == 91 { 0x39084210Eu64 }
    else if c == 93 { 0x38421084Eu64 }
    else { 0u64 }
}

/// The 5 x 7 glyph of a character (see `glyph_code`).
pub fn glyph(ch: char) -> (r: u64)
    ensures
        r == glyph_code(ch),
{
    let c = ch as u32;
    if c == 65 || c == 97 { 0x4631FC62E }
    else if c == 66 || c == 98 { 0x7A31F463E }
    else if c == 67 || c == 99 { 0x3A308422E }
    else if c == 68 || c == 100 { 0x7A318C63E }
    else if c == 69 || c == 101 { 0x7E10F421F }
    else if c == 70 || c == 102 { 0x4210F421F }
    else if c == 71 || c == 103 { 0x3A319C22E }
    else if c == 72 || c == 104 { 0x4631FC631 }
    else if c == 73 || c == 105 { 0x38842108E }
    else if c == 74 || c == 106 { 0x3A3108427 }
    else if c == 75 || c == 107 { 0x4654C5251 }
    else if c == 76 || c == 108 { 0x7E1084210 }
    else if c == 77 || c == 109 { 0x46318D771 }
    else if c == 78 || c == 110 { 0x46319D731 }
    else if c == 79 || c == 111 { 0x3A318C62E }
    else if c == 80 || c == 112 { 0x4210F463E }
    else if c == 81 || c == 113 { 0x36558C62E }
    else if c == 82 || c == 114 { 0x4654F463E }
    else if c == 83 || c == 115 { 0x3A217422E }
    else if c == 84 || c == 116 { 0x10842109F }
    else if c == 85 || c == 117 { 0x3A318C631 }
    else if c == 86 || c == 118 { 0x108A54631 }
    else if c == 87 || c == 119 { 0x4775AC631 }
    else if c == 88 || c == 120 { 0x454421151 }
    else if c == 89 || c == 121 { 0x108421151 }
    else if c == 90 || c == 122 { 0x7E082083F }
    else if c == 48 { 0x3A39ACE2E }
    else if c == 49 { 0x388421184 }
    else if c == 50 { 0x7D041062E }
    else if c == 51 { 0x3A211105F }
    else if c == 52 { 0x085F928C2 }
    else if c == 53 { 0x3A210FA1F }
    else if c == 54 { 0x3A31F4106 }
    else if c == 55 { 0x21082083F }
    else if c == 56 { 0x3A317462E }
    else if c == 57 { 0x30417C62E }
    else if c == 58 { 0x018C03180 }
    else if c == 46 { 0x318000000 }
    else if c == 47 { 0x001041041 }
    else if c == 91 { 0x39084210E }
    else if c == 93 { 0x38421084E }
    else { 0 }
}

/// Pixel `(col, row)` of the glyph of `ch` is set.
pub open spec fn glyph_pixel(ch: char, row: int, col: int) -> bool {
    (glyph_code(ch) >> ((row * 5 + 4 - col) as u64)) & 1u64 != 0
}

/// Pixel `i` of a framebuffer `fb_w` wide is set by pixel `(col, row)` of
/// character `k` of `text` drawn from `(x, y)`: characters sit 6 pixels
/// apart, drawing stops at the first character that starts past the right
/// edge, and pixels left of the framebuffer, right of it or above it are
/// skipped.
pub open spec fn text_hit(text: Seq<char>, k: int, row: int, col: int, i: int, fb_w: usize, x: int, y: int) -> bool {
    let px = x + 6 * k + col;
    let py = y + row;
    &&& 0 <= k < text.len()
    &&& 0 <= row < 7
    &&& 0 <= col < 5
    &&& x + 6 * k <= fb_w
    &&& glyph_pixel(text[k], row, col)
    &&& 0 <= px < fb_w
    &&& 0 <= py
    &&& i % (fb_w as int) == px
    &&& i / (fb_w as int) == py
}

/// `(k, row, col)` comes before `(j, r, c)`, character by character, then
/// row by row, then column by column.
pub open spec fn before3(k: int, row: int, col: int, j: int, r: int, c: int) -> bool {
    k < j || (k == j && (row < r || (row == r && col < c)))
}

/// The framebuffer `s` after `draw_text`.
pub open spec fn text_drawn(s: Seq<u32>, fb_w: usize, x: int, y: int, text: Seq<char>, color: u32) -> Seq<u32> {
    Seq::new(s.len(), |i: int| if exists|k: int, row: int, col: int| #[trigger] text_hit(text, k, row, col, i, fb_w, x, y) {
        color
    } else {
        s[i]
    })
}

proof fn lemma_div_mod_of(q: int, n: int, r: int)
    requires
        n > 0,
        0 <= r < n,
    ensures
        (q * n + r) / n == q,
        (q * n + r) % n == r,
{
    vstd::arithmetic::div_mod::lemma_fundamental_div_mod_converse(q * n + r, n, q, r);
}

proof fn lemma_same_index(i: int, n: int, q: int, r: int)
    requires
        n > 0,
        0 <= r < n,
        i % n == r,
        i / n == q,
    ensures
        i == q * n + r,
{
    vstd::arithmetic::div_mod::lemma_fundamental_div_mod(i, n);
    assert(n * (i / n) == q * n) by (nonlinear_arith)
        requires
            i / n == q,
    ;
}

/// Draws `text` from `(x, y)` in the 5 x 7 bitmap font (see `text_hit`).
pub fn draw_text(fb: &mut Vec<u32>, fb_w: usize, fb_h: usize, x: i32, y: i32, text: &[char], color: u32)
    requires
        fb_w <= i32::MAX,
        x + 6 * text@.len() + 6 <= i32::MAX,
        y + 7 <= i32::MAX,
    ensures
        final(fb)@ == text_drawn(old(fb)@, fb_w, x as int, y as int, text@, color),
{
    let ghost s0 = fb@;
    let ghost t = text@;
    let len = fb.len();
    let w = fb_w as i32;
    let mut cx = x;
    let mut j: usize = 0;
    while j < text.len()
        invariant_except_break
            fb@.len() == s0.len(),
            len == s0.len(),
            t == text@,
            0 <= j <= t.len(),
            w == fb_w,
            fb_w <= i32::MAX,
            x + 6 * t.len() + 6 <= i32::MAX,
            y + 7 <= i32::MAX,
            cx == x + 6 * j,
            forall|i: int| 0 <= i < s0.len() ==> #[trigger] fb@[i] == (
                if exists|k: int, row: int, col: int| k < j && #[trigger] text_hit(t, k, row, col, i, fb_w, x as int, y as int) {
                    color
                } else {
                    s0[i]
                }),
        ensures
            fb@.len() == s0.len(),
            forall|i: int| 0 <= i < s0.len() ==> #[trigger] fb@[i] == (
                if exists|k: int, row: int, col: int| #[trigger] text_hit(t, k, row, col, i, fb_w, x as int, y as int) {
                    color
                } else {
                    s0[i]
                }),
        decreases t.len() - j,
    {
        if cx > w {
            proof {
                assert forall|i: int| 0 <= i < s0.len() implies #[trigger] fb@[i] == (
                    if exists|k: int, row: int, col: int| #[trigger] text_hit(t, k, row, col, i, fb_w, x as int, y as int) {
                        color
                    } else {
                        s0[i]
                    }) by {
                    if exists|k: int, row: int, col: int| #[trigger] text_hit(t, k, row, col, i, fb_w, x as int, y as int) {
                        let (k, row, col) = choose|k: int, row: int, col: int| #[trigger] text_hit(t, k, row, col, i, fb_w, x as int, y as int);
                        assert(k < j);
                    }
                }
            }
            break;
        }
        let code = glyph(text[j]);
        let mut row: i32 = 0;
        while row < 7
            invariant
                fb@.len() == s0.len(),
                len == s0.len(),
                t == text@,
                0 <= j < t.len(),
                0 <= row <= 7,
                w == fb_w,
                fb_w <= i32::MAX,
                x + 6 * t.len() + 6 <= i32::MAX,
                y + 7 <= i32::MAX,
                cx == x + 6 * j,
                cx <= w,
                code == glyph_code(t[j as int]),
                forall|i: int| 0 <= i < s0.len() ==> #[trigger] fb@[i] == (
                    if exists|k: int, rr: int, cc: int| before3(k, rr, cc, j as int, row as int, 0) && #[trigger] text_hit(t, k, rr, cc, i, fb_w, x as int, y as int) {
                        color
                    } else {
                        s0[i]
                    }),
            decreases 7 - row,
        {
            let mut col: i32 = 0;
            while col < 5
                invariant
                    fb@.len() == s0.len(),
                    len == s0.len(),
                    t == text@,
                    0 <= j < t.len(),
                    0 <= row < 7,
                    0 <= col <= 5,
                    w == fb_w,
                    fb_w <= i32::MAX,
                    x + 6 * t.len() + 6 <= i32::MAX,
                    y + 7 <= i32::MAX,
                    cx == x + 6 * j,
                    cx <= w,
                    code == glyph_code(t[j as int]),
                    forall|i: int| 0 <= i < s0.len() ==> #[trigger] fb@[i] == (
                        if exists|k: int, rr: int, cc: int| before3(k, rr, cc, j as int, row as int, col as int) && #[trigger] text_hit(t, k, rr, cc, i, fb_w, x as int, y as int) {
                            color
                        } else {
                            s0[i]
                        }),
                decreases 5 - col,
            {
                let shift = (row * 5 + 4 - col) as u64;
                let ghost before = fb@;
                let px = cx + col;
                let py = y + row;
                let mut painted_at: Option<usize> = None;
                if (code >> shift) & 1 != 0 {
                    if px >= 0 && px < w && py >= 0 {
                        assert((py as u64) * (fb_w as u64) <= 0x4000_0000_0000_0000) by (nonlinear_arith)
                            requires
                                0 <= py <= i32::MAX,
                                fb_w <= i32::MAX,
                        ;
                        let idx = (py as u64) * (fb_w as u64) + (px as u64);
                        if idx < len as u64 {
                            fb.set(idx as usize, color);
                            painted_at = Some(idx as usize);
                        }
                    }
                }
                proof {
                    assert forall|i: int| 0 <= i < s0.len() implies #[trigger] fb@[i] == (
                        if exists|k: int, rr: int, cc: int| before3(k, rr, cc, j as int, row as int, col + 1) && #[trigger] text_hit(t, k, rr, cc, i, fb_w, x as int, y as int) {
                            color
                        } else {
                            s0[i]
                        }) by {
                        if text_hit(t, j as int, row as int, col as int, i, fb_w, x as int, y as int) {
                            lemma_same_index(i, fb_w as int, py as int, px as int);
                            assert(painted_at == Some(i as usize));
                            assert(before3(j as int, row as int, col as int, j as int, row as int, col + 1));
                        } else {
                            match painted_at {
                                Some(p) => {
                                    if i == p {
                                        lemma_div_mod_of(py as int, fb_w as int, px as int);
                                        assert(text_hit(t, j as int, row as int, col as int, i, fb_w, x as int, y as int));
                                    }
                                },
                                None => {},
                            }
                            assert(fb@[i] == before[i]);
                            if exists|k: int, rr: int, cc: int| before3(k, rr, cc, j as int, row as int, col + 1) && #[trigger] text_hit(t, k, rr, cc, i, fb_w, x as int, y as int) {
                                let (k, rr, cc) = choose|k: int, rr: int, cc: int| before3(k, rr, cc, j as int, row as int, col + 1) && #[trigger] text_hit(t, k, rr, cc, i, fb_w, x as int, y as int);
                                assert(before3(k, rr, cc, j as int, row as int, col as int));
                            }
                        }
                    }
                }
                col = col + 1;
            }
            proof {
                assert forall|i: int| 0 <= i < s0.len() implies #[trigger] fb@[i] == (
                    if exists|k: int, rr: int, cc: int| before3(k, rr, cc, j as int, row + 1, 0) && #[trigger] text_hit(t, k, rr, cc, i, fb_w, x as int, y as int) {
                        color
                    } else {
                        s0[i]
                    }) by {
                    if exists|k: int, rr: int, cc: int| before3(k, rr, cc, j as int, row + 1, 0) && #[trigger] text_hit(t, k, rr, cc, i, fb_w, x as int, y as int) {
                        let (k, rr, cc) = choose|k: int, rr: int, cc: int| before3(k, rr, cc, j as int, row + 1, 0) && #[trigger] text_hit(t, k, rr, cc, i, fb_w, x as int, y as int);
                        assert(before3(k, rr, cc, j as int, row as int, 5));
                    }
                    if exists|k: int, rr: int, cc: int| before3(k, rr, cc, j as int, row as int, 5) && #[trigger] text_hit(t, k, rr, cc, i, fb_w, x as int, y as int) {
                        let (k, rr, cc) = choose|k: int, rr: int, cc: int| before3(k, rr, cc, j as int, row as int, 5) && #[trigger] text_hit(t, k, rr, cc, i, fb_w, x as int, y as int);
                        assert(before3(k, rr, cc, j as int, row + 1, 0));
                    }
                }
            }
            row = row + 1;
        }
        proof {
            assert forall|i: int| 0 <= i < s0.len() implies #[trigger] fb@[i] == (
                if exists|k: int, rr: int, cc: int| k < j + 1 && #[trigger] text_hit(t, k, rr, cc, i, fb_w, x as int, y as int) {
                    color
                } else {
                    s0[i]
                }) by {
                if exists|k: int, rr: int, cc: int| k < j + 1 && #[trigger] text_hit(t, k, rr, cc, i, fb_w, x as int, y as int) {
                    let (k, rr, cc) = choose|k: int, rr: int, cc: int| k < j + 1 && #[trigger] text_hit(t, k, rr, cc, i, fb_w, x as int, y as int);
                    assert(before3(k, rr, cc, j as int, 7, 0));
                }
                if exists|k: int, rr: int, cc: int| before3(k, rr, cc, j as int, 7, 0) && #[trigger] text_hit(t, k, rr, cc, i, fb_w, x as int, y as int) {
                    let (k, rr, cc) = choose|k: int, rr: int, cc: int| before3(k, rr, cc, j as int, 7, 0) && #[trigger] text_hit(t, k, rr, cc, i, fb_w, x as int, y as int);
                    assert(k < j + 1);
                }
            }
        }
        cx = cx + 6;
        j = j + 1;
    }
    proof {
        assert forall|i: int| 0 <= i < s0.len() implies #[trigger] fb@[i] == text_drawn(s0, fb_w, x as int, y as int, t, color)[i] by {}
    }
    assert(fb@ =~= text_drawn(s0, fb_w, x as int, y as int, t, color));
}

// ---------------------------------------------------------------------------
// Sprites drawn from rectangles
// ---------------------------------------------------------------------------

/// Coordinates of a sprite of `size` pixels centred on `(cx, cy)` stay far
/// inside `i32`: the centre within 2^28 of the origin, the size at most 2^20.
pub open spec fn sprite_fits(cx: i32, cy: i32, size: i32) -> bool {
    &&& -0x1000_0000 <= cx <= 0x1000_0000
    &&& -0x1000_0000 <= cy <= 0x1000_0000
    &&& 0 <= size <= 0x10_0000
}

/// The framebuffer after `n` fills, fill `k` being the rectangle and colour
/// `step(k)` as `(x, y, width, height, colour)`.
pub open spec fn fill_steps(s: Seq<u32>, w: usize, h: usize, n: nat, step: spec_fn(int) -> (int, int, int, int, u32)) -> Seq<u32>
    decreases n,
{
    if n == 0 {
        s
    } else {
        let prev = fill_steps(s, w, h, (n - 1) as nat, step);
        let r = step(n - 1);
        filled(prev, w, h, r.0, r.1, r.2, r.3, r.4)
    }
}

proof fn lemma_fill_steps_len(s: Seq<u32>, w: usize, h: usize, n: nat, step: spec_fn(int) -> (int, int, int, int, u32))
    ensures
        fill_steps(s, w, h, n, step).len() == s.len(),
    decreases n,
{
    if n > 0 {
        lemma_fill_steps_len(s, w, h, (n - 1) as nat, step);
    }
}

/// The framebuffer after a car of `size` centred on `(cx, cy)`: a light
/// body with a dark outline and a darker roof band across its middle half.
pub open spec fn car_drawn(s: Seq<u32>, w: usize, h: usize, cx: int, cy: int, size: int) -> Seq<u32> {
    let cw = size * 2;
    let ch = size * 2 / 3;
    let s1 = filled(s, w, h, cx - cw / 2, cy - ch / 2, cw, ch, COLOR_CAR);
    let s2 = outlined(s1, w, h, cx - cw / 2, cy - ch / 2, cw, ch, 0xFF88_8888u32);
    filled(s2, w, h, cx - cw / 4, cy - ch / 2, cw / 2, ch, COLOR_CAR_ALT)
}

/// Draws a car of `size` pixels centred on `(cx, cy)` (see `car_drawn`).
pub fn draw_car(fb: &mut Vec<u32>, fb_w: usize, fb_h: usize, cx: i32, cy: i32, size: i32)
    requires
        fb_fits(old(fb)@.len() as int, fb_w, fb_h),
        sprite_fits(cx, cy, size),
    ensures
        final(fb)@ == car_drawn(old(fb)@, fb_w, fb_h, cx as int, cy as int, size as int),
{
    let ghost s0 = fb@;
    let cw = size * 2;
    let ch = size * 2 / 3;
    fill_rect_simd(fb, fb_w, fb_h, cx - cw / 2, cy - ch / 2, cw, ch, COLOR_CAR);
    let ghost s1 = fb@;
    proof {
        lemma_filled(s0, s1, fb_w, fb_h, cx - cw / 2, cy - ch / 2, cw as int, ch as int, COLOR_CAR);
    }
    rect_outline(fb, fb_w, fb_h, cx - cw / 2, cy - ch / 2, cw, ch, 0xFF88_8888);
    let ghost s2 = fb@;
    fill_rect_simd(fb, fb_w, fb_h, cx - cw / 4, cy - ch / 2, cw / 2, ch, COLOR_CAR_ALT);
    proof {
        lemma_filled(s2, fb@, fb_w, fb_h, cx - cw / 4, cy - ch / 2, (cw / 2) as int, ch as int, COLOR_CAR_ALT);
    }
}

/// Row `k` of a triangle `rows` high whose base is `base` wide, apex up,
/// centred on column `cx`, its top row at `top`: `k * base / rows` wide.
pub open spec fn triangle_step(cx: int, top: int, base: int, rows: int, color: u32) -> spec_fn(int) -> (int, int, int, int, u32) {
    |k: int| {
        let rw = k * base / (if rows >= 1 { rows } else { 1 });
        (cx - rw / 2, top + k, rw, 1, color)
    }
}

/// Draws the rows of a triangle (see `triangle_step`); rows of width 0
/// draw nothing.
fn fill_triangle(fb: &mut Vec<u32>, fb_w: usize, fb_h: usize, cx: i32, top: i32, base: i32, rows: i32, color: u32)
    requires
        fb_fits(old(fb)@.len() as int, fb_w, fb_h),
        -0x2000_0000 <= cx <= 0x2000_0000,
        -0x2000_0000 <= top <= 0x2000_0000,
        0 <= base <= 0x20_0000,
        0 <= rows <= 0x20_0000,
    ensures
        final(fb)@ == fill_steps(old(fb)@, fb_w, fb_h, rows as nat, triangle_step(cx as int, top as int, base as int, rows as int, color)),
        final(fb)@.len() == old(fb)@.len(),
{
    let ghost s0 = fb@;
    let ghost step = triangle_step(cx as int, top as int, base as int, rows as int, color);
    let denom = if rows >= 1 { rows } else { 1 };
    let mut row: i32 = 0;
    while row < rows
        invariant
            0 <= row <= rows,
            fb_fits(s0.len() as int, fb_w, fb_h),
            fb@.len() == s0.len(),
            -0x2000_0000 <= cx <= 0x2000_0000,
            -0x2000_0000 <= top <= 0x2000_0000,
            0 <= base <= 0x20_0000,
            0 <= rows <= 0x20_0000,
            denom == (if rows >= 1 { rows } else { 1 }),
            step == triangle_step(cx as int, top as int, base as int, rows as int, color),
            fb@ == fill_steps(s0, fb_w, fb_h, row as nat, step),
        decreases rows - row,
    {
        assert(0 <= row * base <= 0x20_0000 * 0x20_0000) by (nonlinear_arith)
            requires
                0 <= row <= 0x20_0000,
                0 <= base <= 0x20_0000,
        ;
        let q = (row as i64 * base as i64) / denom as i64;
        assert(q <= base) by {
            assert(row * base <= denom * base) by (nonlinear_arith)
                requires
                    0 <= row <= denom,
                    0 <= base,
            ;
            vstd::arithmetic::div_mod::lemma_div_is_ordered(row * base, denom * base, denom as int);
            vstd::arithmetic::div_mod::lemma_div_multiples_vanish(base as int, denom as int);
        }
        let rw: i32 = q as i32;
        let ghost prev = fb@;
        fill_rect_simd(fb, fb_w, fb_h, cx - rw / 2, top + row, rw, 1, color);
        proof {
            lemma_filled(prev, fb@, fb_w, fb_h, cx - rw / 2, top + row, rw as int, 1, color);
            assert(step(row as int) == (cx - rw / 2, top + row, rw as int, 1int, color));
        }
        row = row + 1;
    }
    proof {
        lemma_fill_steps_len(s0, fb_w, fb_h, rows as nat, step);
    }
}

/// The framebuffer after a house of `size` centred on `(cx, cy)`: body with
/// outline, a triangular roof over it, a door and, when the size allows,
/// two lit windows.
pub open spec fn house_drawn(s: Seq<u32>, w: usize, h: usize, cx: int, cy: int, size: int) -> Seq<u32> {
    let hw = size / 2;
    let body_h = size * 3 / 4;
    let roof_h = size / 3;
    let s1 = filled(s, w, h, cx - hw, cy - hw + roof_h, size, body_h, COLOR_BUILDING_HOUSE);
    let s2 = outlined(s1, w, h, cx - hw, cy - hw + roof_h, size, body_h, darken_spec(COLOR_BUILDING_HOUSE, 30));
    let s3 = fill_steps(s2, w, h, roof_h as nat, triangle_step(cx, cy - hw, size, roof_h, 0xFF8B_453Au32));
    let dw = size / 5;
    let dh = body_h * 2 / 3;
    let s4 = filled(s3, w, h, cx - dw / 2, cy + hw - dh, dw, dh, darken_spec(COLOR_BUILDING_HOUSE, 60));
    let ws = size / 6;
    if ws > 1 {
        let s5 = filled(s4, w, h, cx - hw + size / 5, cy - hw + roof_h + size / 5, ws, ws, 0xFFE8_D88Cu32);
        filled(s5, w, h, cx + hw - size / 5 - ws, cy - hw + roof_h + size / 5, ws, ws, 0xFFE8_D88Cu32)
    } else {
        s4
    }
}

/// Draws a house (see `house_drawn`).
fn draw_house(fb: &mut Vec<u32>, fb_w: usize, fb_h: usize, cx: i32, cy: i32, size: i32)
    requires
        fb_fits(old(fb)@.len() as int, fb_w, fb_h),
        sprite_fits(cx, cy, size),
    ensures
        final(fb)@ == house_drawn(old(fb)@, fb_w, fb_h, cx as int, cy as int, size as int),
{
    let ghost s0 = fb@;
    let hw = size / 2;
    let body_h = size * 3 / 4;
    let roof_h = size / 3;
    fill_rect_simd(fb, fb_w, fb_h, cx - hw, cy - hw + roof_h, size, body_h, COLOR_BUILDING_HOUSE);
    let ghost s1 = fb@;
    proof {
        lemma_filled(s0, s1, fb_w, fb_h, cx - hw, cy - hw + roof_h, size as int, body_h as int, COLOR_BUILDING_HOUSE);
    }
    rect_outline(fb, fb_w, fb_h, cx - hw, cy - hw + roof_h, size, body_h, darken(COLOR_BUILDING_HOUSE, 30));
    fill_triangle(fb, fb_w, fb_h, cx, cy - hw, size, roof_h, 0xFF8B_453A);
    let ghost s3 = fb@;
    let dw = size / 5;
    let dh = body_h * 2 / 3;
    assert(0 <= dw <= size && 0 <= body_h <= size && 0 <= dh <= body_h && 0 <= hw <= size && 0 <= roof_h <= size);
    fill_rect_simd(fb, fb_w, fb_h, cx - dw / 2, cy + hw - dh, dw, dh, darken(COLOR_BUILDING_HOUSE, 60));
    let ghost s4 = fb@;
    proof {
        lemma_filled(s3, s4, fb_w, fb_h, cx - dw / 2, cy + hw - dh, dw as int, dh as int, darken_spec(COLOR_BUILDING_HOUSE, 60));
    }
    let ws = size / 6;
    assert(0 <= ws <= size);
    if ws > 1 {
        fill_rect_simd(fb, fb_w, fb_h, cx - hw + size / 5, cy - hw + roof_h + size / 5, ws, ws, 0xFFE8_D88C);
        let ghost s5 = fb@;
        proof {
            lemma_filled(s4, s5, fb_w, fb_h, cx - hw + size / 5, cy - hw + roof_h + size / 5, ws as int, ws as int, 0xFFE8_D88Cu32);
        }
        fill_rect_simd(fb, fb_w, fb_h, cx + hw - size / 5 - ws, cy - hw + roof_h + size / 5, ws, ws, 0xFFE8_D88C);
        proof {
            lemma_filled(s5, fb@, fb_w, fb_h, cx + hw - size / 5 - ws, cy - hw + roof_h + size / 5, ws as int, ws as int, 0xFFE8_D88Cu32);
        }
    }
}

/// Window `k` of an apartment block: three columns in five rows, every
/// third one (by row plus column) dark.
pub open spec fn window_step(cx: int, cy: int, size: int) -> spec_fn(int) -> (int, int, int, int, u32) {
    |k: int| {
        let r = k / 3;
        let c = k % 3;
        let hw = size / 2;
        let body_h = size * 5 / 4;
        let ws = size / 7;
        (cx - hw + size / 6 + c * (size / 3), cy - body_h + hw + size / 8 + r * (body_h / 6), ws, ws,
            if (r + c) % 3 != 0 { 0xFFE8_D88Cu32 } else { 0xFF3A_3A4Au32 })
    }
}

/// Stripe `k` of a shop's awning.
pub open spec fn stripe_step(cx: int, cy: int, size: int) -> spec_fn(int) -> (int, int, int, int, u32) {
    |k: int| (cx - size / 2 + k * size / 4, cy - size / 2, 2, size / 4, 0xFFFF_FFCCu32)
}

/// Floor line `k` of an office tower.
pub open spec fn floor_step(cx: int, cy: int, size: int) -> spec_fn(int) -> (int, int, int, int, u32) {
    |k: int| {
        let body_h = size * 5 / 4;
        (cx - size / 2 + 2, cy - body_h + size / 2 + k * body_h / 6, size - 4, 1, darken_spec(COLOR_BUILDING_OFFICE, 20))
    }
}

/// Chimney `k` of a factory.
pub open spec fn chimney_step(cx: int, cy: int, size: int) -> spec_fn(int) -> (int, int, int, int, u32) {
    |k: int| (cx - size / 2 + size / 3 + k * size / 3, cy - size / 2 - size / 4, size / 8, size / 3, 0xFF6A_5A4Eu32)
}


/// The framebuffer after an apartment block: tall body with outline and, when the size allows, fifteen windows.
pub open spec fn apartment_drawn(s: Seq<u32>, w: usize, h: usize, cx: int, cy: int, size: int) -> Seq<u32> {
    let hw = size / 2;
    let body_h = size * 5 / 4;
    let ws = size / 7;
    let s1 = filled(s, w, h, cx - hw, cy - body_h + hw, size, body_h, COLOR_BUILDING_APARTMENT);
    let s2 = outlined(s1, w, h, cx - hw, cy - body_h + hw, size, body_h, darken_spec(COLOR_BUILDING_APARTMENT, 40));
    let s3 = fill_steps(s2, w, h, (if ws > 1 { 15nat } else { 0nat }), window_step(cx, cy, size));
    s3
}

fn draw_apartment(fb: &mut Vec<u32>, fb_w: usize, fb_h: usize, cx: i32, cy: i32, size: i32)
    requires
        fb_fits(old(fb)@.len() as int, fb_w, fb_h),
        sprite_fits(cx, cy, size),
    ensures
        final(fb)@ == apartment_drawn(old(fb)@, fb_w, fb_h, cx as int, cy as int, size as int),
{
    let ghost s0 = fb@;
    let hw = size / 2;
    let body_h = size * 5 / 4;
    let ws = size / 7;
    assert(0 <= hw <= size && 0 <= body_h <= 2 * size && 0 <= ws <= size);
    fill_rect_simd(fb, fb_w, fb_h, cx - hw, cy - body_h + hw, size, body_h, COLOR_BUILDING_APARTMENT);
    let ghost s1 = fb@;
    proof { lemma_filled(s0, s1, fb_w, fb_h, (cx - hw) as int, (cy - body_h + hw) as int, (size) as int, (body_h) as int, COLOR_BUILDING_APARTMENT); }
    rect_outline(fb, fb_w, fb_h, cx - hw, cy - body_h + hw, size, body_h, darken(COLOR_BUILDING_APARTMENT, 40));
    let ghost s2 = fb@;
    let ghost st = window_step(cx as int, cy as int, size as int);
    let n_steps: i32 = (if ws > 1 { 15i32 } else { 0i32 });
    let mut k: i32 = 0;
    while k < n_steps
        invariant
            n_steps == (if ws > 1 { 15i32 } else { 0i32 }),
            0 <= k <= n_steps,
            fb@.len() == s0.len(),
            fb_fits(s0.len() as int, fb_w, fb_h),
            sprite_fits(cx, cy, size),
            st == window_step(cx as int, cy as int, size as int),
            fb@ == fill_steps(s2, fb_w, fb_h, k as nat, st),
            s2.len() == s0.len(),
            hw == size / 2,
            body_h == size * 5 / 4,
            ws == size / 7,
        decreases n_steps - k,
    {
        assert(0 <= (k % 3) * (size / 3) <= 2 * size && 0 <= (k / 3) * (body_h / 6) <= 4 * size) by (nonlinear_arith) requires 0 <= k < 15, 0 <= size, body_h == size * 5 / 4;
        let ghost prev = fb@;
        let rx: i32 = cx - hw + size / 6 + (k % 3) * (size / 3);
        let ry: i32 = cy - body_h + hw + size / 8 + (k / 3) * (body_h / 6);
        let rw: i32 = ws;
        let rh: i32 = ws;
        let color = if (k / 3 + k % 3) % 3 != 0 { 0xFFE8_D88Cu32 } else { 0xFF3A_3A4Au32 };
        fill_rect_simd(fb, fb_w, fb_h, rx, ry, rw, rh, color);
        proof {
            lemma_filled(prev, fb@, fb_w, fb_h, rx as int, ry as int, rw as int, rh as int, color);
            assert(st(k as int) == (rx as int, ry as int, rw as int, rh as int, color));
        }
        k = k + 1;
    }
    let ghost s3 = fb@;
}

/// The framebuffer after a shop: body with outline, a striped awning and a shop window.
pub open spec fn shop_drawn(s: Seq<u32>, w: usize, h: usize, cx: int, cy: int, size: int) -> Seq<u32> {
    let hw = size / 2;
    let body_h = size * 2 / 3;
    let s1 = filled(s, w, h, cx - hw, cy - hw + hw / 2, size, body_h, COLOR_BUILDING_SHOP);
    let s2 = outlined(s1, w, h, cx - hw, cy - hw + hw / 2, size, body_h, darken_spec(COLOR_BUILDING_SHOP, 30));
    let s3 = filled(s2, w, h, cx - hw, cy - hw, size, size / 4, 0xFFE8_5C3Au32);
    let s4 = fill_steps(s3, w, h, 4nat, stripe_step(cx, cy, size));
    let s5 = filled(s4, w, h, cx - hw + 3, cy - hw + size / 3, size - 6, body_h / 2, 0xFFCC_DDEEu32);
    s5
}

fn draw_shop(fb: &mut Vec<u32>, fb_w: usize, fb_h: usize, cx: i32, cy: i32, size: i32)
    requires
        fb_fits(old(fb)@.len() as int, fb_w, fb_h),
        sprite_fits(cx, cy, size),
    ensures
        final(fb)@ == shop_drawn(old(fb)@, fb_w, fb_h, cx as int, cy as int, size as int),
{
    let ghost s0 = fb@;
    let hw = size / 2;
    let body_h = size * 2 / 3;
    assert(0 <= hw <= size && 0 <= body_h <= size);
    fill_rect_simd(fb, fb_w, fb_h, cx - hw, cy - hw + hw / 2, size, body_h, COLOR_BUILDING_SHOP);
    let ghost s1 = fb@;
    proof { lemma_filled(s0, s1, fb_w, fb_h, (cx - hw) as int, (cy - hw + hw / 2) as int, (size) as int, (body_h) as int, COLOR_BUILDING_SHOP); }
    rect_outline(fb, fb_w, fb_h, cx - hw, cy - hw + hw / 2, size, body_h, darken(COLOR_BUILDING_SHOP, 30));
    let ghost s2 = fb@;
    fill_rect_simd(fb, fb_w, fb_h, cx - hw, cy - hw, size, size / 4, 0xFFE8_5C3A);
    let ghost s3 = fb@;
    proof { lemma_filled(s2, s3, fb_w, fb_h, (cx - hw) as int, (cy - hw) as int, (size) as int, (size / 4) as int, 0xFFE8_5C3Au32); }
    let ghost st = stripe_step(cx as int, cy as int, size as int);
    let n_steps: i32 = 4;
    let mut k: i32 = 0;
    while k < n_steps
        invariant
            n_steps == 4,
            0 <= k <= n_steps,
            fb@.len() == s0.len(),
            fb_fits(s0.len() as int, fb_w, fb_h),
            sprite_fits(cx, cy, size),
            st == stripe_step(cx as int, cy as int, size as int),
            fb@ == fill_steps(s3, fb_w, fb_h, k as nat, st),
            s3.len() == s0.len(),
            hw == size / 2,
            body_h == size * 2 / 3,
        decreases n_steps - k,
    {
        assert(0 <= k * size <= 4 * size) by (nonlinear_arith) requires 0 <= k <= 4, 0 <= size;
        let ghost prev = fb@;
        let rx: i32 = cx - hw + k * size / 4;
        let ry: i32 = cy - hw;
        let rw: i32 = 2;
        let rh: i32 = size / 4;
        let color = 0xFFFF_FFCCu32;
        fill_rect_simd(fb, fb_w, fb_h, rx, ry, rw, rh, color);
        proof {
            lemma_filled(prev, fb@, fb_w, fb_h, rx as int, ry as int, rw as int, rh as int, color);
            assert(st(k as int) == (rx as int, ry as int, rw as int, rh as int, color));
        }
        k = k + 1;
    }
    let ghost s4 = fb@;
    fill_rect_simd(fb, fb_w, fb_h, cx - hw + 3, cy - hw + size / 3, size - 6, body_h / 2, 0xFFCC_DDEE);
    let ghost s5 = fb@;
    proof { lemma_filled(s4, s5, fb_w, fb_h, (cx - hw + 3) as int, (cy - hw + size / 3) as int, (size - 6) as int, (body_h / 2) as int, 0xFFCC_DDEEu32); }
}

/// The framebuffer after an office tower: tall body with outline and six floor lines.
pub open spec fn office_drawn(s: Seq<u32>, w: usize, h: usize, cx: int, cy: int, size: int) -> Seq<u32> {
    let hw = size / 2;
    let body_h = size * 5 / 4;
    let s1 = filled(s, w, h, cx - hw, cy - body_h + hw, size, body_h, COLOR_BUILDING_OFFICE);
    let s2 = outlined(s1, w, h, cx - hw, cy - body_h + hw, size, body_h, darken_spec(COLOR_BUILDING_OFFICE, 40));
    let s3 = fill_steps(s2, w, h, 6nat, floor_step(cx, cy, size));
    s3
}

fn draw_office(fb: &mut Vec<u32>, fb_w: usize, fb_h: usize, cx: i32, cy: i32, size: i32)
    requires
        fb_fits(old(fb)@.len() as int, fb_w, fb_h),
        sprite_fits(cx, cy, size),
    ensures
        final(fb)@ == office_drawn(old(fb)@, fb_w, fb_h, cx as int, cy as int, size as int),
{
    let ghost s0 = fb@;
    let hw = size / 2;
    let body_h = size * 5 / 4;
    assert(0 <= hw <= size && 0 <= body_h <= 2 * size);
    fill_rect_simd(fb, fb_w, fb_h, cx - hw, cy - body_h + hw, size, body_h, COLOR_BUILDING_OFFICE);
    let ghost s1 = fb@;
    proof { lemma_filled(s0, s1, fb_w, fb_h, (cx - hw) as int, (cy - body_h + hw) as int, (size) as int, (body_h) as int, COLOR_BUILDING_OFFICE); }
    rect_outline(fb, fb_w, fb_h, cx - hw, cy - body_h + hw, size, body_h, darken(COLOR_BUILDING_OFFICE, 40));
    let ghost s2 = fb@;
    let ghost st = floor_step(cx as int, cy as int, size as int);
    let n_steps: i32 = 6;
    let mut k: i32 = 0;
    while k < n_steps
        invariant
            n_steps == 6,
            0 <= k <= n_steps,
            fb@.len() == s0.len(),
            fb_fits(s0.len() as int, fb_w, fb_h),
            sprite_fits(cx, cy, size),
            st == floor_step(cx as int, cy as int, size as int),
            fb@ == fill_steps(s2, fb_w, fb_h, k as nat, st),
            s2.len() == s0.len(),
            hw == size / 2,
            body_h == size * 5 / 4,
        decreases n_steps - k,
    {
        assert(0 <= k * body_h <= 6 * body_h) by (nonlinear_arith) requires 0 <= k <= 6, 0 <= body_h;
        let ghost prev = fb@;
        let rx: i32 = cx - hw + 2;
        let ry: i32 = cy - body_h + hw + k * body_h / 6;
        let rw: i32 = size - 4;
        let rh: i32 = 1;
        let color = darken(COLOR_BUILDING_OFFICE, 20);
        fill_rect_simd(fb, fb_w, fb_h, rx, ry, rw, rh, color);
        proof {
            lemma_filled(prev, fb@, fb_w, fb_h, rx as int, ry as int, rw as int, rh as int, color);
            assert(st(k as int) == (rx as int, ry as int, rw as int, rh as int, color));
        }
        k = k + 1;
    }
    let ghost s3 = fb@;
}

/// The framebuffer after a factory: body with outline and two chimneys.
pub open spec fn factory_drawn(s: Seq<u32>, w: usize, h: usize, cx: int, cy: int, size: int) -> Seq<u32> {
    let hw = size / 2;
    let body_h = size * 2 / 3;
    let s1 = filled(s, w, h, cx - hw, cy - hw + size / 4, size, body_h, COLOR_BUILDING_FACTORY);
    let s2 = outlined(s1, w, h, cx - hw, cy - hw + size / 4, size, body_h, darken_spec(COLOR_BUILDING_FACTORY, 40));
    let s3 = fill_steps(s2, w, h, 2nat, chimney_step(cx, cy, size));
    s3
}

fn draw_factory(fb: &mut Vec<u32>, fb_w: usize, fb_h: usize, cx: i32, cy: i32, size: i32)
    requires
        fb_fits(old(fb)@.len() as int, fb_w, fb_h),
        sprite_fits(cx, cy, size),
    ensures
        final(fb)@ == factory_drawn(old(fb)@, fb_w, fb_h, cx as int, cy as int, size as int),
{
    let ghost s0 = fb@;
    let hw = size / 2;
    let body_h = size * 2 / 3;
    assert(0 <= hw <= size && 0 <= body_h <= size);
    fill_rect_simd(fb, fb_w, fb_h, cx - hw, cy - hw + size / 4, size, body_h, COLOR_BUILDING_FACTORY);
    let ghost s1 = fb@;
    proof { lemma_filled(s0, s1, fb_w, fb_h, (cx - hw) as int, (cy - hw + size / 4) as int, (size) as int, (body_h) as int, COLOR_BUILDING_FACTORY); }
    rect_outline(fb, fb_w, fb_h, cx - hw, cy - hw + size / 4, size, body_h, darken(COLOR_BUILDING_FACTORY, 40));
    let ghost s2 = fb@;
    let ghost st = chimney_step(cx as int, cy as int, size as int);
    let n_steps: i32 = 2;
    let mut k: i32 = 0;
    while k < n_steps
        invariant
            n_steps == 2,
            0 <= k <= n_steps,
            fb@.len() == s0.len(),
            fb_fits(s0.len() as int, fb_w, fb_h),
            sprite_fits(cx, cy, size),
            st == chimney_step(cx as int, cy as int, size as int),
            fb@ == fill_steps(s2, fb_w, fb_h, k as nat, st),
            s2.len() == s0.len(),
            hw == size / 2,
            body_h == size * 2 / 3,
        decreases n_steps - k,
    {
        assert(0 <= k * size <= 2 * size) by (nonlinear_arith) requires 0 <= k <= 2, 0 <= size;
        let ghost prev = fb@;
        let rx: i32 = cx - hw + size / 3 + k * size / 3;
        let ry: i32 = cy - hw - size / 4;
        let rw: i32 = size / 8;
        let rh: i32 = size / 3;
        let color = 0xFF6A_5A4Eu32;
        fill_rect_simd(fb, fb_w, fb_h, rx, ry, rw, rh, color);
        proof {
            lemma_filled(prev, fb@, fb_w, fb_h, rx as int, ry as int, rw as int, rh as int, color);
            assert(st(k as int) == (rx as int, ry as int, rw as int, rh as int, color));
        }
        k = k + 1;
    }
    let ghost s3 = fb@;
}

/// The framebuffer after a farm: barn with outline, a triangular roof and a silo.
pub open spec fn farm_drawn(s: Seq<u32>, w: usize, h: usize, cx: int, cy: int, size: int) -> Seq<u32> {
    let hw = size / 2;
    let body_h = size * 3 / 4;
    let roof_h = size / 4;
    let s1 = filled(s, w, h, cx - hw + size / 6, cy - hw + size / 4, size * 2 / 3, body_h, COLOR_BUILDING_FARM);
    let s2 = outlined(s1, w, h, cx - hw + size / 6, cy - hw + size / 4, size * 2 / 3, body_h, darken_spec(COLOR_BUILDING_FARM, 40));
    let s3 = fill_steps(s2, w, h, (roof_h) as nat, triangle_step(cx, cy - hw + size / 4 - roof_h, size * 2 / 3, roof_h, 0xFF7A_4A3Au32));
    let s4 = filled(s3, w, h, cx + hw - size / 4, cy - size * 3 / 4 + hw - size / 8, size / 5, size * 3 / 4, 0xFFAA_AAB0u32);
    s4
}

fn draw_farm(fb: &mut Vec<u32>, fb_w: usize, fb_h: usize, cx: i32, cy: i32, size: i32)
    requires
        fb_fits(old(fb)@.len() as int, fb_w, fb_h),
        sprite_fits(cx, cy, size),
    ensures
        final(fb)@ == farm_drawn(old(fb)@, fb_w, fb_h, cx as int, cy as int, size as int),
{
    let ghost s0 = fb@;
    let hw = size / 2;
    let body_h = size * 3 / 4;
    let roof_h = size / 4;
    assert(0 <= hw <= size && 0 <= body_h <= size && 0 <= roof_h <= size);
    fill_rect_simd(fb, fb_w, fb_h, cx - hw + size / 6, cy - hw + size / 4, size * 2 / 3, body_h, COLOR_BUILDING_FARM);
    let ghost s1 = fb@;
    proof { lemma_filled(s0, s1, fb_w, fb_h, (cx - hw + size / 6) as int, (cy - hw + size / 4) as int, (size * 2 / 3) as int, (body_h) as int, COLOR_BUILDING_FARM); }
    rect_outline(fb, fb_w, fb_h, cx - hw + size / 6, cy - hw + size / 4, size * 2 / 3, body_h, darken(COLOR_BUILDING_FARM, 40));
    let ghost s2 = fb@;
    fill_triangle(fb, fb_w, fb_h, cx, cy - hw + size / 4 - roof_h, size * 2 / 3, roof_h, 0xFF7A_4A3A);
    let ghost s3 = fb@;
    fill_rect_simd(fb, fb_w, fb_h, cx + hw - size / 4, cy - size * 3 / 4 + hw - size / 8, size / 5, size * 3 / 4, 0xFFAA_AAB0);
    let ghost s4 = fb@;
    proof { lemma_filled(s3, s4, fb_w, fb_h, (cx + hw - size / 4) as int, (cy - size * 3 / 4 + hw - size / 8) as int, (size / 5) as int, (size * 3 / 4) as int, 0xFFAA_AAB0u32); }
}

/// The framebuffer after a hospital: body with outline and a red cross.
pub open spec fn hospital_drawn(s: Seq<u32>, w: usize, h: usize, cx: int, cy: int, size: int) -> Seq<u32> {
    let hw = size / 2;
    let body_h = size;
    let cross = size / 5;
    let cross_y = cy - body_h / 2 + hw;
    let s1 = filled(s, w, h, cx - hw, cy - body_h + hw, size, body_h, COLOR_BUILDING_HOSPITAL);
    let s2 = outlined(s1, w, h, cx - hw, cy - body_h + hw, size, body_h, 0xFFC0_C0C8u32);
    let s3 = filled(s2, w, h, cx - cross / 2, cross_y - size / 6, cross, size / 3, 0xFFCC_3333u32);
    let s4 = filled(s3, w, h, cx - size / 6, cross_y - cross / 2, size / 3, cross, 0xFFCC_3333u32);
    s4
}

fn draw_hospital(fb: &mut Vec<u32>, fb_w: usize, fb_h: usize, cx: i32, cy: i32, size: i32)
    requires
        fb_fits(old(fb)@.len() as int, fb_w, fb_h),
        sprite_fits(cx, cy, size),
    ensures
        final(fb)@ == hospital_drawn(old(fb)@, fb_w, fb_h, cx as int, cy as int, size as int),
{
    let ghost s0 = fb@;
    let hw = size / 2;
    let body_h = size;
    let cross = size / 5;
    let cross_y = cy - body_h / 2 + hw;
    assert(0 <= hw <= size && 0 <= cross <= size);
    fill_rect_simd(fb, fb_w, fb_h, cx - hw, cy - body_h + hw, size, body_h, COLOR_BUILDING_HOSPITAL);
    let ghost s1 = fb@;
    proof { lemma_filled(s0, s1, fb_w, fb_h, (cx - hw) as int, (cy - body_h + hw) as int, (size) as int, (body_h) as int, COLOR_BUILDING_HOSPITAL); }
    rect_outline(fb, fb_w, fb_h, cx - hw, cy - body_h + hw, size, body_h, 0xFFC0_C0C8);
    let ghost s2 = fb@;
    fill_rect_simd(fb, fb_w, fb_h, cx - cross / 2, cross_y - size / 6, cross, size / 3, 0xFFCC_3333);
    let ghost s3 = fb@;
    proof { lemma_filled(s2, s3, fb_w, fb_h, (cx - cross / 2) as int, (cross_y - size / 6) as int, (cross) as int, (size / 3) as int, 0xFFCC_3333u32); }
    fill_rect_simd(fb, fb_w, fb_h, cx - size / 6, cross_y - cross / 2, size / 3, cross, 0xFFCC_3333);
    let ghost s4 = fb@;
    proof { lemma_filled(s3, s4, fb_w, fb_h, (cx - size / 6) as int, (cross_y - cross / 2) as int, (size / 3) as int, (cross) as int, 0xFFCC_3333u32); }
}

/// The framebuffer after a school: body with outline, a roof band and a door.
pub open spec fn school_drawn(s: Seq<u32>, w: usize, h: usize, cx: int, cy: int, size: int) -> Seq<u32> {
    let hw = size / 2;
    let body_h = size * 4 / 5;
    let s1 = filled(s, w, h, cx - hw, cy - body_h + hw, size, body_h, COLOR_BUILDING_SCHOOL);
    let s2 = outlined(s1, w, h, cx - hw, cy - body_h + hw, size, body_h, darken_spec(COLOR_BUILDING_SCHOOL, 40));
    let s3 = filled(s2, w, h, cx - hw, cy - body_h + hw, size, 3, darken_spec(COLOR_BUILDING_SCHOOL, 20));
    let s4 = filled(s3, w, h, cx - size / 6, cy + hw - body_h / 3, size / 3, body_h / 3, darken_spec(COLOR_BUILDING_SCHOOL, 30));
    s4
}

fn draw_school(fb: &mut Vec<u32>, fb_w: usize, fb_h: usize, cx: i32, cy: i32, size: i32)
    requires
        fb_fits(old(fb)@.len() as int, fb_w, fb_h),
        sprite_fits(cx, cy, size),
    ensures
        final(fb)@ == school_drawn(old(fb)@, fb_w, fb_h, cx as int, cy as int, size as int),
{
    let ghost s0 = fb@;
    let hw = size / 2;
    let body_h = size * 4 / 5;
    assert(0 <= hw <= size && 0 <= body_h <= size);
    fill_rect_simd(fb, fb_w, fb_h, cx - hw, cy - body_h + hw, size, body_h, COLOR_BUILDING_SCHOOL);
    let ghost s1 = fb@;
    proof { lemma_filled(s0, s1, fb_w, fb_h, (cx - hw) as int, (cy - body_h + hw) as int, (size) as int, (body_h) as int, COLOR_BUILDING_SCHOOL); }
    rect_outline(fb, fb_w, fb_h, cx - hw, cy - body_h + hw, size, body_h, darken(COLOR_BUILDING_SCHOOL, 40));
    let ghost s2 = fb@;
    fill_rect_simd(fb, fb_w, fb_h, cx - hw, cy - body_h + hw, size, 3, darken(COLOR_BUILDING_SCHOOL, 20));
    let ghost s3 = fb@;
    proof { lemma_filled(s2, s3, fb_w, fb_h, (cx - hw) as int, (cy - body_h + hw) as int, (size) as int, (3) as int, darken_spec(COLOR_BUILDING_SCHOOL, 20)); }
    fill_rect_simd(fb, fb_w, fb_h, cx - size / 6, cy + hw - body_h / 3, size / 3, body_h / 3, darken(COLOR_BUILDING_SCHOOL, 30));
    let ghost s4 = fb@;
    proof { lemma_filled(s3, s4, fb_w, fb_h, (cx - size / 6) as int, (cy + hw - body_h / 3) as int, (size / 3) as int, (body_h / 3) as int, darken_spec(COLOR_BUILDING_SCHOOL, 30)); }
}

/// The framebuffer after a police station: body with outline, a red and blue light bar and a badge.
pub open spec fn police_drawn(s: Seq<u32>, w: usize, h: usize, cx: int, cy: int, size: int) -> Seq<u32> {
    let hw = size / 2;
    let body_h = size * 4 / 5;
    let s1 = filled(s, w, h, cx - hw, cy - body_h + hw, size, body_h, COLOR_BUILDING_POLICE);
    let s2 = outlined(s1, w, h, cx - hw, cy - body_h + hw, size, body_h, darken_spec(COLOR_BUILDING_POLICE, 40));
    let s3 = filled(s2, w, h, cx - hw / 3, cy - body_h + hw, hw * 2 / 3, 2, 0xFFCC_3333u32);
    let s4 = filled(s3, w, h, cx, cy - body_h + hw, hw / 3, 2, 0xFF33_33CCu32);
    let s5 = filled(s4, w, h, cx - 3, cy - body_h / 2 + hw - 3, 6, 6, 0xFFFF_D700u32);
    s5
}

fn draw_police(fb: &mut Vec<u32>, fb_w: usize, fb_h: usize, cx: i32, cy: i32, size: i32)
    requires
        fb_fits(old(fb)@.len() as int, fb_w, fb_h),
        sprite_fits(cx, cy, size),
    ensures
        final(fb)@ == police_drawn(old(fb)@, fb_w, fb_h, cx as int, cy as int, size as int),
{
    let ghost s0 = fb@;
    let hw = size / 2;
    let body_h = size * 4 / 5;
    assert(0 <= hw <= size && 0 <= body_h <= size);
    fill_rect_simd(fb, fb_w, fb_h, cx - hw, cy - body_h + hw, size, body_h, COLOR_BUILDING_POLICE);
    let ghost s1 = fb@;
    proof { lemma_filled(s0, s1, fb_w, fb_h, (cx - hw) as int, (cy - body_h + hw) as int, (size) as int, (body_h) as int, COLOR_BUILDING_POLICE); }
    rect_outline(fb, fb_w, fb_h, cx - hw, cy - body_h + hw, size, body_h, darken(COLOR_BUILDING_POLICE, 40));
    let ghost s2 = fb@;
    fill_rect_simd(fb, fb_w, fb_h, cx - hw / 3, cy - body_h + hw, hw * 2 / 3, 2, 0xFFCC_3333);
    let ghost s3 = fb@;
    proof { lemma_filled(s2, s3, fb_w, fb_h, (cx - hw / 3) as int, (cy - body_h + hw) as int, (hw * 2 / 3) as int, (2) as int, 0xFFCC_3333u32); }
    fill_rect_simd(fb, fb_w, fb_h, cx, cy - body_h + hw, hw / 3, 2, 0xFF33_33CC);
    let ghost s4 = fb@;
    proof { lemma_filled(s3, s4, fb_w, fb_h, (cx) as int, (cy - body_h + hw) as int, (hw / 3) as int, (2) as int, 0xFF33_33CCu32); }
    fill_rect_simd(fb, fb_w, fb_h, cx - 3, cy - body_h / 2 + hw - 3, 6, 6, 0xFFFF_D700);
    let ghost s5 = fb@;
    proof { lemma_filled(s4, s5, fb_w, fb_h, (cx - 3) as int, (cy - body_h / 2 + hw - 3) as int, (6) as int, (6) as int, 0xFFFF_D700u32); }
}

/// The framebuffer after a building of kind `b` and (scaled) `size`
/// centred on `(cx, cy)`; buildings under 2 pixels are not drawn.
pub open spec fn building_drawn(s: Seq<u32>, w: usize, h: usize, cx: int, cy: int, size: int, b: BuildingType) -> Seq<u32> {
    if size < 2 {
        s
    } else {
        match b {
            BuildingType::House => house_drawn(s, w, h, cx, cy, size),
            BuildingType::Apartment => apartment_drawn(s, w, h, cx, cy, size),
            BuildingType::Shop => shop_drawn(s, w, h, cx, cy, size),
            BuildingType::Office => office_drawn(s, w, h, cx, cy, size),
            BuildingType::Factory => factory_drawn(s, w, h, cx, cy, size),
            BuildingType::Farm => farm_drawn(s, w, h, cx, cy, size),
            BuildingType::Hospital => hospital_drawn(s, w, h, cx, cy, size),
            BuildingType::School => school_drawn(s, w, h, cx, cy, size),
            BuildingType::Police => police_drawn(s, w, h, cx, cy, size),
        }
    }
}

/// Draws a building of kind `btype` whose size, scaled by its construction
/// progress, is `size` pixels, centred on `(cx, cy)` (see `building_drawn`).
pub fn draw_building(fb: &mut Vec<u32>, fb_w: usize, fb_h: usize, cx: i32, cy: i32, size: i32, btype: BuildingType)
    requires
        fb_fits(old(fb)@.len() as int, fb_w, fb_h),
        size < 2 || sprite_fits(cx, cy, size),
    ensures
        final(fb)@ == building_drawn(old(fb)@, fb_w, fb_h, cx as int, cy as int, size as int, btype),
{
    if size < 2 {
        return;
    }
    match btype {
        BuildingType::House => draw_house(fb, fb_w, fb_h, cx, cy, size),
        BuildingType::Apartment => draw_apartment(fb, fb_w, fb_h, cx, cy, size),
        BuildingType::Shop => draw_shop(fb, fb_w, fb_h, cx, cy, size),
        BuildingType::Office => draw_office(fb, fb_w, fb_h, cx, cy, size),
        BuildingType::Factory => draw_factory(fb, fb_w, fb_h, cx, cy, size),
        BuildingType::Farm => draw_farm(fb, fb_w, fb_h, cx, cy, size),
        BuildingType::Hospital => draw_hospital(fb, fb_w, fb_h, cx, cy, size),
        BuildingType::School => draw_school(fb, fb_w, fb_h, cx, cy, size),
        BuildingType::Police => draw_police(fb, fb_w, fb_h, cx, cy, size),
    }
}

// ---------------------------------------------------------------------------
// Status texts and panels
// ---------------------------------------------------------------------------

fn digit_of(d: u64) -> (c: char)
    requires
        d < 10,
    ensures
        c == digit_char(d as int),
{
    if d == 0 { '0' } else if d == 1 { '1' } else if d == 2 { '2' } else if d == 3 { '3' }
    else if d == 4 { '4' } else if d == 5 { '5' } else if d == 6 { '6' } else if d == 7 { '7' }
    else if d == 8 { '8' } else { '9' }
}

/// Appends the decimal digits of `n`.
fn push_decimal(v: &mut Vec<char>, n: u64)
    ensures
        final(v)@ == old(v)@ + decimal(n as nat),
    decreases n,
{
    if n >= 10 {
        push_decimal(v, n / 10);
    }
    v.push(digit_of(n % 10));
    proof {
        if n >= 10 {
            assert(decimal(n as nat) == decimal((n / 10) as nat).push(digit_char((n % 10) as int)));
            assert(old(v)@ + decimal(n as nat) =~= old(v)@ + decimal((n / 10) as nat) + seq![digit_char((n % 10) as int)]);
        } else {
            assert(old(v)@ + decimal(n as nat) =~= old(v)@.push(digit_char(n as int)));
        }
    }
}

/// `10^k`.
pub open spec fn pow10(k: nat) -> nat
    decreases k,
{
    if k == 0 { 1 } else { 10 * pow10((k - 1) as nat) }
}

/// The decimal digits of a number below `10^k` are at most `k`.
proof fn lemma_decimal_len(n: nat, k: nat)
    requires
        k >= 1,
        n < pow10(k),
    ensures
        decimal(n).len() <= k,
    decreases k,
{
    if n >= 10 {
        if k == 1 {
            assert(pow10(1) == 10 * pow10(0));
        } else {
            assert(n / 10 < pow10((k - 1) as nat)) by {
                assert(pow10(k) == 10 * pow10((k - 1) as nat));
            }
            lemma_decimal_len(n / 10, (k - 1) as nat);
        }
    }
}

proof fn lemma_decimal_u64(n: u64)
    ensures
        decimal(n as nat).len() <= 20,
{
    reveal_with_fuel(pow10, 21);
    assert(pow10(20) == 100_000_000_000_000_000_000);
    lemma_decimal_len(n as nat, 20);
}

/// `FPS: <fps> | Pop: <population> | Tick: <tick>`.
pub open spec fn stats_text(fps: u32, population: u64, tick: u64) -> Seq<char> {
    seq!['F', 'P', 'S', ':', ' '] + decimal(fps as nat) + seq![' ', '|', ' ', 'P', 'o', 'p', ':', ' ']
        + decimal(population as nat) + seq![' ', '|', ' ', 'T', 'i', 'c', 'k', ':', ' '] + decimal(tick as nat)
}

/// Writes frames per second, population and tick count in the bottom-left
/// corner, 28 rows above the bottom.
pub fn render_stats_panel(fb: &mut Vec<u32>, w: usize, h: usize, fps: u32, population: u64, sim_tick: u64)
    requires
        w <= i32::MAX,
        h <= i32::MAX,
    ensures
        final(fb)@ == text_drawn(old(fb)@, w, 8, h - 28, stats_text(fps, population, sim_tick), COLOR_UI_TEXT),
{
    let mut text: Vec<char> = Vec::new();
    text.push('F');
    text.push('P');
    text.push('S');
    text.push(':');
    text.push(' ');
    push_decimal(&mut text, fps as u64);
    text.push(' ');
    text.push('|');
    text.push(' ');
    text.push('P');
    text.push('o');
    text.push('p');
    text.push(':');
    text.push(' ');
    push_decimal(&mut text, population);
    text.push(' ');
    text.push('|');
    text.push(' ');
    text.push('T');
    text.push('i');
    text.push('c');
    text.push('k');
    text.push(':');
    text.push(' ');
    push_decimal(&mut text, sim_tick);
    proof {
        lemma_decimal_u64(fps as u64);
        lemma_decimal_u64(population);
        lemma_decimal_u64(sim_tick);
    }
    assert(text@ =~= stats_text(fps, population, sim_tick));
    draw_text(fb, w, h, 8, h as i32 - 28, text.as_slice(), COLOR_UI_TEXT);
}

/// The title line: version, mode, time of day as `HH:MM` and tick count.
pub open spec fn title_text(design_active: bool, time_of_day: u16, tick: u64) -> Seq<char> {
    seq!['C', 'i', 't', 'y', 'b', 'o', 'u', 'n', 'd', ' ', 'v', '0', '.', '1', '8', ' ', '|', ' '] + (if design_active { seq!['D', 'I', 'S', 'E', 'N', 'O'] } else { seq!['S', 'I', 'M', 'U', 'L', 'A', 'C', 'I', 'O', 'N'] })
        + seq![' ', '|', ' '] + two_digits((time_of_day / 60) as nat) + seq![':'] + two_digits((time_of_day % 60) as nat)
        + seq![' ', '|', ' ', 'T', ':'] + decimal(tick as nat)
}

/// The help line of the current mode.
pub open spec fn help_text(design_active: bool) -> Seq<char> {
    if design_active {
        seq!['W', 'A', 'S', 'D', ':', ' ', 'M', 'o', 'v', 'e', 'r', ' ', '|', ' ', 'C', 'l', 'i', 'c', 'k', ':', ' ', 'C', 'o', 'n', 's', 't', 'r', 'u', 'i', 'r', ' ', '|', ' ', '[', 'T', 'a', 'b', ']', ':', ' ', 'S', 'a', 'l', 'i', 'r', ' ', '|', ' ', 'E', 'S', 'C', ':', ' ', 'C', 'e', 'r', 'r', 'a', 'r']
    } else {
        seq!['W', 'A', 'S', 'D', ':', ' ', 'M', 'o', 'v', 'e', 'r', ' ', '|', ' ', 'R', 'u', 'e', 'd', 'a', ':', ' ', 'Z', 'o', 'o', 'm', ' ', '|', ' ', '[', 'T', 'a', 'b', ']', ':', ' ', 'D', 'i', 's', 'e', 'n', 'a', 'r', ' ', '|', ' ', 'E', 'S', 'C', ':', ' ', 'S', 'a', 'l', 'i', 'r']
    }
}

/// The framebuffer after the interface: a translucent title bar 22 rows
/// high with the title, a translucent help bar over the bottom 18 rows with
/// the help line, and a translucent minimap frame with a grey outline in
/// the bottom-right corner.
pub open spec fn ui_drawn(s: Seq<u32>, w: usize, h: usize, design_active: bool, time_of_day: u16, tick: u64) -> Seq<u32> {
    let s1 = alpha_filled(s, w, h, 0, 0, w as int, 22, COLOR_UI_BG);
    let s2 = text_drawn(s1, w, 8, 4, title_text(design_active, time_of_day, tick), COLOR_UI_TEXT);
    let s3 = alpha_filled(s2, w, h, 0, h - 18, w as int, 18, COLOR_UI_BG);
    let s4 = text_drawn(s3, w, 8, h - 14, help_text(design_active), COLOR_UI_TEXT);
    let s5 = alpha_filled(s4, w, h, w - 68, h - 88, 64, 64, COLOR_UI_BG);
    outlined(s5, w, h, w - 69, h - 89, 66, 66, 0xFF88_8888u32)
}

fn push_two_digits(v: &mut Vec<char>, n: u16)
    ensures
        final(v)@ == old(v)@ + two_digits(n as nat),
{
    if n < 10 {
        v.push('0');
    }
    push_decimal(v, n as u64);
    proof {
        if n < 10 {
            assert(old(v)@ + two_digits(n as nat) =~= old(v)@.push('0') + decimal(n as nat));
        }
    }
}

#[verifier::rlimit(50)]
fn title_chars(design_active: bool, time_of_day: u16, sim_tick: u64) -> (title: Vec<char>)
    ensures
        title@ == title_text(design_active, time_of_day, sim_tick),
        title@.len() <= 100,
{
    let mut title: Vec<char> = Vec::new();
    title.push('C');
    title.push('i');
    title.push('t');
    title.push('y');
    title.push('b');
    title.push('o');
    title.push('u');
    title.push('n');
    title.push('d');
    title.push(' ');
    title.push('v');
    title.push('0');
    title.push('.');
    title.push('1');
    title.push('8');
    title.push(' ');
    title.push('|');
    title.push(' ');
    if design_active {
        title.push('D');
        title.push('I');
        title.push('S');
        title.push('E');
        title.push('N');
        title.push('O');
    } else {
        title.push('S');
        title.push('I');
        title.push('M');
        title.push('U');
        title.push('L');
        title.push('A');
        title.push('C');
        title.push('I');
        title.push('O');
        title.push('N');
    }
    title.push(' ');
    title.push('|');
    title.push(' ');
    push_two_digits(&mut title, time_of_day / 60);
    title.push(':');
    push_two_digits(&mut title, time_of_day % 60);
    title.push(' ');
    title.push('|');
    title.push(' ');
    title.push('T');
    title.push(':');
    push_decimal(&mut title, sim_tick);
    proof {
        lemma_decimal_u64((time_of_day / 60) as u64);
        lemma_decimal_u64((time_of_day % 60) as u64);
        lemma_decimal_u64(sim_tick);
    }
    assert(title@ =~= title_text(design_active, time_of_day, sim_tick));
    title
}

#[verifier::rlimit(50)]
fn help_chars(design_active: bool) -> (help: Vec<char>)
    ensures
        help@ == help_text(design_active),
        help@.len() <= 70,
{
    let mut help: Vec<char> = Vec::new();
    if design_active {
        help.push('W');
        help.push('A');
        help.push('S');
        help.push('D');
        help.push(':');
        help.push(' ');
        help.push('M');
        help.push('o');
        help.push('v');
        help.push('e');
        help.push('r');
        help.push(' ');
        help.push('|');
        help.push(' ');
        help.push('C');
        help.push('l');
        help.push('i');
        help.push('c');
        help.push('k');
        help.push(':');
        help.push(' ');
        help.push('C');
        help.push('o');
        help.push('n');
        help.push('s');
        help.push('t');
        help.push('r');
        help.push('u');
        help.push('i');
        help.push('r');
        help.push(' ');
        help.push('|');
        help.push(' ');
        help.push('[');
        help.push('T');
        help.push('a');
        help.push('b');
        help.push(']');
        help.push(':');
        help.push(' ');
        help.push('S');
        help.push('a');
        help.push('l');
        help.push('i');
        help.push('r');
        help.push(' ');
        help.push('|');
        help.push(' ');
        help.push('E');
        help.push('S');
        help.push('C');
        help.push(':');
        help.push(' ');
        help.push('C');
        help.push('e');
        help.push('r');
        help.push('r');
        help.push('a');
        help.push('r');
    } else {
        help.push('W');
        help.push('A');
        help.push('S');
        help.push('D');
        help.push(':');
        help.push(' ');
        help.push('M');
        help.push('o');
        help.push('v');
        help.push('e');
        help.push('r');
        help.push(' ');
        help.push('|');
        help.push(' ');
        help.push('R');
        help.push('u');
        help.push('e');
        help.push('d');
        help.push('a');
        help.push(':');
        help.push(' ');
        help.push('Z');
        help.push('o');
        help.push('o');
        help.push('m');
        help.push(' ');
        help.push('|');
        help.push(' ');
        help.push('[');
        help.push('T');
        help.push('a');
        help.push('b');
        help.push(']');
        help.push(':');
        help.push(' ');
        help.push('D');
        help.push('i');
        help.push('s');
        help.push('e');
        help.push('n');
        help.push('a');
        help.push('r');
        help.push(' ');
        help.push('|');
        help.push(' ');
        help.push('E');
        help.push('S');
        help.push('C');
        help.push(':');
        help.push(' ');
        help.push('S');
        help.push('a');
        help.push('l');
        help.push('i');
        help.push('r');
    }
    assert(help@ =~= help_text(design_active));
    help
}

/// Draws the interface bars, texts and minimap frame (see `ui_drawn`).
pub fn render_ui(fb: &mut Vec<u32>, w: usize, h: usize, design_active: bool, time_of_day: u16, sim_tick: u64)
    requires
        fb_fits(old(fb)@.len() as int, w, h),
    ensures
        final(fb)@ == ui_drawn(old(fb)@, w, h, design_active, time_of_day, sim_tick),
{
    let ghost s0 = fb@;
    let wi = w as i32;
    let hi = h as i32;
    fill_rect_alpha_simd(fb, w, h, 0, 0, wi, 22, COLOR_UI_BG);
    let ghost s1 = fb@;
    proof {
        lemma_alpha_filled(s0, s1, w, h, 0, 0, w as int, 22, COLOR_UI_BG);
    }
    let title = title_chars(design_active, time_of_day, sim_tick);
    draw_text(fb, w, h, 8, 4, title.as_slice(), COLOR_UI_TEXT);
    let ghost s2 = fb@;
    fill_rect_alpha_simd(fb, w, h, 0, hi - 18, wi, 18, COLOR_UI_BG);
    let ghost s3 = fb@;
    proof {
        lemma_alpha_filled(s2, s3, w, h, 0, h - 18, w as int, 18, COLOR_UI_BG);
    }
    let help = help_chars(design_active);
    draw_text(fb, w, h, 8, hi - 14, help.as_slice(), COLOR_UI_TEXT);
    let ghost s4 = fb@;
    let mm_x = wi - 68;
    let mm_y = hi - 88;
    fill_rect_alpha_simd(fb, w, h, mm_x, mm_y, 64, 64, COLOR_UI_BG);
    proof {
        lemma_alpha_filled(s4, fb@, w, h, w - 68, h - 88, 64, 64, COLOR_UI_BG);
    }
    rect_outline(fb, w, h, mm_x - 1, mm_y - 1, 66, 66, 0xFF88_8888);
}

} // verus!
