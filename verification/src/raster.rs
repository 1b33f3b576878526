//! Rasterizing the pattern into an RGBA pixel buffer: pixels are addressed
//! row-major with four bytes per pixel, drawn dashes set a pixel's RGB to
//! black and keep its alpha.

use vstd::prelude::*;
use vstd::arithmetic::div_mod::lemma_fundamental_div_mod;
use vstd::arithmetic::div_mod::lemma_fundamental_div_mod_converse;
use crate::dash::DashSpan;
use crate::dash::offset_drawn;
use crate::dash::span_ok;
use crate::dash::spans_ok;
use crate::params::RectSettings;

verus! {

/// The byte of channel `c` (0 red, 1 green, 2 blue, 3 alpha) of pixel
/// `(x, y)` in a row-major RGBA buffer of the given width.
pub open spec fn byte_at(img: Seq<u8>, width: int, x: int, y: int, c: int) -> u8 {
    img[(y * width + x) * 4 + c]
}

/// Whether pixel `(x, y)` lies on a drawn dash of a horizontal sweep line:
/// its row is a multiple of the dash length `d`, and its column falls in a
/// drawn stretch for that row's selector (row index cycling through the
/// selectors).
pub open spec fn h_line_hit(x: int, y: int, d: int, hsel: Seq<bool>) -> bool
    recommends
        d > 0,
        hsel.len() > 0,
{
    y % d == 0 && offset_drawn(x, d, hsel[(y / d) % (hsel.len() as int)])
}

/// Whether pixel `(x, y)` lies on a drawn dash of a vertical sweep line.
pub open spec fn v_line_hit(x: int, y: int, d: int, vsel: Seq<bool>) -> bool
    recommends
        d > 0,
        vsel.len() > 0,
{
    x % d == 0 && offset_drawn(y, d, vsel[(x / d) % (vsel.len() as int)])
}

/// Whether pixel `(x, y)` is black in the rasterized pattern: on a drawn
/// dash of a horizontal or of a vertical sweep line.
pub open spec fn pattern_hit(x: int, y: int, d: int, hsel: Seq<bool>, vsel: Seq<bool>) -> bool
    recommends
        d > 0,
        hsel.len() > 0,
        vsel.len() > 0,
{
    h_line_hit(x, y, d, hsel) || v_line_hit(x, y, d, vsel)
}

/// A fresh all-white, fully opaque RGBA buffer of `width * height` pixels.
pub fn white_buffer(width: u32, height: u32) -> (r: Vec<u8>)
    requires
        width * height * 4 <= usize::MAX,
    ensures
        r@.len() == width * height * 4,
        forall|j: int| 0 <= j < r@.len() ==> r@[j] == 255u8,
{
    let total: usize = (width as usize) * (height as usize);
    let mut out: Vec<u8> = Vec::new();
    let mut i: usize = 0;
    while i < total
        invariant
            total == width * height,
            width * height * 4 <= usize::MAX,
            i <= total,
            out@.len() == i * 4,
            forall|j: int| 0 <= j < out@.len() ==> out@[j] == 255u8,
        decreases total - i,
    {
        proof {
            assert((i + 1) * 4 <= total * 4) by (nonlinear_arith)
                requires
                    i < total,
            ;
        }
        out.push(255);
        out.push(255);
        out.push(255);
        out.push(255);
        i = i + 1;
    }
    out
}

/// Set the RGB of pixel `(x, y)` to black, keeping its alpha; out-of-range
/// pixel addresses leave the buffer untouched.
pub fn set_pixel_black(image_data: &mut Vec<u8>, width: u32, x: u32, y: u32)
    ensures
        final(image_data)@.len() == old(image_data)@.len(),
        forall|j: int|
            0 <= j < old(image_data)@.len() ==> final(image_data)@[j] == if (
            y * width + x) * 4 <= j < (y * width + x) * 4 + 3 && (y * width + x) * 4 + 3 < old(
                image_data,
            )@.len() {
                0u8
            } else {
                old(image_data)@[j]
            },
{
    proof {
        assert((y as int) * (width as int) <= 0xffff_ffff * 0xffff_ffff) by (nonlinear_arith)
            requires
                y <= 0xffff_ffffu32,
                width <= 0xffff_ffffu32,
        ;
    }
    let index: u128 = ((y as u128) * (width as u128) + (x as u128)) * 4;
    if index + 3 < image_data.len() as u128 {
        let index: usize = index as usize;
        image_data.set(index, 0);
        image_data.set(index + 1, 0);
        image_data.set(index + 2, 0);
    }
}

/// A pixel's byte indices stay inside a `width * height * 4` buffer.
proof fn lemma_pixel_index_bound(width: int, height: int, x: int, y: int, c: int)
    requires
        0 <= x < width,
        0 <= y < height,
        0 <= c < 4,
    ensures
        0 <= (y * width + x) * 4 + c < width * height * 4,
{
    assert(0 <= (y * width + x) * 4 + c < width * height * 4) by (nonlinear_arith)
        requires
            0 <= x < width,
            0 <= y < height,
            0 <= c < 4,
    ;
}

/// Distinct pixel coordinates give distinct pixel indices.
proof fn lemma_pixel_index_injective(width: int, x1: int, y1: int, x2: int, y2: int)
    requires
        width > 0,
        0 <= x1 < width,
        0 <= x2 < width,
        0 <= y1,
        0 <= y2,
        y1 * width + x1 == y2 * width + x2,
    ensures
        x1 == x2,
        y1 == y2,
{
    assert(x1 == x2 && y1 == y2) by (nonlinear_arith)
        requires
            width > 0,
            0 <= x1 < width,
            0 <= x2 < width,
            0 <= y1,
            0 <= y2,
            y1 * width + x1 == y2 * width + x2,
    ;
}

/// Restates what one `set_pixel_black` call did in terms of pixel
/// coordinates: only the RGB of the addressed pixel changed.
proof fn lemma_set_pixel_effect(pre: Seq<u8>, post: Seq<u8>, width: int, height: int, px: int, py: int)
    requires
        width > 0,
        pre.len() == width * height * 4,
        post.len() == pre.len(),
        0 <= px < width,
        0 <= py < height,
        forall|j: int|
            0 <= j < pre.len() ==> post[j] == if (py * width + px) * 4 <= j < (py * width + px) * 4
                + 3 && (py * width + px) * 4 + 3 < pre.len() {
                0u8
            } else {
                pre[j]
            },
    ensures
        forall|xx: int, yy: int, c: int|
            0 <= xx < width && 0 <= yy < height && 0 <= c < 4 ==> byte_at(post, width, xx, yy, c)
                == if xx == px && yy == py && c < 3 {
                0u8
            } else {
                byte_at(pre, width, xx, yy, c)
            },
{
    lemma_pixel_index_bound(width, height, px, py, 3);
    assert forall|xx: int, yy: int, c: int|
        0 <= xx < width && 0 <= yy < height && 0 <= c < 4 implies byte_at(post, width, xx, yy, c)
        == if xx == px && yy == py && c < 3 {
        0u8
    } else {
        byte_at(pre, width, xx, yy, c)
    } by {
        lemma_pixel_index_bound(width, height, xx, yy, c);
        let j = (yy * width + xx) * 4 + c;
        let p = yy * width + xx;
        let q = py * width + px;
        if xx == px && yy == py {
        } else {
            assert(p != q) by {
                if p == q {
                    lemma_pixel_index_injective(width, xx, yy, px, py);
                }
            }
            assert(p * 4 + c < q * 4 || p * 4 + c >= q * 4 + 4) by (nonlinear_arith)
                requires
                    p != q,
                    0 <= c < 4,
            ;
        }
    }
}

/// Offsets inside one dash block share the block index.
proof fn lemma_same_block(pos: int, xx: int, d: int)
    requires
        d > 0,
        0 <= pos,
        pos % d == 0,
        pos <= xx < pos + d,
    ensures
        xx / d == pos / d,
{
    lemma_fundamental_div_mod(pos, d);
    assert(pos == d * (pos / d));
    assert(d * (pos / d) == (pos / d) * d) by (nonlinear_arith);
    assert(xx == (pos / d) * d + (xx - pos));
    lemma_fundamental_div_mod_converse(xx, d, pos / d, xx - pos);
}

/// Stepping one dash length forward moves to the next block.
proof fn lemma_next_block(pos: int, d: int)
    requires
        d > 0,
        0 <= pos,
        pos % d == 0,
    ensures
        (pos + d) % d == 0,
        (pos + d) / d == pos / d + 1,
{
    lemma_fundamental_div_mod(pos, d);
    assert(pos == d * (pos / d));
    assert((pos / d + 1) * d == d * (pos / d) + d) by (nonlinear_arith);
    assert(pos + d == (pos / d + 1) * d + 0);
    lemma_fundamental_div_mod_converse(pos + d, d, pos / d + 1, 0);
}

/// A positive multiple of `d` is its own block index times `d`.
proof fn lemma_multiple_div_mod(i: int, d: int)
    requires
        d > 0,
        0 <= i,
    ensures
        (i * d) % d == 0,
        (i * d) / d == i,
{
    assert(i * d == i * d + 0);
    lemma_fundamental_div_mod_converse(i * d, d, i, 0);
}

/// Rasterize one horizontal dashed line at row `y`: every pixel of that
/// row whose column falls in a drawn stretch has its RGB set to black and
/// its alpha kept; every other byte keeps its value. A row at or below the
/// bottom edge leaves the buffer untouched.
pub fn draw_horizontal_dashed_line(
    image_data: &mut Vec<u8>,
    width: u32,
    height: u32,
    y: u32,
    dash_length: u32,
    start_with_dash: bool,
)
    requires
        dash_length >= 1,
        old(image_data)@.len() == width * height * 4,
    ensures
        final(image_data)@.len() == old(image_data)@.len(),
        forall|xx: int, yy: int, c: int|
            0 <= xx < width && 0 <= yy < height && 0 <= c < 4 ==> byte_at(
                final(image_data)@,
                width as int,
                xx,
                yy,
                c,
            ) == if yy == y && c < 3 && offset_drawn(xx, dash_length as int, start_with_dash) {
                0u8
            } else {
                byte_at(old(image_data)@, width as int, xx, yy, c)
            },
{
    if y >= height {
        return ;
    }
    let mut pos: u32 = 0;
    let mut drawing = start_with_dash;
    while pos < width
        invariant
            dash_length >= 1,
            y < height,
            image_data@.len() == width * height * 4,
            pos <= width,
            pos < width ==> pos % dash_length == 0,
            pos < width ==> drawing == offset_drawn(
                pos as int,
                dash_length as int,
                start_with_dash,
            ),
            forall|xx: int, yy: int, c: int|
                0 <= xx < width && 0 <= yy < height && 0 <= c < 4 ==> byte_at(
                    image_data@,
                    width as int,
                    xx,
                    yy,
                    c,
                ) == if yy == y && c < 3 && xx < pos && offset_drawn(
                    xx,
                    dash_length as int,
                    start_with_dash,
                ) {
                    0u8
                } else {
                    byte_at(old(image_data)@, width as int, xx, yy, c)
                },
        decreases width - pos,
    {
        let end = if dash_length <= width - pos {
            pos + dash_length
        } else {
            width
        };
        proof {
            assert forall|xx: int| pos <= xx < end implies offset_drawn(
                xx,
                dash_length as int,
                start_with_dash,
            ) == drawing by {
                lemma_same_block(pos as int, xx, dash_length as int);
            }
        }
        if drawing {
            let mut px: u32 = pos;
            while px < end
                invariant
                    dash_length >= 1,
                    y < height,
                    image_data@.len() == width * height * 4,
                    pos <= px <= end,
                    end <= width,
                    forall|xx: int|
                        pos <= xx < end ==> offset_drawn(xx, dash_length as int, start_with_dash),
                    forall|xx: int, yy: int, c: int|
                        0 <= xx < width && 0 <= yy < height && 0 <= c < 4 ==> byte_at(
                            image_data@,
                            width as int,
                            xx,
                            yy,
                            c,
                        ) == if yy == y && c < 3 && ((xx < pos && offset_drawn(
                            xx,
                            dash_length as int,
                            start_with_dash,
                        )) || (pos <= xx < px)) {
                            0u8
                        } else {
                            byte_at(old(image_data)@, width as int, xx, yy, c)
                        },
                decreases end - px,
            {
                let ghost pre = image_data@;
                set_pixel_black(image_data, width, px, y);
                proof {
                    lemma_set_pixel_effect(
                        pre,
                        image_data@,
                        width as int,
                        height as int,
                        px as int,
                        y as int,
                    );
                }
                px = px + 1;
            }
        }
        proof {
            if end < width {
                lemma_next_block(pos as int, dash_length as int);
            }
        }
        pos = end;
        drawing = !drawing;
    }
}

/// Rasterize one vertical dashed line at column `x`: every pixel of that
/// column whose row falls in a drawn stretch has its RGB set to black and
/// its alpha kept; every other byte keeps its value. A column at or past
/// the right edge leaves the buffer untouched.
pub fn draw_vertical_dashed_line(
    image_data: &mut Vec<u8>,
    width: u32,
    height: u32,
    x: u32,
    dash_length: u32,
    start_with_dash: bool,
)
    requires
        dash_length >= 1,
        old(image_data)@.len() == width * height * 4,
    ensures
        final(image_data)@.len() == old(image_data)@.len(),
        forall|xx: int, yy: int, c: int|
            0 <= xx < width && 0 <= yy < height && 0 <= c < 4 ==> byte_at(
                final(image_data)@,
                width as int,
                xx,
                yy,
                c,
            ) == if xx == x && c < 3 && offset_drawn(yy, dash_length as int, start_with_dash) {
                0u8
            } else {
                byte_at(old(image_data)@, width as int, xx, yy, c)
            },
{
    if x >= width {
        return ;
    }
    let mut pos: u32 = 0;
    let mut drawing = start_with_dash;
    while pos < height
        invariant
            dash_length >= 1,
            x < width,
            image_data@.len() == width * height * 4,
            pos <= height,
            pos < height ==> pos % dash_length == 0,
            pos < height ==> drawing == offset_drawn(
                pos as int,
                dash_length as int,
                start_with_dash,
            ),
            forall|xx: int, yy: int, c: int|
                0 <= xx < width && 0 <= yy < height && 0 <= c < 4 ==> byte_at(
                    image_data@,
                    width as int,
                    xx,
                    yy,
                    c,
                ) == if xx == x && c < 3 && yy < pos && offset_drawn(
                    yy,
                    dash_length as int,
                    start_with_dash,
                ) {
                    0u8
                } else {
                    byte_at(old(image_data)@, width as int, xx, yy, c)
                },
        decreases height - pos,
    {
        let end = if dash_length <= height - pos {
            pos + dash_length
        } else {
            height
        };
        proof {
            assert forall|yy: int| pos <= yy < end implies offset_drawn(
                yy,
                dash_length as int,
                start_with_dash,
            ) == drawing by {
                lemma_same_block(pos as int, yy, dash_length as int);
            }
        }
        if drawing {
            let mut py: u32 = pos;
            while py < end
                invariant
                    dash_length >= 1,
                    x < width,
                    image_data@.len() == width * height * 4,
                    pos <= py <= end,
                    end <= height,
                    forall|yy: int|
                        pos <= yy < end ==> offset_drawn(yy, dash_length as int, start_with_dash),
                    forall|xx: int, yy: int, c: int|
                        0 <= xx < width && 0 <= yy < height && 0 <= c < 4 ==> byte_at(
                            image_data@,
                            width as int,
                            xx,
                            yy,
                            c,
                        ) == if xx == x && c < 3 && ((yy < pos && offset_drawn(
                            yy,
                            dash_length as int,
                            start_with_dash,
                        )) || (pos <= yy < py)) {
                            0u8
                        } else {
                            byte_at(old(image_data)@, width as int, xx, yy, c)
                        },
                decreases end - py,
            {
                let ghost pre = image_data@;
                set_pixel_black(image_data, width, x, py);
                proof {
                    lemma_set_pixel_effect(
                        pre,
                        image_data@,
                        width as int,
                        height as int,
                        x as int,
                        py as int,
                    );
                }
                py = py + 1;
            }
        }
        proof {
            if end < height {
                lemma_next_block(pos as int, dash_length as int);
            }
        }
        pos = end;
        drawing = !drawing;
    }
}

/// Draw the whole hitomezashi pattern into an RGBA buffer: horizontal
/// sweep lines every dash length from the top row down, then vertical
/// sweep lines from the left column right, each line's starting phase
/// taken from its axis' selectors cyclically. Exactly the pixels on a
/// drawn dash turn black (RGB zero, alpha kept); every other byte keeps
/// its value.
pub fn draw_pattern_to_image(
    image_data: &mut Vec<u8>,
    width: u32,
    height: u32,
    settings: &RectSettings,
)
    requires
        settings.wf(),
        old(image_data)@.len() == width * height * 4,
    ensures
        final(image_data)@.len() == old(image_data)@.len(),
        forall|xx: int, yy: int, c: int|
            0 <= xx < width && 0 <= yy < height && 0 <= c < 4 ==> byte_at(
                final(image_data)@,
                width as int,
                xx,
                yy,
                c,
            ) == if c < 3 && pattern_hit(
                xx,
                yy,
                settings.dash_px_spec(),
                settings.horz_selectors@,
                settings.vert_selectors@,
            ) {
                0u8
            } else {
                byte_at(old(image_data)@, width as int, xx, yy, c)
            },
{
    let d = settings.dash_px();
    let ghost hsel = settings.horz_selectors@;
    let ghost vsel = settings.vert_selectors@;

    let mut y: u64 = 0;
    let mut i: usize = 0;
    while y < height as u64
        invariant
            settings.wf(),
            d == settings.dash_px_spec(),
            d >= 1,
            hsel == settings.horz_selectors@,
            vsel == settings.vert_selectors@,
            image_data@.len() == width * height * 4,
            y == i * d,
            i <= height,
            forall|xx: int, yy: int, c: int|
                0 <= xx < width && 0 <= yy < height && 0 <= c < 4 ==> byte_at(
                    image_data@,
                    width as int,
                    xx,
                    yy,
                    c,
                ) == if c < 3 && yy < y && h_line_hit(xx, yy, d as int, hsel) {
                    0u8
                } else {
                    byte_at(old(image_data)@, width as int, xx, yy, c)
                },
        decreases height + d - y,
    {
        let idx = i % settings.horz_selectors.len();
        let start_with_dash = settings.horz_selectors[idx];
        draw_horizontal_dashed_line(image_data, width, height, y as u32, d, start_with_dash);
        proof {
            lemma_multiple_div_mod(i as int, d as int);
            assert forall|xx: int, yy: int, c: int|
                0 <= xx < width && 0 <= yy < height && 0 <= c < 4 implies byte_at(
                image_data@,
                width as int,
                xx,
                yy,
                c,
            ) == if c < 3 && yy < y + d && h_line_hit(xx, yy, d as int, hsel) {
                0u8
            } else {
                byte_at(old(image_data)@, width as int, xx, yy, c)
            } by {
                if y < yy < y + d {
                    lemma_fundamental_div_mod_converse(yy, d as int, i as int, yy - y);
                }
            }
            assert(i * d + d == (i + 1) * d) by (nonlinear_arith);
            assert(i <= i * d) by (nonlinear_arith)
                requires
                    0 <= i,
                    1 <= d,
            ;
        }
        y = y + d as u64;
        i = i + 1;
    }

    let ghost mid = image_data@;
    proof {
        assert forall|xx: int, yy: int, c: int|
            0 <= xx < width && 0 <= yy < height && 0 <= c < 4 implies byte_at(
            mid,
            width as int,
            xx,
            yy,
            c,
        ) == if c < 3 && h_line_hit(xx, yy, d as int, hsel) {
            0u8
        } else {
            byte_at(old(image_data)@, width as int, xx, yy, c)
        } by {}
    }

    let mut x: u64 = 0;
    let mut i: usize = 0;
    while x < width as u64
        invariant
            settings.wf(),
            d == settings.dash_px_spec(),
            d >= 1,
            hsel == settings.horz_selectors@,
            vsel == settings.vert_selectors@,
            image_data@.len() == width * height * 4,
            x == i * d,
            i <= width,
            forall|xx: int, yy: int, c: int|
                0 <= xx < width && 0 <= yy < height && 0 <= c < 4 ==> byte_at(
                    mid,
                    width as int,
                    xx,
                    yy,
                    c,
                ) == if c < 3 && h_line_hit(xx, yy, d as int, hsel) {
                    0u8
                } else {
                    byte_at(old(image_data)@, width as int, xx, yy, c)
                },
            forall|xx: int, yy: int, c: int|
                0 <= xx < width && 0 <= yy < height && 0 <= c < 4 ==> byte_at(
                    image_data@,
                    width as int,
                    xx,
                    yy,
                    c,
                ) == if c < 3 && xx < x && v_line_hit(xx, yy, d as int, vsel) {
                    0u8
                } else {
                    byte_at(mid, width as int, xx, yy, c)
                },
        decreases width + d - x,
    {
        let idx = i % settings.vert_selectors.len();
        let start_with_dash = settings.vert_selectors[idx];
        draw_vertical_dashed_line(image_data, width, height, x as u32, d, start_with_dash);
        proof {
            lemma_multiple_div_mod(i as int, d as int);
            assert forall|xx: int, yy: int, c: int|
                0 <= xx < width && 0 <= yy < height && 0 <= c < 4 implies byte_at(
                image_data@,
                width as int,
                xx,
                yy,
                c,
            ) == if c < 3 && xx < x + d && v_line_hit(xx, yy, d as int, vsel) {
                0u8
            } else {
                byte_at(mid, width as int, xx, yy, c)
            } by {
                if x < xx < x + d {
                    lemma_fundamental_div_mod_converse(xx, d as int, i as int, xx - x);
                }
            }
            assert(i * d + d == (i + 1) * d) by (nonlinear_arith);
            assert(i <= i * d) by (nonlinear_arith)
                requires
                    0 <= i,
                    1 <= d,
            ;
        }
        x = x + d as u64;
        i = i + 1;
    }
}

/// Law: the two render targets have identical geometry. Take the `k`-th
/// sweep line of either axis, whose starting phase is selector `k mod
/// len`, and its dash spans over a line of length `len`. A point at
/// offset `x` along the line falls in exactly one span, and that span is
/// drawn exactly when the rasterizer blackens the pixel at column `x` of
/// row `k * d` (for a horizontal line), or at row `x` of column `k * d`
/// (for a vertical one).
pub proof fn lemma_render_targets_agree(
    x: int,
    k: int,
    d: int,
    sel: Seq<bool>,
    s: Seq<DashSpan>,
    len: int,
)
    requires
        d > 0,
        sel.len() > 0,
        0 <= k,
        0 <= x < len,
        spans_ok(s, len, d, sel[k % (sel.len() as int)]),
    ensures
        0 <= x / d < s.len(),
        s[x / d].lo <= x < s[x / d].hi,
        s[x / d].drawn == h_line_hit(x, k * d, d, sel),
        s[x / d].drawn == v_line_hit(k * d, x, d, sel),
{
    let start = sel[k % (sel.len() as int)];
    lemma_multiple_div_mod(k, d);
    lemma_fundamental_div_mod(x, d);
    assert(0 <= x / d) by (nonlinear_arith)
        requires
            x >= 0,
            d > 0,
    ;
    assert(x / d < s.len()) by {
        if x / d >= s.len() {
            assert(d * (x / d) >= d * s.len()) by (nonlinear_arith)
                requires
                    x / d >= s.len(),
                    d > 0,
            ;
            assert(d * s.len() == s.len() * d) by (nonlinear_arith);
        }
    }
    assert(span_ok(s[x / d], len, d, start, x / d));
    assert(s[x / d].lo <= x < s[x / d].hi) by {
        assert(s[x / d].lo == x / d * d);
        assert(x / d * d == d * (x / d)) by (nonlinear_arith);
        assert((x / d + 1) * d == d * (x / d) + d) by (nonlinear_arith);
    }
}

/// The whole rasterized image as one byte sequence: row-major RGBA, white
/// background, full alpha, black dashes.
pub open spec fn pattern_buffer(width: int, height: int, d: int, hsel: Seq<bool>, vsel: Seq<bool>) -> Seq<u8> {
    Seq::new(
        (width * height * 4) as nat,
        |j: int|
            {
                let p = j / 4;
                let c = j % 4;
                let x = p % width;
                let y = p / width;
                if c < 3 && pattern_hit(x, y, d, hsel, vsel) {
                    0u8
                } else {
                    255u8
                }
            },
    )
}

/// A buffer whose pixels all carry the pattern's colors, channel by
/// channel, is the pattern buffer.
proof fn lemma_buffer_decompose(
    buf: Seq<u8>,
    width: int,
    height: int,
    d: int,
    hsel: Seq<bool>,
    vsel: Seq<bool>,
)
    requires
        width >= 0,
        height >= 0,
        buf.len() == width * height * 4,
        forall|xx: int, yy: int, c: int|
            0 <= xx < width && 0 <= yy < height && 0 <= c < 4 ==> byte_at(buf, width, xx, yy, c)
                == if c < 3 && pattern_hit(xx, yy, d, hsel, vsel) {
                0u8
            } else {
                255u8
            },
    ensures
        buf == pattern_buffer(width, height, d, hsel, vsel),
{
    assert forall|j: int| 0 <= j < buf.len() implies buf[j] == pattern_buffer(
        width,
        height,
        d,
        hsel,
        vsel,
    )[j] by {
        let p = j / 4;
        let c = j % 4;
        lemma_fundamental_div_mod(j, 4);
        assert(width > 0) by (nonlinear_arith)
            requires
                width * height * 4 > j,
                j >= 0,
                width >= 0,
        ;
        let x = p % width;
        let y = p / width;
        lemma_fundamental_div_mod(p, width);
        assert(0 <= p < width * height) by (nonlinear_arith)
            requires
                0 <= j < width * height * 4,
                j == 4 * p + c,
                0 <= c < 4,
        ;
        assert(0 <= y < height) by (nonlinear_arith)
            requires
                0 <= p < width * height,
                p == width * y + x,
                0 <= x < width,
                width > 0,
        ;
        assert((y * width + x) * 4 + c == j) by (nonlinear_arith)
            requires
                j == 4 * p + c,
                p == width * y + x,
        ;
        assert(byte_at(buf, width, x, y, c) == buf[j]);
    }
    assert(buf =~= pattern_buffer(width, height, d, hsel, vsel));
}

/// Render the pattern of `settings` into a fresh `width * height` RGBA
/// image: white background, full alpha, and exactly the pixels on a drawn
/// dash of a sweep line black.
pub fn render_raster(width: u32, height: u32, settings: &RectSettings) -> (r: Vec<u8>)
    requires
        settings.wf(),
        width * height * 4 <= usize::MAX,
    ensures
        r@.len() == width * height * 4,
        forall|xx: int, yy: int, c: int|
            0 <= xx < width && 0 <= yy < height && 0 <= c < 4 ==> byte_at(
                r@,
                width as int,
                xx,
                yy,
                c,
            ) == if c < 3 && pattern_hit(
                xx,
                yy,
                settings.dash_px_spec(),
                settings.horz_selectors@,
                settings.vert_selectors@,
            ) {
                0u8
            } else {
                255u8
            },
        r@ == pattern_buffer(
            width as int,
            height as int,
            settings.dash_px_spec(),
            settings.horz_selectors@,
            settings.vert_selectors@,
        ),
{
    let mut buf = white_buffer(width, height);
    let ghost white = buf@;
    draw_pattern_to_image(&mut buf, width, height, settings);
    proof {
        assert forall|xx: int, yy: int, c: int|
            0 <= xx < width && 0 <= yy < height && 0 <= c < 4 implies byte_at(
            white,
            width as int,
            xx,
            yy,
            c,
        ) == 255u8 by {
            lemma_pixel_index_bound(width as int, height as int, xx, yy, c);
        }
        lemma_buffer_decompose(
            buf@,
            width as int,
            height as int,
            settings.dash_px_spec(),
            settings.horz_selectors@,
            settings.vert_selectors@,
        );
    }
    buf
}

} // verus!
