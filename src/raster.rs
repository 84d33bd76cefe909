//! Stroke rasterisation: the three blend laws, one stamp placement (a dab),
//! and the walk that spaces dabs along a pointer move.

use vstd::prelude::*;
use crate::brush::{Brush, Pixel};
use crate::color::Color;
use crate::geometry::{integer_sqrt, isqrt, lemma_isqrt_bounds, CanvasPos};

verus! {

/// Numerator of the saturation bias applied to painted alpha (`1.3`).
pub const BIAS_NUMERATOR: u32 = 13;

/// Denominator of the saturation bias applied to painted alpha.
pub const BIAS_DENOMINATOR: u32 = 10;

/// How one stamp placement changes the pixels under it.
#[derive(Clone, Copy, Debug, PartialEq, Eq, Structural)]
pub enum BlendMode {
    /// Lay `color` over the pixels.
    Paint { color: Color },
    /// Lower alpha by `strength` (`255` for `1.0`), leaving colour alone.
    Erase { strength: u8 },
    /// Pull pixels from behind the pointer motion `(dx, dy)`; `strength` is
    /// `255` for `1.0`.
    Smudge { dx: i64, dy: i64, strength: u8 },
}

/// Byte offset of pixel `(px, py)` in an RGBA8 buffer `width` pixels wide.
pub open spec fn pixel_offset(px: int, py: int, width: int) -> int {
    (py * width + px) * 4
}

pub open spec fn in_bounds(px: int, py: int, width: int, height: int) -> bool {
    0 <= px < width && 0 <= py < height
}

/// `d + (s - d) * weight`, with `weight` out of 255, rounded down.
pub open spec fn mix(d: int, s: int, weight: int) -> int {
    (s * weight + d * (255 - weight)) / 255
}

/// Alpha that a paint dab of `color` at stamp weight `weight` brings.
pub open spec fn paint_source_alpha(color: Color, weight: int) -> int {
    color.a * weight / 255
}

/// How strongly paint replaces the colour under it: the source alpha times
/// the saturation bias, at most `255`.
pub open spec fn paint_blend_weight(src_a: int) -> int {
    let biased = src_a * 13 / 10;
    if biased > 255 {
        255
    } else {
        biased
    }
}

/// Paints one pixel, whose bytes start at `i`. A pixel that would end up
/// fully transparent is left as it was.
pub open spec fn paint_at(buf: Seq<u8>, i: int, color: Color, weight: int) -> Seq<u8> {
    let src_a = paint_source_alpha(color, weight);
    let bw = paint_blend_weight(src_a);
    let out_a = src_a + buf[i + 3] * (255 - src_a) / 255;
    if out_a == 0 {
        buf
    } else {
        buf.update(i, mix(buf[i] as int, color.r as int, bw) as u8).update(
            i + 1,
            mix(buf[i + 1] as int, color.g as int, bw) as u8,
        ).update(i + 2, mix(buf[i + 2] as int, color.b as int, bw) as u8).update(i + 3, out_a as u8)
    }
}

/// Erases one pixel: alpha is scaled by `1 - weight * strength`.
pub open spec fn erase_at(buf: Seq<u8>, i: int, strength: int, weight: int) -> Seq<u8> {
    let es = weight * strength / 255;
    buf.update(i + 3, (buf[i + 3] * (255 - es) / 255) as u8)
}

/// How far a smudge reaches back along a motion of `d` pixels, rounded
/// towards zero.
pub open spec fn smudge_shift(d: int, strength: int) -> int {
    if d >= 0 {
        d * strength / 255
    } else {
        -((-d) * strength / 255)
    }
}

/// Smudges pixel `(px, py)`: each byte moves towards the one of the pixel
/// the motion came from. Nothing happens when that pixel is off the buffer
/// or the blend weight is zero.
pub open spec fn smudge_at(
    buf: Seq<u8>,
    width: int,
    height: int,
    px: int,
    py: int,
    dx: int,
    dy: int,
    strength: int,
    weight: int,
) -> Seq<u8> {
    let bw = weight * strength / 255;
    let sx = px - smudge_shift(dx, strength);
    let sy = py - smudge_shift(dy, strength);
    if bw == 0 || !in_bounds(sx, sy, width, height) {
        buf
    } else {
        let i = pixel_offset(px, py, width);
        let j = pixel_offset(sx, sy, width);
        buf.update(i, mix(buf[i] as int, buf[j] as int, bw) as u8).update(
            i + 1,
            mix(buf[i + 1] as int, buf[j + 1] as int, bw) as u8,
        ).update(i + 2, mix(buf[i + 2] as int, buf[j + 2] as int, bw) as u8).update(
            i + 3,
            mix(buf[i + 3] as int, buf[j + 3] as int, bw) as u8,
        )
    }
}

/// Blends pixel `(px, py)`, which lies on the buffer, at stamp weight
/// `weight`.
pub open spec fn blend_at(
    buf: Seq<u8>,
    width: int,
    height: int,
    px: int,
    py: int,
    weight: int,
    mode: BlendMode,
) -> Seq<u8> {
    match mode {
        BlendMode::Paint { color } => paint_at(buf, pixel_offset(px, py, width), color, weight),
        BlendMode::Erase { strength } => erase_at(
            buf,
            pixel_offset(px, py, width),
            strength as int,
            weight,
        ),
        BlendMode::Smudge { dx, dy, strength } => smudge_at(
            buf,
            width,
            height,
            px,
            py,
            dx as int,
            dy as int,
            strength as int,
            weight,
        ),
    }
}

/// Applies one stamp offset around centre `(cx, cy)`. Offsets of weight zero
/// and pixels off the buffer are skipped.
pub open spec fn stamp_step(
    buf: Seq<u8>,
    width: int,
    height: int,
    cx: int,
    cy: int,
    p: Pixel,
    mode: BlendMode,
) -> Seq<u8> {
    let px = cx + p.x;
    let py = cy + p.y;
    if p.alpha == 0 || !in_bounds(px, py, width, height) {
        buf
    } else {
        blend_at(buf, width, height, px, py, p.alpha as int, mode)
    }
}

/// Applies a whole stamp around `(cx, cy)`, offset by offset in order.
pub open spec fn dab(
    buf: Seq<u8>,
    width: int,
    height: int,
    cx: int,
    cy: int,
    stamp: Seq<Pixel>,
    mode: BlendMode,
) -> Seq<u8>
    decreases stamp.len(),
{
    if stamp.len() == 0 {
        buf
    } else {
        stamp_step(
            dab(buf, width, height, cx, cy, stamp.drop_last(), mode),
            width,
            height,
            cx,
            cy,
            stamp.last(),
            mode,
        )
    }
}

/// The point `i / n` of the way from `a` to `b`, rounded towards `a`.
pub open spec fn lerp(a: int, b: int, i: int, n: int) -> int {
    if b >= a {
        a + (b - a) * i / n
    } else {
        a - (a - b) * i / n
    }
}

/// Number of intervals between stamp placements on a move from `from` to
/// `to`: the length of the move over `radius * spacing / 100`, rounded to the
/// nearest integer, and at least one.
pub open spec fn path_steps(from: CanvasPos, to: CanvasPos, radius: int, spacing: int) -> int {
    let dx = to.x - from.x;
    let dy = to.y - from.y;
    let rs = radius * spacing;
    // 200 times the length of the move, rounded down
    let twice_len = isqrt(((dx * dx + dy * dy) * 40000) as nat);
    let q = (twice_len + rs) / (2 * rs);
    if q < 1 {
        1
    } else {
        q
    }
}

/// The first `k` dabs of a walk from `from` to `to` in `steps` intervals.
pub open spec fn walk(
    buf: Seq<u8>,
    width: int,
    height: int,
    stamp: Seq<Pixel>,
    from: CanvasPos,
    to: CanvasPos,
    steps: int,
    mode: BlendMode,
    k: int,
) -> Seq<u8>
    decreases k,
{
    if k <= 0 {
        buf
    } else {
        dab(
            walk(buf, width, height, stamp, from, to, steps, mode, k - 1),
            width,
            height,
            lerp(from.x as int, to.x as int, k - 1, steps),
            lerp(from.y as int, to.y as int, k - 1, steps),
            stamp,
            mode,
        )
    }
}

/// One frame of a stroke: the brush's stamp laid at `steps + 1` evenly
/// spaced centres from `from` to `to`, both ends included.
pub open spec fn stroke_segment(
    buf: Seq<u8>,
    width: int,
    height: int,
    brush: Brush,
    from: CanvasPos,
    to: CanvasPos,
    mode: BlendMode,
) -> Seq<u8> {
    let steps = path_steps(
        from,
        to,
        brush.spec_base().radius as int,
        brush.spec_base().spacing as int,
    );
    walk(buf, width, height, brush.stamp_spec(), from, to, steps, mode, steps + 1)
}

proof fn lemma_mix_bounded(d: int, s: int, weight: int)
    requires
        0 <= d <= 255,
        0 <= s <= 255,
        0 <= weight <= 255,
    ensures
        0 <= mix(d, s, weight) <= 255,
        s * weight <= 255 * 255,
        d * (255 - weight) <= 255 * 255,
{
    assert(0 <= s * weight <= 255 * weight) by (nonlinear_arith)
        requires
            0 <= s <= 255,
            0 <= weight,
    ;
    assert(0 <= d * (255 - weight) <= 255 * (255 - weight)) by (nonlinear_arith)
        requires
            0 <= d <= 255,
            weight <= 255,
    ;
}

fn mix_exec(d: u8, s: u8, weight: u32) -> (r: u8)
    requires
        weight <= 255,
    ensures
        r == mix(d as int, s as int, weight as int),
{
    proof {
        lemma_mix_bounded(d as int, s as int, weight as int);
    }
    ((s as u32 * weight + d as u32 * (255 - weight)) / 255) as u8
}

/// `a * b / 255` for two bytes, which is again a byte.
proof fn lemma_byte_scale(a: int, b: int)
    requires
        0 <= a <= 255,
        0 <= b <= 255,
    ensures
        0 <= a * b <= 255 * 255,
        0 <= a * b / 255 <= 255,
        a * b / 255 <= a,
        a * b / 255 <= b,
{
    assert(0 <= a * b <= 255 * b) by (nonlinear_arith)
        requires
            0 <= a <= 255,
            0 <= b,
    ;
    assert(a * b <= 255 * a) by (nonlinear_arith)
        requires
            0 <= a,
            b <= 255,
    ;
}

fn paint_pixel(pixels: &mut Vec<u8>, i: usize, color: Color, weight: u8)
    requires
        i + 3 < old(pixels).len(),
    ensures
        final(pixels)@ == paint_at(old(pixels)@, i as int, color, weight as int),
{
    proof {
        lemma_byte_scale(color.a as int, weight as int);
    }
    let src_a: u32 = color.a as u32 * weight as u32 / 255;
    let biased: u32 = src_a * BIAS_NUMERATOR / BIAS_DENOMINATOR;
    let bw: u32 = if biased > 255 {
        255
    } else {
        biased
    };
    let dst_a: u32 = pixels[i + 3] as u32;
    proof {
        lemma_byte_scale(dst_a as int, 255 - src_a);
    }
    let out_a: u32 = src_a + dst_a * (255 - src_a) / 255;
    if out_a == 0 {
        return ;
    }
    let r = mix_exec(pixels[i], color.r, bw);
    let g = mix_exec(pixels[i + 1], color.g, bw);
    let b = mix_exec(pixels[i + 2], color.b, bw);
    pixels.set(i, r);
    pixels.set(i + 1, g);
    pixels.set(i + 2, b);
    pixels.set(i + 3, out_a as u8);
}

fn erase_pixel(pixels: &mut Vec<u8>, i: usize, strength: u8, weight: u8)
    requires
        i + 3 < old(pixels).len(),
    ensures
        final(pixels)@ == erase_at(old(pixels)@, i as int, strength as int, weight as int),
{
    proof {
        lemma_byte_scale(weight as int, strength as int);
    }
    let es: u32 = weight as u32 * strength as u32 / 255;
    let a: u32 = pixels[i + 3] as u32;
    proof {
        lemma_byte_scale(a as int, 255 - es);
    }
    pixels.set(i + 3, (a * (255 - es) / 255) as u8);
}

/// `smudge_shift` on machine integers.
fn smudge_shift_exec(d: i64, strength: u8) -> (r: i64)
    requires
        -0x1_0000_0000 < d < 0x1_0000_0000,
    ensures
        r == smudge_shift(d as int, strength as int),
        -0x1_0000_0000 < r < 0x1_0000_0000,
{
    if d >= 0 {
        assert(d * strength / 255 <= d) by (nonlinear_arith)
            requires
                0 <= d,
                0 <= strength <= 255,
        ;
        assert(d * strength <= 0x1_0000_0000 * 255) by (nonlinear_arith)
            requires
                0 <= d < 0x1_0000_0000,
                0 <= strength <= 255,
        ;
        (d * strength as i64) / 255
    } else {
        let m: i64 = -d;
        assert(m * strength / 255 <= m) by (nonlinear_arith)
            requires
                0 <= m,
                0 <= strength <= 255,
        ;
        assert(0 <= m * strength <= 0x1_0000_0000 * 255) by (nonlinear_arith)
            requires
                0 <= m < 0x1_0000_0000,
                0 <= strength <= 255,
        ;
        -((m * strength as i64) / 255)
    }
}

/// Byte offset of `(px, py)` if it lies on a `width` by `height` buffer.
fn pixel_index(px: i64, py: i64, width: u32, height: u32) -> (r: Option<usize>)
    requires
        width * height * 4 <= usize::MAX,
    ensures
        r is Some <==> in_bounds(px as int, py as int, width as int, height as int),
        r matches Some(i) ==> i == pixel_offset(px as int, py as int, width as int) && i + 3
            < width * height * 4,
{
    if px < 0 || px >= width as i64 || py < 0 || py >= height as i64 {
        return None;
    }
    proof {
        lemma_offset_in_buffer(px as int, py as int, width as int, height as int);
    }
    Some((py as usize * width as usize + px as usize) * 4)
}

/// The bytes of an on-buffer pixel lie inside the buffer.
pub proof fn lemma_offset_in_buffer(px: int, py: int, width: int, height: int)
    requires
        in_bounds(px, py, width, height),
    ensures
        0 <= py * width <= py * width + px < width * height,
        0 <= pixel_offset(px, py, width),
        pixel_offset(px, py, width) + 3 < width * height * 4,
        pixel_offset(px, py, width) % 4 == 0,
{
    assert(0 <= py * width <= py * width + px < width * height) by (nonlinear_arith)
        requires
            0 <= px < width,
            0 <= py < height,
    ;
}

fn smudge_pixel(
    pixels: &mut Vec<u8>,
    width: u32,
    height: u32,
    px: i64,
    py: i64,
    dx: i64,
    dy: i64,
    strength: u8,
    weight: u8,
)
    requires
        old(pixels)@.len() == width * height * 4,
        width * height * 4 <= usize::MAX,
        in_bounds(px as int, py as int, width as int, height as int),
        -0x1_0000_0000 < dx < 0x1_0000_0000,
        -0x1_0000_0000 < dy < 0x1_0000_0000,
    ensures
        final(pixels)@ == smudge_at(
            old(pixels)@,
            width as int,
            height as int,
            px as int,
            py as int,
            dx as int,
            dy as int,
            strength as int,
            weight as int,
        ),
{
    proof {
        lemma_byte_scale(weight as int, strength as int);
    }
    let bw: u32 = weight as u32 * strength as u32 / 255;
    if bw == 0 {
        return ;
    }
    let sx = px - smudge_shift_exec(dx, strength);
    let sy = py - smudge_shift_exec(dy, strength);
    let i = match pixel_index(px, py, width, height) {
        Some(i) => i,
        None => return ,
    };
    let j = match pixel_index(sx, sy, width, height) {
        Some(j) => j,
        None => return ,
    };
    let r = mix_exec(pixels[i], pixels[j], bw);
    let g = mix_exec(pixels[i + 1], pixels[j + 1], bw);
    let b = mix_exec(pixels[i + 2], pixels[j + 2], bw);
    let a = mix_exec(pixels[i + 3], pixels[j + 3], bw);
    pixels.set(i, r);
    pixels.set(i + 1, g);
    pixels.set(i + 2, b);
    pixels.set(i + 3, a);
}

/// The motion a smudge carries fits in the arithmetic the rasteriser uses.
pub open spec fn mode_ok(mode: BlendMode) -> bool {
    match mode {
        BlendMode::Smudge { dx, dy, .. } => -0x1_0000_0000 < dx < 0x1_0000_0000 && -0x1_0000_0000
            < dy < 0x1_0000_0000,
        _ => true,
    }
}

/// A buffer of `width * height` RGBA8 pixels whose byte count fits a `usize`.
pub open spec fn buffer_ok(buf: Seq<u8>, width: int, height: int) -> bool {
    &&& buf.len() == width * height * 4
    &&& width * height * 4 <= usize::MAX
}

fn apply_stamp_pixel(
    pixels: &mut Vec<u8>,
    width: u32,
    height: u32,
    cx: i64,
    cy: i64,
    p: Pixel,
    mode: BlendMode,
)
    requires
        buffer_ok(old(pixels)@, width as int, height as int),
        i32::MIN <= cx <= i32::MAX,
        i32::MIN <= cy <= i32::MAX,
        mode_ok(mode),
    ensures
        final(pixels)@ == stamp_step(
            old(pixels)@,
            width as int,
            height as int,
            cx as int,
            cy as int,
            p,
            mode,
        ),
{
    if p.alpha == 0 {
        return ;
    }
    let px = cx + p.x as i64;
    let py = cy + p.y as i64;
    let i = match pixel_index(px, py, width, height) {
        Some(i) => i,
        None => return ,
    };
    match mode {
        BlendMode::Paint { color } => paint_pixel(pixels, i, color, p.alpha),
        BlendMode::Erase { strength } => erase_pixel(pixels, i, strength, p.alpha),
        BlendMode::Smudge { dx, dy, strength } => smudge_pixel(
            pixels,
            width,
            height,
            px,
            py,
            dx,
            dy,
            strength,
            p.alpha,
        ),
    }
}

fn apply_dab(
    pixels: &mut Vec<u8>,
    width: u32,
    height: u32,
    stamp: &Vec<Pixel>,
    cx: i64,
    cy: i64,
    mode: BlendMode,
)
    requires
        buffer_ok(old(pixels)@, width as int, height as int),
        i32::MIN <= cx <= i32::MAX,
        i32::MIN <= cy <= i32::MAX,
        mode_ok(mode),
    ensures
        final(pixels)@ == dab(
            old(pixels)@,
            width as int,
            height as int,
            cx as int,
            cy as int,
            stamp@,
            mode,
        ),
        final(pixels)@.len() == old(pixels)@.len(),
{
    let ghost start = pixels@;
    let mut k: usize = 0;
    assert(stamp@.take(0) =~= Seq::<Pixel>::empty());
    while k < stamp.len()
        invariant
            k <= stamp@.len(),
            buffer_ok(pixels@, width as int, height as int),
            start.len() == pixels@.len(),
            i32::MIN <= cx <= i32::MAX,
            i32::MIN <= cy <= i32::MAX,
            mode_ok(mode),
            pixels@ == dab(start, width as int, height as int, cx as int, cy as int, stamp@.take(k as int), mode),
        decreases stamp@.len() - k,
    {
        let ghost before = pixels@;
        apply_stamp_pixel(pixels, width, height, cx, cy, stamp[k], mode);
        assert(stamp@.take(k + 1).drop_last() =~= stamp@.take(k as int));
        k = k + 1;
        proof {
            lemma_stamp_step_len(before, width as int, height as int, cx as int, cy as int, stamp@[k - 1], mode);
        }
    }
    assert(stamp@.take(k as int) =~= stamp@);
}

/// Stamping keeps the buffer's length.
pub proof fn lemma_stamp_step_len(
    buf: Seq<u8>,
    width: int,
    height: int,
    cx: int,
    cy: int,
    p: Pixel,
    mode: BlendMode,
)
    requires
        buf.len() == width * height * 4,
    ensures
        stamp_step(buf, width, height, cx, cy, p, mode).len() == buf.len(),
{
    let px = cx + p.x;
    let py = cy + p.y;
    if p.alpha != 0 && in_bounds(px, py, width, height) {
        lemma_offset_in_buffer(px, py, width, height);
        match mode {
            BlendMode::Smudge { dx, dy, strength } => {
                let sx = px - smudge_shift(dx as int, strength as int);
                let sy = py - smudge_shift(dy as int, strength as int);
                if in_bounds(sx, sy, width, height) {
                    lemma_offset_in_buffer(sx, sy, width, height);
                }
            },
            _ => {},
        }
    }
}

fn lerp_exec(a: i32, b: i32, i: u64, n: u64) -> (r: i64)
    requires
        i <= n,
        n >= 1,
    ensures
        r == lerp(a as int, b as int, i as int, n as int),
        i32::MIN <= r <= i32::MAX,
{
    if b >= a {
        let d: u128 = (b as i64 - a as i64) as u128;
        assert(d * i <= d * n) by (nonlinear_arith)
            requires
                0 <= d,
                i <= n,
        ;
        assert(d * n < 0x1_0000_0000 * 0x1_0000_0000_0000_0000) by (nonlinear_arith)
            requires
                0 <= d < 0x1_0000_0000,
                n < 0x1_0000_0000_0000_0000,
        ;
        assert(d * i / (n as int) <= d) by (nonlinear_arith)
            requires
                0 <= d,
                0 <= i <= n,
                n >= 1,
        ;
        a as i64 + (d * i as u128 / n as u128) as i64
    } else {
        let d: u128 = (a as i64 - b as i64) as u128;
        assert(d * i <= d * n) by (nonlinear_arith)
            requires
                0 <= d,
                i <= n,
        ;
        assert(d * n < 0x1_0000_0000 * 0x1_0000_0000_0000_0000) by (nonlinear_arith)
            requires
                0 <= d < 0x1_0000_0000,
                n < 0x1_0000_0000_0000_0000,
        ;
        assert(d * i / (n as int) <= d) by (nonlinear_arith)
            requires
                0 <= d,
                0 <= i <= n,
                n >= 1,
        ;
        a as i64 - (d * i as u128 / n as u128) as i64
    }
}

fn path_steps_exec(from: CanvasPos, to: CanvasPos, radius: u32, spacing: u32) -> (r: u64)
    requires
        1 <= radius,
        1 <= spacing,
    ensures
        r == path_steps(from, to, radius as int, spacing as int),
        1 <= r <= 0x1_0000_0000_0000,
{
    let dx: i64 = to.x as i64 - from.x as i64;
    let dy: i64 = to.y as i64 - from.y as i64;
    assert(0 <= dx * dx < 0x1_0000_0000 * 0x1_0000_0000 && 0 <= dy * dy < 0x1_0000_0000
        * 0x1_0000_0000) by (nonlinear_arith)
        requires
            -0x1_0000_0000 < dx < 0x1_0000_0000,
            -0x1_0000_0000 < dy < 0x1_0000_0000,
    ;
    let dxx: u128 = (dx as i128 * dx as i128) as u128;
    let dyy: u128 = (dy as i128 * dy as i128) as u128;
    let twice_len: u128 = integer_sqrt((dxx + dyy) * 40000);
    proof {
        lemma_isqrt_bounds(((dxx + dyy) * 40000) as nat);
        assert(twice_len < 0x1_0000_0000_0000) by (nonlinear_arith)
            requires
                twice_len * twice_len <= (dxx + dyy) * 40000,
                dxx + dyy < 2 * 0x1_0000_0000 * 0x1_0000_0000,
                twice_len >= 0,
        ;
        assert(1 <= radius * spacing <= 0x1_0000_0000 * 0x1_0000_0000) by (nonlinear_arith)
            requires
                1 <= radius < 0x1_0000_0000,
                1 <= spacing < 0x1_0000_0000,
        ;
    }
    let rs: u128 = radius as u128 * spacing as u128;
    let q: u128 = (twice_len + rs) / (2 * rs);
    assert(q <= twice_len + 1) by (nonlinear_arith)
        requires
            q == (twice_len + rs) / (2 * rs),
            rs >= 1,
            twice_len >= 0,
    ;
    if q < 1 {
        1
    } else {
        q as u64
    }
}

/// Lays one frame of a stroke into `pixels`: the brush's stamp at evenly
/// spaced centres from `from` to `to`.
pub fn stroke(
    pixels: &mut Vec<u8>,
    width: u32,
    height: u32,
    brush: &Brush,
    from: CanvasPos,
    to: CanvasPos,
    mode: BlendMode,
)
    requires
        buffer_ok(old(pixels)@, width as int, height as int),
        brush.wf(),
        mode_ok(mode),
    ensures
        final(pixels)@ == stroke_segment(
            old(pixels)@,
            width as int,
            height as int,
            *brush,
            from,
            to,
            mode,
        ),
        final(pixels)@.len() == old(pixels)@.len(),
{
    let ghost start = pixels@;
    let stamp = brush.compute_stamp();
    let steps = path_steps_exec(from, to, brush.radius(), brush.spacing());
    let mut i: u64 = 0;
    while i <= steps
        invariant
            0 <= i <= steps + 1,
            1 <= steps <= 0x1_0000_0000_0000,
            buffer_ok(pixels@, width as int, height as int),
            start.len() == pixels@.len(),
            mode_ok(mode),
            pixels@ == walk(start, width as int, height as int, stamp.pixels@, from, to, steps as int, mode, i as int),
        decreases steps + 1 - i,
    {
        let cx = lerp_exec(from.x, to.x, i, steps);
        let cy = lerp_exec(from.y, to.y, i, steps);
        apply_dab(pixels, width, height, &stamp.pixels, cx, cy, mode);
        i = i + 1;
    }
}

proof fn lemma_dab_smudge_zero(buf: Seq<u8>, width: int, height: int, cx: int, cy: int, stamp: Seq<Pixel>, dx: i64, dy: i64)
    ensures
        dab(buf, width, height, cx, cy, stamp, BlendMode::Smudge { dx, dy, strength: 0 }) == buf,
    decreases stamp.len(),
{
    if stamp.len() > 0 {
        lemma_dab_smudge_zero(buf, width, height, cx, cy, stamp.drop_last(), dx, dy);
        let w = stamp.last().alpha as int;
        assert(w * 0 / 255 == 0) by (nonlinear_arith);
    }
}

proof fn lemma_walk_smudge_zero(
    buf: Seq<u8>,
    width: int,
    height: int,
    stamp: Seq<Pixel>,
    from: CanvasPos,
    to: CanvasPos,
    steps: int,
    dx: i64,
    dy: i64,
    k: int,
)
    ensures
        walk(buf, width, height, stamp, from, to, steps, BlendMode::Smudge { dx, dy, strength: 0 }, k)
            == buf,
    decreases k,
{
    if k > 0 {
        lemma_walk_smudge_zero(buf, width, height, stamp, from, to, steps, dx, dy, k - 1);
        lemma_dab_smudge_zero(
            buf,
            width,
            height,
            lerp(from.x as int, to.x as int, k - 1, steps),
            lerp(from.y as int, to.y as int, k - 1, steps),
            stamp,
            dx,
            dy,
        );
    }
}

/// A smudge of strength zero leaves every byte of the buffer as it was.
pub proof fn lemma_smudge_zero_is_identity(
    buf: Seq<u8>,
    width: int,
    height: int,
    brush: Brush,
    from: CanvasPos,
    to: CanvasPos,
    dx: i64,
    dy: i64,
)
    ensures
        stroke_segment(buf, width, height, brush, from, to, BlendMode::Smudge { dx, dy, strength: 0 })
            == buf,
{
    let steps = path_steps(
        from,
        to,
        brush.spec_base().radius as int,
        brush.spec_base().spacing as int,
    );
    lemma_walk_smudge_zero(buf, width, height, brush.stamp_spec(), from, to, steps, dx, dy, steps + 1);
}

} // verus!
