//! RGBA8 colours and the "over" operator.

use vstd::prelude::*;

verus! {

/// Offset of the red byte inside one RGBA8 pixel.
pub const RED_CHANNEL: usize = 0;

/// Offset of the green byte inside one RGBA8 pixel.
pub const GREEN_CHANNEL: usize = 1;

/// Offset of the blue byte inside one RGBA8 pixel.
pub const BLUE_CHANNEL: usize = 2;

/// Offset of the alpha byte inside one RGBA8 pixel.
pub const ALPHA_CHANNEL: usize = 3;

/// A straight (not premultiplied) RGBA8 colour.
#[derive(Clone, Copy, Debug, PartialEq, Eq, Structural)]
pub struct Color {
    pub r: u8,
    pub g: u8,
    pub b: u8,
    pub a: u8,
}

/// Alpha of `src` laid over `dst`, scaled by `255 * 255`:
/// `src.a * 255 + dst.a * (255 - src.a)`.
pub open spec fn over_alpha_scaled(dst: Color, src: Color) -> int {
    src.a * 255 + dst.a * (255 - src.a)
}

/// One colour channel of `src` laid over `dst`, given the scaled output alpha.
pub open spec fn over_channel(d: u8, s: u8, dst: Color, src: Color) -> int {
    (s * src.a * 255 + d * dst.a * (255 - src.a)) / over_alpha_scaled(dst, src)
}

/// The standard "over" operator on straight-alpha bytes:
/// `outA = srcA + dstA * (1 - srcA)` and
/// `outC = (srcC * srcA + dstC * dstA * (1 - srcA)) / outA`,
/// rounded down; two fully transparent colours give transparent black.
pub open spec fn over(dst: Color, src: Color) -> Color {
    if over_alpha_scaled(dst, src) == 0 {
        Color { r: 0, g: 0, b: 0, a: 0 }
    } else {
        Color {
            r: over_channel(dst.r, src.r, dst, src) as u8,
            g: over_channel(dst.g, src.g, dst, src) as u8,
            b: over_channel(dst.b, src.b, dst, src) as u8,
            a: (over_alpha_scaled(dst, src) / 255) as u8,
        }
    }
}

proof fn lemma_over_channel_bounded(d: u8, s: u8, dst: Color, src: Color)
    requires
        over_alpha_scaled(dst, src) > 0,
    ensures
        0 <= over_channel(d, s, dst, src) <= 255,
{
    let n = s * src.a * 255 + d * dst.a * (255 - src.a);
    let m = over_alpha_scaled(dst, src);
    assert(0 <= n <= 255 * m) by (nonlinear_arith)
        requires
            n == s * src.a * 255 + d * dst.a * (255 - src.a),
            m == src.a * 255 + dst.a * (255 - src.a),
            0 <= s <= 255,
            0 <= d <= 255,
            0 <= src.a <= 255,
            0 <= dst.a <= 255,
    ;
    assert(n / m <= 255) by (nonlinear_arith)
        requires
            0 <= n <= 255 * m,
            m > 0,
    ;
    assert(n / m >= 0) by (nonlinear_arith)
        requires
            0 <= n,
            m > 0,
    ;
}

proof fn lemma_byte_products(x1: u8, y1: u8, x2: u8, y2: u8)
    ensures
        x1 * y1 <= 255 * 255,
        x2 * y2 <= 255 * 255,
        x1 * y1 * 255 <= 255 * 255 * 255,
        x2 * y2 * (255 - y1) <= 255 * 255 * 255,
        x2 * y2 * (255 - x1) <= 255 * 255 * 255,
{
    assert(x1 * y1 <= 255 * 255) by (nonlinear_arith)
        requires
            x1 <= 255,
            y1 <= 255,
    ;
    assert(x2 * y2 <= 255 * 255) by (nonlinear_arith)
        requires
            x2 <= 255,
            y2 <= 255,
    ;
    assert(x2 * y2 * (255 - y1) <= 255 * 255 * 255) by (nonlinear_arith)
        requires
            0 <= x2 * y2 <= 255 * 255,
            0 <= y1 <= 255,
    ;
    assert(x2 * y2 * (255 - x1) <= 255 * 255 * 255) by (nonlinear_arith)
        requires
            0 <= x2 * y2 <= 255 * 255,
            0 <= x1 <= 255,
    ;
}

proof fn lemma_premultiply_bounded(c: u8, a: u8)
    ensures
        0 <= c * a <= 255 * 255,
        0 <= c * a / 255 <= 255,
{
    assert(0 <= c * a <= 255 * 255) by (nonlinear_arith)
        requires
            c <= 255,
            a <= 255,
    ;
}

fn over_channel_exec(d: u8, s: u8, dst: Color, src: Color, out_scaled: u32) -> (r: u8)
    requires
        out_scaled == over_alpha_scaled(dst, src),
        out_scaled > 0,
    ensures
        r == over_channel(d, s, dst, src),
{
    proof {
        lemma_over_channel_bounded(d, s, dst, src);
        lemma_byte_products(s, src.a, d, dst.a);
    }
    let n: u32 = s as u32 * src.a as u32 * 255 + d as u32 * dst.a as u32 * (255 - src.a as u32);
    (n / out_scaled) as u8
}

impl Color {
    /// A colour from its four channel bytes.
    pub fn new(r: u8, g: u8, b: u8, a: u8) -> (c: Color)
        ensures
            c == (Color { r, g, b, a }),
    {
        Color { r, g, b, a }
    }

    /// A colour from its four channel bytes, in the order red, green, blue,
    /// alpha.
    pub fn from_rgba(r: u8, g: u8, b: u8, a: u8) -> (c: Color)
        ensures
            c == (Color { r, g, b, a }),
    {
        Color::new(r, g, b, a)
    }

    /// Opaque white.
    pub fn white() -> (c: Color)
        ensures
            c == (Color { r: 255, g: 255, b: 255, a: 255 }),
    {
        Color::new(255, 255, 255, 255)
    }

    /// Opaque black.
    pub fn black() -> (c: Color)
        ensures
            c == (Color { r: 0, g: 0, b: 0, a: 255 }),
    {
        Color::new(0, 0, 0, 255)
    }

    /// The same colour with another alpha.
    pub fn with_alpha(&self, alpha: u8) -> (c: Color)
        ensures
            c == (Color { a: alpha, ..*self }),
    {
        Color::new(self.r, self.g, self.b, alpha)
    }

    /// The colour premultiplied by its alpha, as red, green, blue and alpha
    /// bytes: each colour channel becomes `c * a / 255`, rounded down.
    pub fn premultiplied(&self) -> (bytes: [u8; 4])
        ensures
            bytes@ == seq![
                (self.r * self.a / 255) as u8,
                (self.g * self.a / 255) as u8,
                (self.b * self.a / 255) as u8,
                self.a,
            ],
    {
        proof {
            lemma_premultiply_bounded(self.r, self.a);
            lemma_premultiply_bounded(self.g, self.a);
            lemma_premultiply_bounded(self.b, self.a);
        }
        let a = self.a as u32;
        let bytes = [
            (self.r as u32 * a / 255) as u8,
            (self.g as u32 * a / 255) as u8,
            (self.b as u32 * a / 255) as u8,
            self.a,
        ];
        assert(bytes@ =~= seq![
            (self.r * self.a / 255) as u8,
            (self.g * self.a / 255) as u8,
            (self.b * self.a / 255) as u8,
            self.a,
        ]);
        bytes
    }

    /// `other` laid over `self` with the "over" operator.
    pub fn blend(&self, other: &Color) -> (c: Color)
        ensures
            c == over(*self, *other),
    {
        proof {
            lemma_byte_products(other.a, 255, self.a, (255 - other.a) as u8);
        }
        let out_scaled: u32 = other.a as u32 * 255 + self.a as u32 * (255 - other.a as u32);
        if out_scaled == 0 {
            return Color::new(0, 0, 0, 0);
        }
        let r = over_channel_exec(self.r, other.r, *self, *other, out_scaled);
        let g = over_channel_exec(self.g, other.g, *self, *other, out_scaled);
        let b = over_channel_exec(self.b, other.b, *self, *other, out_scaled);
        assert(out_scaled / 255 <= 255) by (nonlinear_arith)
            requires
                out_scaled == other.a * 255 + self.a * (255 - other.a),
                0 <= other.a <= 255,
                0 <= self.a <= 255,
        ;
        Color::new(r, g, b, (out_scaled / 255) as u8)
    }
}

} // verus!
