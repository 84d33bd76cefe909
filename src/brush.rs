//! Brushes and the stamps they lay down: a soft circle whose weight falls
//! off with a raised cosine between an opaque core and the outer radius.

use vstd::prelude::*;
use crate::geometry::{isqrt, integer_sqrt, lemma_isqrt_bounds, lemma_isqrt_is_largest, lemma_isqrt_monotone};

verus! {

/// The largest brush radius, in pixels: half of `i32::MAX`, so that stamp
/// offsets and their sums with a centre fit an `i32` and an `i64`, and
/// squared offsets fit a `u64`.
pub const MAX_RADIUS: u32 = 0x3FFF_FFFF;

/// A stamp weight of `1.0`.
pub const FULL_WEIGHT: u8 = 255;

/// Spacing is measured in hundredths of the radius; this is `1.0`.
pub const SPACING_SCALE: u32 = 100;

/// The settings every brush shape has.
#[derive(Clone, Copy, Debug, PartialEq, Eq, Structural)]
pub struct BrushBaseSettings {
    /// Outer falloff boundary, in pixels.
    pub radius: u32,
    /// Distance between stamp placements, in hundredths of the radius.
    pub spacing: u32,
    /// Opacity multiplier, `255` for `1.0`.
    pub strength: u8,
}

/// A brush shape with its settings. A brush is a plain value: every recorded
/// frame holds its own copy.
#[derive(Clone, Copy, Debug, PartialEq, Eq, Structural)]
pub enum Brush {
    /// A disc that is fully opaque out to `inner_radius` and fades with a
    /// raised cosine out to `base.radius`.
    SoftCircle { inner_radius: u32, base: BrushBaseSettings },
}

/// One offset of a stamp with its weight.
#[derive(Clone, Copy, Debug, PartialEq, Eq, Structural)]
pub struct Pixel {
    pub x: i32,
    pub y: i32,
    /// Stamp weight, `255` for `1.0`.
    pub alpha: u8,
}

/// A brush's alpha mask around a centre, ordered by `x`, then `y`.
pub struct Stamp {
    pub pixels: Vec<Pixel>,
}

/// `255 * (1 + cos(k * pi / 16)) / 2`, rounded, for `k` in `0..=16`.
pub open spec fn falloff_sample(k: int) -> int {
    if k <= 0 {
        255
    } else if k == 1 {
        253
    } else if k == 2 {
        245
    } else if k == 3 {
        234
    } else if k == 4 {
        218
    } else if k == 5 {
        198
    } else if k == 6 {
        176
    } else if k == 7 {
        152
    } else if k == 8 {
        128
    } else if k == 9 {
        103
    } else if k == 10 {
        79
    } else if k == 11 {
        57
    } else if k == 12 {
        37
    } else if k == 13 {
        21
    } else if k == 14 {
        10
    } else if k == 15 {
        2
    } else {
        0
    }
}

/// The raised-cosine falloff `255 * (1 + cos(t * pi)) / 2` at `t / 256`,
/// interpolated linearly between the sixteenths of `falloff_sample`.
pub open spec fn falloff(t: int) -> int {
    let k = t / 16;
    let r = t % 16;
    if k >= 16 {
        0
    } else {
        falloff_sample(k) - (falloff_sample(k) - falloff_sample(k + 1)) * r / 16
    }
}

/// The stamp weight at squared distance `d2` from the centre: full inside
/// `inner`, then the raised cosine of how far the distance has gone from
/// `inner` towards `radius`.
pub open spec fn stamp_weight(d2: int, inner: int, radius: int) -> int {
    if d2 <= inner * inner {
        255
    } else {
        // 256 times the distance, rounded down
        let dist = isqrt((d2 * 65536) as nat);
        let t = (dist - 256 * inner) / (radius - inner);
        falloff(if t > 256 {
            256
        } else {
            t
        })
    }
}

/// Stamp entries of column `x` for rows `y..=radius`.
pub open spec fn stamp_column(inner: int, radius: int, x: int, y: int) -> Seq<Pixel>
    decreases radius + 1 - y,
{
    if y > radius {
        Seq::empty()
    } else {
        let rest = stamp_column(inner, radius, x, y + 1);
        if x * x + y * y <= radius * radius {
            seq![Pixel { x: x as i32, y: y as i32, alpha: stamp_weight(x * x + y * y, inner, radius) as u8 }]
                + rest
        } else {
            rest
        }
    }
}

/// Stamp entries of columns `x..=radius`.
pub open spec fn stamp_columns(inner: int, radius: int, x: int) -> Seq<Pixel>
    decreases radius + 1 - x,
{
    if x > radius {
        Seq::empty()
    } else {
        stamp_column(inner, radius, x, -radius) + stamp_columns(inner, radius, x + 1)
    }
}

/// The soft-circle stamp: every offset of the square `[-radius, radius]^2`
/// within `radius` of the centre, by `x` then `y`, with its weight.
pub open spec fn soft_circle_stamp(inner: int, radius: int) -> Seq<Pixel> {
    stamp_columns(inner, radius, -radius)
}

pub open spec fn in_disc(x: int, y: int, radius: int) -> bool {
    x * x + y * y <= radius * radius
}


proof fn lemma_falloff_sample_step(k: int)
    ensures
        falloff_sample(k) >= falloff_sample(k + 1),
        0 <= falloff_sample(k) <= 255,
{
}

proof fn lemma_falloff_sample_monotone(i: int, j: int)
    requires
        i <= j,
    ensures
        falloff_sample(i) >= falloff_sample(j),
    decreases j - i,
{
    if i < j {
        lemma_falloff_sample_monotone(i + 1, j);
        lemma_falloff_sample_step(i);
    }
}

/// Inside the sixteenth `k`, the falloff lies between the samples at its ends.
proof fn lemma_falloff_between(t: int)
    requires
        0 <= t <= 256,
    ensures
        t / 16 < 16 ==> falloff_sample(t / 16 + 1) <= falloff(t) <= falloff_sample(t / 16),
        t / 16 >= 16 ==> falloff(t) == 0,
        0 <= falloff(t) <= 255,
{
    let k = t / 16;
    let r = t % 16;
    lemma_falloff_sample_step(k);
    lemma_falloff_sample_step(k + 1);
    if k < 16 {
        let diff = falloff_sample(k) - falloff_sample(k + 1);
        assert(0 <= diff * r / 16 <= diff) by (nonlinear_arith)
            requires
                0 <= diff,
                0 <= r < 16,
        ;
    }
}

/// The falloff does not grow with `t`.
pub proof fn lemma_falloff_monotone(t1: int, t2: int)
    requires
        0 <= t1 <= t2 <= 256,
    ensures
        falloff(t1) >= falloff(t2),
{
    lemma_falloff_between(t1);
    lemma_falloff_between(t2);
    let k1 = t1 / 16;
    let k2 = t2 / 16;
    assert(k1 <= k2) by (nonlinear_arith)
        requires
            k1 == t1 / 16,
            k2 == t2 / 16,
            t1 <= t2,
    ;
    if k1 == k2 {
        if k1 < 16 {
            let r1 = t1 % 16;
            let r2 = t2 % 16;
            assert(r1 <= r2) by (nonlinear_arith)
                requires
                    r1 == t1 % 16,
                    r2 == t2 % 16,
                    t1 / 16 == t2 / 16,
                    t1 <= t2,
            ;
            lemma_falloff_sample_step(k1);
            let diff = falloff_sample(k1) - falloff_sample(k1 + 1);
            assert(diff * r1 / 16 <= diff * r2 / 16) by (nonlinear_arith)
                requires
                    0 <= diff,
                    0 <= r1 <= r2,
            ;
        }
    } else if k2 < 16 {
        lemma_falloff_sample_monotone(k1 + 1, k2);
    }
}

/// Weights lie in `0..=255`.
pub proof fn lemma_stamp_weight_range(d2: int, inner: int, radius: int)
    requires
        0 <= d2 <= radius * radius,
        0 <= inner <= radius,
    ensures
        0 <= stamp_weight(d2, inner, radius) <= 255,
        d2 > inner * inner ==> inner < radius,
        d2 > inner * inner ==> isqrt((d2 * 65536) as nat) >= 256 * inner,
{
    if d2 > inner * inner {
        if inner >= radius {
            assert(radius * radius <= inner * inner) by (nonlinear_arith)
                requires
                    0 <= radius <= inner,
            ;
        }
        assert((256 * inner) * (256 * inner) <= d2 * 65536) by (nonlinear_arith)
            requires
                d2 > inner * inner,
        ;
        lemma_isqrt_is_largest((d2 * 65536) as nat, (256 * inner) as nat);
        let dist = isqrt((d2 * 65536) as nat);
        let t = (dist - 256 * inner) / (radius - inner);
        assert(t >= 0) by (nonlinear_arith)
            requires
                t == (dist - 256 * inner) / (radius - inner),
                dist - 256 * inner >= 0,
                radius - inner > 0,
        ;
        lemma_falloff_between(if t > 256 { 256 } else { t });
    }
}

/// Weights do not grow with the distance from the centre.
pub proof fn lemma_stamp_weight_monotone(d2a: int, d2b: int, inner: int, radius: int)
    requires
        0 <= d2a <= d2b <= radius * radius,
        0 <= inner <= radius,
    ensures
        stamp_weight(d2a, inner, radius) >= stamp_weight(d2b, inner, radius),
{
    lemma_stamp_weight_range(d2a, inner, radius);
    lemma_stamp_weight_range(d2b, inner, radius);
    if d2a > inner * inner {
        let na = (d2a * 65536) as nat;
        let nb = (d2b * 65536) as nat;
        lemma_isqrt_monotone(na, nb);
        let ta = (isqrt(na) - 256 * inner) / (radius - inner);
        let tb = (isqrt(nb) - 256 * inner) / (radius - inner);
        assert(0 <= ta <= tb) by (nonlinear_arith)
            requires
                ta == (isqrt(na) - 256 * inner) / (radius - inner),
                tb == (isqrt(nb) - 256 * inner) / (radius - inner),
                256 * inner <= isqrt(na) <= isqrt(nb),
                radius - inner > 0,
        ;
        lemma_falloff_monotone(
            if ta > 256 { 256 } else { ta },
            if tb > 256 { 256 } else { tb },
        );
    }
}

fn falloff_sample_exec(k: u32) -> (r: u32)
    ensures
        r == falloff_sample(k as int),
{
    match k {
        0 => 255,
        1 => 253,
        2 => 245,
        3 => 234,
        4 => 218,
        5 => 198,
        6 => 176,
        7 => 152,
        8 => 128,
        9 => 103,
        10 => 79,
        11 => 57,
        12 => 37,
        13 => 21,
        14 => 10,
        15 => 2,
        _ => 0,
    }
}

fn falloff_exec(t: u32) -> (r: u8)
    requires
        t <= 256,
    ensures
        r == falloff(t as int),
{
    proof {
        lemma_falloff_between(t as int);
    }
    let k = t / 16;
    let rem = t % 16;
    if k >= 16 {
        0
    } else {
        let hi = falloff_sample_exec(k);
        let lo = falloff_sample_exec(k + 1);
        proof {
            lemma_falloff_sample_step(k as int);
        }
        (hi - (hi - lo) * rem / 16) as u8
    }
}

/// The weight of the stamp at squared distance `d2`.
fn stamp_weight_exec(d2: u64, inner: u32, radius: u32) -> (w: u8)
    requires
        d2 <= radius * radius,
        inner <= radius <= MAX_RADIUS,
    ensures
        w == stamp_weight(d2 as int, inner as int, radius as int),
{
    proof {
        lemma_stamp_weight_range(d2 as int, inner as int, radius as int);
        assert(inner * inner <= 0x4000_0000 * 0x4000_0000) by (nonlinear_arith)
            requires
                inner <= 0x4000_0000,
        ;
    }
    if d2 <= inner as u64 * inner as u64 {
        FULL_WEIGHT
    } else {
        assert(d2 * 65536 <= 0x4000_0000 * 0x4000_0000 * 65536) by (nonlinear_arith)
            requires
                d2 <= radius * radius,
                radius <= 0x4000_0000,
        ;
        let root = integer_sqrt(d2 as u128 * 65536);
        proof {
            lemma_isqrt_bounds((d2 * 65536) as nat);
            assert(root <= 0x4000_0000 * 256) by (nonlinear_arith)
                requires
                    root * root <= d2 * 65536,
                    d2 * 65536 <= 0x4000_0000 * 0x4000_0000 * 65536,
                    root >= 0,
            ;
        }
        let dist = root as u64;
        let t = (dist - 256 * inner as u64) / (radius - inner) as u64;
        let t_clamped: u32 = if t > 256 {
            256
        } else {
            t as u32
        };
        falloff_exec(t_clamped)
    }
}

/// Squared distance of a stamp offset from the centre.
pub open spec fn offset_d2(p: Pixel) -> int {
    p.x * p.x + p.y * p.y
}

proof fn lemma_stamp_column_members(inner: int, radius: int, x: int, y0: int)
    requires
        0 <= inner <= radius <= MAX_RADIUS,
        -radius <= x <= radius,
        -radius <= y0,
    ensures
        forall|i: int|
            0 <= i < stamp_column(inner, radius, x, y0).len() ==> {
                let p = #[trigger] stamp_column(inner, radius, x, y0)[i];
                &&& p.x == x
                &&& y0 <= p.y <= radius
                &&& in_disc(p.x as int, p.y as int, radius)
                &&& p.alpha == stamp_weight(offset_d2(p), inner, radius)
            },
        forall|y: int|
            y0 <= y <= radius && in_disc(x, y, radius) ==> exists|i: int|
                0 <= i < stamp_column(inner, radius, x, y0).len() && (
                #[trigger] stamp_column(inner, radius, x, y0)[i]).x == x && stamp_column(
                    inner,
                    radius,
                    x,
                    y0,
                )[i].y == y,
    decreases radius + 1 - y0,
{
    if y0 <= radius {
        lemma_stamp_column_members(inner, radius, x, y0 + 1);
        let rest = stamp_column(inner, radius, x, y0 + 1);
        let col = stamp_column(inner, radius, x, y0);
        if in_disc(x, y0, radius) {
            assert(0 <= x * x + y0 * y0) by (nonlinear_arith);
            lemma_stamp_weight_range(x * x + y0 * y0, inner, radius);
            assert forall|i: int| 1 <= i < col.len() implies col[i] == rest[i - 1] by {}
            assert forall|y: int|
                y0 <= y <= radius && in_disc(x, y, radius) implies exists|i: int|
                    0 <= i < col.len() && (#[trigger] col[i]).x == x && col[i].y == y by {
                if y == y0 {
                    assert(col[0].x == x && col[0].y == y);
                } else {
                    let i = choose|i: int|
                        0 <= i < rest.len() && (#[trigger] rest[i]).x == x && rest[i].y == y;
                    assert(col[i + 1] == rest[i]);
                }
            }
        }
    }
}

proof fn lemma_stamp_columns_members(inner: int, radius: int, x0: int)
    requires
        0 <= inner <= radius <= MAX_RADIUS,
        -radius <= x0,
    ensures
        forall|i: int|
            0 <= i < stamp_columns(inner, radius, x0).len() ==> {
                let p = #[trigger] stamp_columns(inner, radius, x0)[i];
                &&& x0 <= p.x <= radius
                &&& in_disc(p.x as int, p.y as int, radius)
                &&& p.alpha == stamp_weight(offset_d2(p), inner, radius)
            },
        forall|x: int, y: int|
            #![trigger in_disc(x, y, radius)]
            x0 <= x <= radius && -radius <= y <= radius && in_disc(x, y, radius) ==> exists|i: int|
                0 <= i < stamp_columns(inner, radius, x0).len() && (#[trigger] stamp_columns(
                    inner,
                    radius,
                    x0,
                )[i]).x == x && stamp_columns(inner, radius, x0)[i].y == y,
    decreases radius + 1 - x0,
{
    if x0 <= radius {
        lemma_stamp_columns_members(inner, radius, x0 + 1);
        lemma_stamp_column_members(inner, radius, x0, -radius);
        let col = stamp_column(inner, radius, x0, -radius);
        let rest = stamp_columns(inner, radius, x0 + 1);
        let all = stamp_columns(inner, radius, x0);
        assert(all == col + rest);
        assert forall|i: int| 0 <= i < all.len() implies {
            let p = #[trigger] all[i];
            &&& x0 <= p.x <= radius
            &&& in_disc(p.x as int, p.y as int, radius)
            &&& p.alpha == stamp_weight(offset_d2(p), inner, radius)
        } by {
            if i < col.len() {
                assert(all[i] == col[i]);
            } else {
                assert(all[i] == rest[i - col.len()]);
            }
        }
        assert forall|x: int, y: int|
            x0 <= x <= radius && -radius <= y <= radius && in_disc(x, y, radius) implies exists|i: int|
                0 <= i < all.len() && (#[trigger] all[i]).x == x && all[i].y == y by {
            assert(in_disc(x, y, radius));
            if x == x0 {
                let i = choose|i: int| 0 <= i < col.len() && (#[trigger] col[i]).x == x && col[i].y == y;
                assert(all[i] == col[i]);
            } else {
                let i = choose|i: int|
                    0 <= i < rest.len() && (#[trigger] rest[i]).x == x && rest[i].y == y;
                assert(all[i + col.len()] == rest[i]);
            }
        }
    }
}

/// What the soft-circle stamp holds: exactly the offsets within `radius` of
/// the centre, each with the weight of its distance.
pub proof fn lemma_soft_circle_members(inner: int, radius: int)
    requires
        0 <= inner <= radius <= MAX_RADIUS,
    ensures
        forall|i: int|
            0 <= i < soft_circle_stamp(inner, radius).len() ==> {
                let p = #[trigger] soft_circle_stamp(inner, radius)[i];
                &&& in_disc(p.x as int, p.y as int, radius)
                &&& p.alpha == stamp_weight(offset_d2(p), inner, radius)
            },
        forall|x: int, y: int|
            #![trigger in_disc(x, y, radius)]
            in_disc(x, y, radius) ==> exists|i: int|
                0 <= i < soft_circle_stamp(inner, radius).len() && (#[trigger] soft_circle_stamp(
                    inner,
                    radius,
                )[i]).x == x && soft_circle_stamp(inner, radius)[i].y == y,
{
    lemma_stamp_columns_members(inner, radius, -radius);
    let all = soft_circle_stamp(inner, radius);
    assert forall|x: int, y: int| #[trigger] in_disc(x, y, radius) implies exists|i: int|
        0 <= i < all.len() && (#[trigger] all[i]).x == x && all[i].y == y by {
        lemma_disc_bounds(x, y, radius);
    }
}

proof fn lemma_disc_bounds(x: int, y: int, radius: int)
    requires
        radius >= 0,
        in_disc(x, y, radius),
    ensures
        -radius <= x <= radius,
        -radius <= y <= radius,
{
    assert(-radius <= x <= radius) by (nonlinear_arith)
        requires
            x * x + y * y <= radius * radius,
            radius >= 0,
    ;
    assert(-radius <= y <= radius) by (nonlinear_arith)
        requires
            x * x + y * y <= radius * radius,
            radius >= 0,
    ;
}

/// Builds the soft-circle stamp of the given radii.
fn soft_circle(radius: u32, inner_radius: u32) -> (stamp: Stamp)
    requires
        inner_radius <= radius <= MAX_RADIUS,
    ensures
        stamp.pixels@ == soft_circle_stamp(inner_radius as int, radius as int),
{
    let ghost inner = inner_radius as int;
    let ghost rad = radius as int;
    let r: i32 = radius as i32;
    assert(radius * radius <= 0x4000_0000 * 0x4000_0000) by (nonlinear_arith)
        requires
            radius <= 0x4000_0000,
    ;
    let r2: u64 = radius as u64 * radius as u64;
    let mut pixels: Vec<Pixel> = Vec::new();
    let mut x: i32 = -r;
    while x <= r
        invariant
            r == rad,
            rad == radius,
            r2 == rad * rad,
            inner == inner_radius,
            inner_radius <= radius <= MAX_RADIUS,
            -r <= x <= r + 1,
            pixels@ + stamp_columns(inner, rad, x as int) == soft_circle_stamp(inner, rad),
        decreases r + 1 - x,
    {
        let mut y: i32 = -r;
        assert(stamp_columns(inner, rad, x as int) == stamp_column(inner, rad, x as int, -rad)
            + stamp_columns(inner, rad, x + 1));
        while y <= r
            invariant
                r == rad,
                rad == radius,
                r2 == rad * rad,
                inner == inner_radius,
                inner_radius <= radius <= MAX_RADIUS,
                -r <= x <= r,
                -r <= y <= r + 1,
                pixels@ + stamp_column(inner, rad, x as int, y as int) + stamp_columns(
                    inner,
                    rad,
                    x + 1,
                ) == soft_circle_stamp(inner, rad),
            decreases r + 1 - y,
        {
            assert(0 <= x * x <= 0x4000_0000 * 0x4000_0000 && 0 <= y * y <= 0x4000_0000 * 0x4000_0000) by (nonlinear_arith)
                requires
                    -0x4000_0000 <= x <= 0x4000_0000,
                    -0x4000_0000 <= y <= 0x4000_0000,
            ;
            let d2: u64 = (x as i64 * x as i64 + y as i64 * y as i64) as u64;
            let ghost before = pixels@;
            let ghost rest = stamp_column(inner, rad, x as int, y + 1);
            if d2 <= r2 {
                let w = stamp_weight_exec(d2, inner_radius, radius);
                pixels.push(Pixel { x, y, alpha: w });
                assert(pixels@ + rest =~= before + stamp_column(inner, rad, x as int, y as int));
            }
            y = y + 1;
            assert(pixels@ + stamp_column(inner, rad, x as int, y as int) + stamp_columns(
                inner,
                rad,
                x + 1,
            ) =~= soft_circle_stamp(inner, rad));
        }
        x = x + 1;
        assert(pixels@ + stamp_columns(inner, rad, x as int) =~= soft_circle_stamp(inner, rad));
    }
    assert(pixels@ =~= soft_circle_stamp(inner, rad));
    Stamp { pixels }
}

impl Brush {
    pub open spec fn spec_inner_radius(self) -> u32 {
        match self {
            Brush::SoftCircle { inner_radius, .. } => inner_radius,
        }
    }

    pub open spec fn spec_base(self) -> BrushBaseSettings {
        match self {
            Brush::SoftCircle { base, .. } => base,
        }
    }

    /// The settings are within the ranges the rasteriser handles.
    pub open spec fn wf(self) -> bool {
        &&& 1 <= self.spec_base().radius <= MAX_RADIUS
        &&& self.spec_inner_radius() <= self.spec_base().radius
        &&& 1 <= self.spec_base().spacing
    }

    /// The stamp this brush lays down.
    pub open spec fn stamp_spec(self) -> Seq<Pixel> {
        match self {
            Brush::SoftCircle { inner_radius, base } => soft_circle_stamp(
                inner_radius as int,
                base.radius as int,
            ),
        }
    }

    /// The stamp for the current settings.
    pub fn compute_stamp(&self) -> (stamp: Stamp)
        requires
            self.wf(),
        ensures
            stamp.pixels@ == self.stamp_spec(),
    {
        match self {
            Brush::SoftCircle { inner_radius, base } => soft_circle(base.radius, *inner_radius),
        }
    }

    /// The identifier of the brush's shape.
    pub fn id(&self) -> (r: &'static str)
        ensures
            r@ == "soft-circle"@,
    {
        match self {
            Brush::SoftCircle { .. } => "soft-circle",
        }
    }

    pub fn spacing(&self) -> (r: u32)
        ensures
            r == self.spec_base().spacing,
    {
        match self {
            Brush::SoftCircle { base, .. } => base.spacing,
        }
    }

    pub fn radius(&self) -> (r: u32)
        ensures
            r == self.spec_base().radius,
    {
        match self {
            Brush::SoftCircle { base, .. } => base.radius,
        }
    }

    pub fn strength(&self) -> (r: u8)
        ensures
            r == self.spec_base().strength,
    {
        match self {
            Brush::SoftCircle { base, .. } => base.strength,
        }
    }

    pub fn inner_radius(&self) -> (r: u32)
        ensures
            r == self.spec_inner_radius(),
    {
        match self {
            Brush::SoftCircle { inner_radius, .. } => *inner_radius,
        }
    }

    pub fn set_spacing(&mut self, spacing: u32)
        requires
            spacing >= 1,
        ensures
            *final(self) == (Brush::SoftCircle {
                inner_radius: old(self).spec_inner_radius(),
                base: BrushBaseSettings { spacing, ..old(self).spec_base() },
            }),
    {
        *self = self.with_spacing(spacing);
    }

    pub fn set_radius(&mut self, radius: u32)
        requires
            1 <= radius,
            old(self).spec_inner_radius() <= radius,
        ensures
            *final(self) == (Brush::SoftCircle {
                inner_radius: old(self).spec_inner_radius(),
                base: BrushBaseSettings { radius, ..old(self).spec_base() },
            }),
    {
        *self = self.with_radius(radius);
    }

    pub fn set_strength(&mut self, strength: u8)
        ensures
            *final(self) == (Brush::SoftCircle {
                inner_radius: old(self).spec_inner_radius(),
                base: BrushBaseSettings { strength, ..old(self).spec_base() },
            }),
    {
        *self = self.with_strength(strength);
    }

    pub fn with_spacing(self, spacing: u32) -> (b: Brush)
        requires
            spacing >= 1,
        ensures
            b == (Brush::SoftCircle {
                inner_radius: self.spec_inner_radius(),
                base: BrushBaseSettings { spacing, ..self.spec_base() },
            }),
    {
        match self {
            Brush::SoftCircle { inner_radius, base } => Brush::SoftCircle {
                inner_radius,
                base: BrushBaseSettings { spacing, ..base },
            },
        }
    }

    pub fn with_radius(self, radius: u32) -> (b: Brush)
        requires
            1 <= radius,
            self.spec_inner_radius() <= radius,
        ensures
            b == (Brush::SoftCircle {
                inner_radius: self.spec_inner_radius(),
                base: BrushBaseSettings { radius, ..self.spec_base() },
            }),
    {
        match self {
            Brush::SoftCircle { inner_radius, base } => Brush::SoftCircle {
                inner_radius,
                base: BrushBaseSettings { radius, ..base },
            },
        }
    }

    pub fn with_strength(self, strength: u8) -> (b: Brush)
        ensures
            b == (Brush::SoftCircle {
                inner_radius: self.spec_inner_radius(),
                base: BrushBaseSettings { strength, ..self.spec_base() },
            }),
    {
        match self {
            Brush::SoftCircle { inner_radius, base } => Brush::SoftCircle {
                inner_radius,
                base: BrushBaseSettings { strength, ..base },
            },
        }
    }

    /// The settings `Brush::default` gives.
    pub open spec fn default_spec() -> Brush {
        Brush::SoftCircle {
            inner_radius: 1,
            base: BrushBaseSettings { radius: 10, spacing: 100, strength: 255 },
        }
    }
}

impl Default for Brush {
    /// A soft circle of radius 10 with a one-pixel opaque core, placed once
    /// per radius, at full strength.
    fn default() -> (b: Brush)
        ensures
            b == Brush::default_spec(),
            b.wf(),
    {
        Brush::SoftCircle {
            inner_radius: 1,
            base: BrushBaseSettings { radius: 10, spacing: SPACING_SCALE, strength: FULL_WEIGHT },
        }
    }
}

/// Shape of a brush's stamp: it holds exactly the offsets within the radius;
/// weights do not grow with the distance from the centre; and turning the
/// stamp by a quarter, a half or three quarters of a turn maps it onto
/// itself, weights included.
pub proof fn lemma_stamp_shape(brush: Brush)
    requires
        brush.wf(),
    ensures
        ({
            let s = brush.stamp_spec();
            let radius = brush.spec_base().radius as int;
            &&& forall|i: int| 0 <= i < s.len() ==> offset_d2(#[trigger] s[i]) <= radius * radius
            &&& forall|x: int, y: int|
                #![trigger in_disc(x, y, radius)]
                in_disc(x, y, radius) ==> exists|i: int|
                    0 <= i < s.len() && (#[trigger] s[i]).x == x && s[i].y == y
            &&& forall|i: int, j: int|
                0 <= i < s.len() && 0 <= j < s.len() && offset_d2(#[trigger] s[i]) <= offset_d2(
                    #[trigger] s[j],
                ) ==> s[i].alpha >= s[j].alpha
            &&& forall|i: int|
                0 <= i < s.len() ==> s.contains(rotate_quarter(#[trigger] s[i]))
            &&& forall|i: int|
                0 <= i < s.len() ==> s.contains(rotate_quarter(rotate_quarter(#[trigger] s[i])))
            &&& forall|i: int|
                0 <= i < s.len() ==> s.contains(
                    rotate_quarter(rotate_quarter(rotate_quarter(#[trigger] s[i]))),
                )
        }),
{
    let radius = brush.spec_base().radius as int;
    let inner = brush.spec_inner_radius() as int;
    lemma_soft_circle_members(inner, radius);
    lemma_stamp_weights_ordered(brush);
    lemma_stamp_turns(brush);
}

proof fn lemma_stamp_weights_ordered(brush: Brush)
    requires
        brush.wf(),
    ensures
        ({
            let s = brush.stamp_spec();
            forall|i: int, j: int|
                0 <= i < s.len() && 0 <= j < s.len() && offset_d2(#[trigger] s[i]) <= offset_d2(
                    #[trigger] s[j],
                ) ==> s[i].alpha >= s[j].alpha
        }),
{
    let s = brush.stamp_spec();
    let radius = brush.spec_base().radius as int;
    let inner = brush.spec_inner_radius() as int;
    lemma_soft_circle_members(inner, radius);
    assert forall|i: int, j: int|
        0 <= i < s.len() && 0 <= j < s.len() && offset_d2(#[trigger] s[i]) <= offset_d2(
            #[trigger] s[j],
        ) implies s[i].alpha >= s[j].alpha by {
        let pi = s[i];
        assert(0 <= pi.x * pi.x + pi.y * pi.y) by (nonlinear_arith);
        lemma_stamp_weight_monotone(offset_d2(s[i]), offset_d2(s[j]), inner, radius);
    }
}

proof fn lemma_stamp_turns(brush: Brush)
    requires
        brush.wf(),
    ensures
        ({
            let s = brush.stamp_spec();
            &&& forall|i: int|
                0 <= i < s.len() ==> s.contains(rotate_quarter(#[trigger] s[i]))
            &&& forall|i: int|
                0 <= i < s.len() ==> s.contains(rotate_quarter(rotate_quarter(#[trigger] s[i])))
            &&& forall|i: int|
                0 <= i < s.len() ==> s.contains(
                    rotate_quarter(rotate_quarter(rotate_quarter(#[trigger] s[i]))),
                )
        }),
{
    let s = brush.stamp_spec();
    assert forall|i: int| 0 <= i < s.len() implies s.contains(rotate_quarter(#[trigger] s[i]))
        && s.contains(rotate_quarter(rotate_quarter(s[i]))) && s.contains(
        rotate_quarter(rotate_quarter(rotate_quarter(s[i]))),
    ) by {
        assert(s.contains(s[i]));
        lemma_rotated_member(brush, s[i]);
        lemma_rotated_member(brush, rotate_quarter(s[i]));
        lemma_rotated_member(brush, rotate_quarter(rotate_quarter(s[i])));
    }
}

/// An offset turned a quarter turn about the centre, with its weight.
pub open spec fn rotate_quarter(p: Pixel) -> Pixel {
    Pixel { x: (-p.y) as i32, y: p.x, alpha: p.alpha }
}

proof fn lemma_rotated_member(brush: Brush, p: Pixel)
    requires
        brush.wf(),
        brush.stamp_spec().contains(p),
    ensures
        brush.stamp_spec().contains(rotate_quarter(p)),
{
    let s = brush.stamp_spec();
    let radius = brush.spec_base().radius as int;
    let inner = brush.spec_inner_radius() as int;
    lemma_soft_circle_members(inner, radius);
    let i = choose|i: int| 0 <= i < s.len() && s[i] == p;
    assert(s[i] == p);
    let q = rotate_quarter(p);
    lemma_disc_bounds(p.x as int, p.y as int, radius);
    assert(q.x == -p.y);
    assert(offset_d2(q) == offset_d2(p)) by (nonlinear_arith)
        requires
            q.x == -p.y,
            q.y == p.x,
    ;
    assert(in_disc(q.x as int, q.y as int, radius));
    let j = choose|j: int| 0 <= j < s.len() && (#[trigger] s[j]).x == q.x && s[j].y == q.y;
    assert(s[j] == q);
}

} // verus!
