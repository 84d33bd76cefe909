//! Canvas positions, bounds, and the integer square root distances use.

use vstd::prelude::*;

verus! {

/// A position in canvas space, in whole pixels. Pointer positions may lie
/// outside the canvas.
#[derive(Clone, Copy, Debug, PartialEq, Eq, Structural)]
pub struct CanvasPos {
    pub x: i32,
    pub y: i32,
}

impl CanvasPos {
    pub fn new(x: i32, y: i32) -> (p: CanvasPos)
        ensures
            p == (CanvasPos { x, y }),
    {
        CanvasPos { x, y }
    }
}

/// The integer square root: the largest `r` with `r * r <= n`.
pub open spec fn isqrt(n: nat) -> nat
    decreases n,
{
    if n == 0 {
        0
    } else {
        let s = isqrt((n - 1) as nat);
        if (s + 1) * (s + 1) <= n {
            s + 1
        } else {
            s
        }
    }
}

pub proof fn lemma_isqrt_bounds(n: nat)
    ensures
        isqrt(n) * isqrt(n) <= n,
        n < (isqrt(n) + 1) * (isqrt(n) + 1),
    decreases n,
{
    if n == 0 {
        let r = isqrt(n);
        assert(r == 0);
        assert((r + 1) * (r + 1) == 1) by (nonlinear_arith)
            requires
                r == 0,
        ;
    } else {
        lemma_isqrt_bounds((n - 1) as nat);
        let s = isqrt((n - 1) as nat);
        let r = isqrt(n);
        if (s + 1) * (s + 1) <= n {
            assert(r == s + 1);
            assert(n < (s + 2) * (s + 2)) by (nonlinear_arith)
                requires
                    n - 1 < (s + 1) * (s + 1),
            ;
            assert(r * r <= n);
            assert(n < (r + 1) * (r + 1));
        } else {
            assert(r == s);
            assert(r * r <= n);
            assert(n < (r + 1) * (r + 1));
        }
    }
}

proof fn lemma_square_le(a: int, b: int)
    requires
        0 <= a <= b,
    ensures
        a * a <= b * b,
{
    assert(a * a <= b * b) by (nonlinear_arith)
        requires
            0 <= a <= b,
    ;
}

/// Any `r` with `r * r <= n < (r + 1) * (r + 1)` is `isqrt(n)`.
pub proof fn lemma_isqrt_unique(n: nat, r: nat)
    requires
        r * r <= n,
        n < (r + 1) * (r + 1),
    ensures
        r == isqrt(n),
{
    lemma_isqrt_bounds(n);
    let s = isqrt(n);
    if r < s {
        lemma_square_le(r + 1 as int, s as int);
    } else if r > s {
        lemma_square_le(s + 1 as int, r as int);
    }
}

/// Every `r` with `r * r <= n` is at most `isqrt(n)`.
pub proof fn lemma_isqrt_is_largest(n: nat, r: nat)
    requires
        r * r <= n,
    ensures
        r <= isqrt(n),
{
    lemma_isqrt_bounds(n);
    if r > isqrt(n) {
        lemma_square_le(isqrt(n) + 1 as int, r as int);
    }
}

pub proof fn lemma_isqrt_monotone(a: nat, b: nat)
    requires
        a <= b,
    ensures
        isqrt(a) <= isqrt(b),
{
    lemma_isqrt_bounds(a);
    lemma_isqrt_is_largest(b, isqrt(a));
}

/// The integer square root of `n`, by bisection.
pub fn integer_sqrt(n: u128) -> (r: u128)
    ensures
        r == isqrt(n as nat),
{
    let mut lo: u128 = 0;
    let mut hi: u128 = 0x1_0000_0000_0000_0000;
    assert(n < hi * hi);
    while hi - lo > 1
        invariant
            lo < hi <= 0x1_0000_0000_0000_0000,
            lo * lo <= n,
            n < hi * hi,
        decreases hi - lo,
    {
        let mid: u128 = lo + (hi - lo) / 2;
        assert(mid * mid < 0x1_0000_0000_0000_0000 * 0x1_0000_0000_0000_0000) by (nonlinear_arith)
            requires
                mid < 0x1_0000_0000_0000_0000,
        ;
        if mid * mid <= n {
            lo = mid;
        } else {
            hi = mid;
        }
    }
    proof {
        lemma_isqrt_unique(n as nat, lo as nat);
    }
    lo
}

/// Whether a pixel lies inside a `buffer_width` by `buffer_height` buffer.
pub fn target_px_in_bounds(target_px: (i32, i32), buffer_width: u32, buffer_height: u32) -> (r:
    bool)
    ensures
        r == (0 <= target_px.0 < buffer_width && 0 <= target_px.1 < buffer_height),
{
    target_px.0 >= 0 && (target_px.0 as i64) < buffer_width as i64 && target_px.1 >= 0
        && (target_px.1 as i64) < buffer_height as i64
}

} // verus!
