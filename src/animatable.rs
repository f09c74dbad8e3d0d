use vstd::pervasive::strictly_cloned;
use vstd::prelude::*;

verus! {

/// A value type that can be animated: it blends between two endpoints.
///
/// Progress is the exact fraction `num / den` of the way from `start` to `end`.
pub trait Animatable: Clone + Sized {
    /// The blended value, as a function of the endpoints and the fraction `num / den`.
    spec fn blend(start: Self, end: Self, num: nat, den: nat) -> Self;

    /// With no progress made, the blend is the start value.
    proof fn lemma_blend_at_start(start: Self, end: Self, den: nat)
        requires
            den > 0,
        ensures
            Self::blend(start, end, 0, den) == start,
    ;

    /// Whether blending by the fraction `num / den` gives a representable value.
    spec fn can_blend(start: Self, end: Self, num: nat, den: nat) -> bool;

    /// Every fraction from zero to one gives a representable value.
    proof fn lemma_can_blend_within(start: Self, end: Self, num: nat, den: nat)
        requires
            0 < den,
            num <= den,
        ensures
            Self::can_blend(start, end, num, den),
    ;

    /// Cloning a value yields an identical value.
    proof fn lemma_clone_exact(a: Self, b: Self)
        requires
            strictly_cloned(a, b),
        ensures
            a == b,
    ;

    /// Blends `start` towards `end` by the fraction `num / den`, which may exceed one
    /// (the blend then extends past `end`).
    fn interpolate(start: &Self, end: &Self, num: u64, den: u64) -> (r: Self)
        requires
            0 < den,
            Self::can_blend(*start, *end, num as nat, den as nat),
        ensures
            r == Self::blend(*start, *end, num as nat, den as nat),
    ;
}

/// Placeholder for a set of animated properties of some target.
pub struct AnimatableProperties {}

/// Linear blend of two integers, `start + (end - start) * (num as int) / (den as int)`, with the
/// fractional part dropped towards `start`.
pub open spec fn lerp_int(start: int, end: int, num: nat, den: nat) -> int {
    if start <= end {
        start + (end - start) * (num as int) / (den as int)
    } else {
        start - (start - end) * (num as int) / (den as int)
    }
}

proof fn lemma_scaled_le(delta: nat, num: nat, den: nat)
    requires
        0 < den,
        num <= den,
    ensures
        delta * num / den <= delta,
        0 <= delta * num / den,
{
    assert(delta * num <= delta * den) by (nonlinear_arith)
        requires
            num <= den,
    ;
    assert(delta * num / den <= delta) by (nonlinear_arith)
        requires
            delta * num <= delta * den,
            0 < den,
    ;
    assert(0 <= delta * num / den) by (nonlinear_arith)
        requires
            0 < den,
    ;
}

proof fn lemma_product_fits(delta: u128, num: u64)
    requires
        delta <= 0xffff_ffff_ffff_ffffu128,
    ensures
        delta * num <= 0xffff_ffff_ffff_ffffu128 * 0xffff_ffff_ffff_ffffu128,
{
    assert(delta * num <= 0xffff_ffff_ffff_ffffu128 * 0xffff_ffff_ffff_ffffu128) by (nonlinear_arith)
        requires
            delta <= 0xffff_ffff_ffff_ffffu128,
            num <= 0xffff_ffff_ffff_ffffu64,
    ;
}

impl Animatable for i64 {
    open spec fn blend(start: i64, end: i64, num: nat, den: nat) -> i64 {
        lerp_int(start as int, end as int, num, den) as i64
    }

    proof fn lemma_blend_at_start(start: i64, end: i64, den: nat) {
        let d: int = if start <= end { end - start } else { start - end };
        assert(d * 0 == 0);
        assert(0int / (den as int) == 0);
    }

    open spec fn can_blend(start: i64, end: i64, num: nat, den: nat) -> bool {
        i64::MIN <= lerp_int(start as int, end as int, num, den) <= i64::MAX
    }

    proof fn lemma_can_blend_within(start: i64, end: i64, num: nat, den: nat) {
        let delta: nat = if start <= end {
            (end - start) as nat
        } else {
            (start - end) as nat
        };
        lemma_scaled_le(delta, num, den);
    }

    proof fn lemma_clone_exact(a: i64, b: i64) {
    }

    fn interpolate(start: &i64, end: &i64, num: u64, den: u64) -> (r: i64) {
        let s = *start;
        let e = *end;
        if s <= e {
            let delta: u128 = (e as i128 - s as i128) as u128;
            proof {
                lemma_product_fits(delta, num);
            }
            let q: u128 = delta * (num as u128) / (den as u128);
            (s as i128 + q as i128) as i64
        } else {
            let delta: u128 = (s as i128 - e as i128) as u128;
            proof {
                lemma_product_fits(delta, num);
            }
            let q: u128 = delta * (num as u128) / (den as u128);
            (s as i128 - q as i128) as i64
        }
    }
}

} // verus!
