//! The decay engine: the extra weight a stake earns while its holder's
//! candidates keep losing.
//!
//! Each election without a win lets the stake shrink by one part in
//! `ratio + 1` (integer division, so the lost part is rounded down) and adds
//! what is left to the offset. Beyond [`SATURATION`] elections the offset is
//! the flat cap `stake * ratio`.

use vstd::prelude::*;
use vstd::arithmetic::div_mod::lemma_fundamental_div_mod;
use vstd::arithmetic::div_mod::lemma_div_is_ordered;
use crate::Balance;
use crate::VoteIndex;
use crate::Weight;

verus! {

/// The distance beyond which the offset is the flat cap.
pub const SATURATION: u32 = 150;

/// What is left of `stake` after `t` decay steps.
pub open spec fn decayed(stake: nat, ratio: nat, t: nat) -> nat
    decreases t,
{
    if t == 0 {
        stake
    } else {
        let prev = decayed(stake, ratio, (t - 1) as nat);
        (prev - prev / (ratio + 1)) as nat
    }
}

/// The sum of the decayed stakes of steps `1..=t`.
pub open spec fn accrued(stake: nat, ratio: nat, t: nat) -> nat
    decreases t,
{
    if t == 0 {
        0
    } else {
        accrued(stake, ratio, (t - 1) as nat) + decayed(stake, ratio, t)
    }
}

/// What the integer divisions of steps `1..=t` dropped: the sum of the
/// remainders of the decayed stakes by `ratio + 1`.
pub open spec fn rounding_loss(stake: nat, ratio: nat, t: nat) -> nat
    decreases t,
{
    if t == 0 {
        0
    } else {
        let prev = decayed(stake, ratio, (t - 1) as nat);
        rounding_loss(stake, ratio, (t - 1) as nat) + prev % (ratio + 1)
    }
}

/// The weight offset of a stake whose holder last won `t` elections ago.
pub open spec fn offset(stake: nat, ratio: nat, t: nat) -> nat {
    if t > SATURATION {
        stake * ratio
    } else {
        accrued(stake, ratio, t)
    }
}

/// A decayed stake never exceeds the stake it started from.
pub proof fn lemma_decayed_bounded(stake: nat, ratio: nat, t: nat)
    ensures
        decayed(stake, ratio, t) <= stake,
    decreases t,
{
    if t > 0 {
        lemma_decayed_bounded(stake, ratio, (t - 1) as nat);
    }
}

/// Each step adds at most the stake itself.
pub proof fn lemma_accrued_bounded(stake: nat, ratio: nat, t: nat)
    ensures
        accrued(stake, ratio, t) <= t * stake,
    decreases t,
{
    if t > 0 {
        lemma_accrued_bounded(stake, ratio, (t - 1) as nat);
        lemma_decayed_bounded(stake, ratio, t);
        assert(t * stake == (t - 1) * stake + stake) by (nonlinear_arith);
    }
}

/// The exact balance of the iteration: what has accrued, plus `ratio` times
/// what is left of the stake, is `ratio` times the stake plus what the
/// divisions rounded away.
pub proof fn lemma_accrued_balance(stake: nat, ratio: nat, t: nat)
    ensures
        accrued(stake, ratio, t) + ratio * decayed(stake, ratio, t) == ratio * stake
            + rounding_loss(stake, ratio, t),
    decreases t,
{
    if t > 0 {
        let d = (ratio + 1) as int;
        let prev = decayed(stake, ratio, (t - 1) as nat) as int;
        let cur = decayed(stake, ratio, t) as int;
        lemma_accrued_balance(stake, ratio, (t - 1) as nat);
        lemma_fundamental_div_mod(prev, d);
        assert(d * cur == d * prev - d * (prev / d)) by (nonlinear_arith)
            requires
                cur == prev - prev / d,
        ;
        assert(d * cur == ratio * cur + cur) by (nonlinear_arith)
            requires
                d == ratio + 1,
        ;
        assert(d * prev == ratio * prev + prev) by (nonlinear_arith)
            requires
                d == ratio + 1,
        ;
    }
}

/// The offset is zero at distance zero.
pub proof fn lemma_offset_at_zero(stake: nat, ratio: nat)
    ensures
        offset(stake, ratio, 0) == 0,
{
}

/// With a decay ratio of zero no weight is ever added.
pub proof fn lemma_offset_without_decay(stake: nat, t: nat)
    ensures
        offset(stake, 0, t) == 0,
{
    lemma_accrued_without_decay(stake, t);
}

proof fn lemma_accrued_without_decay(stake: nat, t: nat)
    ensures
        accrued(stake, 0, t) == 0,
        t > 0 ==> decayed(stake, 0, t) == 0,
    decreases t,
{
    if t > 0 {
        lemma_accrued_without_decay(stake, (t - 1) as nat);
        let prev = decayed(stake, 0, (t - 1) as nat) as int;
        vstd::arithmetic::div_mod::lemma_div_basics(prev);
    }
}

/// The offset stays within `stake * ratio` exactly when the distance is past
/// saturation, or when the divisions have rounded away no more than `ratio`
/// times what is left of the stake.
pub proof fn lemma_offset_within_cap(stake: nat, ratio: nat, t: nat)
    ensures
        0 <= offset(stake, ratio, t),
        offset(stake, ratio, t) <= stake * ratio <==> (t > SATURATION || rounding_loss(
            stake,
            ratio,
            t,
        ) <= ratio * decayed(stake, ratio, t)),
{
    lemma_accrued_balance(stake, ratio, t);
    assert(stake * ratio == ratio * stake) by (nonlinear_arith);
}

/// The decay bound: on every input on which the rounded-away remainders do
/// not outweigh the rest of the stake, the offset lies between zero and
/// `stake * ratio`.
pub proof fn lemma_decay_bound(stake: nat, ratio: nat, t: nat)
    requires
        t > SATURATION || rounding_loss(stake, ratio, t) <= ratio * decayed(stake, ratio, t),
    ensures
        0 <= offset(stake, ratio, t) <= stake * ratio,
{
    lemma_offset_within_cap(stake, ratio, t);
}

/// The decay bound holds in particular while the distance is no more than
/// the ratio, and where the ratio is zero.
pub proof fn lemma_decay_bound_near(stake: nat, ratio: nat, t: nat)
    requires
        t <= ratio || ratio == 0,
    ensures
        0 <= offset(stake, ratio, t) <= stake * ratio,
{
    if ratio == 0 {
        lemma_offset_without_decay(stake, t);
    } else if t <= SATURATION {
        lemma_accrued_bounded(stake, ratio, t);
        assert(t * stake <= stake * ratio) by (nonlinear_arith)
            requires
                t <= ratio,
        ;
    }
}

/// Whatever the rounding, the offset exceeds `stake * ratio` by at most
/// `ratio` for each step taken.
pub proof fn lemma_offset_overshoot(stake: nat, ratio: nat, t: nat)
    ensures
        offset(stake, ratio, t) <= stake * ratio + ratio * t,
{
    lemma_accrued_balance(stake, ratio, t);
    lemma_rounding_loss_bounded(stake, ratio, t);
    assert(stake * ratio == ratio * stake) by (nonlinear_arith);
}

proof fn lemma_rounding_loss_bounded(stake: nat, ratio: nat, t: nat)
    ensures
        rounding_loss(stake, ratio, t) <= ratio * t,
    decreases t,
{
    if t > 0 {
        lemma_rounding_loss_bounded(stake, ratio, (t - 1) as nat);
        assert(ratio * t == ratio * (t - 1) + ratio) by (nonlinear_arith);
    }
}

/// The largest offset a stake of `stake` can earn at any distance.
pub open spec fn offset_ceiling(stake: nat, ratio: nat) -> nat {
    if ratio > SATURATION {
        stake * ratio
    } else {
        stake * (SATURATION as nat)
    }
}

/// No distance yields more than the ceiling.
pub proof fn lemma_offset_below_ceiling(stake: nat, ratio: nat, t: nat)
    ensures
        offset(stake, ratio, t) <= offset_ceiling(stake, ratio),
{
    if t > SATURATION {
        assert(ratio <= SATURATION ==> stake * ratio <= stake * (SATURATION as nat))
            by (nonlinear_arith);
    } else {
        lemma_accrued_bounded(stake, ratio, t);
        assert(t * stake <= stake * (SATURATION as nat)) by (nonlinear_arith)
            requires
                t <= SATURATION,
        ;
        assert(ratio > SATURATION ==> stake * (SATURATION as nat) <= stake * ratio)
            by (nonlinear_arith);
    }
}

/// A larger stake never decays to less.
pub proof fn lemma_decayed_monotone(low: nat, high: nat, ratio: nat, t: nat)
    requires
        low <= high,
    ensures
        decayed(low, ratio, t) <= decayed(high, ratio, t),
        accrued(low, ratio, t) <= accrued(high, ratio, t),
    decreases t,
{
    if t > 0 {
        lemma_decayed_monotone(low, high, ratio, (t - 1) as nat);
        let d = (ratio + 1) as int;
        let a = decayed(low, ratio, (t - 1) as nat) as int;
        let b = decayed(high, ratio, (t - 1) as nat) as int;
        lemma_fundamental_div_mod(a, d);
        lemma_fundamental_div_mod(b, d);
        lemma_div_is_ordered(a, b, d);
        assert(a - a / d <= b - b / d) by (nonlinear_arith)
            requires
                a <= b,
                d >= 1,
                a == d * (a / d) + a % d,
                b == d * (b / d) + b % d,
                0 <= a % d < d,
                0 <= b % d < d,
                a / d <= b / d,
        ;
    }
}

/// Within one regime the offset grows with the stake and with the distance.
pub proof fn lemma_offset_monotone(low: nat, high: nat, ratio: nat, near: nat, far: nat)
    requires
        low <= high,
        near <= far,
        far <= SATURATION || near > SATURATION,
    ensures
        offset(low, ratio, near) <= offset(high, ratio, far),
{
    if near > SATURATION {
        assert(low * ratio <= high * ratio) by (nonlinear_arith)
            requires
                low <= high,
        ;
    } else {
        lemma_decayed_monotone(low, high, ratio, near);
        lemma_accrued_grows(high, ratio, near, far);
    }
}

proof fn lemma_accrued_grows(stake: nat, ratio: nat, near: nat, far: nat)
    requires
        near <= far,
    ensures
        accrued(stake, ratio, near) <= accrued(stake, ratio, far),
    decreases far,
{
    if near < far {
        lemma_accrued_grows(stake, ratio, near, (far - 1) as nat);
    }
}

/// Computes the weight offset of `stake` at distance `t` from the last win.
pub fn get_offset(stake: Balance, ratio: u32, t: VoteIndex) -> (r: Weight)
    ensures
        r == offset(stake as nat, ratio as nat, t as nat),
{
    let wide_ratio: u128 = ratio as u128;
    let wide_stake: u128 = stake as u128;
    if t > SATURATION {
        assert(wide_stake * wide_ratio <= 0x1_0000_0000_0000_0000_0000_0000) by (nonlinear_arith)
            requires
                wide_stake <= 0xffff_ffff_ffff_ffff,
                wide_ratio <= 0xffff_ffff,
        ;
        return wide_stake * wide_ratio;
    }
    let decay: u128 = wide_ratio + 1;
    let mut left: u128 = wide_stake;
    let mut sum: u128 = 0;
    let mut i: u32 = 0;
    while i < t
        invariant
            i <= t <= SATURATION,
            decay == ratio + 1,
            wide_stake == stake,
            left == decayed(stake as nat, ratio as nat, i as nat),
            sum == accrued(stake as nat, ratio as nat, i as nat),
            left <= wide_stake,
            sum <= i * wide_stake,
        decreases t - i,
    {
        proof {
            lemma_accrued_bounded(stake as nat, ratio as nat, (i + 1) as nat);
            assert((i + 1) * wide_stake <= 150 * 0xffff_ffff_ffff_ffff) by (nonlinear_arith)
                requires
                    i + 1 <= 150,
                    wide_stake <= 0xffff_ffff_ffff_ffff,
            ;
        }
        left = left.saturating_sub(left / decay);
        sum = sum + left;
        i = i + 1;
    }
    sum
}

} // verus!
