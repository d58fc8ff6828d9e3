//! The option chain as the analytics read it.
use vstd::prelude::*;

verus! {

/// Gamma is carried in fixed point: a quoted gamma `g` is held as
/// `g * GAMMA_SCALE`, rounded.
pub const GAMMA_SCALE: i64 = 1_000_000_000;

/// Data-quality guard: a gamma whose absolute value exceeds one (this many
/// scaled units) is taken to be a corrupt quote and contributes nothing.
pub const GAMMA_GUARD: i64 = GAMMA_SCALE;

/// Implied volatility is carried in fixed point: `v` is held as `v * IV_SCALE`.
pub const IV_SCALE: i64 = 1_000_000;

#[derive(Clone, Copy, Debug, PartialEq, Eq, Structural)]
pub enum OptionType {
    Call,
    Put,
}

/// Greeks quoted for one contract, both in fixed point.
#[derive(Clone, Copy, Debug, PartialEq, Eq, Structural)]
pub struct Greeks {
    /// Gamma times `GAMMA_SCALE`.
    pub gamma: i64,
    /// Implied volatility times `IV_SCALE`.
    pub implied_volatility: i64,
}

/// One contract of an option chain.
#[derive(Clone, Debug)]
pub struct OptionContract {
    /// Strike price in cents.
    pub strike: u64,
    /// Expiration date as `yyyy-mm-dd`.
    pub expiration_date: String,
    pub option_type: OptionType,
    pub open_interest: u32,
    pub greeks: Option<Greeks>,
}

/// The gamma that counts after the data-quality guard.
pub open spec fn guarded_gamma(g: i64) -> int {
    if g > GAMMA_GUARD || g < -GAMMA_GUARD {
        0
    } else {
        g as int
    }
}

/// Dealer sign convention: calls add exposure, puts take it away.
pub open spec fn signed_for(t: OptionType, x: int) -> int {
    match t {
        OptionType::Call => x,
        OptionType::Put => -x,
    }
}

/// Exposure of `open_interest` contracts of type `t` whose gamma is `g`.
pub open spec fn exposure_of(t: OptionType, open_interest: u32, g: i64) -> int {
    signed_for(t, guarded_gamma(g) * open_interest)
}

/// The largest exposure, in absolute value, that one contract can add.
pub open spec fn max_contribution() -> int {
    GAMMA_GUARD * u32::MAX
}

pub proof fn lemma_exposure_bounded(t: OptionType, open_interest: u32, g: i64)
    ensures
        -max_contribution() <= exposure_of(t, open_interest, g) <= max_contribution(),
{
    let gg = guarded_gamma(g);
    let oi = open_interest as int;
    assert(-(GAMMA_GUARD as int) <= gg <= GAMMA_GUARD);
    assert(0 <= oi <= u32::MAX);
    assert(-(GAMMA_GUARD * u32::MAX) <= gg * oi <= GAMMA_GUARD * u32::MAX) by (nonlinear_arith)
        requires
            -(GAMMA_GUARD as int) <= gg <= GAMMA_GUARD,
            0 <= oi <= u32::MAX,
    ;
}

/// Exposure of `open_interest` contracts of type `t` with gamma `g`, after the
/// data-quality guard and the sign convention.
pub fn exposure(t: OptionType, open_interest: u32, g: i64) -> (r: i128)
    ensures
        r == exposure_of(t, open_interest, g),
{
    let gg: i64 = if g > GAMMA_GUARD || g < -GAMMA_GUARD {
        0
    } else {
        g
    };
    proof {
        lemma_exposure_bounded(t, open_interest, g);
    }
    let raw: i128 = (gg as i128) * (open_interest as i128);
    match t {
        OptionType::Call => raw,
        OptionType::Put => -raw,
    }
}

} // verus!
