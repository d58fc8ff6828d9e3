//! The statistics report over an exposure map.
use vstd::prelude::*;
use crate::exposure_map::ExposureMap;

verus! {

/// An exact quotient `numerator / denominator`.
#[derive(Clone, Copy, Debug, PartialEq, Eq, Structural)]
pub struct Ratio {
    pub numerator: i128,
    pub denominator: i128,
}

pub open spec fn ratio_is(r: Ratio, numerator: int, denominator: int) -> bool {
    r.numerator == numerator && r.denominator == denominator
}

/// One price level of the report: strike in cents and its exposure.
#[derive(Clone, Copy, Debug, PartialEq, Eq, Structural)]
pub struct GammaExposure {
    pub strike: u64,
    pub gamma_exposure: i128,
}

impl GammaExposure {
    pub fn new(strike: u64, gamma_exposure: i128) -> (r: Self)
        ensures
            r.strike == strike,
            r.gamma_exposure == gamma_exposure,
    {
        GammaExposure { strike, gamma_exposure }
    }
}

#[derive(Clone, Copy, Debug, PartialEq, Eq, Structural)]
pub enum SummaryError {
    /// No exposure to weigh prices by: the map is empty or all zero.
    ArithmeticDegeneracy,
    /// A sum of the report does not fit in an `i128`.
    Overflow,
}

/// Summary of an exposure map. Exposures are in the map's units, prices in
/// cents. Extremes are seeded at zero: a map without positive entries reports
/// a maximum of zero, one without negative entries a minimum of zero. An empty
/// side averages to zero over a count of one, and has no weighted price.
#[derive(Clone, Debug)]
pub struct GammaExposureStats {
    /// Every price level with its exposure, by ascending price.
    pub prices: Vec<GammaExposure>,
    pub average_absolute_exposure: Ratio,
    pub average_positive_exposure: Ratio,
    pub average_negative_exposure: Ratio,
    pub maximum: i128,
    pub minimum: i128,
    pub absolute_maximum: i128,
    pub weighted_average_absolute_price: Ratio,
    pub weighted_average_positive_price: Option<Ratio>,
    pub weighted_average_negative_price: Option<Ratio>,
}

/// Sum of the non-negative exposures among the first `n`.
pub open spec fn pos_sum(vs: Seq<i128>, n: int) -> int
    decreases n,
{
    if n <= 0 {
        0
    } else {
        pos_sum(vs, n - 1) + if vs[n - 1] >= 0 { vs[n - 1] as int } else { 0 }
    }
}

/// Sum of the negative exposures among the first `n`.
pub open spec fn neg_sum(vs: Seq<i128>, n: int) -> int
    decreases n,
{
    if n <= 0 {
        0
    } else {
        neg_sum(vs, n - 1) + if vs[n - 1] < 0 { vs[n - 1] as int } else { 0 }
    }
}

pub open spec fn pos_count(vs: Seq<i128>, n: int) -> int
    decreases n,
{
    if n <= 0 {
        0
    } else {
        pos_count(vs, n - 1) + if vs[n - 1] >= 0 { 1int } else { 0 }
    }
}

pub open spec fn neg_count(vs: Seq<i128>, n: int) -> int
    decreases n,
{
    if n <= 0 {
        0
    } else {
        neg_count(vs, n - 1) + if vs[n - 1] < 0 { 1int } else { 0 }
    }
}

/// Sum of price times exposure over the non-negative exposures among the first `n`.
pub open spec fn wpos_sum(ks: Seq<u64>, vs: Seq<i128>, n: int) -> int
    decreases n,
{
    if n <= 0 {
        0
    } else {
        wpos_sum(ks, vs, n - 1) + if vs[n - 1] >= 0 { ks[n - 1] * vs[n - 1] } else { 0 }
    }
}

/// Sum of price times exposure over the negative exposures among the first `n`.
pub open spec fn wneg_sum(ks: Seq<u64>, vs: Seq<i128>, n: int) -> int
    decreases n,
{
    if n <= 0 {
        0
    } else {
        wneg_sum(ks, vs, n - 1) + if vs[n - 1] < 0 { ks[n - 1] * vs[n - 1] } else { 0 }
    }
}

pub open spec fn seeded_max(vs: Seq<i128>, n: int) -> int
    decreases n,
{
    if n <= 0 {
        0
    } else if vs[n - 1] > seeded_max(vs, n - 1) {
        vs[n - 1] as int
    } else {
        seeded_max(vs, n - 1)
    }
}

pub open spec fn seeded_min(vs: Seq<i128>, n: int) -> int
    decreases n,
{
    if n <= 0 {
        0
    } else if vs[n - 1] < seeded_min(vs, n - 1) {
        vs[n - 1] as int
    } else {
        seeded_min(vs, n - 1)
    }
}

pub open spec fn abs_int(x: int) -> int {
    if x < 0 {
        -x
    } else {
        x
    }
}

pub open spec fn seeded_abs_max(vs: Seq<i128>, n: int) -> int
    decreases n,
{
    if n <= 0 {
        0
    } else if abs_int(vs[n - 1] as int) > seeded_abs_max(vs, n - 1) {
        abs_int(vs[n - 1] as int)
    } else {
        seeded_abs_max(vs, n - 1)
    }
}

/// Sum of absolute exposures.
pub open spec fn abs_total(vs: Seq<i128>) -> int {
    pos_sum(vs, vs.len() as int) - neg_sum(vs, vs.len() as int)
}

/// Sum of price times absolute exposure.
pub open spec fn weighted_abs_total(ks: Seq<u64>, vs: Seq<i128>) -> int {
    wpos_sum(ks, vs, vs.len() as int) - wneg_sum(ks, vs, vs.len() as int)
}

/// Whether a sum of the report leaves the range of `i128`.
pub open spec fn summary_overflows(ks: Seq<u64>, vs: Seq<i128>) -> bool {
    abs_total(vs) > i128::MAX || weighted_abs_total(ks, vs) > i128::MAX
}

pub open spec fn floor_one(c: int) -> int {
    if c == 0 {
        1
    } else {
        c
    }
}

/// `r` is the report over price levels `ks` with exposures `vs`.
pub open spec fn stats_match(r: GammaExposureStats, ks: Seq<u64>, vs: Seq<i128>) -> bool {
    let n = vs.len() as int;
    let ps = pos_sum(vs, n);
    let ns = neg_sum(vs, n);
    let wps = wpos_sum(ks, vs, n);
    let wns = wneg_sum(ks, vs, n);
    &&& r.prices@.len() == n
    &&& forall|j: int|
        0 <= j < n ==> #[trigger] r.prices@[j].strike == ks[j] && r.prices@[j].gamma_exposure
            == vs[j]
    &&& ratio_is(r.average_positive_exposure, ps, floor_one(pos_count(vs, n)))
    &&& ratio_is(r.average_negative_exposure, ns, floor_one(neg_count(vs, n)))
    &&& ratio_is(
        r.average_absolute_exposure,
        ps - ns,
        floor_one(pos_count(vs, n)) + floor_one(neg_count(vs, n)),
    )
    &&& r.maximum == seeded_max(vs, n)
    &&& r.minimum == seeded_min(vs, n)
    &&& r.absolute_maximum == seeded_abs_max(vs, n)
    &&& ratio_is(r.weighted_average_absolute_price, wps - wns, ps - ns)
    &&& (if ps == 0 {
        r.weighted_average_positive_price.is_none()
    } else {
        r.weighted_average_positive_price.is_some() && ratio_is(
            r.weighted_average_positive_price.unwrap(),
            wps,
            ps,
        )
    })
    &&& (if ns == 0 {
        r.weighted_average_negative_price.is_none()
    } else {
        r.weighted_average_negative_price.is_some() && ratio_is(
            r.weighted_average_negative_price.unwrap(),
            -wns,
            -ns,
        )
    })
}

/// What summarizing price levels `ks` with exposures `vs` gives: an overflow
/// error, a degeneracy error where there is no exposure at all, else the report.
pub open spec fn summary_outcome(
    r: Result<GammaExposureStats, SummaryError>,
    ks: Seq<u64>,
    vs: Seq<i128>,
) -> bool {
    if summary_overflows(ks, vs) {
        r == Err::<GammaExposureStats, SummaryError>(SummaryError::Overflow)
    } else if abs_total(vs) == 0 {
        r == Err::<GammaExposureStats, SummaryError>(SummaryError::ArithmeticDegeneracy)
    } else {
        r.is_ok() && stats_match(r.unwrap(), ks, vs)
    }
}

pub proof fn lemma_sums_monotone(ks: Seq<u64>, vs: Seq<i128>, i: int, n: int)
    requires
        0 <= i <= n,
    ensures
        0 <= pos_sum(vs, i) <= pos_sum(vs, n),
        0 >= neg_sum(vs, i) >= neg_sum(vs, n),
        0 <= wpos_sum(ks, vs, i) <= wpos_sum(ks, vs, n),
        0 >= wneg_sum(ks, vs, i) >= wneg_sum(ks, vs, n),
    decreases n,
{
    if n > 0 {
        if i < n {
            lemma_sums_monotone(ks, vs, i, n - 1);
        } else {
            lemma_sums_monotone(ks, vs, i - 1, n - 1);
        }
        let k = ks[n - 1] as int;
        let v = vs[n - 1] as int;
        if v >= 0 {
            assert(k * v >= 0) by (nonlinear_arith)
                requires
                    k >= 0,
                    v >= 0,
            ;
        } else {
            assert(k * v <= 0) by (nonlinear_arith)
                requires
                    k >= 0,
                    v < 0,
            ;
        }
    }
}

impl GammaExposureStats {
    /// Summarizes `map`: sums, counts and seeded extremes of its positive
    /// (non-negative) and negative exposures, their averages, and the
    /// exposure-weighted centroid prices.
    pub fn new(map: &ExposureMap) -> (r: Result<Self, SummaryError>)
        requires
            map.wf(),
        ensures
            summary_outcome(r, map.key_seq(), map.value_seq()),
            map@.len() == 0 ==> r == Err::<Self, SummaryError>(SummaryError::ArithmeticDegeneracy),
    {
        let ghost ks = map.key_seq();
        let ghost vs = map.value_seq();
        let n = map.len();
        let mut ps: i128 = 0;
        let mut ns: i128 = 0;
        let mut wps: i128 = 0;
        let mut wns: i128 = 0;
        let mut pc: usize = 0;
        let mut nc: usize = 0;
        let mut maximum: i128 = 0;
        let mut minimum: i128 = 0;
        let mut absolute_maximum: i128 = 0;
        let mut prices: Vec<GammaExposure> = Vec::new();
        let mut i: usize = 0;
        while i < n
            invariant
                n == vs.len(),
                n == ks.len(),
                n == map@.len(),
                ks == map.key_seq(),
                vs == map.value_seq(),
                map.wf(),
                i <= n,
                ps == pos_sum(vs, i as int),
                ns == neg_sum(vs, i as int),
                wps == wpos_sum(ks, vs, i as int),
                wns == wneg_sum(ks, vs, i as int),
                pc == pos_count(vs, i as int),
                nc == neg_count(vs, i as int),
                pc + nc == i,
                ps - ns <= i128::MAX,
                wps - wns <= i128::MAX,
                maximum == seeded_max(vs, i as int),
                minimum == seeded_min(vs, i as int),
                absolute_maximum == seeded_abs_max(vs, i as int),
                0 <= absolute_maximum <= ps - ns,
                prices@.len() == i,
                forall|j: int|
                    0 <= j < i ==> #[trigger] prices@[j].strike == ks[j]
                        && prices@[j].gamma_exposure == vs[j],
            decreases n - i,
        {
            proof {
                lemma_sums_monotone(ks, vs, i as int, i as int);
                lemma_sums_monotone(ks, vs, i + 1, n as int);
            }
            let (k, v) = map.entry(i);
            let total = ps - ns;
            let wtotal = wps - wns;
            let ghost kv = k as int * v as int;
            if v >= 0 {
                if total.checked_add(v).is_none() {
                    return Err(SummaryError::Overflow);
                }
                let w = match (k as i128).checked_mul(v) {
                    Some(w) => w,
                    None => {
                        assert(kv >= 0) by (nonlinear_arith)
                            requires
                                kv == k as int * v as int,
                                v >= 0,
                        ;
                        return Err(SummaryError::Overflow);
                    },
                };
                if wtotal.checked_add(w).is_none() {
                    return Err(SummaryError::Overflow);
                }
                ps = ps + v;
                wps = wps + w;
                pc = pc + 1;
            } else {
                if total.checked_sub(v).is_none() {
                    return Err(SummaryError::Overflow);
                }
                let w = match (k as i128).checked_mul(v) {
                    Some(w) => w,
                    None => {
                        assert(kv <= 0) by (nonlinear_arith)
                            requires
                                kv == k as int * v as int,
                                v < 0,
                        ;
                        return Err(SummaryError::Overflow);
                    },
                };
                if wtotal.checked_sub(w).is_none() {
                    return Err(SummaryError::Overflow);
                }
                ns = ns + v;
                wns = wns + w;
                nc = nc + 1;
            }
            if v > maximum {
                maximum = v;
            }
            if v < minimum {
                minimum = v;
            }
            let av: i128 = if v < 0 {
                -v
            } else {
                v
            };
            if av > absolute_maximum {
                absolute_maximum = av;
            }
            prices.push(GammaExposure::new(k, v));
            i = i + 1;
        }
        proof {
            lemma_sums_monotone(ks, vs, 0, n as int);
        }
        if ps == 0 && ns == 0 {
            return Err(SummaryError::ArithmeticDegeneracy);
        }
        let pcf: i128 = if pc == 0 {
            1
        } else {
            pc as i128
        };
        let ncf: i128 = if nc == 0 {
            1
        } else {
            nc as i128
        };
        let weighted_average_positive_price = if ps == 0 {
            None
        } else {
            Some(Ratio { numerator: wps, denominator: ps })
        };
        let weighted_average_negative_price = if ns == 0 {
            None
        } else {
            Some(Ratio { numerator: -wns, denominator: -ns })
        };
        Ok(GammaExposureStats {
            prices,
            average_absolute_exposure: Ratio { numerator: ps - ns, denominator: pcf + ncf },
            average_positive_exposure: Ratio { numerator: ps, denominator: pcf },
            average_negative_exposure: Ratio { numerator: ns, denominator: ncf },
            maximum,
            minimum,
            absolute_maximum,
            weighted_average_absolute_price: Ratio { numerator: wps - wns, denominator: ps - ns },
            weighted_average_positive_price,
            weighted_average_negative_price,
        })
    }
}

} // verus!
