//! Exposure over the grid of all strikes, from gamma recomputed by the
//! pricing model at every grid price for every contract.
use vstd::prelude::*;
use crate::chain::{exposure, exposure_of, lemma_exposure_bounded, max_contribution, OptionContract, OptionType};
use crate::date::{days_from_ce, digits_value, day_text, month_text, parse_date, text_bytes, year_text, is_date_text, CalendarDate, ChainError};
use crate::exposure_map::{strictly_increasing, ExposureMap};
use crate::stats::{abs_total, stats_match, summary_overflows, GammaExposureStats, SummaryError};

verus! {

/// What the pricing model needs of one contract.
#[derive(Clone, Copy, Debug, PartialEq, Eq, Structural)]
pub struct ModelInput {
    /// Strike in cents.
    pub strike: u64,
    /// Days from the valuation date to expiration; negative once expired.
    pub days_to_expiration: i64,
    /// Implied volatility times `IV_SCALE`, zero where the contract has no greeks.
    pub implied_volatility: i64,
}

/// The strikes that occur in `s`.
pub open spec fn chain_strikes(s: Seq<OptionContract>) -> Set<u64> {
    Set::new(|k: u64| exists|i: int| 0 <= i < s.len() && s[i].strike == k)
}

/// Every expiration date of `s` is a valid `yyyy-mm-dd` date.
pub open spec fn dates_parse(s: Seq<OptionContract>) -> bool {
    forall|i: int| 0 <= i < s.len() ==> is_date_text(text_bytes(#[trigger] s[i].expiration_date@))
}

/// Day number of the expiration date of `c` (meaningful where it parses).
pub open spec fn expiration_day(c: OptionContract) -> int {
    let b = text_bytes(c.expiration_date@);
    days_from_ce(digits_value(year_text(b)), digits_value(month_text(b)), digits_value(day_text(b)))
}

pub open spec fn implied_volatility_of(c: OptionContract) -> int {
    match c.greeks {
        Some(g) => g.implied_volatility as int,
        None => 0,
    }
}

/// Exposure that contract type `t` with `open_interest` adds at a grid price
/// where the pricing model gave `g`; `None` stands for an undefined gamma.
pub open spec fn model_exposure_of(t: OptionType, open_interest: u32, g: Option<i64>) -> int {
    match g {
        Some(g) => exposure_of(t, open_interest, g),
        None => 0,
    }
}

/// Exposure at grid column `j` from the first `n` contracts of `s`, where
/// `gammas[i][j]` is the model gamma of contract `i` at grid price `j`.
pub open spec fn column_sum(s: Seq<OptionContract>, gammas: Seq<Vec<Option<i64>>>, j: int, n: int) -> int
    decreases n,
{
    if n <= 0 {
        0
    } else {
        column_sum(s, gammas, j, n - 1) + model_exposure_of(
            s[n - 1].option_type,
            s[n - 1].open_interest,
            gammas[n - 1]@[j],
        )
    }
}

/// The exposures of the model map, one per grid price.
pub open spec fn model_values(s: Seq<OptionContract>, gammas: Seq<Vec<Option<i64>>>, width: int) -> Seq<i128> {
    Seq::new(width as nat, |j: int| column_sum(s, gammas, j, s.len() as int) as i128)
}

pub open spec fn gamma_table_fits(s: Seq<OptionContract>, gammas: Seq<Vec<Option<i64>>>, width: int) -> bool {
    gammas.len() == s.len() && forall|i: int| 0 <= i < gammas.len() ==> (#[trigger] gammas[i])@.len() == width
}

proof fn lemma_column_sum_bounded(s: Seq<OptionContract>, gammas: Seq<Vec<Option<i64>>>, j: int, n: int)
    requires
        0 <= n,
    ensures
        -(n * max_contribution()) <= column_sum(s, gammas, j, n) <= n * max_contribution(),
    decreases n,
{
    if n > 0 {
        lemma_column_sum_bounded(s, gammas, j, n - 1);
        if let Some(g) = gammas[n - 1]@[j] {
            lemma_exposure_bounded(s[n - 1].option_type, s[n - 1].open_interest, g);
        }
        assert(n * max_contribution() == (n - 1) * max_contribution() + max_contribution()) by (nonlinear_arith);
    }
}

/// The distinct strikes of the chain, ascending: the grid of prices at which
/// the model is evaluated.
pub fn strike_grid(options: &Vec<OptionContract>) -> (r: Vec<u64>)
    ensures
        strictly_increasing(r@),
        r@.to_set() == chain_strikes(options@),
{
    let mut m = ExposureMap::new();
    let mut i: usize = 0;
    while i < options.len()
        invariant
            i <= options@.len(),
            m.wf(),
            m@.dom() == chain_strikes(options@.subrange(0, i as int)),
        decreases options@.len() - i,
    {
        let ghost before = options@.subrange(0, i as int);
        let ghost after = options@.subrange(0, i + 1);
        let k = options[i].strike;
        m.add(k, 0);
        proof {
            assert forall|x: u64| #[trigger] chain_strikes(after).contains(x) == m@.dom().contains(x) by {
                if chain_strikes(after).contains(x) && x != k {
                    let p = choose|p: int| 0 <= p < after.len() && after[p].strike == x;
                    assert(before[p] == after[p]);
                }
                if chain_strikes(before).contains(x) {
                    let p = choose|p: int| 0 <= p < before.len() && before[p].strike == x;
                    assert(after[p] == before[p]);
                }
                if x == k {
                    assert(after[i as int].strike == k);
                }
            }
            assert(m@.dom() =~= chain_strikes(after));
        }
        i += 1;
    }
    assert(options@.subrange(0, options@.len() as int) =~= options@);
    let r = m.price_levels();
    assert(r@.to_set() =~= chain_strikes(options@));
    r
}

/// For each contract, the inputs of the pricing model as of `today`; fails
/// when an expiration date is not a valid `yyyy-mm-dd` date.
pub fn model_inputs(options: &Vec<OptionContract>, today: &CalendarDate) -> (r: Result<Vec<ModelInput>, ChainError>)
    ensures
        r.is_ok() == dates_parse(options@),
        r.is_err() ==> r == Err::<Vec<ModelInput>, ChainError>(ChainError::MalformedInput),
        r.is_ok() ==> r.unwrap()@.len() == options@.len() && forall|i: int| 0 <= i < options@.len() ==> {
            let x = #[trigger] r.unwrap()@[i];
            &&& x.strike == options@[i].strike
            &&& x.days_to_expiration == expiration_day(options@[i]) - today.spec_day_number()
            &&& x.implied_volatility == implied_volatility_of(options@[i])
        },
{
    let mut r: Vec<ModelInput> = Vec::new();
    let mut i: usize = 0;
    while i < options.len()
        invariant
            i <= options@.len(),
            r@.len() == i,
            forall|k: int| 0 <= k < i ==> is_date_text(text_bytes(#[trigger] options@[k].expiration_date@)),
            forall|k: int| 0 <= k < i ==> {
                let x = #[trigger] r@[k];
                &&& x.strike == options@[k].strike
                &&& x.days_to_expiration == expiration_day(options@[k]) - today.spec_day_number()
                &&& x.implied_volatility == implied_volatility_of(options@[k])
            },
        decreases options@.len() - i,
    {
        let c = &options[i];
        let expiration = match parse_date(c.expiration_date.as_str()) {
            Ok(d) => d,
            Err(e) => {
                return Err(e);
            },
        };
        let implied_volatility = match c.greeks {
            Some(g) => g.implied_volatility,
            None => 0,
        };
        let days_to_expiration = today.days_until(&expiration);
        r.push(ModelInput { strike: c.strike, days_to_expiration, implied_volatility });
        i += 1;
    }
    Ok(r)
}

/// Exposure at every grid price: each contract adds, at each grid price, its
/// guarded, signed model gamma times open interest. `gammas[i][j]` is the model
/// gamma of contract `i` at `grid[j]`, `None` where the model is undefined.
pub fn aggregate_exposure(
    options: &Vec<OptionContract>,
    grid: &Vec<u64>,
    gammas: &Vec<Vec<Option<i64>>>,
) -> (r: ExposureMap)
    requires
        strictly_increasing(grid@),
        gamma_table_fits(options@, gammas@, grid@.len() as int),
    ensures
        r.wf(),
        r.key_seq() == grid@,
        r.value_seq() == model_values(options@, gammas@, grid@.len() as int),
        forall|j: int| 0 <= j < grid@.len() ==> #[trigger] r.value_seq()[j] == column_sum(options@, gammas@, j, options@.len() as int),
{
    let mut values: Vec<i128> = Vec::new();
    let mut j: usize = 0;
    while j < grid.len()
        invariant
            j <= grid@.len(),
            gamma_table_fits(options@, gammas@, grid@.len() as int),
            values@.len() == j,
            forall|k: int| 0 <= k < j ==> #[trigger] values@[k] == column_sum(options@, gammas@, k, options@.len() as int),
        decreases grid@.len() - j,
    {
        let mut acc: i128 = 0;
        let mut i: usize = 0;
        while i < options.len()
            invariant
                i <= options@.len(),
                j < grid@.len(),
                gamma_table_fits(options@, gammas@, grid@.len() as int),
                acc == column_sum(options@, gammas@, j as int, i as int),
            decreases options@.len() - i,
        {
            let c = &options[i];
            let row = &gammas[i];
            let g = row[j];
            proof {
                lemma_column_sum_bounded(options@, gammas@, j as int, i as int);
                let b = i * max_contribution();
                assert(b + max_contribution() <= 0x1_0000_0000_0000_0000 * max_contribution()) by (nonlinear_arith)
                    requires
                        b == i * max_contribution(),
                        i < 0x1_0000_0000_0000_0000,
                        max_contribution() >= 0,
                ;
            }
            match g {
                Some(g) => {
                    proof {
                        lemma_exposure_bounded(c.option_type, c.open_interest, g);
                    }
                    acc = acc + exposure(c.option_type, c.open_interest, g);
                },
                None => {},
            }
            i += 1;
        }
        values.push(acc);
        j += 1;
    }
    let n = options.len();
    proof {
        assert forall|k: int| 0 <= k < grid@.len() implies #[trigger] values@[k] == model_values(options@, gammas@, grid@.len() as int)[k] by {
            lemma_column_sum_bounded(options@, gammas@, k, options@.len() as int);
            assert(n * max_contribution() <= 0x1_0000_0000_0000_0000 * max_contribution()) by (nonlinear_arith)
                requires
                    n < 0x1_0000_0000_0000_0000,
                    max_contribution() >= 0,
            ;
        }
        assert(values@ =~= model_values(options@, gammas@, grid@.len() as int));
    }
    ExposureMap::from_sorted(grid.clone(), values)
}

#[derive(Clone, Copy, Debug, PartialEq, Eq, Structural)]
pub enum AggregateError {
    /// An expiration date of the chain is not a valid `yyyy-mm-dd` date.
    MalformedInput,
    /// The report over the model exposure could not be formed.
    Summary(SummaryError),
}

/// What the model aggregate over price levels `ks` with exposures `vs` gives,
/// once every date of the chain has parsed.
pub open spec fn aggregate_outcome(
    r: Result<GammaExposureStats, AggregateError>,
    ks: Seq<u64>,
    vs: Seq<i128>,
) -> bool {
    if summary_overflows(ks, vs) {
        r == Err::<GammaExposureStats, AggregateError>(AggregateError::Summary(SummaryError::Overflow))
    } else if abs_total(vs) == 0 {
        r == Err::<GammaExposureStats, AggregateError>(
            AggregateError::Summary(SummaryError::ArithmeticDegeneracy),
        )
    } else {
        r.is_ok() && stats_match(r.unwrap(), ks, vs)
    }
}

/// Statistics report over the model exposure at every strike of the chain,
/// as of `today`. `grid` is the chain's distinct strikes, ascending (as
/// `strike_grid` gives them), and `gammas[i][j]` the model gamma of contract
/// `i` at `grid[j]`. Fails with `MalformedInput`, and no report, when an
/// expiration date does not parse.
pub fn gamma_exposure_aggregate(
    options: &Vec<OptionContract>,
    today: &CalendarDate,
    grid: &Vec<u64>,
    gammas: &Vec<Vec<Option<i64>>>,
) -> (r: Result<GammaExposureStats, AggregateError>)
    requires
        strictly_increasing(grid@),
        grid@.to_set() == chain_strikes(options@),
        gamma_table_fits(options@, gammas@, grid@.len() as int),
    ensures
        (r == Err::<GammaExposureStats, AggregateError>(AggregateError::MalformedInput)) == !dates_parse(options@),
        dates_parse(options@) ==> aggregate_outcome(r, grid@, model_values(options@, gammas@, grid@.len() as int)),
{
    match model_inputs(options, today) {
        Err(_) => {
            return Err(AggregateError::MalformedInput);
        },
        Ok(_) => {},
    }
    let m = aggregate_exposure(options, grid, gammas);
    match GammaExposureStats::new(&m) {
        Ok(s) => Ok(s),
        Err(e) => Err(AggregateError::Summary(e)),
    }
}

} // verus!
