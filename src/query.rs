//! The queries that the service answers, over a chain already fetched.
use vstd::prelude::*;
use crate::chain::OptionContract;
use crate::direct::{direct_exposure, gamma_exposure_stats};
use crate::exposure_map::{strictly_increasing, ExposureMap};
use crate::date::CalendarDate;
use crate::model::{aggregate_outcome, chain_strikes, dates_parse, gamma_exposure_aggregate, gamma_table_fits, model_values, AggregateError};
use crate::stats::{summary_outcome, GammaExposureStats, SummaryError};

verus! {

/// Bar width of price history.
#[derive(Clone, Copy, Debug, PartialEq, Eq, Structural)]
pub enum OhlcInterval {
    Tick,
    Minute,
    FiveMinute,
    FifteenMinute,
}

/// The interval used when a query names none.
pub fn default_interval() -> (r: OhlcInterval)
    ensures
        r == OhlcInterval::FiveMinute,
{
    OhlcInterval::FiveMinute
}

/// Root of the query schema.
pub struct Root;

impl Root {
    /// Gamma exposure report from the quoted gamma of each contract.
    pub fn gamma_exposure(&self, options: &Vec<OptionContract>) -> (r: Result<GammaExposureStats, SummaryError>)
        ensures
            exists|m: ExposureMap|
                #![trigger m.key_seq(), m.value_seq()]
                m.wf() && m@ == direct_exposure(options@) && summary_outcome(r, m.key_seq(), m.value_seq()),
    {
        gamma_exposure_stats(options)
    }

    /// Gamma exposure report over the chain's distinct strikes `grid` as of
    /// `today`, from model gamma `gammas[i][j]` of contract `i` at `grid[j]`.
    pub fn gamma_exposure_aggregate(
        &self,
        options: &Vec<OptionContract>,
        today: &CalendarDate,
        grid: &Vec<u64>,
        gammas: &Vec<Vec<Option<i64>>>,
    ) -> (r: Result<GammaExposureStats, AggregateError>)
        requires
            strictly_increasing(grid@),
            grid@.to_set() == chain_strikes(options@),
            gamma_table_fits(options@, gammas@, grid@.len() as int),
        ensures
            (r == Err::<GammaExposureStats, AggregateError>(AggregateError::MalformedInput)) == !dates_parse(options@),
            dates_parse(options@) ==> aggregate_outcome(r, grid@, model_values(options@, gammas@, grid@.len() as int)),
    {
        gamma_exposure_aggregate(options, today, grid, gammas)
    }
}

} // verus!
