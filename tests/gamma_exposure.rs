use gamma_exposure::chain::{exposure, Greeks, OptionContract, OptionType, GAMMA_SCALE};
use gamma_exposure::date::{parse_date, CalendarDate, ChainError};
use gamma_exposure::direct::{gamma_exposure_by_price, gamma_exposure_stats};
use gamma_exposure::exposure_map::ExposureMap;
use gamma_exposure::model::{aggregate_exposure, gamma_exposure_aggregate, model_inputs, strike_grid, AggregateError};
use gamma_exposure::query::{default_interval, OhlcInterval, Root};
use gamma_exposure::stats::{GammaExposure, GammaExposureStats, Ratio, SummaryError};
use gamma_exposure::time_and_sales::{lookback_days, Weekday};

fn contract(strike: u64, option_type: OptionType, open_interest: u32, gamma: Option<i64>) -> OptionContract {
    OptionContract {
        strike,
        expiration_date: "2024-03-15".to_string(),
        option_type,
        open_interest,
        greeks: gamma.map(|g| Greeks { gamma: g, implied_volatility: 200_000 }),
    }
}

fn map_of(entries: &[(u64, i128)]) -> ExposureMap {
    let mut m = ExposureMap::new();
    for (k, v) in entries {
        m.add(*k, *v);
    }
    m
}

fn ratio_value(r: Ratio) -> f64 {
    r.numerator as f64 / r.denominator as f64
}

#[test]
fn direct_two_calls_exact_values() {
    let chain = vec![
        contract(9500, OptionType::Call, 10, Some(50_000_000)),
        contract(10500, OptionType::Call, 20, Some(50_000_000)),
    ];
    let m = gamma_exposure_by_price(&chain);
    assert_eq!(m.len(), 2);
    assert_eq!(m.get(9500), Some(500_000_000));
    assert_eq!(m.get(10500), Some(1_000_000_000));
    assert_eq!(m.entry(0), (9500, 500_000_000));
    assert_eq!(m.entry(1), (10500, 1_000_000_000));
}

#[test]
fn direct_keys_are_strikes_with_greeks() {
    let chain = vec![
        contract(9500, OptionType::Call, 10, Some(50_000_000)),
        contract(11000, OptionType::Put, 10, None),
        contract(10000, OptionType::Put, 3, Some(1_000)),
    ];
    let m = gamma_exposure_by_price(&chain);
    assert_eq!(m.len(), 2);
    assert_eq!(m.get(11000), None);
    assert_eq!(m.get(10000), Some(-3_000));
    assert_eq!(m.price_levels(), vec![9500, 10000]);
}

#[test]
fn direct_put_negates_call() {
    let call = gamma_exposure_by_price(&vec![contract(10000, OptionType::Call, 7, Some(30_000_000))]);
    let put = gamma_exposure_by_price(&vec![contract(10000, OptionType::Put, 7, Some(30_000_000))]);
    assert_eq!(call.get(10000), Some(210_000_000));
    assert_eq!(put.get(10000), Some(-210_000_000));
    assert_eq!(exposure(OptionType::Put, 7, 30_000_000), -exposure(OptionType::Call, 7, 30_000_000));
}

#[test]
fn direct_guard_zeroes_corrupt_gamma() {
    let chain = vec![
        contract(10000, OptionType::Call, 5, Some(GAMMA_SCALE + 1)),
        contract(10000, OptionType::Call, 5, Some(-GAMMA_SCALE - 1)),
        contract(10100, OptionType::Call, 5, Some(GAMMA_SCALE)),
    ];
    let m = gamma_exposure_by_price(&chain);
    assert_eq!(m.get(10000), Some(0));
    assert_eq!(m.get(10100), Some(5 * GAMMA_SCALE as i128));
}

#[test]
fn direct_sums_contracts_sharing_a_strike() {
    let chain = vec![
        contract(10000, OptionType::Call, 10, Some(100)),
        contract(10000, OptionType::Put, 4, Some(100)),
        contract(10000, OptionType::Call, 1, Some(5)),
    ];
    let m = gamma_exposure_by_price(&chain);
    assert_eq!(m.len(), 1);
    assert_eq!(m.get(10000), Some(1_000 - 400 + 5));
}

#[test]
fn summarize_single_positive_entry() {
    let five = 5 * GAMMA_SCALE as i128;
    let m = map_of(&[(10000, five)]);
    let s = GammaExposureStats::new(&m).unwrap();
    assert_eq!(ratio_value(s.average_positive_exposure), 5.0 * GAMMA_SCALE as f64);
    assert_eq!(ratio_value(s.average_negative_exposure), 0.0);
    assert_eq!(s.maximum, five);
    assert_eq!(s.minimum, 0);
    assert_eq!(s.absolute_maximum, five);
    let wp = s.weighted_average_positive_price.unwrap();
    assert_eq!(ratio_value(wp) / 100.0, 100.0);
    assert_eq!(s.weighted_average_negative_price, None);
    assert_eq!(ratio_value(s.weighted_average_absolute_price), 10000.0);
    assert_eq!(s.average_absolute_exposure, Ratio { numerator: five, denominator: 2 });
    assert_eq!(s.prices, vec![GammaExposure::new(10000, five)]);
}

#[test]
fn summarize_ignores_entry_order() {
    let entries = [(9500u64, 40i128), (12000, -25), (10000, 10), (2000, -5)];
    let mut reversed = entries;
    reversed.reverse();
    let a = GammaExposureStats::new(&map_of(&entries)).unwrap();
    let b = GammaExposureStats::new(&map_of(&reversed)).unwrap();
    assert_eq!(a.prices, b.prices);
    assert_eq!(a.average_absolute_exposure, b.average_absolute_exposure);
    assert_eq!(a.average_positive_exposure, b.average_positive_exposure);
    assert_eq!(a.average_negative_exposure, b.average_negative_exposure);
    assert_eq!(a.maximum, b.maximum);
    assert_eq!(a.minimum, b.minimum);
    assert_eq!(a.absolute_maximum, b.absolute_maximum);
    assert_eq!(a.weighted_average_absolute_price, b.weighted_average_absolute_price);
    assert_eq!(a.weighted_average_positive_price, b.weighted_average_positive_price);
    assert_eq!(a.weighted_average_negative_price, b.weighted_average_negative_price);
}

#[test]
fn summarize_sorts_prices_numerically() {
    let m = map_of(&[(10000, 1), (2000, 2), (900, -3)]);
    let s = GammaExposureStats::new(&m).unwrap();
    let strikes: Vec<u64> = s.prices.iter().map(|p| p.strike).collect();
    assert_eq!(strikes, vec![900, 2000, 10000]);
}

#[test]
fn summarize_mixed_exact_values() {
    let m = map_of(&[(100, 10), (200, -4), (300, 20), (400, -6)]);
    let s = GammaExposureStats::new(&m).unwrap();
    assert_eq!(s.average_positive_exposure, Ratio { numerator: 30, denominator: 2 });
    assert_eq!(s.average_negative_exposure, Ratio { numerator: -10, denominator: 2 });
    assert_eq!(s.average_absolute_exposure, Ratio { numerator: 40, denominator: 4 });
    assert_eq!(s.maximum, 20);
    assert_eq!(s.minimum, -6);
    assert_eq!(s.absolute_maximum, 20);
    assert_eq!(s.weighted_average_positive_price, Some(Ratio { numerator: 7000, denominator: 30 }));
    assert_eq!(s.weighted_average_negative_price, Some(Ratio { numerator: 3200, denominator: 10 }));
    assert_eq!(s.weighted_average_absolute_price, Ratio { numerator: 10200, denominator: 40 });
}

#[test]
fn summarize_all_negative_keeps_zero_maximum() {
    let m = map_of(&[(100, -10), (200, -30)]);
    let s = GammaExposureStats::new(&m).unwrap();
    assert_eq!(s.maximum, 0);
    assert_eq!(s.minimum, -30);
    assert_eq!(s.absolute_maximum, 30);
    assert_eq!(s.weighted_average_positive_price, None);
    assert_eq!(s.average_positive_exposure, Ratio { numerator: 0, denominator: 1 });
    assert_eq!(s.weighted_average_negative_price, Some(Ratio { numerator: 7000, denominator: 40 }));
}

#[test]
fn summarize_empty_map_is_degenerate() {
    let m = ExposureMap::new();
    assert!(m.is_empty());
    assert_eq!(GammaExposureStats::new(&m).unwrap_err(), SummaryError::ArithmeticDegeneracy);
}

#[test]
fn summarize_all_zero_map_is_degenerate() {
    let m = map_of(&[(100, 0), (200, 0)]);
    assert_eq!(GammaExposureStats::new(&m).unwrap_err(), SummaryError::ArithmeticDegeneracy);
}

#[test]
fn summarize_reports_overflow() {
    let m = map_of(&[(100, i128::MAX), (200, -1)]);
    assert_eq!(GammaExposureStats::new(&m).unwrap_err(), SummaryError::Overflow);
    let w = map_of(&[(u64::MAX, i128::MAX / 2)]);
    assert_eq!(GammaExposureStats::new(&w).unwrap_err(), SummaryError::Overflow);
}

#[test]
fn gamma_exposure_stats_of_chain() {
    let chain = vec![
        contract(9500, OptionType::Call, 10, Some(50_000_000)),
        contract(10500, OptionType::Put, 20, Some(50_000_000)),
    ];
    let s = gamma_exposure_stats(&chain).unwrap();
    assert_eq!(s.maximum, 500_000_000);
    assert_eq!(s.minimum, -1_000_000_000);
    let r = Root.gamma_exposure(&chain).unwrap();
    assert_eq!(r.prices, s.prices);
}

#[test]
fn parse_date_reads_iso_dates() {
    let d = parse_date("2024-03-15").unwrap();
    assert_eq!((d.year(), d.month(), d.day()), (2024, 3, 15));
    let d = parse_date("2024-2-9").unwrap();
    assert_eq!((d.year(), d.month(), d.day()), (2024, 2, 9));
}

#[test]
fn parse_date_rejects_malformed_text() {
    for text in ["", "2024", "2024-03", "2024-03-", "2024--15", "2024-03-15x", "x2024-03-15", "2023-02-29", "2024-13-01", "2024-00-10", "2024-03-15-01", "99999999999-01-01"] {
        assert_eq!(parse_date(text), Err(ChainError::MalformedInput), "{}", text);
    }
    assert!(parse_date("2024-02-29").is_ok());
}

#[test]
fn day_numbers_follow_the_calendar() {
    assert_eq!(CalendarDate::from_ymd(1, 1, 1).unwrap().day_number(), 1);
    assert_eq!(CalendarDate::from_ymd(2001, 1, 1).unwrap().day_number(), 730486);
    assert_eq!(CalendarDate::from_ymd(0, 1, 1).unwrap().day_number(), -365);
    assert!(CalendarDate::from_ymd(2023, 2, 29).is_none());
    let a = CalendarDate::from_ymd(2024, 2, 28).unwrap();
    let b = CalendarDate::from_ymd(2024, 3, 1).unwrap();
    assert_eq!(a.days_until(&b), 2);
    assert_eq!(b.days_until(&a), -2);
}

#[test]
fn model_inputs_count_days_and_default_volatility() {
    let mut chain = vec![
        contract(10000, OptionType::Call, 1, Some(1)),
        contract(10500, OptionType::Put, 1, None),
    ];
    chain[1].expiration_date = "2024-03-01".to_string();
    let today = CalendarDate::from_ymd(2024, 3, 5).unwrap();
    let inputs = model_inputs(&chain, &today).unwrap();
    assert_eq!(inputs.len(), 2);
    assert_eq!(inputs[0].strike, 10000);
    assert_eq!(inputs[0].days_to_expiration, 10);
    assert_eq!(inputs[0].implied_volatility, 200_000);
    assert_eq!(inputs[1].days_to_expiration, -4);
    assert_eq!(inputs[1].implied_volatility, 0);
    chain[0].expiration_date = "March 15".to_string();
    assert_eq!(model_inputs(&chain, &today).unwrap_err(), ChainError::MalformedInput);
}

#[test]
fn strike_grid_is_distinct_and_ascending() {
    let chain = vec![
        contract(10500, OptionType::Call, 1, None),
        contract(9500, OptionType::Put, 1, Some(1)),
        contract(10500, OptionType::Put, 1, Some(1)),
        contract(10000, OptionType::Call, 1, Some(1)),
    ];
    assert_eq!(strike_grid(&chain), vec![9500, 10000, 10500]);
}

#[test]
fn aggregate_accumulates_over_the_grid() {
    let chain = vec![
        contract(9500, OptionType::Call, 10, Some(1)),
        contract(10500, OptionType::Put, 20, None),
    ];
    let grid = strike_grid(&chain);
    let gammas = vec![
        vec![Some(40_000_000), Some(10_000_000)],
        vec![Some(5_000_000), None],
    ];
    let m = aggregate_exposure(&chain, &grid, &gammas);
    assert_eq!(m.get(9500), Some(400_000_000 - 100_000_000));
    assert_eq!(m.get(10500), Some(100_000_000));
    let guarded = vec![
        vec![Some(2 * GAMMA_SCALE), Some(10_000_000)],
        vec![Some(5_000_000), Some(-GAMMA_SCALE - 1)],
    ];
    let g = aggregate_exposure(&chain, &grid, &guarded);
    assert_eq!(g.get(9500), Some(-100_000_000));
    assert_eq!(g.get(10500), Some(100_000_000));
    let today = CalendarDate::from_ymd(2024, 3, 1).unwrap();
    let s = gamma_exposure_aggregate(&chain, &today, &grid, &gammas).unwrap();
    assert_eq!(s.maximum, 300_000_000);
    let r = Root.gamma_exposure_aggregate(&chain, &today, &grid, &gammas).unwrap();
    assert_eq!(r.prices, s.prices);
}

#[test]
fn aggregate_of_empty_chain_is_empty() {
    let chain: Vec<OptionContract> = Vec::new();
    let grid = strike_grid(&chain);
    assert!(grid.is_empty());
    let m = aggregate_exposure(&chain, &grid, &Vec::new());
    assert!(m.is_empty());
    let today = CalendarDate::from_ymd(2024, 3, 1).unwrap();
    assert_eq!(
        gamma_exposure_aggregate(&chain, &today, &grid, &Vec::new()).unwrap_err(),
        AggregateError::Summary(SummaryError::ArithmeticDegeneracy)
    );
}

#[test]
fn lookback_spans_the_weekend() {
    assert_eq!(lookback_days(Weekday::Sun), 5);
    assert_eq!(lookback_days(Weekday::Sat), 4);
    assert_eq!(lookback_days(Weekday::Mon), 3);
    assert_eq!(lookback_days(Weekday::Fri), 3);
}

#[test]
fn default_interval_is_five_minutes() {
    assert_eq!(default_interval(), OhlcInterval::FiveMinute);
}

#[test]
fn direct_ignores_contract_order() {
    let a = contract(9500, OptionType::Call, 10, Some(50_000_000));
    let b = contract(9500, OptionType::Put, 3, Some(20_000_000));
    let c = contract(10000, OptionType::Call, 1, Some(7));
    let one = gamma_exposure_by_price(&vec![a.clone(), b.clone(), c.clone()]);
    let two = gamma_exposure_by_price(&vec![c, b, a]);
    assert_eq!(one.price_levels(), two.price_levels());
    assert_eq!(one.get(9500), Some(440_000_000));
    assert_eq!(two.get(9500), Some(440_000_000));
    assert_eq!(one.get(10000), two.get(10000));
}

#[test]
fn aggregate_rejects_malformed_dates() {
    let today = CalendarDate::from_ymd(2024, 3, 1).unwrap();
    for text in ["", "2021-03", "2021-xx-19"] {
        let mut c = contract(10000, OptionType::Call, 10, Some(1));
        c.expiration_date = text.to_string();
        let chain = vec![c];
        let grid = strike_grid(&chain);
        let gammas = vec![vec![Some(100_000_000)]];
        assert_eq!(gamma_exposure_aggregate(&chain, &today, &grid, &gammas).unwrap_err(), AggregateError::MalformedInput);
        assert_eq!(Root.gamma_exposure_aggregate(&chain, &today, &grid, &gammas).unwrap_err(), AggregateError::MalformedInput);
    }
}

#[test]
fn aggregate_grid_holds_strikes_without_greeks() {
    let chain = vec![
        contract(9500, OptionType::Call, 10, Some(1)),
        contract(10500, OptionType::Put, 20, None),
    ];
    let grid = strike_grid(&chain);
    assert_eq!(grid, vec![9500, 10500]);
    let today = CalendarDate::from_ymd(2024, 3, 1).unwrap();
    let gammas = vec![vec![Some(40_000_000), Some(10_000_000)], vec![None, None]];
    let s = gamma_exposure_aggregate(&chain, &today, &grid, &gammas).unwrap();
    let strikes: Vec<u64> = s.prices.iter().map(|p| p.strike).collect();
    assert_eq!(strikes, vec![9500, 10500]);
    assert_eq!(s.prices[0].gamma_exposure, 400_000_000);
    assert_eq!(s.prices[1].gamma_exposure, 100_000_000);
}
