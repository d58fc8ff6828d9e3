//! Exposure by strike, from each contract's own quoted gamma.
use vstd::prelude::*;
use crate::chain::{exposure, exposure_of, lemma_exposure_bounded, max_contribution, OptionContract};
use crate::exposure_map::{with_added, ExposureMap};
use crate::stats::{summary_outcome, GammaExposureStats, SummaryError};

verus! {

/// The value that `m` holds at `k`, zero where it holds none.
pub open spec fn value_or_zero(m: Map<u64, int>, k: u64) -> int {
    if m.contains_key(k) {
        m[k]
    } else {
        0
    }
}

/// Exposure by strike: each contract with greeks adds its guarded, signed
/// gamma times open interest at its own strike; contracts without greeks are
/// skipped.
pub open spec fn direct_exposure(s: Seq<OptionContract>) -> Map<u64, int>
    decreases s.len(),
{
    if s.len() == 0 {
        Map::empty()
    } else {
        let m = direct_exposure(s.drop_last());
        let c = s.last();
        match c.greeks {
            None => m,
            Some(g) => with_added(m, c.strike, exposure_of(c.option_type, c.open_interest, g.gamma)),
        }
    }
}

/// The strikes of the contracts that carry greeks.
pub open spec fn quoted_strikes(s: Seq<OptionContract>) -> Set<u64> {
    Set::new(|k: u64| exists|i: int| 0 <= i < s.len() && s[i].greeks.is_some() && s[i].strike == k)
}

pub proof fn lemma_direct_exposure_bounded(s: Seq<OptionContract>, k: u64)
    requires
        direct_exposure(s).contains_key(k),
    ensures
        -(s.len() * max_contribution()) <= direct_exposure(s)[k] <= s.len() * max_contribution(),
    decreases s.len(),
{
    let m = direct_exposure(s.drop_last());
    let c = s.last();
    let n = s.len() - 1;
    if m.contains_key(k) {
        lemma_direct_exposure_bounded(s.drop_last(), k);
    }
    assert(-(n * max_contribution()) <= value_or_zero(m, k) <= n * max_contribution()) by {
        assert(0 <= n * max_contribution()) by (nonlinear_arith)
            requires
                n >= 0,
                max_contribution() >= 0,
        ;
    }
    if let Some(g) = c.greeks {
        lemma_exposure_bounded(c.option_type, c.open_interest, g.gamma);
    }
    assert(s.len() * max_contribution() == n * max_contribution() + max_contribution()) by (nonlinear_arith)
        requires
            n == s.len() - 1,
    ;
}

/// The strikes of the direct exposure map are exactly the strikes of the
/// contracts that carry greeks.
pub proof fn lemma_direct_keys(s: Seq<OptionContract>)
    ensures
        direct_exposure(s).dom() == quoted_strikes(s),
    decreases s.len(),
{
    if s.len() > 0 {
        let t = s.drop_last();
        lemma_direct_keys(t);
        assert forall|k: u64| #[trigger] quoted_strikes(s).contains(k) == direct_exposure(s).dom().contains(k) by {
            if quoted_strikes(s).contains(k) {
                let i = choose|i: int| 0 <= i < s.len() && s[i].greeks.is_some() && s[i].strike == k;
                if i < s.len() - 1 {
                    assert(t[i] == s[i]);
                    assert(quoted_strikes(t).contains(k));
                }
            }
            if quoted_strikes(t).contains(k) {
                let i = choose|i: int| 0 <= i < t.len() && t[i].greeks.is_some() && t[i].strike == k;
                assert(s[i] == t[i]);
            }
            if direct_exposure(s).dom().contains(k) && !quoted_strikes(t).contains(k) {
                assert(s[s.len() - 1] == s.last());
            }
        }
        assert(direct_exposure(s).dom() =~= quoted_strikes(s));
    } else {
        assert(direct_exposure(s).dom() =~= quoted_strikes(s));
    }
}

/// Exposure by strike from the quoted gamma of each contract.
pub fn gamma_exposure_by_price(options: &Vec<OptionContract>) -> (r: ExposureMap)
    ensures
        r.wf(),
        r@ == direct_exposure(options@),
        r@.dom() == quoted_strikes(options@),
{
    let mut m = ExposureMap::new();
    let mut i: usize = 0;
    while i < options.len()
        invariant
            i <= options@.len(),
            m.wf(),
            m@ == direct_exposure(options@.subrange(0, i as int)),
        decreases options@.len() - i,
    {
        let ghost prefix = options@.subrange(0, i as int);
        let ghost next = options@.subrange(0, i + 1);
        assert(next.drop_last() =~= prefix);
        let c = &options[i];
        assert(next.last() == *c);
        match c.greeks {
            None => {},
            Some(g) => {
                let e = exposure(c.option_type, c.open_interest, g.gamma);
                proof {
                    lemma_exposure_bounded(c.option_type, c.open_interest, g.gamma);
                    if m@.contains_key(c.strike) {
                        lemma_direct_exposure_bounded(prefix, c.strike);
                        let b = prefix.len() * max_contribution();
                        assert(b + max_contribution() <= 0x1_0000_0000_0000_0000 * max_contribution()) by (nonlinear_arith)
                            requires
                                b == prefix.len() * max_contribution(),
                                prefix.len() < 0x1_0000_0000_0000_0000,
                                max_contribution() >= 0,
                        ;
                    }
                }
                m.add(c.strike, e);
            },
        }
        i += 1;
    }
    assert(options@.subrange(0, options@.len() as int) =~= options@);
    proof {
        lemma_direct_keys(options@);
    }
    m
}

/// Statistics report over the exposure by strike from quoted gamma.
pub fn gamma_exposure_stats(options: &Vec<OptionContract>) -> (r: Result<GammaExposureStats, SummaryError>)
    ensures
        exists|m: ExposureMap|
            #![trigger m.key_seq(), m.value_seq()]
            m.wf() && m@ == direct_exposure(options@) && summary_outcome(r, m.key_seq(), m.value_seq()),
{
    let m = gamma_exposure_by_price(options);
    let r = GammaExposureStats::new(&m);
    assert(m.wf() && m@ == direct_exposure(options@) && summary_outcome(r, m.key_seq(), m.value_seq()));
    r
}

} // verus!
