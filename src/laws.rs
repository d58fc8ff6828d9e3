//! Properties that relate the aggregators and the report.
use vstd::prelude::*;
use crate::chain::{exposure_of, OptionContract, OptionType};
use crate::direct::{direct_exposure, value_or_zero};
use crate::exposure_map::{strictly_increasing, with_added, ExposureMap};
use crate::model::{chain_strikes, column_sum, model_exposure_of};
use crate::stats::{summary_outcome, GammaExposureStats, SummaryError};

verus! {

/// `b` is `a` with contract `i` turned from a call into a put, all else kept.
pub open spec fn call_flipped_to_put(a: Seq<OptionContract>, b: Seq<OptionContract>, i: int) -> bool {
    &&& a.len() == b.len()
    &&& 0 <= i < a.len()
    &&& forall|k: int| 0 <= k < a.len() && k != i ==> #[trigger] b[k] == a[k]
    &&& a[i].option_type == OptionType::Call
    &&& b[i].option_type == OptionType::Put
    &&& b[i].strike == a[i].strike
    &&& b[i].open_interest == a[i].open_interest
    &&& b[i].greeks == a[i].greeks
}

/// A put adds exactly the negation of what the same call adds, directly and
/// under the model.
pub proof fn lemma_put_negates_call(open_interest: u32, g: i64)
    ensures
        exposure_of(OptionType::Put, open_interest, g) == -exposure_of(OptionType::Call, open_interest, g),
        forall|mg: Option<i64>|
            #![trigger model_exposure_of(OptionType::Put, open_interest, mg)]
            model_exposure_of(OptionType::Put, open_interest, mg) == -model_exposure_of(
                OptionType::Call,
                open_interest,
                mg,
            ),
{
}

/// Turning one call into a put takes twice its quoted contribution off the
/// direct exposure at its strike, and changes no other strike.
pub proof fn lemma_direct_flip(a: Seq<OptionContract>, b: Seq<OptionContract>, i: int, k: u64)
    requires
        call_flipped_to_put(a, b, i),
    ensures
        direct_exposure(b).contains_key(k) == direct_exposure(a).contains_key(k),
        value_or_zero(direct_exposure(b), k) == value_or_zero(direct_exposure(a), k) - match a[i].greeks {
            Some(g) => if a[i].strike == k {
                2 * exposure_of(OptionType::Call, a[i].open_interest, g.gamma)
            } else {
                0
            },
            None => 0,
        },
    decreases a.len(),
{
    let n = a.len() - 1;
    let a0 = a.drop_last();
    let b0 = b.drop_last();
    if i == n {
        assert(a0 =~= b0) by {
            assert forall|k: int| 0 <= k < a0.len() implies a0[k] == b0[k] by {
                assert(b[k] == a[k]);
            }
        }
    } else {
        assert(call_flipped_to_put(a0, b0, i)) by {
            assert forall|k: int| 0 <= k < a0.len() && k != i implies #[trigger] b0[k] == a0[k] by {
                assert(b[k] == a[k]);
            }
        }
        lemma_direct_flip(a0, b0, i, k);
        assert(b.last() == a.last()) by {
            assert(b[n] == a[n]);
        }
    }
}

/// Turning one call into a put takes twice its model contribution off each
/// grid price.
pub proof fn lemma_model_flip(
    a: Seq<OptionContract>,
    b: Seq<OptionContract>,
    i: int,
    gammas: Seq<Vec<Option<i64>>>,
    j: int,
    n: int,
)
    requires
        call_flipped_to_put(a, b, i),
        i < n <= a.len(),
    ensures
        column_sum(b, gammas, j, n) == column_sum(a, gammas, j, n) - 2 * model_exposure_of(
            OptionType::Call,
            a[i].open_interest,
            gammas[i]@[j],
        ),
    decreases n,
{
    if n - 1 == i {
        lemma_columns_agree(a, b, i, gammas, j, i);
    } else {
        lemma_model_flip(a, b, i, gammas, j, n - 1);
        assert(b[n - 1] == a[n - 1]);
    }
}

proof fn lemma_columns_agree(
    a: Seq<OptionContract>,
    b: Seq<OptionContract>,
    i: int,
    gammas: Seq<Vec<Option<i64>>>,
    j: int,
    n: int,
)
    requires
        call_flipped_to_put(a, b, i),
        0 <= n <= i,
    ensures
        column_sum(b, gammas, j, n) == column_sum(a, gammas, j, n),
    decreases n,
{
    if n > 0 {
        lemma_columns_agree(a, b, i, gammas, j, n - 1);
        assert(b[n - 1] == a[n - 1]);
    }
}

proof fn lemma_sorted_same_elements(a: Seq<u64>, b: Seq<u64>)
    requires
        strictly_increasing(a),
        strictly_increasing(b),
        forall|x: u64| a.contains(x) == b.contains(x),
    ensures
        a == b,
    decreases a.len(),
{
    if a.len() == 0 {
        if b.len() > 0 {
            assert(b.contains(b[0]));
        }
        assert(a =~= b);
    } else {
        assert(a.contains(a[0]));
        let p = choose|p: int| 0 <= p < b.len() && b[p] == a[0];
        assert(b.contains(b[0]));
        let q = choose|q: int| 0 <= q < a.len() && a[q] == b[0];
        assert(a[0] <= a[q]);
        assert(b[0] <= b[p]);
        let a1 = a.subrange(1, a.len() as int);
        let b1 = b.subrange(1, b.len() as int);
        assert forall|x: u64| a1.contains(x) == b1.contains(x) by {
            if a1.contains(x) {
                let s = choose|s: int| 0 <= s < a1.len() && a1[s] == x;
                assert(a[s + 1] == x);
                assert(a.contains(x));
                let t = choose|t: int| 0 <= t < b.len() && b[t] == x;
                assert(b[t] == x && t != 0);
                assert(b1[t - 1] == x);
            }
            if b1.contains(x) {
                let s = choose|s: int| 0 <= s < b1.len() && b1[s] == x;
                assert(b[s + 1] == x);
                assert(b.contains(x));
                let t = choose|t: int| 0 <= t < a.len() && a[t] == x;
                assert(a[t] == x && t != 0);
                assert(a1[t - 1] == x);
            }
        }
        lemma_sorted_same_elements(a1, b1);
        assert(a =~= b) by {
            assert forall|k: int| 0 <= k < a.len() implies a[k] == b[k] by {
                if k > 0 {
                    assert(a[k] == a1[k - 1]);
                    assert(b[k] == b1[k - 1]);
                }
            }
        }
    }
}

/// Two maps that hold the same exposure at the same prices, in whatever order
/// their entries were added, give the same report.
pub proof fn lemma_summary_depends_on_entries_only(m1: ExposureMap, m2: ExposureMap)
    requires
        m1.wf(),
        m2.wf(),
        m1@ == m2@,
    ensures
        m1.key_seq() == m2.key_seq(),
        m1.value_seq() == m2.value_seq(),
        forall|r: Result<GammaExposureStats, SummaryError>|
            #[trigger] summary_outcome(r, m1.key_seq(), m1.value_seq()) == summary_outcome(
                r,
                m2.key_seq(),
                m2.value_seq(),
            ),
{
    assert forall|x: u64| m1.key_seq().contains(x) == m2.key_seq().contains(x) by {
        assert(m1@.contains_key(x) == m1.key_seq().contains(x));
        assert(m2@.contains_key(x) == m2.key_seq().contains(x));
        assert(m1@.contains_key(x) == m2@.contains_key(x));
    }
    lemma_sorted_same_elements(m1.key_seq(), m2.key_seq());
    assert(m1.value_seq() =~= m2.value_seq()) by {
        assert forall|j: int| 0 <= j < m1.value_seq().len() implies m1.value_seq()[j] == m2.value_seq()[j] by {
            m1.lemma_view_at(j);
            m2.lemma_view_at(j);
        }
    }
}

/// Entries may be added to an exposure map in either order: the map that
/// results is the same.
pub proof fn lemma_add_order(m: Map<u64, int>, a: u64, x: int, b: u64, y: int)
    ensures
        with_added(with_added(m, a, x), b, y) == with_added(with_added(m, b, y), a, x),
{
    assert(with_added(with_added(m, a, x), b, y) =~= with_added(with_added(m, b, y), a, x));
}

/// An empty chain has an empty strike grid, so the model map over it is empty.
pub proof fn lemma_empty_chain_grid(grid: Seq<u64>)
    requires
        grid.to_set() == chain_strikes(Seq::<OptionContract>::empty()),
    ensures
        grid.len() == 0,
{
    if grid.len() > 0 {
        assert(grid.to_set().contains(grid[0]));
    }
}

/// Swapping two neighbouring contracts of a chain leaves its direct exposure
/// unchanged: the order in which contracts arrive does not matter.
pub proof fn lemma_direct_swap(a: Seq<OptionContract>, i: int)
    requires
        0 <= i,
        i + 1 < a.len(),
    ensures
        direct_exposure(a.update(i, a[i + 1]).update(i + 1, a[i])) == direct_exposure(a),
    decreases a.len(),
{
    let b = a.update(i, a[i + 1]).update(i + 1, a[i]);
    let n = a.len() - 1;
    if i + 1 == n {
        reveal_with_fuel(direct_exposure, 2);
        let p = a.drop_last().drop_last();
        assert(b.drop_last().drop_last() =~= p);
        let m = direct_exposure(p);
        let c1 = a[i];
        let c2 = a[n];
        assert(a.drop_last().last() == c1);
        assert(a.last() == c2);
        assert(b.drop_last().last() == c2);
        assert(b.last() == c1);
        match (c1.greeks, c2.greeks) {
            (Some(g1), Some(g2)) => {
                lemma_add_order(
                    m,
                    c1.strike,
                    exposure_of(c1.option_type, c1.open_interest, g1.gamma),
                    c2.strike,
                    exposure_of(c2.option_type, c2.open_interest, g2.gamma),
                );
            },
            _ => {},
        }
    } else {
        lemma_direct_swap(a.drop_last(), i);
        assert(b.drop_last() =~= a.drop_last().update(i, a[i + 1]).update(i + 1, a[i]));
        assert(b.last() == a.last());
    }
}

/// What a map holds determines its entries: its price levels are the
/// ascending sequence of its keys, each beside the exposure held there.
pub proof fn lemma_entries_from_view(m: ExposureMap, ks: Seq<u64>)
    requires
        m.wf(),
        strictly_increasing(ks),
        forall|x: u64| #[trigger] ks.contains(x) == m@.contains_key(x),
    ensures
        m.key_seq() == ks,
        forall|j: int| 0 <= j < ks.len() ==> m.value_seq()[j] as int == #[trigger] m@[ks[j]],
{
    assert forall|x: u64| m.key_seq().contains(x) == ks.contains(x) by {
        assert(m@.contains_key(x) == m.key_seq().contains(x));
    }
    lemma_sorted_same_elements(m.key_seq(), ks);
    assert forall|j: int| 0 <= j < ks.len() implies m.value_seq()[j] as int == #[trigger] m@[ks[j]] by {
        m.lemma_view_at(j);
    }
}

} // verus!
