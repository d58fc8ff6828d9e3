//! A map from price level (cents) to signed exposure, kept sorted by price.
use vstd::prelude::*;

verus! {

pub open spec fn strictly_increasing(s: Seq<u64>) -> bool {
    forall|i: int, j: int| 0 <= i < j < s.len() ==> s[i] < s[j]
}

/// Position of `k` in `keys` (meaningful where `keys` contains `k`).
pub open spec fn position_of(keys: Seq<u64>, k: u64) -> int {
    choose|j: int| 0 <= j < keys.len() && keys[j] == k
}

pub proof fn lemma_position_of(keys: Seq<u64>, j: int)
    requires
        strictly_increasing(keys),
        0 <= j < keys.len(),
    ensures
        position_of(keys, keys[j]) == j,
{
    let p = position_of(keys, keys[j]);
    assert(0 <= p < keys.len() && keys[p] == keys[j]);
}

/// `m` after adding `delta` at `k`, starting from zero where `m` holds no `k`.
pub open spec fn with_added(m: Map<u64, int>, k: u64, delta: int) -> Map<u64, int> {
    m.insert(
        k,
        if m.contains_key(k) {
            m[k] + delta
        } else {
            delta
        },
    )
}

/// Exposure by price level. Price levels are held in ascending order, each
/// once, beside their exposures.
pub struct ExposureMap {
    keys: Vec<u64>,
    values: Vec<i128>,
}

impl View for ExposureMap {
    type V = Map<u64, int>;

    open spec fn view(&self) -> Map<u64, int> {
        Map::new(
            |k: u64| self.key_seq().contains(k),
            |k: u64| self.value_seq()[position_of(self.key_seq(), k)] as int,
        )
    }
}

impl ExposureMap {
    /// The price levels, ascending.
    pub closed spec fn key_seq(&self) -> Seq<u64> {
        self.keys@
    }

    /// The exposures, in the order of `key_seq`.
    pub closed spec fn value_seq(&self) -> Seq<i128> {
        self.values@
    }

    pub open spec fn wf(&self) -> bool {
        strictly_increasing(self.key_seq()) && self.key_seq().len() == self.value_seq().len()
    }

    pub proof fn lemma_view_at(&self, j: int)
        requires
            self.wf(),
            0 <= j < self.key_seq().len(),
        ensures
            self@.contains_key(self.key_seq()[j]),
            self@[self.key_seq()[j]] == self.value_seq()[j] as int,
    {
        lemma_position_of(self.key_seq(), j);
    }

    pub fn new() -> (r: ExposureMap)
        ensures
            r.wf(),
            r@ == Map::<u64, int>::empty(),
            r.key_seq().len() == 0,
    {
        let r = ExposureMap { keys: Vec::new(), values: Vec::new() };
        assert(r@ =~= Map::<u64, int>::empty());
        r
    }

    /// A map over ascending price levels `keys`, with `values[j]` at `keys[j]`.
    pub(crate) fn from_sorted(keys: Vec<u64>, values: Vec<i128>) -> (r: ExposureMap)
        requires
            strictly_increasing(keys@),
            keys@.len() == values@.len(),
        ensures
            r.wf(),
            r.key_seq() == keys@,
            r.value_seq() == values@,
    {
        ExposureMap { keys, values }
    }

    pub fn len(&self) -> (r: usize)
        requires
            self.wf(),
        ensures
            r == self.key_seq().len(),
            r == self@.len(),
    {
        proof {
            self.key_seq().unique_seq_to_set();
            assert(self@.dom() =~= self.key_seq().to_set());
        }
        self.keys.len()
    }

    pub fn is_empty(&self) -> (r: bool)
        requires
            self.wf(),
        ensures
            r == (self@.len() == 0),
    {
        self.len() == 0
    }

    /// The price levels, ascending.
    pub fn price_levels(&self) -> (r: Vec<u64>)
        requires
            self.wf(),
        ensures
            r@ == self.key_seq(),
    {
        let mut r: Vec<u64> = Vec::new();
        let mut j: usize = 0;
        while j < self.keys.len()
            invariant
                j <= self.key_seq().len(),
                r@ == self.key_seq().subrange(0, j as int),
            decreases self.key_seq().len() - j,
        {
            r.push(self.keys[j]);
            j += 1;
            assert(r@ =~= self.key_seq().subrange(0, j as int));
        }
        assert(r@ =~= self.key_seq());
        r
    }

    /// Price level and exposure at position `j` in ascending price order.
    pub fn entry(&self, j: usize) -> (r: (u64, i128))
        requires
            self.wf(),
            j < self.key_seq().len(),
        ensures
            r.0 == self.key_seq()[j as int],
            r.1 == self.value_seq()[j as int],
    {
        (self.keys[j], self.values[j])
    }

    /// Exposure at price level `key`, if the map holds it.
    pub fn get(&self, key: u64) -> (r: Option<i128>)
        requires
            self.wf(),
        ensures
            r.is_some() == self@.contains_key(key),
            r.is_some() ==> r.unwrap() as int == self@[key],
    {
        let mut j: usize = 0;
        while j < self.keys.len()
            invariant
                self.wf(),
                j <= self.key_seq().len(),
                forall|i: int| 0 <= i < j ==> self.key_seq()[i] != key,
            decreases self.key_seq().len() - j,
        {
            if self.keys[j] == key {
                proof {
                    self.lemma_view_at(j as int);
                }
                return Some(self.values[j]);
            }
            j += 1;
        }
        None
    }

    /// Adds `delta` to the exposure at `key`, which starts from zero when the
    /// map does not hold `key` yet.
    pub fn add(&mut self, key: u64, delta: i128)
        requires
            old(self).wf(),
            old(self)@.contains_key(key) ==> i128::MIN <= old(self)@[key] + delta <= i128::MAX,
        ensures
            final(self).wf(),
            final(self)@ == with_added(old(self)@, key, delta as int),
    {
        let ghost ok = self.key_seq();
        let ghost ov = self.value_seq();
        let ghost om = self@;
        let mut j: usize = 0;
        while j < self.keys.len() && self.keys[j] < key
            invariant
                self.wf(),
                self.key_seq() == ok,
                self.value_seq() == ov,
                j <= ok.len(),
                forall|i: int| 0 <= i < j ==> ok[i] < key,
            decreases ok.len() - j,
        {
            j += 1;
        }
        if j < self.keys.len() && self.keys[j] == key {
            proof {
                self.lemma_view_at(j as int);
            }
            let v = self.values[j] + delta;
            self.values.set(j, v);
            proof {
                let nm = om.insert(key, om[key] + delta);
                assert forall|k: u64| #[trigger] self@.contains_key(k) == nm.contains_key(k) by {}
                assert forall|k: u64| nm.contains_key(k) implies #[trigger] self@[k] == nm[k] by {
                    let p = position_of(ok, k);
                    assert(0 <= p < ok.len() && ok[p] == k);
                    lemma_position_of(ok, p);
                }
                assert(self@ =~= nm);
            }
        } else {
            proof {
                if j < ok.len() {
                    assert(ok[j as int] > key);
                }
            }
            self.keys.insert(j, key);
            self.values.insert(j, delta);
            proof {
                let nk = self.key_seq();
                assert(nk == ok.insert(j as int, key));
                assert forall|a: int, b: int| 0 <= a < b < nk.len() implies nk[a] < nk[b] by {
                    if b < j {
                    } else if b == j {
                    } else if a < j {
                        assert(ok[a] < key);
                        if j < ok.len() {
                            assert(ok[j as int] > key);
                            assert(ok[j as int] <= ok[b - 1]);
                        }
                    } else if a == j {
                        assert(ok[j as int] > key);
                        assert(ok[j as int] <= ok[b - 1]);
                    } else {
                    }
                }
                assert(!om.contains_key(key)) by {
                    if om.contains_key(key) {
                        let p = position_of(ok, key);
                        assert(0 <= p < ok.len() && ok[p] == key);
                        if p < j {
                        } else {
                            assert(ok[j as int] <= ok[p]);
                        }
                    }
                }
                let nm = om.insert(key, delta as int);
                assert forall|k: u64| #[trigger] self@.contains_key(k) == nm.contains_key(k) by {
                    if nm.contains_key(k) && k != key {
                        let p = position_of(ok, k);
                        assert(0 <= p < ok.len() && ok[p] == k);
                        if p < j {
                            assert(nk[p] == k);
                        } else {
                            assert(nk[p + 1] == k);
                        }
                    }
                    if self@.contains_key(k) && k != key {
                        let p = position_of(nk, k);
                        assert(0 <= p < nk.len() && nk[p] == k);
                        if p < j {
                            assert(ok[p] == k);
                        } else {
                            assert(ok[p - 1] == k);
                        }
                    }
                    if k == key {
                        assert(nk[j as int] == key);
                    }
                }
                assert forall|k: u64| nm.contains_key(k) implies #[trigger] self@[k] == nm[k] by {
                    if k == key {
                        lemma_position_of(nk, j as int);
                    } else {
                        let p = position_of(ok, k);
                        assert(0 <= p < ok.len() && ok[p] == k);
                        lemma_position_of(ok, p);
                        if p < j {
                            lemma_position_of(nk, p);
                        } else {
                            assert(nk[p + 1] == k);
                            lemma_position_of(nk, p + 1);
                        }
                    }
                }
                assert(self@ =~= nm);
            }
        }
    }
}

} // verus!
