use vstd::prelude::*;

use crate::fitness::{sat_add, sat_add_u64};

verus! {

/// The estimate an association of keys to counts gives one allele.
spec fn est_at(keys: Seq<u64>, counts: Seq<u64>, allele: u64) -> u64
    decreases keys.len(),
{
    if keys.len() == 0 || counts.len() == 0 {
        0u64
    } else if keys[0] == allele {
        counts[0]
    } else {
        est_at(keys.drop_first(), counts.drop_first(), allele)
    }
}

/// A decaying frequency counter over the 64-bit allele domain: recording
/// raises an allele's estimated count, decaying halves every estimate so
/// that recent generations dominate the measurement.
///
/// One sketch is scoped to a single statistics pass over one window.
pub struct DecayingSketch {
    keys: Vec<u64>,
    counts: Vec<u64>,
}

impl DecayingSketch {
    /// Keys are unique and every key has a count.
    pub closed spec fn wf(&self) -> bool {
        &&& self.keys@.no_duplicates()
        &&& self.keys@.len() == self.counts@.len()
    }

    /// The estimated frequency of one allele.
    pub closed spec fn spec_estimate(&self, allele: u64) -> u64 {
        est_at(self.keys@, self.counts@, allele)
    }

    /// A fresh sketch estimates every allele at zero.
    pub fn new() -> (r: DecayingSketch)
        ensures
            r.wf(),
            forall|a: u64| r.spec_estimate(a) == 0,
    {
        DecayingSketch { keys: Vec::new(), counts: Vec::new() }
    }

    /// Record one occurrence of an allele: its estimate rises by one
    /// (saturating at the machine maximum) and no other estimate moves.
    pub fn record(&mut self, allele: u64)
        requires
            old(self).wf(),
        ensures
            final(self).wf(),
            final(self).spec_estimate(allele) as int == sat_add(
                old(self).spec_estimate(allele) as int,
                1,
            ),
            forall|b: u64| b != allele ==> final(self).spec_estimate(b) == old(
                self,
            ).spec_estimate(b),
    {
        let n = self.keys.len();
        let mut i: usize = 0;
        while i < n
            invariant
                old(self).wf(),
                self.keys@ == old(self).keys@,
                self.counts@ == old(self).counts@,
                n == self.keys@.len(),
                i <= n,
                forall|j: int| 0 <= j < i ==> self.keys@[j] != allele,
            decreases n - i,
        {
            if self.keys[i] == allele {
                let c = self.counts[i];
                let bumped = sat_add_u64(c, 1);
                self.counts[i] = bumped;
                proof {
                    lemma_est_found(old(self).keys@, old(self).counts@, i as int);
                    lemma_est_update(old(self).keys@, old(self).counts@, i as int, bumped);
                    lemma_est_found(self.keys@, self.counts@, i as int);
                }
                return ;
            }
            i = i + 1;
        }
        proof {
            assert(!self.keys@.contains(allele));
            lemma_est_absent(self.keys@, self.counts@, allele);
        }
        self.keys.push(allele);
        self.counts.push(1);
        proof {
            lemma_est_push(old(self).keys@, old(self).counts@, allele, 1u64);
        }
    }

    /// Attenuate every estimate: each count is halved, rounding down, so
    /// older observations fade over successive reporting passes.
    pub fn decay(&mut self)
        requires
            old(self).wf(),
        ensures
            final(self).wf(),
            forall|a: u64| final(self).spec_estimate(a) == old(self).spec_estimate(a) / 2,
    {
        let n = self.counts.len();
        let mut i: usize = 0;
        while i < n
            invariant
                old(self).wf(),
                n == self.counts@.len(),
                self.keys@ == old(self).keys@,
                self.counts@.len() == old(self).counts@.len(),
                i <= n,
                forall|j: int| 0 <= j < i ==> self.counts@[j] == old(self).counts@[j] / 2,
                forall|j: int| i <= j < n ==> self.counts@[j] == old(self).counts@[j],
            decreases n - i,
        {
            let halved = self.counts[i] / 2;
            self.counts[i] = halved;
            i = i + 1;
        }
        proof {
            lemma_est_halved(self.keys@, old(self).counts@, self.counts@);
        }
    }

    /// The approximate frequency this sketch assigns an allele.
    pub fn estimate(&self, allele: u64) -> (r: u64)
        requires
            self.wf(),
        ensures
            r == self.spec_estimate(allele),
    {
        let n = self.keys.len();
        let mut i: usize = 0;
        while i < n
            invariant
                self.wf(),
                n == self.keys@.len(),
                i <= n,
                forall|j: int| 0 <= j < i ==> self.keys@[j] != allele,
            decreases n - i,
        {
            if self.keys[i] == allele {
                proof {
                    lemma_est_found(self.keys@, self.counts@, i as int);
                }
                return self.counts[i];
            }
            i = i + 1;
        }
        proof {
            assert(!self.keys@.contains(allele));
            lemma_est_absent(self.keys@, self.counts@, allele);
        }
        0
    }
}

/// An allele whose key is absent estimates to zero.
proof fn lemma_est_absent(keys: Seq<u64>, counts: Seq<u64>, allele: u64)
    requires
        !keys.contains(allele),
    ensures
        est_at(keys, counts, allele) == 0,
    decreases keys.len(),
{
    if keys.len() > 0 && counts.len() > 0 {
        assert(forall|j: int|
            0 <= j < keys.drop_first().len() ==> keys.drop_first()[j] == keys[j + 1]);
        lemma_est_absent(keys.drop_first(), counts.drop_first(), allele);
    }
}

/// With unique keys, the estimate of the key at `i` is the count at `i`.
proof fn lemma_est_found(keys: Seq<u64>, counts: Seq<u64>, i: int)
    requires
        keys.no_duplicates(),
        keys.len() == counts.len(),
        0 <= i < keys.len(),
    ensures
        est_at(keys, counts, keys[i]) == counts[i],
    decreases i,
{
    if i > 0 {
        lemma_est_found(keys.drop_first(), counts.drop_first(), i - 1);
    }
}

/// Updating the count at `i` moves only the estimate of the key at `i`.
proof fn lemma_est_update(keys: Seq<u64>, counts: Seq<u64>, i: int, v: u64)
    requires
        keys.no_duplicates(),
        keys.len() == counts.len(),
        0 <= i < keys.len(),
    ensures
        forall|b: u64|
            b != keys[i] ==> est_at(keys, counts.update(i, v), b) == est_at(keys, counts, b),
    decreases i,
{
    if i == 0 {
        assert(counts.update(0, v).drop_first() =~= counts.drop_first());
    } else {
        lemma_est_update(keys.drop_first(), counts.drop_first(), i - 1, v);
        assert(counts.update(i, v).drop_first() =~= counts.drop_first().update(i - 1, v));
        assert forall|b: u64| b != keys[i] implies est_at(keys, counts.update(i, v), b) == est_at(
            keys,
            counts,
            b,
        ) by {
            if keys[0] != b {
                assert(est_at(keys.drop_first(), counts.drop_first().update(i - 1, v), b)
                    == est_at(keys.drop_first(), counts.drop_first(), b));
            }
        }
    }
}

/// Appending a fresh key gives it its count and moves nothing else.
proof fn lemma_est_push(keys: Seq<u64>, counts: Seq<u64>, k: u64, c: u64)
    requires
        keys.len() == counts.len(),
    ensures
        est_at(keys.push(k), counts.push(c), k) == if keys.contains(k) {
            est_at(keys, counts, k)
        } else {
            c
        },
        forall|b: u64| b != k ==> est_at(keys.push(k), counts.push(c), b) == est_at(
            keys,
            counts,
            b,
        ),
    decreases keys.len(),
{
    assert(keys.contains(k) <==> (keys.len() > 0 && (keys[0] == k || keys.drop_first().contains(
        k,
    )))) by {
        if keys.contains(k) {
            let i = choose|i: int| 0 <= i < keys.len() && keys[i] == k;
            if i > 0 {
                assert(keys.drop_first()[i - 1] == k);
            }
        }
        if keys.len() > 0 && keys.drop_first().contains(k) {
            let i = choose|i: int|
                0 <= i < keys.drop_first().len() && keys.drop_first()[i] == k;
            assert(keys[i + 1] == k);
        }
    }
    if keys.len() == 0 {
        assert(keys.push(k)[0] == k);
        assert(keys.push(k).drop_first() =~= keys);
        assert(counts.push(c).drop_first() =~= counts);
    } else {
        lemma_est_push(keys.drop_first(), counts.drop_first(), k, c);
        assert(keys.push(k).drop_first() =~= keys.drop_first().push(k));
        assert(counts.push(c).drop_first() =~= counts.drop_first().push(c));
        assert forall|b: u64| b != k implies est_at(keys.push(k), counts.push(c), b) == est_at(
            keys,
            counts,
            b,
        ) by {
            if keys[0] != b {
                assert(est_at(keys.drop_first().push(k), counts.drop_first().push(c), b)
                    == est_at(keys.drop_first(), counts.drop_first(), b));
            }
        }
        if keys[0] != k {
            assert(est_at(keys.push(k), counts.push(c), k) == est_at(
                keys.drop_first().push(k),
                counts.drop_first().push(c),
                k,
            ));
        }
    }
}

/// Halving every count halves every estimate.
proof fn lemma_est_halved(keys: Seq<u64>, before: Seq<u64>, after: Seq<u64>)
    requires
        keys.len() == before.len(),
        after.len() == before.len(),
        forall|j: int| 0 <= j < before.len() ==> after[j] == before[j] / 2,
    ensures
        forall|a: u64| est_at(keys, after, a) == est_at(keys, before, a) / 2,
    decreases keys.len(),
{
    if keys.len() > 0 {
        assert(forall|j: int|
            0 <= j < before.drop_first().len() ==> before.drop_first()[j] == before[j + 1]);
        assert(forall|j: int|
            0 <= j < after.drop_first().len() ==> after.drop_first()[j] == after[j + 1]);
        lemma_est_halved(keys.drop_first(), before.drop_first(), after.drop_first());
        assert forall|a: u64| est_at(keys, after, a) == est_at(keys, before, a) / 2 by {
            if keys[0] == a {
                assert(after[0] == before[0] / 2);
            } else {
                assert(est_at(keys.drop_first(), after.drop_first(), a) == est_at(
                    keys.drop_first(),
                    before.drop_first(),
                    a,
                ) / 2);
            }
        }
    }
}

} // verus!
