//! Admissible value sets for integer variables, kept as canonical unions of
//! closed intervals.

use crate::Error;
use vstd::prelude::*;

verus! {

/// Intervals are well formed (`lo <= hi`), sorted ascending, and separated by
/// at least one absent value, so no two neighbours overlap or touch.
pub open spec fn canonical_seq(s: Seq<(i64, i64)>) -> bool {
    &&& forall|i: int| 0 <= i < s.len() ==> (#[trigger] s[i]).0 <= s[i].1
    &&& forall|i: int, j: int|
        #![trigger s[i], s[j]]
        0 <= i < j < s.len() ==> s[i].1 + 1 < s[j].0
}

/// `v` lies in some interval of `s`.
pub open spec fn seq_contains_val(s: Seq<(i64, i64)>, v: int) -> bool {
    exists|i: int| 0 <= i < s.len() && (#[trigger] s[i]).0 <= v <= s[i].1
}

/// A caller-supplied interval list is acceptable: non-empty, every pair with
/// `lo <= hi`.
pub open spec fn valid_interval_input(s: Seq<(i64, i64)>) -> bool {
    s.len() > 0 && forall|i: int| 0 <= i < s.len() ==> (#[trigger] s[i]).0 <= s[i].1
}

/// The admissible value set of an integer variable: a non-empty union of
/// closed intervals over the 64-bit signed range, held in canonical form so
/// that equal sets have equal representations.
#[derive(Debug)]
pub struct Domain {
    ivs: Vec<(i64, i64)>,
}

impl View for Domain {
    type V = Seq<(i64, i64)>;

    closed spec fn view(&self) -> Seq<(i64, i64)> {
        self.ivs@
    }
}

proof fn lemma_contains_concat(s1: Seq<(i64, i64)>, s2: Seq<(i64, i64)>)
    ensures
        forall|v: int|
            #[trigger] seq_contains_val(s1 + s2, v) <==> seq_contains_val(s1, v)
                || seq_contains_val(s2, v),
{
    assert forall|v: int|
        #[trigger] seq_contains_val(s1 + s2, v) <==> seq_contains_val(s1, v) || seq_contains_val(
            s2,
            v,
        ) by {
        if seq_contains_val(s1 + s2, v) {
            let i = choose|i: int|
                0 <= i < (s1 + s2).len() && (#[trigger] (s1 + s2)[i]).0 <= v <= (s1 + s2)[i].1;
            if i < s1.len() {
                assert((s1 + s2)[i] == s1[i]);
            } else {
                assert((s1 + s2)[i] == s2[i - s1.len()]);
            }
        }
        if seq_contains_val(s1, v) {
            let i = choose|i: int| 0 <= i < s1.len() && (#[trigger] s1[i]).0 <= v <= s1[i].1;
            assert((s1 + s2)[i] == s1[i]);
        }
        if seq_contains_val(s2, v) {
            let i = choose|i: int| 0 <= i < s2.len() && (#[trigger] s2[i]).0 <= v <= s2[i].1;
            assert((s1 + s2)[i + s1.len()] == s2[i]);
        }
    }
}

proof fn lemma_contains_push(s: Seq<(i64, i64)>, p: (i64, i64))
    ensures
        forall|v: int|
            #[trigger] seq_contains_val(s.push(p), v) <==> seq_contains_val(s, v)
                || p.0 <= v <= p.1,
{
    lemma_contains_concat(s, seq![p]);
    assert(s.push(p) =~= s + seq![p]);
    assert forall|v: int| seq_contains_val(seq![p], v) <==> p.0 <= v <= p.1 by {
        if p.0 <= v <= p.1 {
            assert((seq![p])[0] == p);
        }
    }
}

/// The result of merging `[lo, hi]` into a canonical list `acc` is canonical
/// and represents the old set united with `[lo, hi]`.  The indices `k0` and
/// `kend` delimit the run of intervals of `acc` absorbed into `[mlo, mhi]`.
#[verifier::rlimit(40)]
proof fn lemma_insert_shape(
    acc: Seq<(i64, i64)>,
    lo: i64,
    hi: i64,
    k0: int,
    kend: int,
    mlo: i64,
    mhi: i64,
    out: Seq<(i64, i64)>,
)
    requires
        canonical_seq(acc),
        lo <= hi,
        0 <= k0 <= kend <= acc.len(),
        out =~= acc.take(k0) + seq![(mlo, mhi)] + acc.subrange(kend, acc.len() as int),
        forall|i: int| 0 <= i < k0 ==> (#[trigger] acc[i]).1 + 1 < lo,
        k0 < acc.len() ==> acc[k0].1 + 1 >= lo,
        mlo == if k0 < acc.len() && acc[k0].0 < lo {
            acc[k0].0
        } else {
            lo
        },
        forall|i: int| k0 <= i < kend ==> (#[trigger] acc[i]).0 <= hi + 1,
        mhi as int == if kend > k0 && acc[kend - 1].1 > hi {
            acc[kend - 1].1 as int
        } else {
            hi as int
        },
        kend < acc.len() ==> acc[kend].0 > hi + 1,
    ensures
        canonical_seq(out),
        out.len() > 0,
        forall|v: int|
            #[trigger] seq_contains_val(out, v) <==> seq_contains_val(acc, v) || lo <= v <= hi,
{
    let pre = acc.take(k0);
    let merged = acc.subrange(k0, kend);
    let post = acc.subrange(kend, acc.len() as int);
    assert(acc =~= pre + merged + post);
    assert(mlo <= lo && hi <= mhi);
    // Canonical form of the result.
    assert(canonical_seq(out)) by {
        assert forall|i: int| 0 <= i < out.len() implies (#[trigger] out[i]).0 <= out[i].1 by {
            if i < k0 {
                assert(out[i] == acc[i]);
            } else if i == k0 {
                assert(out[i] == (mlo, mhi));
            } else {
                assert(out[i] == acc[kend + (i - k0 - 1)]);
            }
        }
        assert forall|i: int, j: int|
            #![trigger out[i], out[j]]
            0 <= i < j < out.len() implies out[i].1 + 1 < out[j].0 by {
            if j < k0 {
                assert(out[i] == acc[i] && out[j] == acc[j]);
            } else if j == k0 {
                assert(out[i] == acc[i]);
                assert(out[j] == (mlo, mhi));
                if k0 < acc.len() && acc[k0].0 < lo {
                    assert(acc[i].1 + 1 < acc[k0].0);
                }
            } else if i == k0 {
                assert(out[i] == (mlo, mhi));
                assert(out[j] == acc[kend + (j - k0 - 1)]);
                if kend > k0 && acc[kend - 1].1 > hi {
                    assert(acc[kend - 1].1 + 1 < acc[kend + (j - k0 - 1)].0);
                } else {
                    assert(acc[kend].0 <= acc[kend + (j - k0 - 1)].0);
                }
            } else if i < k0 {
                assert(out[i] == acc[i]);
                assert(out[j] == acc[kend + (j - k0 - 1)]);
                assert(acc[i].1 + 1 < acc[kend + (j - k0 - 1)].0);
            } else {
                assert(out[i] == acc[kend + (i - k0 - 1)]);
                assert(out[j] == acc[kend + (j - k0 - 1)]);
            }
        }
    }
    // The represented set is the old set united with `[lo, hi]`.
    lemma_contains_concat(pre + seq![(mlo, mhi)], post);
    lemma_contains_concat(pre, seq![(mlo, mhi)]);
    lemma_contains_concat(pre + merged, post);
    lemma_contains_concat(pre, merged);
    assert(out =~= (pre + seq![(mlo, mhi)]) + post);
    assert(acc =~= (pre + merged) + post);
    assert forall|v: int| seq_contains_val(seq![(mlo, mhi)], v) <==> mlo <= v <= mhi by {
        if mlo <= v <= mhi {
            assert((seq![(mlo, mhi)])[0] == (mlo, mhi));
        }
    }
    assert forall|v: int| mlo <= v <= mhi implies seq_contains_val(merged, v) || lo <= v <= hi by {
        if !(lo <= v <= hi) {
            if v < lo {
                // Only possible when the first absorbed interval starts below `lo`.
                assert(k0 < acc.len() && acc[k0].0 < lo);
                assert(k0 < kend);
                assert(merged[0] == acc[k0]);
                assert(acc[k0].1 + 1 >= lo);
                assert(merged[0].0 <= v <= merged[0].1);
            } else {
                // `v > hi`: only possible when the last absorbed interval ends above `hi`.
                assert(kend > k0 && acc[kend - 1].1 > hi);
                assert(merged[kend - 1 - k0] == acc[kend - 1]);
                assert(acc[kend - 1].0 <= hi + 1);
                assert(merged[kend - 1 - k0].0 <= v <= merged[kend - 1 - k0].1);
            }
        }
    }
    assert forall|v: int| seq_contains_val(merged, v) implies mlo <= v <= mhi by {
        let i = choose|i: int| 0 <= i < merged.len() && (#[trigger] merged[i]).0 <= v <= merged[i].1;
        assert(merged[i] == acc[k0 + i]);
        if 0 < i {
            assert(acc[k0].1 + 1 < acc[k0 + i].0);
        }
        if k0 + i < kend - 1 {
            assert(acc[k0 + i].1 + 1 < acc[kend - 1].0);
        }
    }
}

/// Merge the closed interval `[lo, hi]` into a canonical interval list,
/// keeping the result canonical and preserving the represented set.
#[verifier::rlimit(30)]
#[verifier::loop_isolation(false)]
fn insert_interval(acc: &Vec<(i64, i64)>, lo: i64, hi: i64) -> (r: Vec<(i64, i64)>)
    requires
        canonical_seq(acc@),
        lo <= hi,
    ensures
        canonical_seq(r@),
        r@.len() > 0,
        forall|v: int|
            #[trigger] seq_contains_val(r@, v) <==> seq_contains_val(acc@, v) || lo <= v <= hi,
{
    let mut out: Vec<(i64, i64)> = Vec::new();
    let mut k: usize = 0;
    // Intervals that end at least two below `lo` cannot touch `[lo, hi]`.
    while k < acc.len() && acc[k].1 < lo && acc[k].1 + 1 < lo
        invariant
            canonical_seq(acc@),
            lo <= hi,
            k <= acc@.len(),
            out@ == acc@.take(k as int),
            forall|i: int| 0 <= i < k ==> (#[trigger] acc@[i]).1 + 1 < lo,
        decreases acc@.len() - k,
    {
        out.push(acc[k]);
        k = k + 1;
    }
    let ghost k0: int = k as int;
    let mut mlo: i64 = lo;
    let mut mhi: i64 = hi;
    if k < acc.len() && acc[k].0 < lo {
        mlo = acc[k].0;
    }
    // Absorb every interval that starts at most one above `hi`.
    while k < acc.len() && !(acc[k].0 > hi && acc[k].0 - 1 > hi)
        invariant
            canonical_seq(acc@),
            lo <= hi,
            k0 <= k as int <= acc@.len(),
            out@ == acc@.take(k0),
            forall|i: int| 0 <= i < k0 ==> (#[trigger] acc@[i]).1 + 1 < lo,
            k0 < acc@.len() ==> acc@[k0].1 + 1 >= lo,
            mlo == if k0 < acc@.len() && acc@[k0].0 < lo {
                acc@[k0].0
            } else {
                lo
            },
            forall|i: int| k0 <= i < k as int ==> (#[trigger] acc@[i]).0 <= hi + 1,
            mhi as int == if k as int > k0 && acc@[k as int - 1].1 > hi {
                acc@[k as int - 1].1 as int
            } else {
                hi as int
            },
        decreases acc@.len() - k,
    {
        let ghost kpre: int = k as int;
        if acc[k].1 > mhi {
            mhi = acc[k].1;
        }
        proof {
            if kpre > k0 {
                assert(acc@[kpre - 1].1 + 1 < acc@[kpre].0);
            }
        }
        k = k + 1;
    }
    let ghost kend: int = k as int;
    out.push((mlo, mhi));
    while k < acc.len()
        invariant
            0 <= k0 <= kend <= k as int <= acc@.len(),
            out@ == acc@.take(k0).push((mlo, mhi)) + acc@.subrange(kend, k as int),
        decreases acc@.len() - k,
    {
        proof {
            assert(acc@.subrange(kend, k as int + 1) =~= acc@.subrange(kend, k as int).push(
                acc@[k as int],
            ));
        }
        out.push(acc[k]);
        k = k + 1;
    }
    proof {
        assert(out@ =~= acc@.take(k0) + seq![(mlo, mhi)] + acc@.subrange(
            kend,
            acc@.len() as int,
        ));
        lemma_insert_shape(acc@, lo, hi, k0, kend, mlo, mhi, out@);
    }
    out
}

impl Domain {
    /// The intervals are canonical and the represented set is non-empty.
    pub open spec fn wf(&self) -> bool {
        canonical_seq(self@) && self@.len() > 0
    }

    /// Membership of `v` in the represented set.
    pub open spec fn spec_contains(&self, v: int) -> bool {
        seq_contains_val(self@, v)
    }

    /// Builds the canonical domain representing the union of the given closed
    /// intervals, whatever their order.  Rejects an empty list and any pair
    /// with `lo > hi` with [`Error::InvalidDomain`], leaving no other failure
    /// mode.
    #[verifier::rlimit(40)]
    pub fn from_intervals(pairs: &Vec<(i64, i64)>) -> (r: Result<Domain, Error>)
        ensures
            match r {
                Ok(d) => d.wf() && valid_interval_input(pairs@) && (forall|v: int|
                    #[trigger] d.spec_contains(v) <==> seq_contains_val(pairs@, v)),
                Err(e) => e == Error::InvalidDomain && !valid_interval_input(pairs@),
            },
    {
        if pairs.len() == 0 {
            return Err(Error::InvalidDomain);
        }
        let mut i: usize = 0;
        while i < pairs.len()
            invariant
                i <= pairs@.len(),
                forall|t: int| 0 <= t < i ==> (#[trigger] pairs@[t]).0 <= pairs@[t].1,
            decreases pairs@.len() - i,
        {
            if pairs[i].0 > pairs[i].1 {
                return Err(Error::InvalidDomain);
            }
            i = i + 1;
        }
        let mut acc: Vec<(i64, i64)> = Vec::new();
        let mut j: usize = 0;
        while j < pairs.len()
            invariant
                j <= pairs@.len(),
                pairs@.len() > 0,
                forall|t: int| 0 <= t < pairs@.len() ==> (#[trigger] pairs@[t]).0 <= pairs@[t].1,
                canonical_seq(acc@),
                j > 0 ==> acc@.len() > 0,
                forall|v: int|
                    #[trigger] seq_contains_val(acc@, v) <==> seq_contains_val(
                        pairs@.take(j as int),
                        v,
                    ),
            decreases pairs@.len() - j,
        {
            let p = pairs[j];
            acc = insert_interval(&acc, p.0, p.1);
            proof {
                assert(pairs@.take(j + 1) =~= pairs@.take(j as int).push(pairs@[j as int]));
                lemma_contains_push(pairs@.take(j as int), pairs@[j as int]);
            }
            j = j + 1;
        }
        proof {
            assert(pairs@.take(pairs@.len() as int) =~= pairs@);
        }
        Ok(Domain { ivs: acc })
    }

    /// Builds the domain of the single closed interval `[lo, hi]`; rejects
    /// `lo > hi` with [`Error::InvalidDomain`].
    pub fn single_interval(lo: i64, hi: i64) -> (r: Result<Domain, Error>)
        ensures
            match r {
                Ok(d) => d.wf() && lo <= hi && d@ == seq![(lo, hi)],
                Err(e) => e == Error::InvalidDomain && lo > hi,
            },
    {
        if lo > hi {
            return Err(Error::InvalidDomain);
        }
        let mut ivs: Vec<(i64, i64)> = Vec::new();
        ivs.push((lo, hi));
        proof {
            assert(ivs@ =~= seq![(lo, hi)]);
        }
        Ok(Domain { ivs })
    }

    /// The two-point domain of a boolean variable, `{0, 1}`.
    pub fn boolean() -> (d: Domain)
        ensures
            d.wf(),
            d@ == seq![(0i64, 1i64)],
    {
        let mut ivs: Vec<(i64, i64)> = Vec::new();
        ivs.push((0, 1));
        proof {
            assert(ivs@ =~= seq![(0i64, 1i64)]);
        }
        Domain { ivs }
    }

    /// Membership test by binary search over the canonical intervals.
    #[verifier::rlimit(40)]
    pub fn contains(&self, v: i64) -> (r: bool)
        requires
            self.wf(),
        ensures
            r == self.spec_contains(v as int),
    {
        let mut lo: usize = 0;
        let mut hi: usize = self.ivs.len();
        while lo < hi
            invariant
                self.wf(),
                lo <= hi <= self@.len(),
                forall|t: int| 0 <= t < lo ==> (#[trigger] self@[t]).0 <= v,
                forall|t: int| hi <= t < self@.len() ==> (#[trigger] self@[t]).0 > v,
            decreases hi - lo,
        {
            let mid = lo + (hi - lo) / 2;
            if self.ivs[mid].0 <= v {
                lo = mid + 1;
            } else {
                hi = mid;
            }
        }
        if lo == 0 {
            proof {
                assert forall|t: int| 0 <= t < self@.len() implies !((#[trigger] self@[t]).0 <= v
                    as int <= self@[t].1) by {}
            }
            false
        } else {
            let idx = lo - 1;
            let r = v <= self.ivs[idx].1;
            proof {
                if r {
                    assert(self@[idx as int].0 <= v as int <= self@[idx as int].1);
                } else {
                    assert forall|t: int| 0 <= t < self@.len() implies !((#[trigger] self@[t]).0
                        <= v as int <= self@[t].1) by {
                        if t < idx as int {
                            assert(self@[t].1 + 1 < self@[idx as int].0);
                        }
                    }
                }
            }
            r
        }
    }

    /// The canonical interval list, smallest first.
    pub fn intervals(&self) -> (r: &Vec<(i64, i64)>)
        ensures
            r@ == self@,
    {
        &self.ivs
    }
}

} // verus!
