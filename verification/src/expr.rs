//! Linear expressions: coefficient-weighted sums of variables plus a constant
//! offset, combined under addition and scalar multiplication with exact
//! 64-bit arithmetic.

use crate::vars::{BoolVar, IntVar};
use crate::Error;
use vstd::prelude::*;

verus! {

/// The coefficient that a term list assigns to variable index `x`: the value
/// of the first matching entry, or zero when absent.
pub open spec fn seq_coeff(s: Seq<(usize, i64)>, x: int) -> int
    decreases s.len(),
{
    if s.len() == 0 {
        0
    } else if s[0].0 == x {
        s[0].1 as int
    } else {
        seq_coeff(s.drop_first(), x)
    }
}

/// Term lists keep their variable indices strictly increasing, so each index
/// occurs at most once.
pub open spec fn strictly_sorted_terms(s: Seq<(usize, i64)>) -> bool {
    forall|i: int, j: int| #![trigger s[i], s[j]] 0 <= i < j < s.len() ==> s[i].0 < s[j].0
}

/// No entry carries a zero coefficient.
pub open spec fn nonzero_terms(s: Seq<(usize, i64)>) -> bool {
    forall|i: int| 0 <= i < s.len() ==> (#[trigger] s[i]).1 != 0
}

proof fn lemma_coeff_bounds(s: Seq<(usize, i64)>, x: int)
    ensures
        i64::MIN <= seq_coeff(s, x) <= i64::MAX,
    decreases s.len(),
{
    if s.len() > 0 && s[0].0 != x {
        lemma_coeff_bounds(s.drop_first(), x);
    }
}

pub(crate) proof fn lemma_sorted_drop_first(s: Seq<(usize, i64)>)
    requires
        strictly_sorted_terms(s),
        s.len() > 0,
    ensures
        strictly_sorted_terms(s.drop_first()),
{
    assert forall|i: int, j: int|
        #![trigger s.drop_first()[i], s.drop_first()[j]]
        0 <= i < j < s.drop_first().len() implies s.drop_first()[i].0 < s.drop_first()[j].0 by {
        assert(s.drop_first()[i] == s[i + 1]);
        assert(s.drop_first()[j] == s[j + 1]);
    }
}

proof fn lemma_coeff_snoc(s: Seq<(usize, i64)>, p: (usize, i64))
    requires
        forall|i: int| 0 <= i < s.len() ==> (#[trigger] s[i]).0 < p.0,
    ensures
        forall|x: int|
            #[trigger] seq_coeff(s.push(p), x) == if x == p.0 {
                p.1 as int
            } else {
                seq_coeff(s, x)
            },
    decreases s.len(),
{
    if s.len() == 0 {
        assert forall|x: int|
            #[trigger] seq_coeff(s.push(p), x) == if x == p.0 {
                p.1 as int
            } else {
                seq_coeff(s, x)
            } by {
            reveal_with_fuel(seq_coeff, 2);
            assert(s.push(p)[0] == p);
            assert(s.push(p).drop_first() =~= Seq::<(usize, i64)>::empty());
        }
    } else {
        assert forall|i: int| 0 <= i < s.drop_first().len() implies (#[trigger] s.drop_first()[i]).0
            < p.0 by {
            assert(s.drop_first()[i] == s[i + 1]);
        }
        lemma_coeff_snoc(s.drop_first(), p);
        assert forall|x: int|
            #[trigger] seq_coeff(s.push(p), x) == if x == p.0 {
                p.1 as int
            } else {
                seq_coeff(s, x)
            } by {
            reveal_with_fuel(seq_coeff, 2);
            assert(s.push(p)[0] == s[0]);
            assert(s.push(p).drop_first() =~= s.drop_first().push(p));
            assert(s[0].0 < p.0);
            assert(seq_coeff(s.drop_first().push(p), x) == if x == p.0 {
                p.1 as int
            } else {
                seq_coeff(s.drop_first(), x)
            });
        }
    }
}

pub(crate) proof fn lemma_coeff_lookup(s: Seq<(usize, i64)>, k: int)
    requires
        strictly_sorted_terms(s),
        0 <= k < s.len(),
    ensures
        seq_coeff(s, s[k].0 as int) == s[k].1 as int,
    decreases s.len(),
{
    if k == 0 {
    } else {
        assert(s[0].0 < s[k].0);
        lemma_sorted_drop_first(s);
        assert(s.drop_first()[k - 1] == s[k]);
        lemma_coeff_lookup(s.drop_first(), k - 1);
    }
}

pub(crate) proof fn lemma_coeff_absent(s: Seq<(usize, i64)>, x: int)
    requires
        forall|i: int| 0 <= i < s.len() ==> (#[trigger] s[i]).0 != x,
    ensures
        seq_coeff(s, x) == 0,
    decreases s.len(),
{
    if s.len() > 0 {
        assert forall|i: int| 0 <= i < s.drop_first().len() implies (#[trigger] s.drop_first()[i]).0
            != x by {
            assert(s.drop_first()[i] == s[i + 1]);
        }
        lemma_coeff_absent(s.drop_first(), x);
    }
}

/// Two expressions can be combined when their issuing builders agree; an
/// expression without variable terms is compatible with any builder.
pub open spec fn compatible_tags(a: Option<u64>, b: Option<u64>) -> bool {
    a is None || b is None || a == b
}

/// The issuing builder of a combination, when compatible.
pub open spec fn combined_tag(a: Option<u64>, b: Option<u64>) -> Option<u64> {
    if a is Some {
        a
    } else {
        b
    }
}

/// A linear expression: a map from variable index to non-zero integer
/// coefficient, plus a constant offset.  Variable terms remember the builder
/// that issued the variables.
#[derive(Clone, Debug)]
pub struct LinearExpr {
    tag: Option<u64>,
    terms: Vec<(usize, i64)>,
    offset: i64,
}

impl LinearExpr {
    /// The identity tag of the builder whose variables appear in the
    /// expression, if any.
    pub closed spec fn spec_tag(&self) -> Option<u64> {
        self.tag
    }

    /// The term list, ordered by variable index.
    pub closed spec fn spec_terms(&self) -> Seq<(usize, i64)> {
        self.terms@
    }

    /// The constant offset.
    pub closed spec fn spec_offset(&self) -> i64 {
        self.offset
    }

    /// The coefficient of variable index `x` (zero when absent).
    pub open spec fn coeff(&self, x: int) -> int {
        seq_coeff(self.spec_terms(), x)
    }

    /// Terms are strictly sorted by index and never carry a zero coefficient.
    pub open spec fn wf(&self) -> bool {
        strictly_sorted_terms(self.spec_terms()) && nonzero_terms(self.spec_terms())
    }

    /// Combining `self` and `other` under addition would leave the 64-bit
    /// range, in the offset or in some accumulated coefficient.
    pub open spec fn add_overflows(a: LinearExpr, b: LinearExpr) -> bool {
        ||| !(i64::MIN <= a.spec_offset() + b.spec_offset() <= i64::MAX)
        ||| exists|x: int| !(i64::MIN <= #[trigger] a.coeff(x) + b.coeff(x) <= i64::MAX)
    }

    /// Scaling `e` by `k` would leave the 64-bit range, in the offset or in
    /// some coefficient.
    pub open spec fn scale_overflows(e: LinearExpr, k: i64) -> bool {
        ||| !(i64::MIN <= k * e.spec_offset() <= i64::MAX)
        ||| exists|x: int| !(i64::MIN <= k * #[trigger] e.coeff(x) <= i64::MAX)
    }

    /// The pure-offset expression `c`, with no variable terms.
    pub fn constant(c: i64) -> (e: LinearExpr)
        ensures
            e.wf(),
            e.spec_tag() is None,
            e.spec_offset() == c,
            forall|x: int| #[trigger] e.coeff(x) == 0,
    {
        LinearExpr { tag: None, terms: Vec::new(), offset: c }
    }

    /// The unit expression of an integer variable: coefficient one, offset
    /// zero.
    pub fn from_int(v: IntVar) -> (e: LinearExpr)
        ensures
            e.wf(),
            e.spec_tag() == Some(v.tag),
            e.spec_offset() == 0,
            forall|x: int|
                #[trigger] e.coeff(x) == if x == v.index {
                    1int
                } else {
                    0int
                },
    {
        Self::term(1, v)
    }

    /// The unit expression of a boolean variable, read as 0 or 1.
    pub fn from_bool(b: BoolVar) -> (e: LinearExpr)
        ensures
            e.wf(),
            e.spec_tag() == Some(b.tag),
            e.spec_offset() == 0,
            forall|x: int|
                #[trigger] e.coeff(x) == if x == b.index {
                    1int
                } else {
                    0int
                },
    {
        let v = IntVar { tag: b.tag, index: b.index };
        Self::term(1, v)
    }

    /// The single-term expression `c * v`, offset zero.  A zero `c` yields an
    /// expression without terms.
    pub fn term(c: i64, v: IntVar) -> (e: LinearExpr)
        ensures
            e.wf(),
            e.spec_tag() == Some(v.tag),
            e.spec_offset() == 0,
            forall|x: int|
                #[trigger] e.coeff(x) == if x == v.index {
                    c as int
                } else {
                    0int
                },
    {
        let mut terms: Vec<(usize, i64)> = Vec::new();
        if c != 0 {
            terms.push((v.index, c));
        }
        let e = LinearExpr { tag: Some(v.tag), terms, offset: 0 };
        proof {
            if c != 0 {
                lemma_coeff_snoc(Seq::<(usize, i64)>::empty(), (v.index, c));
                assert(e.spec_terms() =~= Seq::<(usize, i64)>::empty().push((v.index, c)));
            } else {
                assert forall|x: int| #[trigger] e.coeff(x) == 0int by {
                    lemma_coeff_absent(e.spec_terms(), x);
                }
            }
        }
        e
    }

    /// Adds two expressions: coefficients accumulate per variable index and
    /// entries that cancel to zero are dropped.  Fails with
    /// [`Error::InvalidHandle`] when the expressions come from different
    /// builders and with [`Error::ArithmeticOverflow`] when a coefficient or
    /// the offset leaves the 64-bit range; the inputs are unaffected.
    #[verifier::rlimit(40)]
    #[verifier::loop_isolation(false)]
    pub fn add(&self, other: &LinearExpr) -> (r: Result<LinearExpr, Error>)
        requires
            self.wf(),
            other.wf(),
        ensures
            match r {
                Ok(e) => {
                    &&& compatible_tags(self.spec_tag(), other.spec_tag())
                    &&& !Self::add_overflows(*self, *other)
                    &&& e.wf()
                    &&& e.spec_tag() == combined_tag(self.spec_tag(), other.spec_tag())
                    &&& e.spec_offset() as int == self.spec_offset() + other.spec_offset()
                    &&& forall|x: int| #[trigger] e.coeff(x) == self.coeff(x) + other.coeff(x)
                },
                Err(Error::InvalidHandle) => !compatible_tags(self.spec_tag(), other.spec_tag()),
                Err(Error::ArithmeticOverflow) => compatible_tags(self.spec_tag(), other.spec_tag())
                    && Self::add_overflows(*self, *other),
                Err(_) => false,
            },
    {
        let tag: Option<u64> = match (self.tag, other.tag) {
            (Some(a), Some(b)) => {
                if a != b {
                    return Err(Error::InvalidHandle);
                }
                Some(a)
            },
            (Some(a), None) => Some(a),
            (None, Some(b)) => Some(b),
            (None, None) => None,
        };
        let offset = match self.offset.checked_add(other.offset) {
            Some(o) => o,
            None => {
                return Err(Error::ArithmeticOverflow);
            },
        };
        let a = &self.terms;
        let b = &other.terms;
        let mut res: Vec<(usize, i64)> = Vec::new();
        let mut i: usize = 0;
        let mut j: usize = 0;
        while i < a.len() || j < b.len()
            invariant
                i <= a@.len(),
                j <= b@.len(),
                strictly_sorted_terms(res@),
                nonzero_terms(res@),
                forall|t: int|
                    0 <= t < res@.len() && i < a@.len() ==> (#[trigger] res@[t]).0 < a@[i as int].0,
                forall|t: int|
                    0 <= t < res@.len() && j < b@.len() ==> (#[trigger] res@[t]).0 < b@[j as int].0,
                forall|t: int|
                    0 <= t < i && j < b@.len() ==> (#[trigger] a@[t]).0 < b@[j as int].0,
                forall|t: int|
                    0 <= t < j && i < a@.len() ==> (#[trigger] b@[t]).0 < a@[i as int].0,
                forall|x: int|
                    #[trigger] seq_coeff(res@, x) == seq_coeff(a@.take(i as int), x) + seq_coeff(
                        b@.take(j as int),
                        x,
                    ),
            decreases (a@.len() - i) + (b@.len() - j),
        {
            let ghost resp = res@;
            if j >= b.len() || (i < a.len() && a[i].0 < b[j].0) {
                let p = a[i];
                res.push(p);
                proof {
                    assert forall|t: int| 0 <= t < a@.take(i as int).len() implies (
                    #[trigger] a@.take(i as int)[t]).0 < p.0 by {
                        assert(a@.take(i as int)[t] == a@[t]);
                    }
                    assert forall|t: int| 0 <= t < b@.take(j as int).len() implies (
                    #[trigger] b@.take(j as int)[t]).0 != p.0 by {
                        assert(b@.take(j as int)[t] == b@[t]);
                    }
                    lemma_coeff_absent(b@.take(j as int), p.0 as int);
                    lemma_coeff_snoc(a@.take(i as int), p);
                    lemma_coeff_snoc(resp, p);
                    assert(a@.take(i + 1) =~= a@.take(i as int).push(p));
                }
                i = i + 1;
            } else if i >= a.len() || b[j].0 < a[i].0 {
                let p = b[j];
                res.push(p);
                proof {
                    assert forall|t: int| 0 <= t < b@.take(j as int).len() implies (
                    #[trigger] b@.take(j as int)[t]).0 < p.0 by {
                        assert(b@.take(j as int)[t] == b@[t]);
                    }
                    assert forall|t: int| 0 <= t < a@.take(i as int).len() implies (
                    #[trigger] a@.take(i as int)[t]).0 != p.0 by {
                        assert(a@.take(i as int)[t] == a@[t]);
                    }
                    lemma_coeff_absent(a@.take(i as int), p.0 as int);
                    lemma_coeff_snoc(b@.take(j as int), p);
                    lemma_coeff_snoc(resp, p);
                    assert(b@.take(j + 1) =~= b@.take(j as int).push(p));
                }
                j = j + 1;
            } else {
                // Equal indices: coefficients accumulate, zeros are elided.
                let idx = a[i].0;
                let c = match a[i].1.checked_add(b[j].1) {
                    Some(c) => c,
                    None => {
                        proof {
                            lemma_coeff_lookup(a@, i as int);
                            lemma_coeff_lookup(b@, j as int);
                            assert(!(i64::MIN <= self.coeff(idx as int) + other.coeff(idx as int)
                                <= i64::MAX));
                        }
                        return Err(Error::ArithmeticOverflow);
                    },
                };
                proof {
                    assert forall|t: int| 0 <= t < a@.take(i as int).len() implies (
                    #[trigger] a@.take(i as int)[t]).0 < idx by {
                        assert(a@.take(i as int)[t] == a@[t]);
                    }
                    assert forall|t: int| 0 <= t < b@.take(j as int).len() implies (
                    #[trigger] b@.take(j as int)[t]).0 < idx by {
                        assert(b@.take(j as int)[t] == b@[t]);
                    }
                    lemma_coeff_snoc(a@.take(i as int), a@[i as int]);
                    lemma_coeff_snoc(b@.take(j as int), b@[j as int]);
                    assert(a@.take(i + 1) =~= a@.take(i as int).push(a@[i as int]));
                    assert(b@.take(j + 1) =~= b@.take(j as int).push(b@[j as int]));
                    assert forall|t: int| 0 <= t < resp.len() implies (#[trigger] resp[t]).0
                        != idx by {}
                    lemma_coeff_absent(resp, idx as int);
                }
                if c != 0 {
                    res.push((idx, c));
                    proof {
                        lemma_coeff_snoc(resp, (idx, c));
                    }
                }
                i = i + 1;
                j = j + 1;
            }
        }
        proof {
            assert(a@.take(a@.len() as int) =~= a@);
            assert(b@.take(b@.len() as int) =~= b@);
            assert forall|x: int|
                i64::MIN <= #[trigger] self.coeff(x) + other.coeff(x) <= i64::MAX by {
                assert(seq_coeff(res@, x) == self.coeff(x) + other.coeff(x));
                lemma_coeff_bounds(res@, x);
            }
        }
        Ok(LinearExpr { tag, terms: res, offset })
    }

    /// Multiplies every coefficient and the offset by `k`; scaling by zero
    /// yields the empty expression.  Fails with
    /// [`Error::ArithmeticOverflow`] when a product leaves the 64-bit range;
    /// the input is unaffected.
    #[verifier::rlimit(40)]
    #[verifier::loop_isolation(false)]
    pub fn scale(&self, k: i64) -> (r: Result<LinearExpr, Error>)
        requires
            self.wf(),
        ensures
            match r {
                Ok(e) => {
                    &&& !Self::scale_overflows(*self, k)
                    &&& e.wf()
                    &&& e.spec_tag() == self.spec_tag()
                    &&& e.spec_offset() as int == k * self.spec_offset()
                    &&& forall|x: int| #[trigger] e.coeff(x) == k * self.coeff(x)
                },
                Err(Error::ArithmeticOverflow) => Self::scale_overflows(*self, k),
                Err(_) => false,
            },
    {
        if k == 0 {
            let e = LinearExpr { tag: self.tag, terms: Vec::new(), offset: 0 };
            proof {
                vstd::arithmetic::mul::lemma_mul_basics(self.spec_offset() as int);
                assert forall|x: int| #[trigger] e.coeff(x) == k * self.coeff(x) by {
                    lemma_coeff_absent(e.spec_terms(), x);
                    vstd::arithmetic::mul::lemma_mul_basics(self.coeff(x));
                }
                assert forall|x: int| i64::MIN <= k * #[trigger] self.coeff(x) <= i64::MAX by {
                    vstd::arithmetic::mul::lemma_mul_basics(self.coeff(x));
                }
            }
            return Ok(e);
        }
        proof {
            vstd::arithmetic::mul::lemma_mul_is_commutative(self.spec_offset() as int, k as int);
        }
        let offset = match self.offset.checked_mul(k) {
            Some(o) => o,
            None => {
                proof {
                    vstd::arithmetic::mul::lemma_mul_is_commutative(
                        k as int,
                        self.spec_offset() as int,
                    );
                }
                return Err(Error::ArithmeticOverflow);
            },
        };
        let mut res: Vec<(usize, i64)> = Vec::new();
        let mut t: usize = 0;
        while t < self.terms.len()
            invariant
                t <= self.spec_terms().len(),
                res@.len() == t,
                forall|u: int| 0 <= u < t ==> (#[trigger] res@[u]).0 == self.spec_terms()[u].0,
                strictly_sorted_terms(res@),
                nonzero_terms(res@),
                forall|x: int|
                    #[trigger] seq_coeff(res@, x) == k * seq_coeff(
                        self.spec_terms().take(t as int),
                        x,
                    ),
            decreases self.spec_terms().len() - t,
        {
            let ghost resp = res@;
            let (idx, c) = self.terms[t];
            let p = match c.checked_mul(k) {
                Some(p) => p,
                None => {
                    proof {
                        lemma_coeff_lookup(self.spec_terms(), t as int);
                        vstd::arithmetic::mul::lemma_mul_is_commutative(c as int, k as int);
                        assert(!(i64::MIN <= k * self.coeff(idx as int) <= i64::MAX));
                    }
                    return Err(Error::ArithmeticOverflow);
                },
            };
            proof {
                assert(p as int != 0) by (nonlinear_arith)
                    requires
                        c != 0,
                        k != 0,
                        p == c * k,
                {}
                vstd::arithmetic::mul::lemma_mul_is_commutative(c as int, k as int);
            }
            res.push((idx, p));
            proof {
                assert forall|u: int| 0 <= u < resp.len() implies (#[trigger] resp[u]).0 < idx by {
                    assert(resp[u].0 == self.spec_terms()[u].0);
                    assert(self.spec_terms()[u].0 < self.spec_terms()[t as int].0);
                }
                lemma_coeff_snoc(resp, (idx, p));
                assert forall|u: int| 0 <= u < self.spec_terms().take(t as int).len() implies (
                #[trigger] self.spec_terms().take(t as int)[u]).0 < idx by {
                    assert(self.spec_terms().take(t as int)[u] == self.spec_terms()[u]);
                }
                lemma_coeff_snoc(self.spec_terms().take(t as int), self.spec_terms()[t as int]);
                assert(self.spec_terms().take(t + 1) =~= self.spec_terms().take(t as int).push(
                    self.spec_terms()[t as int],
                ));
            }
            t = t + 1;
        }
        proof {
            assert(self.spec_terms().take(self.spec_terms().len() as int) =~= self.spec_terms());
            assert forall|x: int| i64::MIN <= k * #[trigger] self.coeff(x) <= i64::MAX by {
                assert(seq_coeff(res@, x) == k * self.coeff(x));
                lemma_coeff_bounds(res@, x);
            }
        }
        Ok(LinearExpr { tag: self.tag, terms: res, offset })
    }

    /// The coefficient stored for a variable index, zero when absent.
    pub fn coefficient(&self, index: usize) -> (c: i64)
        requires
            self.wf(),
        ensures
            c as int == self.coeff(index as int),
    {
        let mut t: usize = 0;
        while t < self.terms.len()
            invariant
                t <= self.spec_terms().len(),
                self.wf(),
                forall|u: int| 0 <= u < t ==> (#[trigger] self.spec_terms()[u]).0 != index,
            decreases self.spec_terms().len() - t,
        {
            if self.terms[t].0 == index {
                proof {
                    lemma_coeff_lookup(self.spec_terms(), t as int);
                }
                return self.terms[t].1;
            }
            t = t + 1;
        }
        proof {
            lemma_coeff_absent(self.spec_terms(), index as int);
        }
        0
    }

    /// The identity tag of the issuing builder, if any variable was used.
    pub fn tag(&self) -> (t: Option<u64>)
        ensures
            t == self.spec_tag(),
    {
        self.tag
    }

    /// The term list, ordered by variable index.
    pub fn terms(&self) -> (r: &Vec<(usize, i64)>)
        ensures
            r@ == self.spec_terms(),
    {
        &self.terms
    }

    /// The constant offset.
    pub fn offset(&self) -> (r: i64)
        ensures
            r == self.spec_offset(),
    {
        self.offset
    }
}

} // verus!
