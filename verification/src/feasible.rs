//! Feasibility semantics of the wire IR, an exact assignment checker, and
//! the laws that conjunction and disequality constraints impose on feasible
//! assignments.

use crate::domain::seq_contains_val;
use crate::expr::{
    lemma_coeff_absent, lemma_coeff_lookup, lemma_sorted_drop_first, nonzero_terms, seq_coeff,
    strictly_sorted_terms,
};
use crate::model::{
    bool_domain_seq, constraint_wf, is_bool_and, is_not_equal, model_wf, ConstraintRec,
    CpModelBuilder, Model,
};
use crate::vars::BoolVar;
use crate::Error;
use vstd::prelude::*;

verus! {

/// The exact weighted sum of a term list under a positional assignment.
pub open spec fn term_sum(terms: Seq<(usize, i64)>, a: Seq<i64>) -> int
    decreases terms.len(),
{
    if terms.len() == 0 {
        0
    } else {
        terms[0].1 * a[terms[0].0 as int] + term_sum(terms.drop_first(), a)
    }
}

/// A linear bound is met; `i64::MIN` as `lo` and `i64::MAX` as `hi` stand for
/// an unbounded side.
pub open spec fn in_range(lo: i64, hi: i64, s: int) -> bool {
    (lo == i64::MIN || lo as int <= s) && (hi == i64::MAX || s <= hi as int)
}

/// One constraint record holds under a positional assignment.
pub open spec fn constraint_holds(c: ConstraintRec, a: Seq<i64>) -> bool {
    match c {
        ConstraintRec::LinearRange { terms, lo, hi } => in_range(lo, hi, term_sum(terms@, a)),
        ConstraintRec::BoolAnd { literals } => forall|t: int|
            0 <= t < literals@.len() ==> a[(#[trigger] literals@[t]) as int] == 1,
        ConstraintRec::NotEqual { a: x, b: y } => a[x as int] != a[y as int],
    }
}

/// The assignment is feasible for the model: positionally complete, inside
/// every variable's domain, and satisfying every constraint record.
pub open spec fn model_feasible(m: Model, a: Seq<i64>) -> bool {
    &&& a.len() == m.domains@.len()
    &&& forall|i: int|
        0 <= i < m.domains@.len() ==> seq_contains_val((#[trigger] m.domains@[i])@, a[i] as int)
    &&& forall|c: int|
        0 <= c < m.constraints@.len() ==> constraint_holds(#[trigger] m.constraints@[c], a)
}

/// Every partial sum of the term list stays in the 128-bit signed range, so
/// the exact evaluation below cannot overflow.
pub open spec fn sums_fit(terms: Seq<(usize, i64)>, a: Seq<i64>) -> bool {
    forall|k: int|
        0 <= k <= terms.len() ==> i128::MIN <= term_sum(#[trigger] terms.take(k), a) <= i128::MAX
}

/// Evaluating the record on the assignment would leave the evaluator's range.
pub open spec fn constraint_overflows(c: ConstraintRec, a: Seq<i64>) -> bool {
    c matches ConstraintRec::LinearRange { terms, .. } && !sums_fit(terms@, a)
}

/// Some linear constraint of the model overflows the evaluator on this
/// assignment.
pub open spec fn exists_overflow(m: Model, a: Seq<i64>) -> bool {
    exists|c: int|
        0 <= c < m.constraints@.len() && #[trigger] constraint_overflows(m.constraints@[c], a)
}

proof fn lemma_term_sum_snoc(s: Seq<(usize, i64)>, p: (usize, i64), a: Seq<i64>)
    ensures
        term_sum(s.push(p), a) == term_sum(s, a) + p.1 * a[p.0 as int],
    decreases s.len(),
{
    if s.len() == 0 {
        reveal_with_fuel(term_sum, 2);
        assert(s.push(p)[0] == p);
        assert(s.push(p).drop_first() =~= Seq::<(usize, i64)>::empty());
    } else {
        assert(s.push(p)[0] == s[0]);
        assert(s.push(p).drop_first() =~= s.drop_first().push(p));
        lemma_term_sum_snoc(s.drop_first(), p, a);
    }
}

proof fn lemma_prod_fits(x: i64, y: i64)
    ensures
        i128::MIN <= x as int * y as int <= i128::MAX,
{
    assert(i128::MIN <= x as int * y as int <= i128::MAX) by (nonlinear_arith)
        requires
            i64::MIN <= x as int <= i64::MAX,
            i64::MIN <= y as int <= i64::MAX,
    {}
}

/// Exact evaluation of a term list over `a`, accumulating in 128-bit
/// arithmetic; `None` exactly when some partial sum leaves that range.
#[verifier::loop_isolation(false)]
fn eval_terms(terms: &Vec<(usize, i64)>, a: &Vec<i64>) -> (r: Option<i128>)
    requires
        forall|t: int| 0 <= t < terms@.len() ==> (#[trigger] terms@[t]).0 < a@.len(),
    ensures
        match r {
            Some(s) => sums_fit(terms@, a@) && s as int == term_sum(terms@, a@),
            None => !sums_fit(terms@, a@),
        },
{
    let mut acc: i128 = 0;
    let mut k: usize = 0;
    while k < terms.len()
        invariant
            k <= terms@.len(),
            acc as int == term_sum(terms@.take(k as int), a@),
            forall|k2: int|
                0 <= k2 <= k as int ==> i128::MIN <= term_sum(#[trigger] terms@.take(k2), a@)
                    <= i128::MAX,
        decreases terms@.len() - k,
    {
        let (idx, c) = terms[k];
        let v = a[idx];
        proof {
            lemma_prod_fits(c, v);
            lemma_term_sum_snoc(terms@.take(k as int), terms@[k as int], a@);
            assert(terms@.take(k + 1) =~= terms@.take(k as int).push(terms@[k as int]));
        }
        let p: i128 = (c as i128) * (v as i128);
        acc = match acc.checked_add(p) {
            Some(n) => n,
            None => {
                proof {
                    assert(!(i128::MIN <= term_sum(terms@.take(k as int + 1), a@) <= i128::MAX));
                }
                return None;
            },
        };
        k = k + 1;
    }
    proof {
        assert(terms@.take(terms@.len() as int) =~= terms@);
    }
    Some(acc)
}

/// Evaluates one constraint record on a positional assignment; fails with
/// [`Error::ArithmeticOverflow`] exactly when a linear sum leaves the
/// evaluator's 128-bit range.
#[verifier::loop_isolation(false)]
fn check_constraint(c: &ConstraintRec, a: &Vec<i64>) -> (r: Result<bool, Error>)
    requires
        constraint_wf(*c, a@.len() as nat),
    ensures
        match r {
            Ok(b) => b == constraint_holds(*c, a@) && !constraint_overflows(*c, a@),
            Err(e) => e == Error::ArithmeticOverflow && constraint_overflows(*c, a@),
        },
{
    match c {
        ConstraintRec::LinearRange { terms, lo, hi } => {
            let s = match eval_terms(terms, a) {
                Some(s) => s,
                None => {
                    return Err(Error::ArithmeticOverflow);
                },
            };
            let lo_ok = *lo == i64::MIN || s >= (*lo as i128);
            let hi_ok = *hi == i64::MAX || s <= (*hi as i128);
            Ok(lo_ok && hi_ok)
        },
        ConstraintRec::BoolAnd { literals } => {
            let mut t: usize = 0;
            while t < literals.len()
                invariant
                    t <= literals@.len(),
                    forall|t2: int| 0 <= t2 < literals@.len() ==> (#[trigger] literals@[t2]) < a@.len(),
                    forall|t2: int|
                        0 <= t2 < t as int ==> a@[(#[trigger] literals@[t2]) as int] == 1,
                decreases literals@.len() - t,
            {
                if a[literals[t]] != 1 {
                    proof {
                        assert(a@[(literals@[t as int]) as int] != 1);
                    }
                    return Ok(false);
                }
                t = t + 1;
            }
            Ok(true)
        },
        ConstraintRec::NotEqual { a: x, b: y } => Ok(a[*x] != a[*y]),
    }
}

/// Verifies that a positional assignment (one value per variable, in index
/// order) is a feasible solution of the model: every value within its
/// variable's domain and every constraint record satisfied, by exact integer
/// evaluation.  An assignment of the wrong length is infeasible.  Fails with
/// [`Error::ArithmeticOverflow`] exactly when some linear sum leaves the
/// evaluator's 128-bit range.
pub fn solution_is_feasible(m: &Model, solution: &Vec<i64>) -> (r: Result<bool, Error>)
    requires
        model_wf(*m),
    ensures
        match r {
            Ok(b) => b == model_feasible(*m, solution@) && !(solution@.len() == m.domains@.len()
                && exists_overflow(*m, solution@)),
            Err(e) => {
                &&& e == Error::ArithmeticOverflow
                &&& solution@.len() == m.domains@.len()
                &&& exists_overflow(*m, solution@)
            },
        },
{
    if solution.len() != m.domains.len() {
        return Ok(false);
    }
    let mut dom_ok = true;
    let mut i: usize = 0;
    while i < m.domains.len()
        invariant
            i <= m.domains@.len(),
            model_wf(*m),
            solution@.len() == m.domains@.len(),
            dom_ok <==> (forall|i2: int|
                0 <= i2 < i as int ==> seq_contains_val(
                    (#[trigger] m.domains@[i2])@,
                    solution@[i2] as int,
                )),
        decreases m.domains@.len() - i,
    {
        if !m.domains[i].contains(solution[i]) {
            dom_ok = false;
            proof {
                assert(!seq_contains_val(m.domains@[i as int]@, solution@[i as int] as int));
            }
        }
        i = i + 1;
    }
    let mut con_ok = true;
    let mut c: usize = 0;
    while c < m.constraints.len()
        invariant
            c <= m.constraints@.len(),
            model_wf(*m),
            solution@.len() == m.domains@.len(),
            dom_ok <==> (forall|i2: int|
                0 <= i2 < m.domains@.len() ==> seq_contains_val(
                    (#[trigger] m.domains@[i2])@,
                    solution@[i2] as int,
                )),
            con_ok <==> (forall|c2: int|
                0 <= c2 < c as int ==> constraint_holds(#[trigger] m.constraints@[c2], solution@)),
            forall|c2: int|
                0 <= c2 < c as int ==> !constraint_overflows(
                    #[trigger] m.constraints@[c2],
                    solution@,
                ),
        decreases m.constraints@.len() - c,
    {
        match check_constraint(&m.constraints[c], solution) {
            Ok(b) => {
                if !b {
                    con_ok = false;
                    proof {
                        assert(!constraint_holds(m.constraints@[c as int], solution@));
                    }
                }
            },
            Err(e) => {
                return Err(e);
            },
        }
        c = c + 1;
    }
    Ok(dom_ok && con_ok)
}

/// The exact value of the model's objective under a positional assignment:
/// the weighted sum of the objective terms plus its offset (zero when no
/// objective is set).
pub open spec fn spec_objective_value(m: Model, a: Seq<i64>) -> int {
    match m.objective {
        Some(o) => term_sum(o.terms@, a) + o.offset,
        None => 0,
    }
}

/// Computes the exact objective value of an assignment.  Fails with
/// [`Error::ArithmeticOverflow`] exactly when a partial sum leaves the
/// evaluator's 128-bit range or the result leaves the 64-bit range.
pub fn objective_value(m: &Model, solution: &Vec<i64>) -> (r: Result<i64, Error>)
    requires
        model_wf(*m),
        m.objective is Some,
        solution@.len() == m.domains@.len(),
    ensures
        match r {
            Ok(v) => {
                &&& v as int == spec_objective_value(*m, solution@)
                &&& i64::MIN <= spec_objective_value(*m, solution@) <= i64::MAX
            },
            Err(e) => {
                &&& e == Error::ArithmeticOverflow
                &&& {
                    let o = match m.objective {
                        Some(o) => o,
                        None => arbitrary(),
                    };
                    !sums_fit(o.terms@, solution@) || !(i64::MIN <= spec_objective_value(
                        *m,
                        solution@,
                    ) <= i64::MAX)
                }
            },
        },
{
    let o = match &m.objective {
        Some(o) => o,
        None => {
            proof {
                assert(false);
            }
            return Err(Error::ArithmeticOverflow);
        },
    };
    let s = match eval_terms(&o.terms, solution) {
        Some(s) => s,
        None => {
            return Err(Error::ArithmeticOverflow);
        },
    };
    let total = match s.checked_add(o.offset as i128) {
        Some(t) => t,
        None => {
            return Err(Error::ArithmeticOverflow);
        },
    };
    if total < i64::MIN as i128 || total > i64::MAX as i128 {
        return Err(Error::ArithmeticOverflow);
    }
    Ok(total as i64)
}

proof fn lemma_index_of_nonzero(s: Seq<(usize, i64)>, x: int) -> (t: int)
    requires
        seq_coeff(s, x) != 0,
    ensures
        0 <= t < s.len(),
        s[t].0 == x,
    decreases s.len(),
{
    if s.len() == 0 {
        assert(false);
        0
    } else if s[0].0 == x {
        0
    } else {
        let t = lemma_index_of_nonzero(s.drop_first(), x);
        assert(s.drop_first()[t] == s[t + 1]);
        t + 1
    }
}

/// Law: evaluating a term list depends only on the coefficient map it
/// represents — two sorted, zero-free lists with pointwise-equal
/// coefficients have the same weighted sum under every assignment.  So the
/// algebraically simplified form that expression addition and scaling keep
/// is exactly what constraint evaluation reads.
pub proof fn lemma_term_sum_respects_coeffs(
    s1: Seq<(usize, i64)>,
    s2: Seq<(usize, i64)>,
    a: Seq<i64>,
)
    requires
        strictly_sorted_terms(s1),
        nonzero_terms(s1),
        strictly_sorted_terms(s2),
        nonzero_terms(s2),
        forall|x: int| #[trigger] seq_coeff(s1, x) == seq_coeff(s2, x),
    ensures
        term_sum(s1, a) == term_sum(s2, a),
    decreases s1.len(),
{
    if s1.len() == 0 {
        if s2.len() > 0 {
            lemma_coeff_lookup(s2, 0);
            assert(seq_coeff(s1, s2[0].0 as int) == 0);
            assert(false);
        }
    } else if s2.len() == 0 {
        lemma_coeff_lookup(s1, 0);
        assert(seq_coeff(s2, s1[0].0 as int) == 0);
        assert(false);
    } else {
        // Both heads carry the common minimal index, with equal coefficients.
        lemma_coeff_lookup(s1, 0);
        lemma_coeff_lookup(s2, 0);
        let t1 = lemma_index_of_nonzero(s1, s2[0].0 as int);
        let t2 = lemma_index_of_nonzero(s2, s1[0].0 as int);
        assert(s1[0].0 <= s1[t1].0);
        assert(s2[0].0 <= s2[t2].0);
        assert(s1[0].0 == s2[0].0);
        assert(s1[0].1 as int == seq_coeff(s1, s1[0].0 as int));
        assert(s1[0] == s2[0]);
        // The tails again represent equal coefficient maps.
        lemma_sorted_drop_first(s1);
        lemma_sorted_drop_first(s2);
        assert forall|i: int| 0 <= i < s1.drop_first().len() implies (
        #[trigger] s1.drop_first()[i]).1 != 0 by {
            assert(s1.drop_first()[i] == s1[i + 1]);
        }
        assert forall|i: int| 0 <= i < s2.drop_first().len() implies (
        #[trigger] s2.drop_first()[i]).1 != 0 by {
            assert(s2.drop_first()[i] == s2[i + 1]);
        }
        assert forall|x: int|
            #[trigger] seq_coeff(s1.drop_first(), x) == seq_coeff(s2.drop_first(), x) by {
            if x == s1[0].0 {
                assert forall|i: int| 0 <= i < s1.drop_first().len() implies (
                #[trigger] s1.drop_first()[i]).0 != x by {
                    assert(s1.drop_first()[i] == s1[i + 1]);
                    assert(s1[0].0 < s1[i + 1].0);
                }
                assert forall|i: int| 0 <= i < s2.drop_first().len() implies (
                #[trigger] s2.drop_first()[i]).0 != x by {
                    assert(s2.drop_first()[i] == s2[i + 1]);
                    assert(s2[0].0 < s2[i + 1].0);
                }
                lemma_coeff_absent(s1.drop_first(), x);
                lemma_coeff_absent(s2.drop_first(), x);
            } else {
                assert(seq_coeff(s1, x) == seq_coeff(s1.drop_first(), x));
                assert(seq_coeff(s2, x) == seq_coeff(s2.drop_first(), x));
            }
        }
        lemma_term_sum_respects_coeffs(s1.drop_first(), s2.drop_first(), a);
    }
}

/// Law: a feasible assignment satisfies each conjunction constraint — every
/// listed literal holds value 1.
pub proof fn lemma_feasible_and_literals(m: Model, a: Seq<i64>, c: int, lits: Seq<usize>, t: int)
    requires
        model_feasible(m, a),
        0 <= c < m.constraints@.len(),
        is_bool_and(m.constraints@[c], lits),
        0 <= t < lits.len(),
    ensures
        a[lits[t] as int] == 1,
{
    assert(constraint_holds(m.constraints@[c], a));
}

/// Law: in a model of two boolean variables whose only constraint conjoins
/// them, an assignment is feasible exactly when both values are 1.
pub proof fn lemma_and_pair_feasibility(m: Model, a: Seq<i64>)
    requires
        model_wf(m),
        m.domains@.len() == 2,
        m.domains@[0]@ == bool_domain_seq(),
        m.domains@[1]@ == bool_domain_seq(),
        m.constraints@.len() == 1,
        is_bool_and(m.constraints@[0], seq![0usize, 1usize]),
        a.len() == 2,
    ensures
        model_feasible(m, a) <==> (a[0] == 1 && a[1] == 1),
{
    let lits = seq![0usize, 1usize];
    if model_feasible(m, a) {
        lemma_feasible_and_literals(m, a, 0, lits, 0);
        lemma_feasible_and_literals(m, a, 0, lits, 1);
        assert(lits[0] == 0 && lits[1] == 1);
    }
    if a[0] == 1 && a[1] == 1 {
        assert forall|i: int|
            0 <= i < m.domains@.len() implies seq_contains_val(
            (#[trigger] m.domains@[i])@,
            a[i] as int,
        ) by {
            assert(m.domains@[i]@ == bool_domain_seq());
            assert(bool_domain_seq()[0] == (0i64, 1i64));
        }
        assert forall|c: int|
            0 <= c < m.constraints@.len() implies constraint_holds(
            #[trigger] m.constraints@[c],
            a,
        ) by {
            assert(m.constraints@[c] matches ConstraintRec::BoolAnd { literals } && literals@
                == lits);
            assert forall|t: int| 0 <= t < lits.len() implies a[(#[trigger] lits[t]) as int] == 1 by {
                if t == 0 {
                    assert(lits[0] == 0);
                } else {
                    assert(lits[1] == 1);
                }
            }
        }
    }
}

/// Law: under any feasible assignment of a builder's model, a boolean
/// variable's value is exactly 0 or 1, so decoding it as a boolean is
/// faithful.
pub proof fn lemma_bool_var_is_binary(b: &CpModelBuilder, h: BoolVar, a: Seq<i64>)
    requires
        b.wf(),
        b.owns_bool(h),
        model_feasible(b.spec_model(), a),
    ensures
        a[h.index as int] == 0 || a[h.index as int] == 1,
{
    let i = h.index as int;
    assert(b.spec_model().domains@[i]@ == bool_domain_seq());
    assert(seq_contains_val(bool_domain_seq(), a[i] as int));
    let t = choose|t: int|
        0 <= t < bool_domain_seq().len() && (#[trigger] bool_domain_seq()[t]).0 <= a[i] as int
            <= bool_domain_seq()[t].1;
    assert(bool_domain_seq()[t] == (0i64, 1i64));
}

/// Law: a feasible assignment gives a disequality constraint's two variables
/// different values, each within its variable's declared domain.
pub proof fn lemma_feasible_ne(m: Model, a: Seq<i64>, c: int, x: int, y: int)
    requires
        model_wf(m),
        model_feasible(m, a),
        0 <= c < m.constraints@.len(),
        is_not_equal(m.constraints@[c], x, y),
    ensures
        0 <= x < m.domains@.len(),
        0 <= y < m.domains@.len(),
        a[x] != a[y],
        seq_contains_val(m.domains@[x]@, a[x] as int),
        seq_contains_val(m.domains@[y]@, a[y] as int),
{
    assert(constraint_wf(m.constraints@[c], m.domains@.len()));
    assert(constraint_holds(m.constraints@[c], a));
}

} // verus!
