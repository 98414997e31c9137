//! The wire-format problem representation and the model builder facade.
//!
//! The builder owns the variable table and the constraint and objective set;
//! every mutation lowers its arguments into plain records at the call, so the
//! wire representation is always current and deterministic.

use crate::domain::{seq_contains_val, valid_interval_input, Domain};
use crate::expr::{compatible_tags, nonzero_terms, strictly_sorted_terms, LinearExpr};
use crate::vars::{BoolVar, IntVar, VarKind};
use crate::Error;
use vstd::prelude::*;

verus! {

/// A lowered constraint record.  Records hold only variable indices and
/// literal values, so they outlive the caller-side handles they came from.
#[derive(Debug)]
pub enum ConstraintRec {
    /// The weighted sum of the listed variables lies in `[lo, hi]`.
    /// `i64::MIN` as `lo` and `i64::MAX` as `hi` stand for an unbounded side,
    /// following the engine's wire convention.
    LinearRange {
        /// Term list: variable index and non-zero coefficient, sorted by index.
        terms: Vec<(usize, i64)>,
        /// Inclusive lower bound of the weighted sum.
        lo: i64,
        /// Inclusive upper bound of the weighted sum.
        hi: i64,
    },
    /// Every listed boolean variable equals 1; an empty list holds vacuously.
    BoolAnd {
        /// Indices of the conjoined boolean variables.
        literals: Vec<usize>,
    },
    /// The two variables hold different values.
    NotEqual {
        /// Index of the left variable.
        a: usize,
        /// Index of the right variable.
        b: usize,
    },
}

/// The objective record: a lowered linear expression and a direction.
#[derive(Debug)]
pub struct Objective {
    /// Term list: variable index and non-zero coefficient, sorted by index.
    pub terms: Vec<(usize, i64)>,
    /// Constant offset added to the weighted sum.
    pub offset: i64,
    /// Maximize when true, minimize when false.
    pub maximize: bool,
}

/// The wire IR: variable domains in index order, constraint records in
/// insertion order, and at most one objective.  Position `i` of the domain
/// list describes the same entity as index `i` of the variable table; the
/// decoder relies on that positional identity.
#[derive(Debug)]
pub struct Model {
    /// The domain of variable `i` at position `i`.
    pub domains: Vec<Domain>,
    /// Constraint records in insertion order.
    pub constraints: Vec<ConstraintRec>,
    /// The active objective, if one was set.
    pub objective: Option<Objective>,
}

/// A term list is sorted, zero-free, and references only the first `n`
/// variables.
pub open spec fn terms_wf(terms: Seq<(usize, i64)>, n: nat) -> bool {
    &&& strictly_sorted_terms(terms)
    &&& nonzero_terms(terms)
    &&& forall|t: int| 0 <= t < terms.len() ==> (#[trigger] terms[t]).0 < n
}

/// A constraint record is well formed for a model with `n` variables.
pub open spec fn constraint_wf(c: ConstraintRec, n: nat) -> bool {
    match c {
        ConstraintRec::LinearRange { terms, lo, hi } => terms_wf(terms@, n) && lo <= hi,
        ConstraintRec::BoolAnd { literals } => forall|t: int|
            0 <= t < literals@.len() ==> (#[trigger] literals@[t]) < n,
        ConstraintRec::NotEqual { a, b } => a < n && b < n,
    }
}

/// Every domain is canonical and every record references declared variables.
pub open spec fn model_wf(m: Model) -> bool {
    &&& forall|i: int| 0 <= i < m.domains@.len() ==> (#[trigger] m.domains@[i]).wf()
    &&& forall|c: int|
        0 <= c < m.constraints@.len() ==> constraint_wf(
            #[trigger] m.constraints@[c],
            m.domains@.len(),
        )
    &&& m.objective matches Some(o) ==> terms_wf(o.terms@, m.domains@.len())
}

/// The canonical interval list of a boolean variable's domain.
pub open spec fn bool_domain_seq() -> Seq<(i64, i64)> {
    seq![(0i64, 1i64)]
}

/// `new_m` is `old_m` with one constraint appended and all else unchanged.
pub open spec fn constraint_appended(old_m: Model, new_m: Model) -> bool {
    &&& new_m.domains@ == old_m.domains@
    &&& new_m.objective == old_m.objective
    &&& new_m.constraints@.len() == old_m.constraints@.len() + 1
    &&& forall|i: int|
        0 <= i < old_m.constraints@.len() ==> new_m.constraints@[i] == #[trigger] old_m
            .constraints@[i]
}

/// `new_m` is `old_m` with one variable domain appended and all else
/// unchanged.
pub open spec fn var_appended(old_m: Model, new_m: Model) -> bool {
    &&& new_m.constraints@ == old_m.constraints@
    &&& new_m.objective == old_m.objective
    &&& new_m.domains@.len() == old_m.domains@.len() + 1
    &&& forall|i: int|
        0 <= i < old_m.domains@.len() ==> new_m.domains@[i] == #[trigger] old_m.domains@[i]
}

/// The record is a linear-range constraint with exactly these terms and
/// bounds.
pub open spec fn is_linear_range(
    c: ConstraintRec,
    terms: Seq<(usize, i64)>,
    lo: int,
    hi: int,
) -> bool {
    c matches ConstraintRec::LinearRange { terms: t, lo: l, hi: h } && t@ == terms && l == lo && h
        == hi
}

/// The record is a conjunction constraint over exactly these literals.
pub open spec fn is_bool_and(c: ConstraintRec, lits: Seq<usize>) -> bool {
    c matches ConstraintRec::BoolAnd { literals } && literals@ == lits
}

/// The record is a disequality constraint over exactly these two indices.
pub open spec fn is_not_equal(c: ConstraintRec, a: int, b: int) -> bool {
    c matches ConstraintRec::NotEqual { a: x, b: y } && x == a && y == b
}

/// The model builder facade: owns the variable table (kinds, names, domains)
/// and the constraint and objective set, and hands out the wire IR.
///
/// Each builder carries an identity tag chosen at construction; handles
/// remember it, and every operation rejects handles of other builders with
/// [`Error::InvalidHandle`].  Builders that must be distinguishable need
/// distinct tags.
#[derive(Debug)]
pub struct CpModelBuilder {
    tag: u64,
    kinds: Vec<VarKind>,
    names: Vec<String>,
    model: Model,
}

impl CpModelBuilder {
    /// The builder's identity tag.
    pub closed spec fn spec_tag(&self) -> u64 {
        self.tag
    }

    /// The kind of each variable, in index order.
    pub closed spec fn spec_kinds(&self) -> Seq<VarKind> {
        self.kinds@
    }

    /// The diagnostic name of each variable, in index order.
    pub closed spec fn spec_names(&self) -> Seq<Seq<char>> {
        self.names@.map_values(|s: String| s@)
    }

    /// The current wire IR.
    pub closed spec fn spec_model(&self) -> Model {
        self.model
    }

    /// Table and wire IR agree positionally; every boolean variable has the
    /// two-point domain.
    pub open spec fn wf(&self) -> bool {
        &&& self.spec_kinds().len() == self.spec_names().len()
        &&& self.spec_kinds().len() == self.spec_model().domains@.len()
        &&& model_wf(self.spec_model())
        &&& forall|i: int|
            0 <= i < self.spec_kinds().len() && self.spec_kinds()[i] is Bool
                ==> (#[trigger] self.spec_model().domains@[i])@ == bool_domain_seq()
    }

    /// The handle was issued by this builder for a boolean variable.
    pub open spec fn owns_bool(&self, h: BoolVar) -> bool {
        &&& h.tag == self.spec_tag()
        &&& h.index < self.spec_kinds().len()
        &&& self.spec_kinds()[h.index as int] is Bool
    }

    /// The handle was issued by this builder for an integer variable.
    pub open spec fn owns_int(&self, h: IntVar) -> bool {
        &&& h.tag == self.spec_tag()
        &&& h.index < self.spec_kinds().len()
        &&& self.spec_kinds()[h.index as int] is Int
    }

    /// Every variable of the expression was issued by this builder.
    pub open spec fn owns_expr(&self, e: LinearExpr) -> bool {
        &&& compatible_tags(e.spec_tag(), Some(self.spec_tag()))
        &&& forall|t: int|
            0 <= t < e.spec_terms().len() ==> (#[trigger] e.spec_terms()[t]).0
                < self.spec_kinds().len()
    }

    /// A fresh builder with the given identity tag and no variables,
    /// constraints or objective.
    pub fn new(tag: u64) -> (b: CpModelBuilder)
        ensures
            b.wf(),
            b.spec_tag() == tag,
            b.spec_kinds().len() == 0,
            b.spec_names().len() == 0,
            b.spec_model().domains@.len() == 0,
            b.spec_model().constraints@.len() == 0,
            b.spec_model().objective is None,
    {
        let b = CpModelBuilder {
            tag,
            kinds: Vec::new(),
            names: Vec::new(),
            model: Model { domains: Vec::new(), constraints: Vec::new(), objective: None },
        };
        proof {
            assert(b.spec_names() =~= Seq::<Seq<char>>::empty());
        }
        b
    }

    /// The builder's identity tag.
    pub fn tag(&self) -> (t: u64)
        ensures
            t == self.spec_tag(),
    {
        self.tag
    }

    /// The number of variables created so far.
    pub fn num_vars(&self) -> (n: usize)
        ensures
            n as int == self.spec_kinds().len(),
    {
        self.kinds.len()
    }

    /// Creates a boolean variable with domain `{0, 1}` and an empty name.
    pub fn new_bool_var(&mut self) -> (h: BoolVar)
        requires
            old(self).wf(),
        ensures
            final(self).wf(),
            final(self).spec_tag() == old(self).spec_tag(),
            h.tag == old(self).spec_tag(),
            h.index as int == old(self).spec_kinds().len(),
            final(self).owns_bool(h),
            final(self).spec_kinds() == old(self).spec_kinds().push(VarKind::Bool),
            final(self).spec_names() == old(self).spec_names().push(Seq::<char>::empty()),
            var_appended(old(self).spec_model(), final(self).spec_model()),
            final(self).spec_model().domains@.last()@ == bool_domain_seq(),
    {
        let index = self.kinds.len();
        let ghost names_old = self.spec_names();
        self.kinds.push(VarKind::Bool);
        self.names.push(String::new());
        self.model.domains.push(Domain::boolean());
        proof {
            assert(self.spec_names() =~= names_old.push(Seq::<char>::empty()));
        }
        BoolVar { tag: self.tag, index }
    }

    /// Creates an integer variable over the union of the given closed
    /// intervals, with an empty name.  Fails with [`Error::InvalidDomain`] on
    /// an empty list or a pair with `lo > hi`, leaving the builder unchanged.
    pub fn new_int_var(&mut self, pairs: &Vec<(i64, i64)>) -> (r: Result<IntVar, Error>)
        requires
            old(self).wf(),
        ensures
            match r {
                Ok(h) => {
                    &&& valid_interval_input(pairs@)
                    &&& final(self).wf()
                    &&& final(self).spec_tag() == old(self).spec_tag()
                    &&& h.tag == old(self).spec_tag()
                    &&& h.index as int == old(self).spec_kinds().len()
                    &&& final(self).owns_int(h)
                    &&& final(self).spec_kinds() == old(self).spec_kinds().push(VarKind::Int)
                    &&& final(self).spec_names() == old(self).spec_names().push(
                        Seq::<char>::empty(),
                    )
                    &&& var_appended(old(self).spec_model(), final(self).spec_model())
                    &&& forall|v: int|
                        #[trigger] seq_contains_val(final(self).spec_model().domains@.last()@, v)
                            <==> seq_contains_val(pairs@, v)
                },
                Err(e) => {
                    &&& e == Error::InvalidDomain
                    &&& !valid_interval_input(pairs@)
                    &&& *final(self) == *old(self)
                },
            },
    {
        let name = String::new();
        self.new_int_var_with_name(pairs, name)
    }

    /// Creates an integer variable over the union of the given closed
    /// intervals, storing `name` verbatim as its diagnostic name.  Fails with
    /// [`Error::InvalidDomain`] on an empty list or a pair with `lo > hi`,
    /// leaving the builder unchanged.
    pub fn new_int_var_with_name(&mut self, pairs: &Vec<(i64, i64)>, name: String) -> (r: Result<
        IntVar,
        Error,
    >)
        requires
            old(self).wf(),
        ensures
            match r {
                Ok(h) => {
                    &&& valid_interval_input(pairs@)
                    &&& final(self).wf()
                    &&& final(self).spec_tag() == old(self).spec_tag()
                    &&& h.tag == old(self).spec_tag()
                    &&& h.index as int == old(self).spec_kinds().len()
                    &&& final(self).owns_int(h)
                    &&& final(self).spec_kinds() == old(self).spec_kinds().push(VarKind::Int)
                    &&& final(self).spec_names() == old(self).spec_names().push(name@)
                    &&& var_appended(old(self).spec_model(), final(self).spec_model())
                    &&& forall|v: int|
                        #[trigger] seq_contains_val(final(self).spec_model().domains@.last()@, v)
                            <==> seq_contains_val(pairs@, v)
                },
                Err(e) => {
                    &&& e == Error::InvalidDomain
                    &&& !valid_interval_input(pairs@)
                    &&& *final(self) == *old(self)
                },
            },
    {
        let d = match Domain::from_intervals(pairs) {
            Ok(d) => d,
            Err(e) => {
                return Err(e);
            },
        };
        let index = self.kinds.len();
        let ghost names_old = self.spec_names();
        self.kinds.push(VarKind::Int);
        self.names.push(name);
        self.model.domains.push(d);
        proof {
            assert(self.spec_names() =~= names_old.push(self.names@.last()@));
            let dlast = self.spec_model().domains@.last();
            assert forall|v: int|
                #[trigger] seq_contains_val(dlast@, v) <==> seq_contains_val(pairs@, v) by {
                assert(dlast.spec_contains(v) <==> seq_contains_val(pairs@, v));
            }
        }
        Ok(IntVar { tag: self.tag, index })
    }

    /// The stored domain and name of a boolean variable.  Fails with
    /// [`Error::InvalidHandle`] for a handle this builder did not issue.
    pub fn get_bool(&self, h: BoolVar) -> (r: Result<(&Domain, &String), Error>)
        requires
            self.wf(),
        ensures
            match r {
                Ok(p) => {
                    &&& self.owns_bool(h)
                    &&& p.0@ == self.spec_model().domains@[h.index as int]@
                    &&& p.1@ == self.spec_names()[h.index as int]
                },
                Err(e) => e == Error::InvalidHandle && !self.owns_bool(h),
            },
    {
        if h.tag != self.tag || h.index >= self.kinds.len() {
            return Err(Error::InvalidHandle);
        }
        match self.kinds[h.index] {
            VarKind::Bool => Ok((&self.model.domains[h.index], &self.names[h.index])),
            VarKind::Int => Err(Error::InvalidHandle),
        }
    }

    /// The stored domain and name of an integer variable.  Fails with
    /// [`Error::InvalidHandle`] for a handle this builder did not issue.
    pub fn get_int(&self, h: IntVar) -> (r: Result<(&Domain, &String), Error>)
        requires
            self.wf(),
        ensures
            match r {
                Ok(p) => {
                    &&& self.owns_int(h)
                    &&& p.0@ == self.spec_model().domains@[h.index as int]@
                    &&& p.1@ == self.spec_names()[h.index as int]
                },
                Err(e) => e == Error::InvalidHandle && !self.owns_int(h),
            },
    {
        if h.tag != self.tag || h.index >= self.kinds.len() {
            return Err(Error::InvalidHandle);
        }
        match self.kinds[h.index] {
            VarKind::Int => Ok((&self.model.domains[h.index], &self.names[h.index])),
            VarKind::Bool => Err(Error::InvalidHandle),
        }
    }

    /// True exactly when every variable of `e` belongs to this builder.
    fn check_expr(&self, e: &LinearExpr) -> (ok: bool)
        requires
            self.wf(),
            e.wf(),
        ensures
            ok == self.owns_expr(*e),
    {
        match e.tag() {
            Some(t) => {
                if t != self.tag {
                    return false;
                }
            },
            None => {},
        }
        let terms = e.terms();
        if terms.len() == 0 {
            return true;
        }
        let last = terms[terms.len() - 1];
        if last.0 < self.kinds.len() {
            proof {
                assert forall|t: int| 0 <= t < e.spec_terms().len() implies (
                #[trigger] e.spec_terms()[t]).0 < self.spec_kinds().len() by {
                    if t < e.spec_terms().len() - 1 {
                        assert(e.spec_terms()[t].0 < e.spec_terms()[e.spec_terms().len() - 1].0);
                    }
                }
            }
            true
        } else {
            false
        }
    }

    /// Copies a term list out of an expression into a constraint record.
    fn copy_terms(src: &Vec<(usize, i64)>) -> (r: Vec<(usize, i64)>)
        ensures
            r@ == src@,
    {
        let mut r: Vec<(usize, i64)> = Vec::new();
        let mut i: usize = 0;
        while i < src.len()
            invariant
                i <= src@.len(),
                r@ == src@.take(i as int),
            decreases src@.len() - i,
        {
            r.push(src[i]);
            proof {
                assert(src@.take(i + 1) =~= src@.take(i as int).push(src@[i as int]));
            }
            i = i + 1;
        }
        proof {
            assert(src@.take(src@.len() as int) =~= src@);
        }
        r
    }

    /// Asserts `e <= ub`: lowers to a linear constraint with the expression's
    /// terms and the range `(-inf, ub - offset]`.  Fails with
    /// [`Error::InvalidHandle`] for foreign variables and with
    /// [`Error::ArithmeticOverflow`] when the folded bound leaves the 64-bit
    /// range; the builder is unchanged on failure.
    pub fn add_linear_le(&mut self, e: &LinearExpr, ub: i64) -> (r: Result<(), Error>)
        requires
            old(self).wf(),
            e.wf(),
        ensures
            final(self).spec_tag() == old(self).spec_tag(),
            final(self).spec_kinds() == old(self).spec_kinds(),
            final(self).spec_names() == old(self).spec_names(),
            match r {
                Ok(()) => {
                    &&& old(self).owns_expr(*e)
                    &&& i64::MIN <= ub - e.spec_offset() <= i64::MAX
                    &&& final(self).wf()
                    &&& constraint_appended(old(self).spec_model(), final(self).spec_model())
                    &&& is_linear_range(
                        final(self).spec_model().constraints@.last(),
                        e.spec_terms(),
                        i64::MIN as int,
                        ub - e.spec_offset(),
                    )
                },
                Err(Error::InvalidHandle) => !old(self).owns_expr(*e) && *final(self) == *old(self),
                Err(Error::ArithmeticOverflow) => {
                    &&& old(self).owns_expr(*e)
                    &&& !(i64::MIN <= ub - e.spec_offset() <= i64::MAX)
                    &&& *final(self) == *old(self)
                },
                Err(_) => false,
            },
    {
        if !self.check_expr(e) {
            return Err(Error::InvalidHandle);
        }
        let hi = match ub.checked_sub(e.offset()) {
            Some(h) => h,
            None => {
                return Err(Error::ArithmeticOverflow);
            },
        };
        let terms = Self::copy_terms(e.terms());
        self.model.constraints.push(ConstraintRec::LinearRange { terms, lo: i64::MIN, hi });
        Ok(())
    }

    /// Asserts `e == v`: lowers to a linear constraint with the one-point
    /// range `[v - offset, v - offset]`.  Fails with [`Error::InvalidHandle`]
    /// for foreign variables and with [`Error::ArithmeticOverflow`] when the
    /// folded bound leaves the 64-bit range; the builder is unchanged on
    /// failure.
    pub fn add_linear_eq(&mut self, e: &LinearExpr, v: i64) -> (r: Result<(), Error>)
        requires
            old(self).wf(),
            e.wf(),
        ensures
            final(self).spec_tag() == old(self).spec_tag(),
            final(self).spec_kinds() == old(self).spec_kinds(),
            final(self).spec_names() == old(self).spec_names(),
            match r {
                Ok(()) => {
                    &&& old(self).owns_expr(*e)
                    &&& i64::MIN <= v - e.spec_offset() <= i64::MAX
                    &&& final(self).wf()
                    &&& constraint_appended(old(self).spec_model(), final(self).spec_model())
                    &&& is_linear_range(
                        final(self).spec_model().constraints@.last(),
                        e.spec_terms(),
                        v - e.spec_offset(),
                        v - e.spec_offset(),
                    )
                },
                Err(Error::InvalidHandle) => !old(self).owns_expr(*e) && *final(self) == *old(self),
                Err(Error::ArithmeticOverflow) => {
                    &&& old(self).owns_expr(*e)
                    &&& !(i64::MIN <= v - e.spec_offset() <= i64::MAX)
                    &&& *final(self) == *old(self)
                },
                Err(_) => false,
            },
    {
        if !self.check_expr(e) {
            return Err(Error::InvalidHandle);
        }
        let b = match v.checked_sub(e.offset()) {
            Some(b) => b,
            None => {
                return Err(Error::ArithmeticOverflow);
            },
        };
        let terms = Self::copy_terms(e.terms());
        self.model.constraints.push(ConstraintRec::LinearRange { terms, lo: b, hi: b });
        Ok(())
    }

    /// Asserts `lo <= e <= hi`: lowers to a linear constraint with both
    /// bounds folded by the expression's offset.  Fails with
    /// [`Error::InvalidHandle`] for foreign variables, with
    /// [`Error::InvalidDomain`] when `lo > hi`, and with
    /// [`Error::ArithmeticOverflow`] when a folded bound leaves the 64-bit
    /// range; the builder is unchanged on failure.
    pub fn add_linear_bounded(&mut self, e: &LinearExpr, lo: i64, hi: i64) -> (r: Result<
        (),
        Error,
    >)
        requires
            old(self).wf(),
            e.wf(),
        ensures
            final(self).spec_tag() == old(self).spec_tag(),
            final(self).spec_kinds() == old(self).spec_kinds(),
            final(self).spec_names() == old(self).spec_names(),
            match r {
                Ok(()) => {
                    &&& old(self).owns_expr(*e)
                    &&& lo <= hi
                    &&& i64::MIN <= lo - e.spec_offset() <= i64::MAX
                    &&& i64::MIN <= hi - e.spec_offset() <= i64::MAX
                    &&& final(self).wf()
                    &&& constraint_appended(old(self).spec_model(), final(self).spec_model())
                    &&& is_linear_range(
                        final(self).spec_model().constraints@.last(),
                        e.spec_terms(),
                        lo - e.spec_offset(),
                        hi - e.spec_offset(),
                    )
                },
                Err(Error::InvalidHandle) => !old(self).owns_expr(*e) && *final(self) == *old(self),
                Err(Error::InvalidDomain) => {
                    &&& old(self).owns_expr(*e)
                    &&& lo > hi
                    &&& *final(self) == *old(self)
                },
                Err(Error::ArithmeticOverflow) => {
                    &&& old(self).owns_expr(*e)
                    &&& lo <= hi
                    &&& (!(i64::MIN <= lo - e.spec_offset() <= i64::MAX) || !(i64::MIN <= hi
                        - e.spec_offset() <= i64::MAX))
                    &&& *final(self) == *old(self)
                },
                Err(_) => false,
            },
    {
        if !self.check_expr(e) {
            return Err(Error::InvalidHandle);
        }
        if lo > hi {
            return Err(Error::InvalidDomain);
        }
        let fl = match lo.checked_sub(e.offset()) {
            Some(b) => b,
            None => {
                return Err(Error::ArithmeticOverflow);
            },
        };
        let fh = match hi.checked_sub(e.offset()) {
            Some(b) => b,
            None => {
                return Err(Error::ArithmeticOverflow);
            },
        };
        let terms = Self::copy_terms(e.terms());
        self.model.constraints.push(ConstraintRec::LinearRange { terms, lo: fl, hi: fh });
        Ok(())
    }

    /// Asserts that every listed boolean variable equals 1; an empty list is
    /// vacuously satisfied.  Fails with [`Error::InvalidHandle`] when some
    /// handle was not issued by this builder, leaving the builder unchanged.
    pub fn add_and(&mut self, literals: &Vec<BoolVar>) -> (r: Result<(), Error>)
        requires
            old(self).wf(),
        ensures
            final(self).spec_tag() == old(self).spec_tag(),
            final(self).spec_kinds() == old(self).spec_kinds(),
            final(self).spec_names() == old(self).spec_names(),
            match r {
                Ok(()) => {
                    &&& forall|t: int|
                        0 <= t < literals@.len() ==> old(self).owns_bool(#[trigger] literals@[t])
                    &&& final(self).wf()
                    &&& constraint_appended(old(self).spec_model(), final(self).spec_model())
                    &&& is_bool_and(
                        final(self).spec_model().constraints@.last(),
                        literals@.map_values(|h: BoolVar| h.index),
                    )
                },
                Err(e) => {
                    &&& e == Error::InvalidHandle
                    &&& exists|t: int|
                        0 <= t < literals@.len() && !old(self).owns_bool(#[trigger] literals@[t])
                    &&& *final(self) == *old(self)
                },
            },
    {
        let mut i: usize = 0;
        while i < literals.len()
            invariant
                i <= literals@.len(),
                self.wf(),
                forall|t: int| 0 <= t < i ==> self.owns_bool(#[trigger] literals@[t]),
            decreases literals@.len() - i,
        {
            let h = literals[i];
            if h.tag != self.tag || h.index >= self.kinds.len() {
                return Err(Error::InvalidHandle);
            }
            match self.kinds[h.index] {
                VarKind::Bool => {},
                VarKind::Int => {
                    return Err(Error::InvalidHandle);
                },
            }
            i = i + 1;
        }
        let mut lits: Vec<usize> = Vec::new();
        let mut j: usize = 0;
        while j < literals.len()
            invariant
                j <= literals@.len(),
                self.wf(),
                forall|t: int| 0 <= t < literals@.len() ==> self.owns_bool(#[trigger] literals@[t]),
                lits@ == literals@.take(j as int).map_values(|h: BoolVar| h.index),
            decreases literals@.len() - j,
        {
            lits.push(literals[j].index);
            proof {
                assert(literals@.take(j + 1) =~= literals@.take(j as int).push(
                    literals@[j as int],
                ));
                assert(literals@.take(j + 1).map_values(|h: BoolVar| h.index) =~= literals@.take(
                    j as int,
                ).map_values(|h: BoolVar| h.index).push(literals@[j as int].index));
            }
            j = j + 1;
        }
        proof {
            assert(literals@.take(literals@.len() as int) =~= literals@);
        }
        self.model.constraints.push(ConstraintRec::BoolAnd { literals: lits });
        Ok(())
    }

    /// Asserts that the two integer variables hold different values; lowers
    /// to a first-class disequality record.  Fails with
    /// [`Error::InvalidHandle`] when a handle was not issued by this builder,
    /// leaving the builder unchanged.
    pub fn add_ne(&mut self, x: IntVar, y: IntVar) -> (r: Result<(), Error>)
        requires
            old(self).wf(),
        ensures
            final(self).spec_tag() == old(self).spec_tag(),
            final(self).spec_kinds() == old(self).spec_kinds(),
            final(self).spec_names() == old(self).spec_names(),
            match r {
                Ok(()) => {
                    &&& old(self).owns_int(x) && old(self).owns_int(y)
                    &&& final(self).wf()
                    &&& constraint_appended(old(self).spec_model(), final(self).spec_model())
                    &&& is_not_equal(
                        final(self).spec_model().constraints@.last(),
                        x.index as int,
                        y.index as int,
                    )
                },
                Err(e) => {
                    &&& e == Error::InvalidHandle
                    &&& !(old(self).owns_int(x) && old(self).owns_int(y))
                    &&& *final(self) == *old(self)
                },
            },
    {
        if x.tag != self.tag || x.index >= self.kinds.len() {
            return Err(Error::InvalidHandle);
        }
        if y.tag != self.tag || y.index >= self.kinds.len() {
            return Err(Error::InvalidHandle);
        }
        match self.kinds[x.index] {
            VarKind::Int => {},
            VarKind::Bool => {
                return Err(Error::InvalidHandle);
            },
        }
        match self.kinds[y.index] {
            VarKind::Int => {},
            VarKind::Bool => {
                return Err(Error::InvalidHandle);
            },
        }
        self.model.constraints.push(ConstraintRec::NotEqual { a: x.index, b: y.index });
        Ok(())
    }

    /// Sets the objective, replacing any previous one entirely: after the
    /// call the stored objective is exactly the given expression and
    /// direction, whatever was set before.  Fails with
    /// [`Error::InvalidHandle`] for foreign variables, leaving the builder
    /// unchanged.
    pub fn set_objective(&mut self, e: &LinearExpr, maximize: bool) -> (r: Result<(), Error>)
        requires
            old(self).wf(),
            e.wf(),
        ensures
            final(self).spec_tag() == old(self).spec_tag(),
            final(self).spec_kinds() == old(self).spec_kinds(),
            final(self).spec_names() == old(self).spec_names(),
            match r {
                Ok(()) => {
                    &&& old(self).owns_expr(*e)
                    &&& final(self).wf()
                    &&& final(self).spec_model().domains@ == old(self).spec_model().domains@
                    &&& final(self).spec_model().constraints@ == old(
                        self,
                    ).spec_model().constraints@
                    &&& final(self).spec_model().objective matches Some(o) && o.terms@
                        == e.spec_terms() && o.offset == e.spec_offset() && o.maximize == maximize
                },
                Err(e2) => {
                    &&& e2 == Error::InvalidHandle
                    &&& !old(self).owns_expr(*e)
                    &&& *final(self) == *old(self)
                },
            },
    {
        if !self.check_expr(e) {
            return Err(Error::InvalidHandle);
        }
        let terms = Self::copy_terms(e.terms());
        self.model.objective = Some(Objective { terms, offset: e.offset(), maximize });
        Ok(())
    }

    /// Sets a maximization objective; see [`Self::set_objective`].
    pub fn maximize(&mut self, e: &LinearExpr) -> (r: Result<(), Error>)
        requires
            old(self).wf(),
            e.wf(),
        ensures
            final(self).spec_tag() == old(self).spec_tag(),
            final(self).spec_kinds() == old(self).spec_kinds(),
            final(self).spec_names() == old(self).spec_names(),
            match r {
                Ok(()) => {
                    &&& old(self).owns_expr(*e)
                    &&& final(self).wf()
                    &&& final(self).spec_model().domains@ == old(self).spec_model().domains@
                    &&& final(self).spec_model().constraints@ == old(
                        self,
                    ).spec_model().constraints@
                    &&& final(self).spec_model().objective matches Some(o) && o.terms@
                        == e.spec_terms() && o.offset == e.spec_offset() && o.maximize == true
                },
                Err(e2) => {
                    &&& e2 == Error::InvalidHandle
                    &&& !old(self).owns_expr(*e)
                    &&& *final(self) == *old(self)
                },
            },
    {
        self.set_objective(e, true)
    }

    /// Sets a minimization objective; see [`Self::set_objective`].
    pub fn minimize(&mut self, e: &LinearExpr) -> (r: Result<(), Error>)
        requires
            old(self).wf(),
            e.wf(),
        ensures
            final(self).spec_tag() == old(self).spec_tag(),
            final(self).spec_kinds() == old(self).spec_kinds(),
            final(self).spec_names() == old(self).spec_names(),
            match r {
                Ok(()) => {
                    &&& old(self).owns_expr(*e)
                    &&& final(self).wf()
                    &&& final(self).spec_model().domains@ == old(self).spec_model().domains@
                    &&& final(self).spec_model().constraints@ == old(
                        self,
                    ).spec_model().constraints@
                    &&& final(self).spec_model().objective matches Some(o) && o.terms@
                        == e.spec_terms() && o.offset == e.spec_offset() && o.maximize == false
                },
                Err(e2) => {
                    &&& e2 == Error::InvalidHandle
                    &&& !old(self).owns_expr(*e)
                    &&& *final(self) == *old(self)
                },
            },
    {
        self.set_objective(e, false)
    }

    /// The always-current wire IR built from the present state: a snapshot
    /// accessor, safe to call repeatedly and between mutations.
    pub fn finish(&self) -> (m: &Model)
        requires
            self.wf(),
        ensures
            *m == self.spec_model(),
            model_wf(*m),
    {
        &self.model
    }
}

impl Default for CpModelBuilder {
    /// A fresh builder with identity tag zero.
    fn default() -> (b: Self)
        ensures
            b.wf(),
            b.spec_tag() == 0,
            b.spec_kinds().len() == 0,
            b.spec_names().len() == 0,
            b.spec_model().domains@.len() == 0,
            b.spec_model().constraints@.len() == 0,
            b.spec_model().objective is None,
    {
        CpModelBuilder::new(0)
    }
}

} // verus!
