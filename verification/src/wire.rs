//! The deterministic byte encoding of the wire IR.
//!
//! Every field is framed fixed-width: 64-bit little-endian words for counts,
//! indices and bounds, one tag byte per constraint kind.  The encoding is a
//! pure function of the model state, so equal states give byte-identical
//! output.

use crate::domain::Domain;
use crate::model::{ConstraintRec, Model, Objective};
use vstd::prelude::*;

verus! {

/// The eight little-endian bytes of a 64-bit word.
pub open spec fn enc_u64(n: u64) -> Seq<u8> {
    seq![
        (n & 0xff) as u8,
        ((n >> 8) & 0xff) as u8,
        ((n >> 16) & 0xff) as u8,
        ((n >> 24) & 0xff) as u8,
        ((n >> 32) & 0xff) as u8,
        ((n >> 40) & 0xff) as u8,
        ((n >> 48) & 0xff) as u8,
        ((n >> 56) & 0xff) as u8,
    ]
}

/// A signed value is encoded as its two's-complement word.
pub open spec fn enc_i64(x: i64) -> Seq<u8> {
    enc_u64(x as u64)
}

/// One closed interval: lower then upper bound.
pub open spec fn enc_interval(p: (i64, i64)) -> Seq<u8> {
    enc_i64(p.0) + enc_i64(p.1)
}

/// The intervals of one domain, in canonical order.
pub open spec fn enc_interval_list(s: Seq<(i64, i64)>) -> Seq<u8>
    decreases s.len(),
{
    if s.len() == 0 {
        Seq::empty()
    } else {
        enc_interval(s[0]) + enc_interval_list(s.drop_first())
    }
}

/// One domain: interval count, then the intervals.
pub open spec fn enc_domain(d: Domain) -> Seq<u8> {
    enc_u64(d@.len() as u64) + enc_interval_list(d@)
}

/// The domains of all variables, in index order.
pub open spec fn enc_domain_list(s: Seq<Domain>) -> Seq<u8>
    decreases s.len(),
{
    if s.len() == 0 {
        Seq::empty()
    } else {
        enc_domain(s[0]) + enc_domain_list(s.drop_first())
    }
}

/// One linear term: variable index, then coefficient.
pub open spec fn enc_term(t: (usize, i64)) -> Seq<u8> {
    enc_u64(t.0 as u64) + enc_i64(t.1)
}

/// A term list body, in index order.
pub open spec fn enc_term_list(s: Seq<(usize, i64)>) -> Seq<u8>
    decreases s.len(),
{
    if s.len() == 0 {
        Seq::empty()
    } else {
        enc_term(s[0]) + enc_term_list(s.drop_first())
    }
}

/// A framed term list: count, then the terms.
pub open spec fn enc_terms(s: Seq<(usize, i64)>) -> Seq<u8> {
    enc_u64(s.len() as u64) + enc_term_list(s)
}

/// A literal list body, in stored order.
pub open spec fn enc_lit_list(s: Seq<usize>) -> Seq<u8>
    decreases s.len(),
{
    if s.len() == 0 {
        Seq::empty()
    } else {
        enc_u64(s[0] as u64) + enc_lit_list(s.drop_first())
    }
}

/// One constraint record: a kind tag byte, then its fields.
pub open spec fn enc_constraint(c: ConstraintRec) -> Seq<u8> {
    match c {
        ConstraintRec::LinearRange { terms, lo, hi } => seq![1u8] + enc_terms(terms@) + enc_i64(lo)
            + enc_i64(hi),
        ConstraintRec::BoolAnd { literals } => seq![2u8] + enc_u64(literals@.len() as u64)
            + enc_lit_list(literals@),
        ConstraintRec::NotEqual { a, b } => seq![3u8] + enc_u64(a as u64) + enc_u64(b as u64),
    }
}

/// The constraint records, in insertion order.
pub open spec fn enc_constraint_list(s: Seq<ConstraintRec>) -> Seq<u8>
    decreases s.len(),
{
    if s.len() == 0 {
        Seq::empty()
    } else {
        enc_constraint(s[0]) + enc_constraint_list(s.drop_first())
    }
}

/// The objective: a presence byte, then direction, terms and offset.
pub open spec fn enc_objective(o: Option<Objective>) -> Seq<u8> {
    match o {
        None => seq![0u8],
        Some(ob) => seq![
            1u8,
            if ob.maximize {
                1u8
            } else {
                0u8
            },
        ] + enc_terms(ob.terms@) + enc_i64(ob.offset),
    }
}

/// The whole wire message: variable count and domains, constraint count and
/// records, then the objective.
pub open spec fn enc_model(m: Model) -> Seq<u8> {
    enc_u64(m.domains@.len() as u64) + enc_domain_list(m.domains@) + enc_u64(
        m.constraints@.len() as u64,
    ) + enc_constraint_list(m.constraints@) + enc_objective(m.objective)
}

/// Law: the wire bytes are a function of the model state alone, so encoding
/// an unchanged state twice yields byte-identical output.
pub proof fn lemma_wire_deterministic(m1: Model, m2: Model, b1: Seq<u8>, b2: Seq<u8>)
    requires
        m1 == m2,
        b1 == enc_model(m1),
        b2 == enc_model(m2),
    ensures
        b1 == b2,
{
}

proof fn lemma_enc_interval_list_snoc(s: Seq<(i64, i64)>, p: (i64, i64))
    ensures
        enc_interval_list(s.push(p)) == enc_interval_list(s) + enc_interval(p),
    decreases s.len(),
{
    reveal_with_fuel(enc_interval_list, 2);
    if s.len() == 0 {
        assert(s.push(p)[0] == p);
        assert(s.push(p).drop_first() =~= Seq::<(i64, i64)>::empty());
        assert(enc_interval_list(s.push(p)) =~= enc_interval_list(s) + enc_interval(p));
    } else {
        assert(s.push(p)[0] == s[0]);
        assert(s.push(p).drop_first() =~= s.drop_first().push(p));
        lemma_enc_interval_list_snoc(s.drop_first(), p);
        assert(enc_interval_list(s.push(p)) =~= enc_interval_list(s) + enc_interval(p));
    }
}

proof fn lemma_enc_domain_list_snoc(s: Seq<Domain>, p: Domain)
    ensures
        enc_domain_list(s.push(p)) == enc_domain_list(s) + enc_domain(p),
    decreases s.len(),
{
    reveal_with_fuel(enc_domain_list, 2);
    if s.len() == 0 {
        assert(s.push(p)[0] == p);
        assert(s.push(p).drop_first() =~= Seq::<Domain>::empty());
        assert(enc_domain_list(s.push(p)) =~= enc_domain_list(s) + enc_domain(p));
    } else {
        assert(s.push(p)[0] == s[0]);
        assert(s.push(p).drop_first() =~= s.drop_first().push(p));
        lemma_enc_domain_list_snoc(s.drop_first(), p);
        assert(enc_domain_list(s.push(p)) =~= enc_domain_list(s) + enc_domain(p));
    }
}

proof fn lemma_enc_term_list_snoc(s: Seq<(usize, i64)>, p: (usize, i64))
    ensures
        enc_term_list(s.push(p)) == enc_term_list(s) + enc_term(p),
    decreases s.len(),
{
    reveal_with_fuel(enc_term_list, 2);
    if s.len() == 0 {
        assert(s.push(p)[0] == p);
        assert(s.push(p).drop_first() =~= Seq::<(usize, i64)>::empty());
        assert(enc_term_list(s.push(p)) =~= enc_term_list(s) + enc_term(p));
    } else {
        assert(s.push(p)[0] == s[0]);
        assert(s.push(p).drop_first() =~= s.drop_first().push(p));
        lemma_enc_term_list_snoc(s.drop_first(), p);
        assert(enc_term_list(s.push(p)) =~= enc_term_list(s) + enc_term(p));
    }
}

proof fn lemma_enc_lit_list_snoc(s: Seq<usize>, p: usize)
    ensures
        enc_lit_list(s.push(p)) == enc_lit_list(s) + enc_u64(p as u64),
    decreases s.len(),
{
    reveal_with_fuel(enc_lit_list, 2);
    if s.len() == 0 {
        assert(s.push(p)[0] == p);
        assert(s.push(p).drop_first() =~= Seq::<usize>::empty());
        assert(enc_lit_list(s.push(p)) =~= enc_lit_list(s) + enc_u64(p as u64));
    } else {
        assert(s.push(p)[0] == s[0]);
        assert(s.push(p).drop_first() =~= s.drop_first().push(p));
        lemma_enc_lit_list_snoc(s.drop_first(), p);
        assert(enc_lit_list(s.push(p)) =~= enc_lit_list(s) + enc_u64(p as u64));
    }
}

proof fn lemma_enc_constraint_list_snoc(s: Seq<ConstraintRec>, p: ConstraintRec)
    ensures
        enc_constraint_list(s.push(p)) == enc_constraint_list(s) + enc_constraint(p),
    decreases s.len(),
{
    reveal_with_fuel(enc_constraint_list, 2);
    if s.len() == 0 {
        assert(s.push(p)[0] == p);
        assert(s.push(p).drop_first() =~= Seq::<ConstraintRec>::empty());
        assert(enc_constraint_list(s.push(p)) =~= enc_constraint_list(s) + enc_constraint(p));
    } else {
        assert(s.push(p)[0] == s[0]);
        assert(s.push(p).drop_first() =~= s.drop_first().push(p));
        lemma_enc_constraint_list_snoc(s.drop_first(), p);
        assert(enc_constraint_list(s.push(p)) =~= enc_constraint_list(s) + enc_constraint(p));
    }
}

/// Appends the eight little-endian bytes of `n`.
#[verifier::loop_isolation(false)]
fn push_u64(out: &mut Vec<u8>, n: u64)
    ensures
        final(out)@ == old(out)@ + enc_u64(n),
{
    proof {
        assert(n & 0xff < 256 && (n >> 8) & 0xff < 256 && (n >> 16) & 0xff < 256 && (n >> 24)
            & 0xff < 256 && (n >> 32) & 0xff < 256 && (n >> 40) & 0xff < 256 && (n >> 48) & 0xff
            < 256 && (n >> 56) & 0xff < 256) by (bit_vector);
    }
    out.push((n & 0xff) as u8);
    out.push(((n >> 8) & 0xff) as u8);
    out.push(((n >> 16) & 0xff) as u8);
    out.push(((n >> 24) & 0xff) as u8);
    out.push(((n >> 32) & 0xff) as u8);
    out.push(((n >> 40) & 0xff) as u8);
    out.push(((n >> 48) & 0xff) as u8);
    out.push(((n >> 56) & 0xff) as u8);
    proof {
        assert(final(out)@ =~= old(out)@ + enc_u64(n));
    }
}

/// Appends a signed value as its two's-complement word.
fn push_i64(out: &mut Vec<u8>, x: i64)
    ensures
        final(out)@ == old(out)@ + enc_i64(x),
{
    push_u64(out, x as u64);
}

/// Appends a framed term list: count, then each term.
#[verifier::loop_isolation(false)]
fn push_terms(out: &mut Vec<u8>, terms: &Vec<(usize, i64)>)
    ensures
        final(out)@ == old(out)@ + enc_terms(terms@),
{
    push_u64(out, terms.len() as u64);
    let ghost base = out@;
    let mut t: usize = 0;
    while t < terms.len()
        invariant
            t <= terms@.len(),
            out@ == base + enc_term_list(terms@.take(t as int)),
        decreases terms@.len() - t,
    {
        let (idx, c) = terms[t];
        push_u64(out, idx as u64);
        push_i64(out, c);
        proof {
            lemma_enc_term_list_snoc(terms@.take(t as int), terms@[t as int]);
            assert(terms@.take(t + 1) =~= terms@.take(t as int).push(terms@[t as int]));
            assert(out@ =~= base + enc_term_list(terms@.take(t + 1)));
        }
        t = t + 1;
    }
    proof {
        assert(terms@.take(terms@.len() as int) =~= terms@);
        assert(out@ =~= old(out)@ + enc_terms(terms@));
    }
}

/// Appends one domain: interval count, then the intervals.
#[verifier::loop_isolation(false)]
fn push_domain(out: &mut Vec<u8>, d: &Domain)
    ensures
        final(out)@ == old(out)@ + enc_domain(*d),
{
    let ivs = d.intervals();
    push_u64(out, ivs.len() as u64);
    let ghost base = out@;
    let mut t: usize = 0;
    while t < ivs.len()
        invariant
            t <= ivs@.len(),
            out@ == base + enc_interval_list(ivs@.take(t as int)),
        decreases ivs@.len() - t,
    {
        let (lo, hi) = ivs[t];
        push_i64(out, lo);
        push_i64(out, hi);
        proof {
            lemma_enc_interval_list_snoc(ivs@.take(t as int), ivs@[t as int]);
            assert(ivs@.take(t + 1) =~= ivs@.take(t as int).push(ivs@[t as int]));
            assert(out@ =~= base + enc_interval_list(ivs@.take(t + 1)));
        }
        t = t + 1;
    }
    proof {
        assert(ivs@.take(ivs@.len() as int) =~= ivs@);
        assert(out@ =~= old(out)@ + enc_domain(*d));
    }
}

/// Appends one constraint record: kind tag, then its fields.
#[verifier::loop_isolation(false)]
fn push_constraint(out: &mut Vec<u8>, c: &ConstraintRec)
    ensures
        final(out)@ == old(out)@ + enc_constraint(*c),
{
    match c {
        ConstraintRec::LinearRange { terms, lo, hi } => {
            out.push(1u8);
            push_terms(out, terms);
            push_i64(out, *lo);
            push_i64(out, *hi);
            proof {
                assert(out@ =~= old(out)@ + enc_constraint(*c));
            }
        },
        ConstraintRec::BoolAnd { literals } => {
            out.push(2u8);
            push_u64(out, literals.len() as u64);
            let ghost base = out@;
            let mut t: usize = 0;
            while t < literals.len()
                invariant
                    t <= literals@.len(),
                    out@ == base + enc_lit_list(literals@.take(t as int)),
                decreases literals@.len() - t,
            {
                push_u64(out, literals[t] as u64);
                proof {
                    lemma_enc_lit_list_snoc(literals@.take(t as int), literals@[t as int]);
                    assert(literals@.take(t + 1) =~= literals@.take(t as int).push(
                        literals@[t as int],
                    ));
                    assert(out@ =~= base + enc_lit_list(literals@.take(t + 1)));
                }
                t = t + 1;
            }
            proof {
                assert(literals@.take(literals@.len() as int) =~= literals@);
                assert(out@ =~= old(out)@ + enc_constraint(*c));
            }
        },
        ConstraintRec::NotEqual { a, b } => {
            out.push(3u8);
            push_u64(out, *a as u64);
            push_u64(out, *b as u64);
            proof {
                assert(out@ =~= old(out)@ + enc_constraint(*c));
            }
        },
    }
}

impl Model {
    /// The deterministic wire bytes of this model.  Two calls on one
    /// unchanged state return byte-identical output.
    #[verifier::loop_isolation(false)]
    pub fn to_bytes(&self) -> (r: Vec<u8>)
        ensures
            r@ == enc_model(*self),
    {
        let mut out: Vec<u8> = Vec::new();
        push_u64(&mut out, self.domains.len() as u64);
        let ghost base_d = out@;
        let mut i: usize = 0;
        while i < self.domains.len()
            invariant
                i <= self.domains@.len(),
                out@ == base_d + enc_domain_list(self.domains@.take(i as int)),
            decreases self.domains@.len() - i,
        {
            push_domain(&mut out, &self.domains[i]);
            proof {
                lemma_enc_domain_list_snoc(self.domains@.take(i as int), self.domains@[i as int]);
                assert(self.domains@.take(i + 1) =~= self.domains@.take(i as int).push(
                    self.domains@[i as int],
                ));
                assert(out@ =~= base_d + enc_domain_list(self.domains@.take(i + 1)));
            }
            i = i + 1;
        }
        proof {
            assert(self.domains@.take(self.domains@.len() as int) =~= self.domains@);
        }
        push_u64(&mut out, self.constraints.len() as u64);
        let ghost base_c = out@;
        let mut c: usize = 0;
        while c < self.constraints.len()
            invariant
                c <= self.constraints@.len(),
                out@ == base_c + enc_constraint_list(self.constraints@.take(c as int)),
            decreases self.constraints@.len() - c,
        {
            push_constraint(&mut out, &self.constraints[c]);
            proof {
                lemma_enc_constraint_list_snoc(
                    self.constraints@.take(c as int),
                    self.constraints@[c as int],
                );
                assert(self.constraints@.take(c + 1) =~= self.constraints@.take(c as int).push(
                    self.constraints@[c as int],
                ));
                assert(out@ =~= base_c + enc_constraint_list(self.constraints@.take(c + 1)));
            }
            c = c + 1;
        }
        proof {
            assert(self.constraints@.take(self.constraints@.len() as int) =~= self.constraints@);
        }
        match &self.objective {
            None => {
                out.push(0u8);
            },
            Some(ob) => {
                out.push(1u8);
                if ob.maximize {
                    out.push(1u8);
                } else {
                    out.push(0u8);
                }
                push_terms(&mut out, &ob.terms);
                push_i64(&mut out, ob.offset);
            },
        }
        proof {
            assert(out@ =~= enc_model(*self));
        }
        out
    }
}

} // verus!
