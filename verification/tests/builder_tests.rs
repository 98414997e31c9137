use cp_model::expr::LinearExpr;
use cp_model::model::{ConstraintRec, CpModelBuilder};
use cp_model::Error;

#[test]
fn foreign_handles_fail_every_operation() {
    let mut b1 = CpModelBuilder::new(1);
    let mut b2 = CpModelBuilder::new(2);
    let pairs: Vec<(i64, i64)> = vec![(0, 2)];
    let x2 = b2.new_int_var(&pairs).unwrap();
    let p2 = b2.new_bool_var();

    assert_eq!(b1.add_ne(x2, x2).unwrap_err(), Error::InvalidHandle);
    assert_eq!(b1.add_and(&vec![p2]).unwrap_err(), Error::InvalidHandle);
    assert_eq!(b1.get_int(x2).unwrap_err(), Error::InvalidHandle);
    assert_eq!(b1.get_bool(p2).unwrap_err(), Error::InvalidHandle);
    let e2 = LinearExpr::from_int(x2);
    assert_eq!(b1.add_linear_le(&e2, 5).unwrap_err(), Error::InvalidHandle);
    assert_eq!(b1.add_linear_eq(&e2, 5).unwrap_err(), Error::InvalidHandle);
    assert_eq!(b1.add_linear_bounded(&e2, 0, 5).unwrap_err(), Error::InvalidHandle);
    assert_eq!(b1.set_objective(&e2, true).unwrap_err(), Error::InvalidHandle);
    // Nothing was recorded by the failing calls.
    assert_eq!(b1.num_vars(), 0);
    assert_eq!(b1.finish().constraints.len(), 0);
    assert!(b1.finish().objective.is_none());
}

#[test]
fn kind_mismatch_is_an_invalid_handle() {
    let mut b = CpModelBuilder::new(3);
    let pairs: Vec<(i64, i64)> = vec![(0, 2)];
    let x = b.new_int_var(&pairs).unwrap();
    let mut other = CpModelBuilder::new(3);
    // Same tag, same index, but the variable there is boolean.
    let p = other.new_bool_var();
    assert_eq!(other.add_ne(x, x).unwrap_err(), Error::InvalidHandle);
    assert_eq!(b.add_and(&vec![p]).unwrap_err(), Error::InvalidHandle);
}

#[test]
fn second_objective_replaces_the_first() {
    let mut b = CpModelBuilder::new(1);
    let pairs: Vec<(i64, i64)> = vec![(0, 10)];
    let x = b.new_int_var(&pairs).unwrap();
    let y = b.new_int_var(&pairs).unwrap();
    b.maximize(&LinearExpr::term(2, x)).unwrap();
    b.minimize(&LinearExpr::term(5, y)).unwrap();
    let m = b.finish();
    let o = m.objective.as_ref().unwrap();
    assert!(!o.maximize);
    assert_eq!(o.terms.as_slice(), &[(y.index, 5)]);
    assert_eq!(o.offset, 0);
}

#[test]
fn invalid_domain_leaves_builder_unchanged() {
    let mut b = CpModelBuilder::new(1);
    let bad: Vec<(i64, i64)> = vec![(4, 2)];
    assert_eq!(b.new_int_var(&bad).unwrap_err(), Error::InvalidDomain);
    assert_eq!(b.num_vars(), 0);
    assert_eq!(b.finish().domains.len(), 0);
}

#[test]
fn variable_metadata_round_trips() {
    let mut b = CpModelBuilder::new(1);
    let pairs: Vec<(i64, i64)> = vec![(3, 5), (0, 1)];
    let x = b.new_int_var_with_name(&pairs, "width".to_string()).unwrap();
    let p = b.new_bool_var();
    let (dx, nx) = b.get_int(x).unwrap();
    assert_eq!(dx.intervals().as_slice(), &[(0, 1), (3, 5)]);
    assert_eq!(nx.as_str(), "width");
    let (dp, np) = b.get_bool(p).unwrap();
    assert_eq!(dp.intervals().as_slice(), &[(0, 1)]);
    assert_eq!(np.as_str(), "");
    assert_eq!(x.index, 0);
    assert_eq!(p.index, 1);
    assert_eq!(b.num_vars(), 2);
}

#[test]
fn linear_le_folds_offset_into_bound() {
    let mut b = CpModelBuilder::new(1);
    let pairs: Vec<(i64, i64)> = vec![(0, 10)];
    let x = b.new_int_var(&pairs).unwrap();
    let e = LinearExpr::term(2, x).add(&LinearExpr::constant(5)).unwrap();
    b.add_linear_le(&e, 3).unwrap();
    let m = b.finish();
    match &m.constraints[0] {
        ConstraintRec::LinearRange { terms, lo, hi } => {
            assert_eq!(terms.as_slice(), &[(x.index, 2)]);
            assert_eq!(*lo, i64::MIN);
            assert_eq!(*hi, -2);
        }
        _ => panic!("expected a linear constraint"),
    }
}

#[test]
fn linear_eq_and_bounded_fold_both_bounds() {
    let mut b = CpModelBuilder::new(1);
    let pairs: Vec<(i64, i64)> = vec![(0, 10)];
    let x = b.new_int_var(&pairs).unwrap();
    let e = LinearExpr::term(1, x).add(&LinearExpr::constant(-1)).unwrap();
    b.add_linear_eq(&e, 4).unwrap();
    b.add_linear_bounded(&e, 2, 6).unwrap();
    let m = b.finish();
    match &m.constraints[0] {
        ConstraintRec::LinearRange { lo, hi, .. } => {
            assert_eq!((*lo, *hi), (5, 5));
        }
        _ => panic!("expected a linear constraint"),
    }
    match &m.constraints[1] {
        ConstraintRec::LinearRange { lo, hi, .. } => {
            assert_eq!((*lo, *hi), (3, 7));
        }
        _ => panic!("expected a linear constraint"),
    }
}

#[test]
fn bounded_rejects_inverted_range() {
    let mut b = CpModelBuilder::new(1);
    let pairs: Vec<(i64, i64)> = vec![(0, 10)];
    let x = b.new_int_var(&pairs).unwrap();
    let e = LinearExpr::from_int(x);
    assert_eq!(b.add_linear_bounded(&e, 6, 2).unwrap_err(), Error::InvalidDomain);
    assert_eq!(b.finish().constraints.len(), 0);
}

#[test]
fn bound_folding_reports_overflow() {
    let mut b = CpModelBuilder::new(1);
    let pairs: Vec<(i64, i64)> = vec![(0, 10)];
    let x = b.new_int_var(&pairs).unwrap();
    let e = LinearExpr::from_int(x).add(&LinearExpr::constant(-1)).unwrap();
    assert_eq!(b.add_linear_le(&e, i64::MAX).unwrap_err(), Error::ArithmeticOverflow);
    assert_eq!(b.finish().constraints.len(), 0);
}

#[test]
fn constraints_keep_insertion_order() {
    let mut b = CpModelBuilder::new(1);
    let pairs: Vec<(i64, i64)> = vec![(0, 2)];
    let x = b.new_int_var(&pairs).unwrap();
    let y = b.new_int_var(&pairs).unwrap();
    let p = b.new_bool_var();
    b.add_ne(x, y).unwrap();
    b.add_and(&vec![p]).unwrap();
    b.add_linear_le(&LinearExpr::from_int(x), 1).unwrap();
    let m = b.finish();
    assert!(matches!(m.constraints[0], ConstraintRec::NotEqual { .. }));
    assert!(matches!(m.constraints[1], ConstraintRec::BoolAnd { .. }));
    assert!(matches!(m.constraints[2], ConstraintRec::LinearRange { .. }));
}

#[test]
fn default_builder_starts_empty() {
    let b = CpModelBuilder::default();
    assert_eq!(b.num_vars(), 0);
    assert_eq!(b.tag(), 0);
    assert_eq!(b.finish().domains.len(), 0);
    assert_eq!(b.finish().constraints.len(), 0);
    assert!(b.finish().objective.is_none());
}
