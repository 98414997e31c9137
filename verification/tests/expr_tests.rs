use cp_model::expr::LinearExpr;
use cp_model::model::CpModelBuilder;
use cp_model::Error;

#[test]
fn coefficients_accumulate_per_index() {
    let mut b = CpModelBuilder::new(1);
    let pairs: Vec<(i64, i64)> = vec![(0, 10)];
    let x = b.new_int_var(&pairs).unwrap();
    let y = b.new_int_var(&pairs).unwrap();
    let z = b.new_int_var(&pairs).unwrap();
    let e1 = LinearExpr::term(2, x).add(&LinearExpr::term(3, y)).unwrap();
    let e2 = LinearExpr::term(-2, x).add(&LinearExpr::term(1, z)).unwrap();
    let sum = e1.add(&e2).unwrap();
    assert_eq!(sum.coefficient(x.index), 0);
    assert_eq!(sum.coefficient(y.index), 3);
    assert_eq!(sum.coefficient(z.index), 1);
    // A cancelled coefficient leaves no entry behind.
    assert!(sum.terms().iter().all(|t| t.0 != x.index));
    assert_eq!(sum.terms().len(), 2);
}

#[test]
fn scale_multiplies_terms_and_offset() {
    let mut b = CpModelBuilder::new(1);
    let pairs: Vec<(i64, i64)> = vec![(0, 10)];
    let x = b.new_int_var(&pairs).unwrap();
    let e = LinearExpr::term(3, x).add(&LinearExpr::constant(5)).unwrap();
    let s = e.scale(-2).unwrap();
    assert_eq!(s.coefficient(x.index), -6);
    assert_eq!(s.offset(), -10);
}

#[test]
fn scale_by_zero_empties_the_expression() {
    let mut b = CpModelBuilder::new(1);
    let pairs: Vec<(i64, i64)> = vec![(0, 10)];
    let x = b.new_int_var(&pairs).unwrap();
    let e = LinearExpr::term(3, x).add(&LinearExpr::constant(5)).unwrap();
    let s = e.scale(0).unwrap();
    assert_eq!(s.terms().len(), 0);
    assert_eq!(s.offset(), 0);
}

#[test]
fn add_reports_coefficient_overflow() {
    let mut b = CpModelBuilder::new(1);
    let pairs: Vec<(i64, i64)> = vec![(0, 10)];
    let x = b.new_int_var(&pairs).unwrap();
    let e1 = LinearExpr::term(i64::MAX, x);
    let e2 = LinearExpr::term(1, x);
    assert_eq!(e1.add(&e2).unwrap_err(), Error::ArithmeticOverflow);
}

#[test]
fn add_reports_offset_overflow() {
    let e1 = LinearExpr::constant(i64::MAX);
    let e2 = LinearExpr::constant(1);
    assert_eq!(e1.add(&e2).unwrap_err(), Error::ArithmeticOverflow);
}

#[test]
fn scale_reports_overflow() {
    let mut b = CpModelBuilder::new(1);
    let pairs: Vec<(i64, i64)> = vec![(0, 10)];
    let x = b.new_int_var(&pairs).unwrap();
    let e = LinearExpr::term(i64::MAX, x);
    assert_eq!(e.scale(2).unwrap_err(), Error::ArithmeticOverflow);
    assert_eq!(
        LinearExpr::constant(i64::MIN).scale(-1).unwrap_err(),
        Error::ArithmeticOverflow
    );
}

#[test]
fn add_rejects_expressions_of_different_builders() {
    let mut b1 = CpModelBuilder::new(1);
    let mut b2 = CpModelBuilder::new(2);
    let pairs: Vec<(i64, i64)> = vec![(0, 10)];
    let x1 = b1.new_int_var(&pairs).unwrap();
    let x2 = b2.new_int_var(&pairs).unwrap();
    let e1 = LinearExpr::from_int(x1);
    let e2 = LinearExpr::from_int(x2);
    assert_eq!(e1.add(&e2).unwrap_err(), Error::InvalidHandle);
}

#[test]
fn constants_are_compatible_with_any_builder() {
    let mut b = CpModelBuilder::new(7);
    let pairs: Vec<(i64, i64)> = vec![(0, 10)];
    let x = b.new_int_var(&pairs).unwrap();
    let e = LinearExpr::from_int(x).add(&LinearExpr::constant(4)).unwrap();
    assert_eq!(e.coefficient(x.index), 1);
    assert_eq!(e.offset(), 4);
}

#[test]
fn bool_variables_enter_expressions_as_unit_terms() {
    let mut b = CpModelBuilder::new(1);
    let p = b.new_bool_var();
    let e = LinearExpr::from_bool(p);
    assert_eq!(e.coefficient(p.index), 1);
    assert_eq!(e.offset(), 0);
}
