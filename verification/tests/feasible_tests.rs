use cp_model::expr::LinearExpr;
use cp_model::feasible::{objective_value, solution_is_feasible};
use cp_model::model::CpModelBuilder;
use cp_model::response::{SolverResponse, SolverStatus};
use cp_model::Error;

#[test]
fn conjunction_feasible_only_when_both_are_one() {
    let mut model = CpModelBuilder::default();
    let x = model.new_bool_var();
    let y = model.new_bool_var();
    model.add_and(&vec![x, y]).unwrap();
    let m = model.finish();
    assert!(solution_is_feasible(m, &vec![1, 1]).unwrap());
    assert!(!solution_is_feasible(m, &vec![1, 0]).unwrap());
    assert!(!solution_is_feasible(m, &vec![0, 1]).unwrap());
    assert!(!solution_is_feasible(m, &vec![0, 0]).unwrap());
}

#[test]
fn empty_conjunction_is_vacuously_satisfied() {
    let mut model = CpModelBuilder::default();
    let _x = model.new_bool_var();
    model.add_and(&vec![]).unwrap();
    let m = model.finish();
    assert!(solution_is_feasible(m, &vec![0]).unwrap());
    assert!(solution_is_feasible(m, &vec![1]).unwrap());
}

#[test]
fn disequality_constrains_decoded_values() {
    let mut model = CpModelBuilder::new(9);
    let domain: Vec<(i64, i64)> = vec![(0, 2)];
    let x = model.new_int_var_with_name(&domain, "x".to_string()).unwrap();
    let y = model.new_int_var_with_name(&domain, "y".to_string()).unwrap();
    let z = model.new_int_var_with_name(&domain, "z".to_string()).unwrap();
    model.add_ne(x, y).unwrap();
    let m = model.finish();

    assert!(solution_is_feasible(m, &vec![0, 1, 2]).unwrap());
    assert!(!solution_is_feasible(m, &vec![1, 1, 0]).unwrap());
    // Out-of-domain values are infeasible even when the disequality holds.
    assert!(!solution_is_feasible(m, &vec![0, 3, 0]).unwrap());

    let response = SolverResponse {
        tag: model.tag(),
        status: SolverStatus::Optimal,
        values: vec![0, 1, 2],
    };
    let x_val = x.solution_value(&response).unwrap();
    let y_val = y.solution_value(&response).unwrap();
    let z_val = z.solution_value(&response).unwrap();
    assert!(x_val != y_val);
    assert!((0..=2).contains(&x_val));
    assert!((0..=2).contains(&y_val));
    assert!((0..=2).contains(&z_val));
}

#[test]
fn linear_program_optimum_is_feasible_with_objective_35() {
    let mut model = CpModelBuilder::default();
    let bounds: Vec<(i64, i64)> = vec![(0, 50)];
    let x = model.new_int_var_with_name(&bounds, "x".to_string()).unwrap();
    let y = model.new_int_var_with_name(&bounds, "y".to_string()).unwrap();
    let z = model.new_int_var_with_name(&bounds, "z".to_string()).unwrap();

    let c1 = LinearExpr::term(2, x)
        .add(&LinearExpr::term(7, y))
        .unwrap()
        .add(&LinearExpr::term(3, z))
        .unwrap();
    model.add_linear_le(&c1, 50).unwrap();
    let c2 = LinearExpr::term(3, x)
        .add(&LinearExpr::term(-5, y))
        .unwrap()
        .add(&LinearExpr::term(7, z))
        .unwrap();
    model.add_linear_le(&c2, 45).unwrap();
    let c3 = LinearExpr::term(5, x)
        .add(&LinearExpr::term(2, y))
        .unwrap()
        .add(&LinearExpr::term(-6, z))
        .unwrap();
    model.add_linear_le(&c3, 37).unwrap();

    let obj = LinearExpr::term(2, x)
        .add(&LinearExpr::term(2, y))
        .unwrap()
        .add(&LinearExpr::term(3, z))
        .unwrap();
    model.maximize(&obj).unwrap();

    let m = model.finish();
    // The engine's optimum for this program.
    let best = vec![7, 3, 5];
    assert!(solution_is_feasible(m, &best).unwrap());
    assert_eq!(objective_value(m, &best).unwrap(), 35);

    let response = SolverResponse {
        tag: model.tag(),
        status: SolverStatus::Optimal,
        values: best,
    };
    let x_val = x.solution_value(&response).unwrap();
    let y_val = y.solution_value(&response).unwrap();
    let z_val = z.solution_value(&response).unwrap();
    assert!(2 * x_val + 7 * y_val + 3 * z_val <= 50);
    assert!(3 * x_val - 5 * y_val + 7 * z_val <= 45);
    assert!(5 * x_val + 2 * y_val - 6 * z_val <= 37);
    assert_eq!(2 * x_val + 2 * y_val + 3 * z_val, 35);
}

#[test]
fn equality_and_bounded_ranges_are_checked_exactly() {
    let mut model = CpModelBuilder::default();
    let bounds: Vec<(i64, i64)> = vec![(0, 10)];
    let x = model.new_int_var(&bounds).unwrap();
    let e = LinearExpr::term(2, x);
    model.add_linear_eq(&e, 6).unwrap();
    let m = model.finish();
    assert!(solution_is_feasible(m, &vec![3]).unwrap());
    assert!(!solution_is_feasible(m, &vec![2]).unwrap());
    assert!(!solution_is_feasible(m, &vec![4]).unwrap());
}

#[test]
fn wrong_length_assignment_is_infeasible() {
    let mut model = CpModelBuilder::default();
    let _ = model.new_bool_var();
    let m = model.finish();
    assert!(!solution_is_feasible(m, &vec![]).unwrap());
    assert!(!solution_is_feasible(m, &vec![1, 1]).unwrap());
}

#[test]
fn evaluator_reports_overflow() {
    let mut model = CpModelBuilder::default();
    let full: Vec<(i64, i64)> = vec![(i64::MIN, i64::MAX)];
    let a = model.new_int_var(&full).unwrap();
    let b = model.new_int_var(&full).unwrap();
    let c = model.new_int_var(&full).unwrap();
    let e = LinearExpr::term(i64::MAX, a)
        .add(&LinearExpr::term(i64::MAX, b))
        .unwrap()
        .add(&LinearExpr::term(i64::MAX, c))
        .unwrap();
    model.add_linear_le(&e, 0).unwrap();
    let m = model.finish();
    assert_eq!(
        solution_is_feasible(m, &vec![i64::MAX, i64::MAX, i64::MAX]).unwrap_err(),
        Error::ArithmeticOverflow
    );
    // Small values of the same model evaluate exactly.
    assert!(solution_is_feasible(m, &vec![0, 0, 0]).unwrap());
    assert!(!solution_is_feasible(m, &vec![1, 0, 0]).unwrap());
}

#[test]
fn holed_domains_reject_values_in_the_gap() {
    let mut model = CpModelBuilder::default();
    let holed: Vec<(i64, i64)> = vec![(5, 6), (0, 1)];
    let _x = model.new_int_var(&holed).unwrap();
    let m = model.finish();
    assert!(solution_is_feasible(m, &vec![0]).unwrap());
    assert!(solution_is_feasible(m, &vec![5]).unwrap());
    assert!(!solution_is_feasible(m, &vec![3]).unwrap());
    assert!(!solution_is_feasible(m, &vec![7]).unwrap());
}

#[test]
fn objective_value_uses_offset() {
    let mut model = CpModelBuilder::default();
    let bounds: Vec<(i64, i64)> = vec![(0, 10)];
    let x = model.new_int_var(&bounds).unwrap();
    let e = LinearExpr::term(4, x).add(&LinearExpr::constant(-3)).unwrap();
    model.minimize(&e).unwrap();
    let m = model.finish();
    assert_eq!(objective_value(m, &vec![2]).unwrap(), 5);
}
