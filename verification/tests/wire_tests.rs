use cp_model::expr::LinearExpr;
use cp_model::model::CpModelBuilder;

#[test]
fn repeated_snapshots_are_byte_identical() {
    let mut model = CpModelBuilder::default();
    let bounds: Vec<(i64, i64)> = vec![(0, 5)];
    let x = model.new_int_var(&bounds).unwrap();
    let y = model.new_int_var(&bounds).unwrap();
    model.add_ne(x, y).unwrap();
    model.maximize(&LinearExpr::term(2, x)).unwrap();
    let b1 = model.finish().to_bytes();
    let b2 = model.finish().to_bytes();
    assert_eq!(b1, b2);
}

#[test]
fn snapshot_reflects_later_mutation() {
    let mut model = CpModelBuilder::default();
    let bounds: Vec<(i64, i64)> = vec![(0, 5)];
    let x = model.new_int_var(&bounds).unwrap();
    let before = model.finish().to_bytes();
    model.add_linear_le(&LinearExpr::from_int(x), 3).unwrap();
    let after = model.finish().to_bytes();
    assert_ne!(before, after);
    // The snapshot is not consumed: building it again gives the same bytes.
    assert_eq!(after, model.finish().to_bytes());
}

#[test]
fn exact_bytes_of_a_single_bool_var_model() {
    let mut model = CpModelBuilder::default();
    let _ = model.new_bool_var();
    let bytes = model.finish().to_bytes();
    let mut expected: Vec<u8> = Vec::new();
    // one variable
    expected.extend_from_slice(&1u64.to_le_bytes());
    // its domain: one interval, [0, 1]
    expected.extend_from_slice(&1u64.to_le_bytes());
    expected.extend_from_slice(&0i64.to_le_bytes());
    expected.extend_from_slice(&1i64.to_le_bytes());
    // no constraints, no objective
    expected.extend_from_slice(&0u64.to_le_bytes());
    expected.push(0);
    assert_eq!(bytes, expected);
}

#[test]
fn exact_bytes_cover_constraints_and_objective() {
    let mut model = CpModelBuilder::default();
    let bounds: Vec<(i64, i64)> = vec![(-1, 4)];
    let x = model.new_int_var(&bounds).unwrap();
    model.add_linear_le(&LinearExpr::term(3, x), 2).unwrap();
    model.minimize(&LinearExpr::term(-1, x)).unwrap();
    let bytes = model.finish().to_bytes();

    let mut expected: Vec<u8> = Vec::new();
    expected.extend_from_slice(&1u64.to_le_bytes());
    expected.extend_from_slice(&1u64.to_le_bytes());
    expected.extend_from_slice(&(-1i64).to_le_bytes());
    expected.extend_from_slice(&4i64.to_le_bytes());
    expected.extend_from_slice(&1u64.to_le_bytes());
    // linear constraint: tag 1, one term (var 0, coeff 3), range (-inf, 2]
    expected.push(1);
    expected.extend_from_slice(&1u64.to_le_bytes());
    expected.extend_from_slice(&0u64.to_le_bytes());
    expected.extend_from_slice(&3i64.to_le_bytes());
    expected.extend_from_slice(&i64::MIN.to_le_bytes());
    expected.extend_from_slice(&2i64.to_le_bytes());
    // objective: present, minimize, one term (var 0, coeff -1), offset 0
    expected.push(1);
    expected.push(0);
    expected.extend_from_slice(&1u64.to_le_bytes());
    expected.extend_from_slice(&0u64.to_le_bytes());
    expected.extend_from_slice(&(-1i64).to_le_bytes());
    expected.extend_from_slice(&0i64.to_le_bytes());
    assert_eq!(bytes, expected);
}

#[test]
fn conjunction_and_disequality_bytes() {
    let mut model = CpModelBuilder::default();
    let p = model.new_bool_var();
    let q = model.new_bool_var();
    model.add_and(&vec![p, q]).unwrap();
    let bounds: Vec<(i64, i64)> = vec![(0, 1)];
    let x = model.new_int_var(&bounds).unwrap();
    let y = model.new_int_var(&bounds).unwrap();
    model.add_ne(x, y).unwrap();
    let bytes = model.finish().to_bytes();

    let mut expected: Vec<u8> = Vec::new();
    expected.extend_from_slice(&4u64.to_le_bytes());
    for _ in 0..4 {
        expected.extend_from_slice(&1u64.to_le_bytes());
        expected.extend_from_slice(&0i64.to_le_bytes());
        expected.extend_from_slice(&1i64.to_le_bytes());
    }
    expected.extend_from_slice(&2u64.to_le_bytes());
    // conjunction: tag 2, two literals 0 and 1
    expected.push(2);
    expected.extend_from_slice(&2u64.to_le_bytes());
    expected.extend_from_slice(&0u64.to_le_bytes());
    expected.extend_from_slice(&1u64.to_le_bytes());
    // disequality: tag 3, variables 2 and 3
    expected.push(3);
    expected.extend_from_slice(&2u64.to_le_bytes());
    expected.extend_from_slice(&3u64.to_le_bytes());
    // no objective
    expected.push(0);
    assert_eq!(bytes, expected);
}
