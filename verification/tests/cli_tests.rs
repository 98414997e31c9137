use cp_model::cli::{exit_code_from_i32, split_args_on_double_dash};

fn strings(items: &[&str]) -> Vec<String> {
    items.iter().map(|s| s.to_string()).collect()
}

#[test]
fn splits_at_first_double_dash() {
    let (cargo, clippy) = split_args_on_double_dash(strings(&["a", "b", "--", "c", "d"]));
    assert_eq!(cargo, strings(&["a", "b"]));
    assert_eq!(clippy, strings(&["c", "d"]));
}

#[test]
fn later_double_dashes_are_kept() {
    let (cargo, clippy) = split_args_on_double_dash(strings(&["a", "--", "b", "--", "c"]));
    assert_eq!(cargo, strings(&["a"]));
    assert_eq!(clippy, strings(&["b", "--", "c"]));
}

#[test]
fn no_separator_keeps_everything_first() {
    let (cargo, clippy) = split_args_on_double_dash(strings(&["a", "b"]));
    assert_eq!(cargo, strings(&["a", "b"]));
    assert!(clippy.is_empty());
}

#[test]
fn leading_separator_moves_everything_second() {
    let (cargo, clippy) = split_args_on_double_dash(strings(&["--", "x"]));
    assert!(cargo.is_empty());
    assert_eq!(clippy, strings(&["x"]));
}

#[test]
fn empty_argument_list_splits_into_empties() {
    let (cargo, clippy) = split_args_on_double_dash(Vec::new());
    assert!(cargo.is_empty());
    assert!(clippy.is_empty());
}

#[test]
fn exit_codes_clamp_into_a_byte() {
    assert_eq!(exit_code_from_i32(0), 0);
    assert_eq!(exit_code_from_i32(10), 10);
    assert_eq!(exit_code_from_i32(255), 255);
    assert_eq!(exit_code_from_i32(256), 255);
    assert_eq!(exit_code_from_i32(i32::MAX), 255);
    assert_eq!(exit_code_from_i32(-1), 0);
    assert_eq!(exit_code_from_i32(i32::MIN), 0);
}
