use std::collections::HashMap;

use bucket_control::cli::parse_initial_data;

fn quantities(pairs: &[(u64, u64)]) -> HashMap<u64, u64> {
    pairs.iter().copied().collect()
}

#[test]
fn parses_default_topology() {
    assert_eq!(parse_initial_data("1:45,2:72,3:38"), Ok(quantities(&[(1, 45), (2, 72), (3, 38)])));
}

#[test]
fn empty_text_gives_no_buckets() {
    assert_eq!(parse_initial_data(""), Ok(HashMap::new()));
}

#[test]
fn white_space_around_numbers_is_allowed() {
    assert_eq!(parse_initial_data(" 1 : 45 ,\t2:\u{3000}7 "), Ok(quantities(&[(1, 45), (2, 7)])));
}

#[test]
fn later_pair_overrides_earlier() {
    assert_eq!(parse_initial_data("1:2,1:3"), Ok(quantities(&[(1, 3)])));
}

#[test]
fn plus_sign_is_accepted() {
    assert_eq!(parse_initial_data("+4:+5"), Ok(quantities(&[(4, 5)])));
}

#[test]
fn pair_without_colon_is_refused() {
    assert_eq!(parse_initial_data("1:45,2"), Err("Invalid format for pair: 2".to_string()));
}

#[test]
fn pair_with_two_colons_is_refused() {
    assert_eq!(parse_initial_data("1:2:3"), Err("Invalid format for pair: 1:2:3".to_string()));
}

#[test]
fn trailing_comma_is_refused() {
    assert_eq!(parse_initial_data("1:45,"), Err("Invalid format for pair: ".to_string()));
}

#[test]
fn bad_id_is_refused() {
    let e = parse_initial_data("x:45").unwrap_err();
    assert!(e.starts_with("Invalid ID: "), "{}", e);
}

#[test]
fn bad_value_is_refused() {
    let e = parse_initial_data("1:-3").unwrap_err();
    assert!(e.starts_with("Invalid value: "), "{}", e);
    let e = parse_initial_data("1:").unwrap_err();
    assert!(e.starts_with("Invalid value: "), "{}", e);
}

#[test]
fn value_above_u64_is_refused() {
    let e = parse_initial_data("1:18446744073709551616").unwrap_err();
    assert!(e.starts_with("Invalid value: "), "{}", e);
    assert_eq!(
        parse_initial_data("1:18446744073709551615"),
        Ok(quantities(&[(1, u64::MAX)]))
    );
}
