use mxindex::strutil::{dup_string_vec, i64_to_string, join_strings, str_contains,
    str_contains_ci, str_ends_with, str_eq, str_eq_ci, str_lt, trim_end_char, u64_to_string,
    vec_contains_str};

#[test]
fn decimal_rendering_is_exact() {
    assert_eq!(u64_to_string(0), "0");
    assert_eq!(u64_to_string(7), "7");
    assert_eq!(u64_to_string(42), "42");
    assert_eq!(u64_to_string(1000), "1000");
    assert_eq!(u64_to_string(u64::MAX), "18446744073709551615");
    assert_eq!(i64_to_string(0), "0");
    assert_eq!(i64_to_string(-5), "-5");
    assert_eq!(i64_to_string(i64::MIN), "-9223372036854775808");
    assert_eq!(i64_to_string(i64::MAX), "9223372036854775807");
}

#[test]
fn joining_inserts_the_separator_between_parts() {
    assert_eq!(join_strings(&vec![], ","), "");
    assert_eq!(join_strings(&vec!["6".to_string()], ","), "6");
    assert_eq!(
        join_strings(&vec!["6".to_string(), "9".to_string()], ","),
        "6,9"
    );
    assert_eq!(
        join_strings(&vec!["a".to_string(), "b".to_string(), "c".to_string()], ", "),
        "a, b, c"
    );
}

#[test]
fn trimming_removes_every_trailing_occurrence() {
    assert_eq!(trim_end_char("example.org//", '/'), "example.org");
    assert_eq!(trim_end_char("example.org", '/'), "example.org");
    assert_eq!(trim_end_char("///", '/'), "");
    assert_eq!(trim_end_char("", '/'), "");
}

#[test]
fn containment_is_case_sensitive_or_folded_as_asked() {
    assert!(str_contains("1,2,6", "6"));
    assert!(!str_contains("1,2,6", "7"));
    assert!(!str_contains("Matrix", "matrix"));
    assert!(str_contains_ci("The MATRIX hub", "matrix"));
    assert!(str_contains_ci("anything", ""));
    assert!(!str_contains_ci("short", "much longer needle"));
}

#[test]
fn equality_helpers_compare_characters() {
    assert!(str_eq("a.org", "a.org"));
    assert!(!str_eq("a.org", "b.org"));
    assert!(str_eq_ci("Matrix.ORG", "matrix.org"));
    assert!(!str_eq_ci("matrix.org", "matrix.com"));
}

#[test]
fn lexicographic_order_is_by_code_point() {
    assert!(str_lt("a.org", "b.org"));
    assert!(!str_lt("b.org", "a.org"));
    assert!(str_lt("ab", "abc"));
    assert!(!str_lt("abc", "abc"));
    assert!(str_lt("Zoo", "apple"));
}

#[test]
fn suffix_check_matches_the_tail() {
    assert!(str_ends_with("somewhere.onion", ".onion"));
    assert!(!str_ends_with("onion.example", ".onion"));
    assert!(str_ends_with("x", ""));
}

#[test]
fn string_vectors_copy_and_search() {
    let v = vec!["a".to_string(), "b".to_string()];
    assert_eq!(dup_string_vec(&v), v);
    assert!(vec_contains_str(&v, "a"));
    assert!(!vec_contains_str(&v, "c"));
}
