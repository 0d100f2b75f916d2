use tarpaulin::text::{decimal_string, join_strings, push_decimal};

#[test]
fn decimal_renders_like_display() {
    for n in [0u64, 7, 10, 99, 100, 12345, u64::MAX] {
        assert_eq!(decimal_string(n), format!("{}", n));
    }
}

#[test]
fn push_decimal_appends() {
    let mut s = "line ".to_string();
    push_decimal(&mut s, 404);
    push_decimal(&mut s, 0);
    assert_eq!(s, "line 4040");
}

#[test]
fn join_with_separator() {
    let parts: Vec<String> = vec!["1".to_string(), "3-5".to_string(), "9".to_string()];
    assert_eq!(join_strings(&parts, ", "), "1, 3-5, 9");
    assert_eq!(join_strings(&vec!["only".to_string()], ", "), "only");
    assert_eq!(join_strings(&Vec::new(), ", "), "");
}
