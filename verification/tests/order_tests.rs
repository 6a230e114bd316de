use smart_diff::order::{sorted_strings, str_lex_le};

fn strings(v: &[&str]) -> Vec<String> {
    v.iter().map(|s| s.to_string()).collect()
}

#[test]
fn lexicographic_order_of_strings() {
    assert!(str_lex_le("", "a"));
    assert!(str_lex_le("abc", "abd"));
    assert!(str_lex_le("ab", "abc"));
    assert!(!str_lex_le("abc", "ab"));
    assert!(str_lex_le("same", "same"));
    assert!(str_lex_le("Zebra", "apple"));
    assert!(!str_lex_le("é", "z"));
}

#[test]
fn sorting_agrees_with_std() {
    let v = strings(&["pear", "apple", "Banana", "app", "", "é", "zeta", "apple"]);
    let mut expected = v.clone();
    expected.sort();
    assert_eq!(sorted_strings(&v), expected);
    assert_eq!(sorted_strings(&Vec::new()), Vec::<String>::new());
}
