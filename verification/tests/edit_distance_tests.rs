use smart_diff::edit_distance::levenshtein_distance;

#[test]
fn binary_matcher_test_levenshtein_distance() {
    assert_eq!(levenshtein_distance("", ""), 0);
    assert_eq!(levenshtein_distance("abc", "abc"), 0);
    assert_eq!(levenshtein_distance("abc", "abd"), 1);
    assert_eq!(levenshtein_distance("abc", ""), 3);
    assert_eq!(levenshtein_distance("", "abc"), 3);
    assert_eq!(levenshtein_distance("kitten", "sitting"), 3);
}

#[test]
fn file_refactoring_detector_test_levenshtein_distance() {
    assert_eq!(levenshtein_distance("", ""), 0);
    assert_eq!(levenshtein_distance("abc", "abc"), 0);
    assert_eq!(levenshtein_distance("abc", "abd"), 1);
    assert_eq!(levenshtein_distance("abc", "def"), 3);
    assert_eq!(levenshtein_distance("kitten", "sitting"), 3);
}

#[test]
fn changes_test_levenshtein_distance() {
    assert_eq!(levenshtein_distance("", ""), 0);
    assert_eq!(levenshtein_distance("abc", ""), 3);
    assert_eq!(levenshtein_distance("", "abc"), 3);
    assert_eq!(levenshtein_distance("abc", "abc"), 0);
    assert_eq!(levenshtein_distance("abc", "ab"), 1);
    assert_eq!(levenshtein_distance("abc", "axc"), 1);
    assert_eq!(levenshtein_distance("abc", "def"), 3);
}

#[test]
fn refactoring_test_levenshtein_distance() {
    assert_eq!(levenshtein_distance("", ""), 0);
    assert_eq!(levenshtein_distance("abc", ""), 3);
    assert_eq!(levenshtein_distance("", "abc"), 3);
    assert_eq!(levenshtein_distance("abc", "abc"), 0);
    assert_eq!(levenshtein_distance("abc", "ab"), 1);
    assert_eq!(levenshtein_distance("abc", "axc"), 1);
    assert_eq!(levenshtein_distance("abc", "def"), 3);
}

#[test]
fn levenshtein_is_symmetric_on_examples() {
    assert_eq!(levenshtein_distance("flaw", "lawn"), levenshtein_distance("lawn", "flaw"));
    assert_eq!(levenshtein_distance("flaw", "lawn"), 2);
}

#[test]
fn levenshtein_counts_characters() {
    assert_eq!(levenshtein_distance("é", "e"), 1);
    assert_eq!(levenshtein_distance("", "é"), 1);
    assert_eq!(levenshtein_distance("naïve", "naive"), 1);
    assert_eq!(levenshtein_distance("日本語", "日本"), 1);
}

#[test]
fn test_basic_functionality() {}

#[test]
fn levenshtein_triangle_on_examples() {
    let words = ["kitten", "sitting", "mitten", "", "sit", "kit"];
    for a in words {
        for b in words {
            for c in words {
                assert!(levenshtein_distance(a, c) <= levenshtein_distance(a, b) + levenshtein_distance(b, c));
            }
        }
    }
}
