use content_proxy::matcher::find_subsequence;

#[test]
fn finds_first_occurrence() {
    assert_eq!(find_subsequence(b"abcabc", b"bc"), Some(1));
    assert_eq!(find_subsequence(b"GET /.git/config", b".git"), Some(5));
}

#[test]
fn absent_needle() {
    assert_eq!(find_subsequence(b"hello", b"world"), None);
    assert_eq!(find_subsequence(b"ab", b"abc"), None);
    assert_eq!(find_subsequence(b"", b"a"), None);
}

#[test]
fn needle_at_the_end_and_whole() {
    assert_eq!(find_subsequence(b"xxab", b"ab"), Some(2));
    assert_eq!(find_subsequence(b"ab", b"ab"), Some(0));
}

#[test]
fn matching_is_case_sensitive() {
    assert_eq!(find_subsequence(b"GIT", b"git"), None);
}
