use alfred_flutter_docs::text::{char_vec, chars_equal, chars_start_with, collapse_whitespace};

#[test]
fn collapse_whitespace_joins_words_with_single_spaces() {
    assert_eq!(collapse_whitespace("  Container   Widget "), "Container Widget");
    assert_eq!(collapse_whitespace("one"), "one");
    assert_eq!(collapse_whitespace(""), "");
    assert_eq!(collapse_whitespace("\n\t "), "");
    assert_eq!(collapse_whitespace("a\u{2003}b\r\nc"), "a b c");
}

#[test]
fn character_helpers() {
    assert_eq!(char_vec("é-q"), vec!['é', '-', 'q']);
    assert!(chars_equal(&char_vec("--query"), "--query"));
    assert!(!chars_equal(&char_vec("--query"), "--quer"));
    assert!(chars_start_with(&char_vec("--query=x"), "--query="));
    assert!(!chars_start_with(&char_vec("--query"), "--query="));
}

#[test]
fn collapsing_twice_changes_nothing() {
    for s in ["  Container   Widget ", "\u{3000}a\u{85}b", "", "x"] {
        let once = collapse_whitespace(s);
        assert_eq!(collapse_whitespace(&once), once);
    }
}

#[test]
fn separators_and_padding_collapse_to_one_space() {
    let q = " Stateful  Widget";
    let r = "build\n";
    let padded = format!("\t{q}  \n{r} ");
    assert_eq!(
        collapse_whitespace(&padded),
        format!("{} {}", collapse_whitespace(q), collapse_whitespace(r))
    );
}
