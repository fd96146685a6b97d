use cmd_lexer::lexer::split_input;
use cmd_lexer::token::{CmdArg, SplitError};

fn arg(data: &str, is_quoted: bool, is_braced: bool) -> CmdArg {
    CmdArg { data: data.to_string(), is_quoted, is_braced }
}

fn check_split(cases: &[(&str, Vec<CmdArg>)]) {
    for (input, expected) in cases {
        let output = split_input(input).unwrap();
        assert!(
            expected == &output,
            "input: {:?}\nexpected: {:?}\nbut found: {:?}",
            input,
            expected,
            output
        );
    }
}

#[test]
fn split_empty() {
    check_split(&[("", vec![])]);
}

#[test]
fn split_leading_ws() {
    check_split(&[
        (" abcd", vec![arg("abcd", false, false)]),
        ("\tabcd", vec![arg("abcd", false, false)]),
        ("\nabcd", vec![arg("abcd", false, false)]),
        (" \n\tabcd", vec![arg("abcd", false, false)]),
    ]);
}

#[test]
fn split_normal() {
    check_split(&[("abcd 123", vec![arg("abcd", false, false), arg("123", false, false)])]);
}

#[test]
fn split_dquotes() {
    check_split(&[(
        "\"abcd 123\" abcd",
        vec![arg("abcd 123", true, false), arg("abcd", false, false)],
    )]);
}

#[test]
fn split_brackets() {
    check_split(&[(
        "{abcd 123} abcd",
        vec![arg("abcd 123", false, true), arg("abcd", false, false)],
    )]);
}

#[test]
fn split_whitespace_only() {
    check_split(&[(" \t\n \n", vec![])]);
}

#[test]
fn split_trailing_ws() {
    check_split(&[("ab \t", vec![arg("ab", false, false)])]);
}

#[test]
fn split_escape_preserved() {
    // The backslash is kept in the output, not resolved into a bare quote.
    check_split(&[("\"a\\\"b\"", vec![arg("a\\\"b", true, false)])]);
}

#[test]
fn split_carriage_return_is_content() {
    check_split(&[("a\rb", vec![arg("a\rb", false, false)])]);
}

#[test]
fn split_empty_quotes() {
    check_split(&[("\"\"", vec![arg("", true, false)])]);
}

#[test]
fn split_empty_braces() {
    check_split(&[("{}", vec![arg("", false, true)])]);
}

#[test]
fn split_adjacent_spans_one_token() {
    // A quoted span followed directly by word characters stays one token,
    // and the quoted flag is sticky until the token is emitted.
    check_split(&[("\"ab\"cd", vec![arg("abcd", true, false)])]);
}

#[test]
fn split_quote_inside_word_is_content() {
    // A double quote does not open a span in the middle of a bare word.
    check_split(&[("ab\"cd", vec![arg("ab\"cd", false, false)])]);
}

#[test]
fn split_quote_inside_braces_is_content() {
    check_split(&[("{a\"b}", vec![arg("a\"b", false, true)])]);
}

#[test]
fn split_unterminated_quote() {
    assert_eq!(split_input("\"abc"), Err(SplitError::UnterminatedQuote));
}

#[test]
fn split_unterminated_escape() {
    assert_eq!(split_input("\"abc\\"), Err(SplitError::UnterminatedEscape));
}

#[test]
fn split_unterminated_brace() {
    assert_eq!(split_input("{abc"), Err(SplitError::UnterminatedBrace));
}

#[test]
fn split_round_trip() {
    let first = split_input("abcd  123\tx").unwrap();
    let texts: Vec<String> = first.iter().map(|a| a.data.clone()).collect();
    let rejoined = texts.join(" ");
    let again = split_input(&rejoined).unwrap();
    let texts_again: Vec<String> = again.iter().map(|a| a.data.clone()).collect();
    assert_eq!(texts, texts_again);
    assert!(again.iter().all(|a| !a.is_quoted && !a.is_braced));
}

#[test]
fn error_messages() {
    assert_eq!(SplitError::UnterminatedQuote.message(), "incomplete quoted value");
    assert_eq!(SplitError::UnterminatedEscape.message(), "invalid escape sequence");
    assert_eq!(SplitError::UnterminatedBrace.message(), "unclosed brace");
}
