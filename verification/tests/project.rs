//! The project configuration grammar: tokens, comments, quoting, and the
//! selection of the backend flags.

use coqide_daemon::coqproject::{interpret_flags, parse};

fn tokens(text: &str) -> Vec<String> {
    let chars: Vec<char> = text.chars().collect();
    parse(&chars)
}

#[test]
fn tokens_split_on_whitespace_with_quotes_and_comments() {
    let toks = tokens("-R . Lib  # sets the root\n\"two words\" plain\n");
    assert_eq!(toks, vec!["-R", ".", "Lib", "two words", "plain"]);
}

#[test]
fn empty_and_comment_only_files_have_no_tokens() {
    assert!(tokens("").is_empty());
    assert!(tokens("# nothing here\n# at all\n").is_empty());
}

#[test]
fn flags_keep_their_arguments() {
    let toks = tokens("-R . Lib src/a.v -I ml -arg \"-w all\" src/b.v");
    let flags = interpret_flags(&toks).expect("well-formed");
    assert_eq!(flags, vec!["-R", ".", "Lib", "-I", "ml", "-w", "all"]);
}

#[test]
fn a_flag_missing_its_arguments_is_an_error() {
    let toks = tokens("src/a.v -R .");
    assert!(interpret_flags(&toks).is_none());
    let toks = tokens("-arg");
    assert!(interpret_flags(&toks).is_none());
}
