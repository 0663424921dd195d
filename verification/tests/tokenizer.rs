//! The statement tokenizer: terminator disambiguation, nested comments,
//! bullets, and the text-conservation property on concrete inputs.

use coqide_daemon::range::Range;
use coqide_daemon::tokenizer::{
    escape, render_statement, tokenize, BulletStyle, Command, Cursor,
};

fn scan_all(input: &str) -> Vec<(Range, String)> {
    let chars: Vec<char> = input.chars().collect();
    let (out, _, _) = tokenize(&chars, Cursor(1, 1), Command::To { target: Cursor(9999, 1) });
    out
}

#[test]
fn one_statement_ends_at_the_dot() {
    let chars: Vec<char> = "Check 1.\nCheck 2.\n".chars().collect();
    let (out, _, _) = tokenize(&chars, Cursor(1, 1), Command::Next);
    assert_eq!(out.len(), 1);
    assert_eq!(out[0].1, "Check 1.");
    assert_eq!(out[0].0, Range::new(1, 1, 1, 8));
}

#[test]
fn double_dot_is_a_notation_token() {
    let out = scan_all("Notation \"x .. y\" := (cons x .. (cons y nil) ..).\n");
    assert_eq!(out.len(), 1);
    assert!(out[0].1.contains(".."));
    // the terminating dot is part of the statement, the inner dots are not
    assert_eq!(out[0].1, "Notation \"x .. y\" := (cons x .. (cons y nil) ..).");
    assert_eq!(out[0].0.begin, (1, 1));
}

#[test]
fn nested_comments_close_with_the_outer_end() {
    let out = scan_all("Check (* a (* b *) c *) 1.\n");
    assert_eq!(out.len(), 1);
    assert_eq!(out[0].1, "Check (* a (* b *) c *) 1.");
}

#[test]
fn qualified_identifier_dots_do_not_terminate() {
    let out = scan_all("Check Coq.Init.Nat.add.\n");
    assert_eq!(out.len(), 1);
    assert_eq!(out[0].1, "Check Coq.Init.Nat.add.");
}

#[test]
fn dots_inside_strings_do_not_terminate() {
    let out = scan_all("Fail Check \"a. b\".\n");
    assert_eq!(out.len(), 1);
    assert_eq!(out[0].1, "Fail Check \"a. b\".");
}

#[test]
fn bullets_are_their_own_statements() {
    let out = scan_all("- auto.\n");
    assert_eq!(out.len(), 2);
    assert_eq!(out[0].1, "-");
    assert_eq!(out[1].1, " auto.");
}

#[test]
fn same_style_bullets_stack_and_braces_do_not() {
    let out = scan_all("-- auto.\n");
    assert_eq!(out[0].1, "--");
    let out = scan_all("{ auto. }\n");
    assert_eq!(out[0].1, "{");
    assert_eq!(out[1].1, " auto.");
}

#[test]
fn concatenated_texts_give_back_the_input() {
    let input = "Lemma a : True.\nProof.\n  (* try it *) auto.\nQed.\n";
    let out = scan_all(input);
    let glued: String = out.iter().map(|(_, t)| t.as_str()).collect();
    assert!(input.starts_with(&glued));
    // only trailing text after the last terminator may be missing
    assert!(input.len() - glued.len() <= 1);
}

#[test]
fn bullet_style_from_char() {
    assert_eq!(BulletStyle::from_char('+'), Some(BulletStyle::Plus));
    assert_eq!(BulletStyle::from_char('-'), Some(BulletStyle::Minus));
    assert_eq!(BulletStyle::from_char('*'), Some(BulletStyle::Star));
    assert_eq!(BulletStyle::from_char('x'), None);
}

#[test]
fn escape_protects_newlines_and_quotes() {
    assert_eq!(escape(&"a\nb\"c".to_string()), "a\\nb\\\"c");
}

#[test]
fn statements_render_with_their_range() {
    let line = render_statement(&Range::new(1, 1, 1, 8), &"Check 1.".to_string());
    assert_eq!(line, "1.1,1.8 \"Check 1.\"");
}

#[test]
fn scan_stops_once_the_target_is_passed() {
    let chars: Vec<char> = "Check 1.\nCheck 2.\nCheck 3.\n".chars().collect();
    let (out, _, _) = tokenize(&chars, Cursor(1, 1), Command::To { target: Cursor(2, 1) });
    assert_eq!(out.len(), 2);
    assert_eq!(out[1].1.trim(), "Check 2.");
}
