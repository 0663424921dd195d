//! The UI renderers: ranges, result-pane messages, colors, goal panes and
//! the scratch-file paths.

use coqide_daemon::codespan::CodeSpan;
use coqide_daemon::files::{goal_file, log_file, result_file};
use coqide_daemon::protocol::{ProtocolRichPP, ProtocolRichPPPart, ProtocolValue};
use coqide_daemon::range::Range;
use coqide_daemon::session::{client_name, edited_file, session_id, Session};
use coqide_daemon::ui::{color_name, extract_colors, goal_to_string, render_goals, KakouneUIUpdater};

fn raw(t: &str) -> ProtocolRichPPPart {
    ProtocolRichPPPart::Raw(t.to_string())
}

#[test]
fn ranges_render_in_dotted_form() {
    let chars: String = Range::new(2, 4, 10, 1).render().into_iter().collect();
    assert_eq!(chars, "2.4,10.1");
    assert_eq!(CodeSpan::new(1, 2, 3, 4).render(), "1.2,3.4");
}

#[test]
fn spans_extend_only_outwards() {
    let base = CodeSpan::new(1, 1, 5, 2);
    let grown = base.extend(&CodeSpan::new(1, 1, 6, 3));
    assert_eq!(grown, CodeSpan::new(1, 1, 6, 3));
    let kept = base.extend(&CodeSpan::new(1, 1, 3, 5));
    assert_eq!(kept, CodeSpan::new(1, 1, 5, 2));
}

#[test]
fn color_names_match_the_part_kinds() {
    assert_eq!(color_name(&ProtocolRichPPPart::Keyword(String::new())), "keyword");
    assert_eq!(color_name(&ProtocolRichPPPart::Error(String::new())), "error");
    assert_eq!(color_name(&raw("")), "unknown");
}

#[test]
fn extract_colors_pads_and_annotates() {
    let m = ProtocolRichPP::RichPP(vec![
        raw("x :\n"),
        ProtocolRichPPPart::Keyword("nat".to_string()),
    ]);
    let (message, colors) = extract_colors(m, 1, 3, true);
    assert_eq!(message, "x :\n  nat");
    assert_eq!(colors.len(), 1);
    assert_eq!(colors[0], "2.3,2.5|coqide_keyword");
}

#[test]
fn result_pane_cursor_follows_the_appended_lines() {
    let mut updater = KakouneUIUpdater::new();
    assert_eq!(updater.current_buffer_line, 1);
    let (content, _, added) =
        updater.render_result(ProtocolRichPP::RichPP(vec![raw("one\ntwo")]), false);
    assert_eq!(content, "one\ntwo\n");
    assert_eq!(added, 2);
    assert_eq!(updater.current_buffer_line, 3);
    let (_, _, added) = updater.render_result(ProtocolRichPP::RichPP(vec![raw("three")]), true);
    assert_eq!(added, 1);
    assert_eq!(updater.current_buffer_line, 4);
    // replacing resets the pane to its first line
    let (_, _, _) = updater.render_result(ProtocolRichPP::RichPP(vec![raw("fresh")]), false);
    assert_eq!(updater.current_buffer_line, 2);
}

fn goal(name: &str, hyps: Vec<&str>, ccl: &str) -> ProtocolValue {
    ProtocolValue::Goal(
        Box::new(ProtocolValue::Str(name.to_string())),
        hyps.into_iter().map(|h| ProtocolRichPP::RichPP(vec![raw(h)])).collect(),
        ProtocolRichPP::RichPP(vec![raw(ccl)]),
    )
}

#[test]
fn goal_blocks_pad_hypotheses_and_underline_the_name() {
    let (text, _, next_line) = goal_to_string(goal("3", vec!["n : nat"], "n = n"), 3);
    assert_eq!(next_line, 3 + 1 + 2);
    let expected = format!(" n : nat \n{} (3)\n n = n \n", "\u{2500}".repeat(9));
    assert_eq!(text, expected);
}

#[test]
fn the_goal_pane_headline_follows_the_populated_lists() {
    let (complete, _) = render_goals(vec![], vec![], vec![], vec![]);
    assert_eq!(complete, "There are no more subgoals.\nProof is complete.");

    let (focused, _) = render_goals(vec![goal("1", vec![], "True")], vec![], vec![], vec![]);
    assert!(focused.starts_with("1 subgoal(s) remaining:\n"));
    assert!(focused.contains("True"));

    let (unfinished, _) =
        render_goals(vec![], vec![(vec![goal("1", vec![], "False")], vec![])], vec![], vec![]);
    assert!(unfinished
        .starts_with("The current subgoal is complete, but there are unfinished subgoals:\n"));

    let (given_up, _) = render_goals(vec![], vec![], vec![goal("1", vec![], "G")], vec![]);
    assert!(given_up
        .starts_with("There are no more subgoals, but there are some given up goals:\n"));

    let (shelved, _) = render_goals(vec![], vec![], vec![], vec![goal("1", vec![], "S")]);
    assert!(shelved
        .starts_with("There are no more subgoals, but some goals remain sheleved:\n"));

    // empty background pairs do not count as unfinished subgoals
    let (still_complete, _) = render_goals(vec![], vec![(vec![], vec![])], vec![], vec![]);
    assert_eq!(still_complete, "There are no more subgoals.\nProof is complete.");
}

#[test]
fn scratch_files_live_under_the_session_directory() {
    assert_eq!(goal_file(&"/tmp/xyz".to_string()), "/tmp/xyz/goal");
    assert_eq!(result_file(&"/tmp/xyz".to_string()), "/tmp/xyz/result");
    assert_eq!(log_file(&"/tmp/xyz".to_string()), "/tmp/xyz/log");
}

#[test]
fn sessions_hand_back_their_fields() {
    let s = Session::new(
        "client0".to_string(),
        "sess7".to_string(),
        "file.v".to_string(),
        "/tmp/dir".to_string(),
        "/tmp/dir/cmd.sock".to_string(),
    );
    assert_eq!(client_name(s.clone()), "client0");
    assert_eq!(session_id(s.clone()), "sess7");
    assert_eq!(edited_file(s.clone()), "file.v");
}
