//! The proof-state store and the client bridge: scenarios around
//! advancing, failing, recovering and rewinding.

use std::collections::VecDeque;

use coqide_daemon::bridge::process_command;
use coqide_daemon::commands::{ClientCommand, DisplayCommand};
use coqide_daemon::processor::{process_feedback, process_response};
use coqide_daemon::protocol::{
    FeedbackContent, MessageType, ProtocolCall, ProtocolResult, ProtocolRichPP,
    ProtocolRichPPPart, ProtocolValue,
};
use coqide_daemon::range::Range;
use coqide_daemon::state::{ErrorState, Operation, State};

fn op(sid: i64, bl: u64, bc: u64, el: u64, ec: u64) -> Operation {
    Operation { state_id: sid, range: Range::new(bl, bc, el, ec) }
}

fn state_with(ops: Vec<Operation>) -> State {
    State {
        operations: VecDeque::from(ops),
        last_error_range: None,
        error_state: ErrorState::Okay,
    }
}

fn plain_message(text: &str) -> ProtocolRichPP {
    ProtocolRichPP::RichPP(vec![ProtocolRichPPPart::Raw(text.to_string())])
}

#[test]
fn empty_store_reports_root_tip() {
    let state = State::new();
    assert_eq!(state.tip_state_id(), 1);
    assert_eq!(state.tip().state_id, 1);
    assert_eq!(state.tip().range, Range::new(1, 1, 1, 1));
}

#[test]
fn tip_state_id_is_at_least_one() {
    let state = state_with(vec![op(7, 2, 1, 2, 9), op(3, 1, 1, 1, 10), op(1, 1, 1, 1, 1)]);
    assert!(state.tip_state_id() >= 1);
    assert_eq!(state.tip_state_id(), 7);
}

#[test]
fn state_ids_decrease_from_tip() {
    let mut state = State::new();
    state.push_operation(op(1, 1, 1, 1, 1));
    state.push_operation(op(2, 1, 1, 1, 7));
    state.push_operation(op(5, 2, 1, 2, 9));
    let snapshot = state.snapshot();
    for w in snapshot.windows(2) {
        assert!(w[0].state_id > w[1].state_id);
    }
}

#[test]
fn simple_advance_records_the_new_operation() {
    // a store holding only the root, as after a successful init
    let mut state = state_with(vec![op(1, 1, 1, 1, 1)]);
    let outcome = process_command(
        &mut state,
        ClientCommand::Next(false, Range::new(1, 1, 1, 7), "Lemma ".to_string()),
    );
    match outcome.call {
        Some(ProtocolCall::Add(code, sid)) => {
            assert_eq!(code, "Lemma ");
            assert_eq!(sid, 1);
        },
        other => panic!("expected an Add call, got {:?}", other),
    }
    let response = ProtocolResult::Good(ProtocolValue::Pair(
        Box::new(ProtocolValue::StateId(2)),
        Box::new(ProtocolValue::Pair(
            Box::new(ProtocolValue::Inl(Box::new(ProtocolValue::Unit))),
            Box::new(ProtocolValue::Unit),
        )),
    ));
    let (updates, reinject) = process_response(&mut state, response, outcome.command);
    assert!(reinject.is_none());
    let snapshot = state.snapshot();
    assert_eq!(snapshot.len(), 2);
    assert_eq!(snapshot[0].state_id, 2);
    assert_eq!(snapshot[0].range, Range::new(1, 1, 1, 7));
    assert_eq!(snapshot[1].state_id, 1);
    assert_eq!(updates.len(), 2);
    assert!(matches!(&updates[0], DisplayCommand::ColorResult(ProtocolRichPP::RichPP(ps), false) if ps.is_empty()));
    assert!(matches!(&updates[1], DisplayCommand::RefreshErrorRange(None, false)));

    // a later `processed` feedback for the new state highlights its range
    let feedback = ProtocolResult::Feedback(
        String::new(),
        String::new(),
        ProtocolValue::StateId(2),
        FeedbackContent::Processed,
    );
    let updates = process_feedback(&state, feedback);
    assert_eq!(updates.len(), 1);
    assert!(
        matches!(&updates[0], DisplayCommand::AddToProcessed(r) if *r == Range::new(1, 1, 1, 7))
    );
}

#[test]
fn failure_sets_the_error_state_and_resynchronises() {
    let mut state = state_with(vec![op(2, 1, 1, 1, 7), op(1, 1, 1, 1, 1)]);
    let range = Range::new(1, 8, 1, 20);
    let response = ProtocolResult::Fail(
        None,
        None,
        ProtocolValue::StateId(2),
        plain_message("bogus"),
    );
    let (updates, reinject) = process_response(
        &mut state,
        response,
        ClientCommand::Next(true, range, "bogus.".to_string()),
    );
    // the store is unchanged: nothing was above the safe state
    let snapshot = state.snapshot();
    assert_eq!(snapshot.len(), 2);
    assert_eq!(snapshot[0].state_id, 2);
    assert_eq!(state.error_state, ErrorState::Error);
    assert_eq!(state.last_error_range, Some(range));
    // error message, three removals, then the highlight refresh
    assert_eq!(updates.len(), 5);
    assert!(matches!(&updates[0], DisplayCommand::ColorResult(_, false)));
    assert!(matches!(&updates[1], DisplayCommand::RemoveToBeProcessed(r) if *r == range));
    assert!(matches!(&updates[2], DisplayCommand::RemoveProcessed(r) if *r == range));
    assert!(matches!(&updates[3], DisplayCommand::RemoveAxiom(r) if *r == range));
    assert!(matches!(&updates[4], DisplayCommand::RefreshErrorRange(Some(r), true) if *r == range));
    // the daemon resynchronises the backend at the safe tip
    match reinject {
        Some(ClientCommand::BackTo(op)) => assert_eq!(op.state_id, 2),
        other => panic!("expected a BackTo, got {:?}", other),
    }
    // the error message is highlighted as an error
    match &updates[0] {
        DisplayCommand::ColorResult(ProtocolRichPP::RichPP(parts), _) => {
            assert!(matches!(&parts[0], ProtocolRichPPPart::Error(t) if t == "bogus"));
        },
        other => panic!("expected a ColorResult, got {:?}", other),
    }
}

#[test]
fn failure_with_safe_state_zero_keeps_the_old_highlight() {
    let mut state = state_with(vec![op(2, 1, 1, 1, 7), op(1, 1, 1, 1, 1)]);
    let range = Range::new(1, 8, 1, 20);
    let response =
        ProtocolResult::Fail(None, None, ProtocolValue::StateId(0), plain_message("boom"));
    let (updates, reinject) = process_response(
        &mut state,
        response,
        ClientCommand::Next(true, range, "x.".to_string()),
    );
    assert_eq!(state.error_state, ErrorState::Error);
    assert_eq!(state.last_error_range, None);
    assert_eq!(updates.len(), 1);
    assert!(matches!(&updates[0], DisplayCommand::ColorResult(_, false)));
    assert!(reinject.is_some());
}

#[test]
fn ignore_error_returns_to_the_ok_state() {
    let mut state = state_with(vec![op(2, 1, 1, 1, 7), op(1, 1, 1, 1, 1)]);
    state.set_error(Some(Range::new(1, 8, 1, 20)));
    let outcome = process_command(&mut state, ClientCommand::IgnoreError);
    assert_eq!(state.error_state, ErrorState::Okay);
    assert_eq!(state.last_error_range, None);
    assert!(outcome.call.is_none());
    assert_eq!(outcome.displays.len(), 1);
    assert!(matches!(&outcome.displays[0], DisplayCommand::RefreshErrorRange(None, true)));
}

#[test]
fn rewind_to_mid_buffer_selects_the_operation_before_the_position() {
    let mut state = state_with(vec![
        op(5, 3, 1, 3, 10),
        op(4, 2, 1, 2, 10),
        op(3, 1, 1, 1, 10),
        op(1, 1, 1, 1, 1),
    ]);
    let outcome = process_command(&mut state, ClientCommand::RewindTo(2, 5));
    // the selected operation is the first whose end is before (2, 5)
    let target = match &outcome.command {
        ClientCommand::BackTo(op) => *op,
        other => panic!("expected a BackTo echo, got {:?}", other),
    };
    assert_eq!(target.state_id, 3);
    assert!(matches!(outcome.call, Some(ProtocolCall::EditAt(3))));

    // a successful rewind truncates the store down to the target
    let (updates, reinject) =
        process_response(&mut state, ProtocolResult::Good(ProtocolValue::Unit), outcome.command);
    assert!(reinject.is_none());
    let snapshot = state.snapshot();
    assert_eq!(snapshot.len(), 2);
    assert_eq!(snapshot[0].state_id, 3);
    assert_eq!(snapshot[1].state_id, 1);
    // every retained operation ends strictly before (2, 5)
    for kept in &snapshot {
        assert!(kept.range.end < (2, 5));
    }
    // clearing updates first, then three removals per popped operation
    assert_eq!(updates.len(), 2 + 3 * 2);
    assert!(matches!(&updates[0], DisplayCommand::RefreshErrorRange(None, false)));
    assert!(matches!(&updates[1], DisplayCommand::ColorResult(_, false)));
    assert!(matches!(&updates[2], DisplayCommand::RemoveProcessed(r) if *r == Range::new(3, 1, 3, 10)));
    assert!(matches!(&updates[5], DisplayCommand::RemoveProcessed(r) if *r == Range::new(2, 1, 2, 10)));
}

#[test]
fn rewind_target_with_no_match_is_the_root() {
    let state = state_with(vec![op(5, 3, 1, 3, 10), op(1, 1, 1, 1, 1)]);
    // the root ends at (1, 1), before (1, 2)
    let target = state.rewind_target(1, 2);
    assert_eq!(target.state_id, 1);
    // nothing ends before (1, 1): the default root is reported
    let empty = State::new();
    let target = empty.rewind_target(4, 4);
    assert_eq!(target.state_id, 1);
}

#[test]
fn previous_pops_the_tip_and_clears_the_error() {
    let mut state = state_with(vec![op(2, 1, 1, 1, 7), op(1, 1, 1, 1, 1)]);
    state.set_error(Some(Range::new(1, 8, 1, 20)));
    let (updates, _) = process_response(
        &mut state,
        ProtocolResult::Good(ProtocolValue::Unit),
        ClientCommand::Previous,
    );
    assert_eq!(state.error_state, ErrorState::Okay);
    assert_eq!(state.last_error_range, None);
    assert_eq!(state.snapshot().len(), 1);
    assert_eq!(updates.len(), 5);
    assert!(matches!(&updates[3], DisplayCommand::RefreshErrorRange(None, true)));
    assert!(matches!(&updates[4], DisplayCommand::GotoTip));
}

#[test]
fn ok_state_never_keeps_an_error_range() {
    let mut state = State::new();
    state.set_error(Some(Range::new(1, 1, 2, 2)));
    assert_eq!(state.error_state, ErrorState::Error);
    state.clear_error();
    assert_eq!(state.error_state, ErrorState::Okay);
    assert_eq!(state.last_error_range, None);
}

#[test]
fn interrupted_state_blocks_new_statements() {
    let mut state = state_with(vec![op(2, 1, 1, 1, 7), op(1, 1, 1, 1, 1)]);
    state.set_interrupted();
    let range = Range::new(1, 8, 1, 12);
    let outcome = process_command(
        &mut state,
        ClientCommand::Next(false, range, "x.".to_string()),
    );
    assert!(outcome.call.is_none());
    assert_eq!(outcome.displays.len(), 1);
    assert!(matches!(&outcome.displays[0], DisplayCommand::RemoveToBeProcessed(r) if *r == range));
    // stop-interrupt restores the ok state
    let _ = process_command(&mut state, ClientCommand::StopInterrupt);
    assert_eq!(state.error_state, ErrorState::Okay);
}

#[test]
fn move_to_reinjects_one_next_per_statement() {
    let mut state = state_with(vec![op(1, 1, 1, 1, 1)]);
    let outcome = process_command(
        &mut state,
        ClientCommand::MoveTo(vec![
            (Range::new(1, 1, 1, 7), "Lemma a".to_string()),
            (Range::new(1, 8, 1, 12, ), "now.".to_string()),
        ]),
    );
    assert!(outcome.call.is_none());
    assert_eq!(outcome.reinjects.len(), 2);
    assert!(
        matches!(&outcome.reinjects[0], ClientCommand::Next(false, _, code) if code == "Lemma a")
    );
    assert!(matches!(&outcome.reinjects[1], ClientCommand::Next(true, _, code) if code == "now."));
}

#[test]
fn stale_feedback_is_dropped() {
    let state = state_with(vec![op(5, 2, 1, 2, 9), op(1, 1, 1, 1, 1)]);
    let feedback = ProtocolResult::Feedback(
        String::new(),
        String::new(),
        ProtocolValue::StateId(3),
        FeedbackContent::Message(MessageType::Notice, plain_message("old news")),
    );
    assert!(process_feedback(&state, feedback).is_empty());
}

#[test]
fn notice_feedback_is_appended_to_the_result_pane() {
    let state = state_with(vec![op(5, 2, 1, 2, 9)]);
    let feedback = ProtocolResult::Feedback(
        String::new(),
        String::new(),
        ProtocolValue::StateId(5),
        FeedbackContent::Message(MessageType::Notice, plain_message("hello")),
    );
    let updates = process_feedback(&state, feedback);
    assert_eq!(updates.len(), 1);
    assert!(matches!(&updates[0], DisplayCommand::ColorResult(_, true)));
}

#[test]
fn file_loaded_feedback_renders_the_import_line() {
    let state = state_with(vec![op(5, 2, 1, 2, 9)]);
    let feedback = ProtocolResult::Feedback(
        String::new(),
        String::new(),
        ProtocolValue::StateId(5),
        FeedbackContent::FileLoaded("Base".to_string(), "/lib/Base.vo".to_string()),
    );
    let updates = process_feedback(&state, feedback);
    assert_eq!(updates.len(), 1);
    match &updates[0] {
        DisplayCommand::ColorResult(ProtocolRichPP::RichPP(parts), true) => {
            assert_eq!(parts.len(), 5);
            assert!(matches!(&parts[1], ProtocolRichPPPart::Reference(n) if n == "Base"));
            assert!(matches!(&parts[3], ProtocolRichPPPart::Path(p) if p == "/lib/Base.vo"));
        },
        other => panic!("expected a ColorResult, got {:?}", other),
    }
}

#[test]
fn next_on_an_empty_store_adds_at_the_root() {
    // the default tip is the root with state id 1
    let mut state = State::new();
    let outcome = process_command(
        &mut state,
        ClientCommand::Next(false, Range::new(1, 1, 1, 7), "Lemma a.".to_string()),
    );
    match outcome.call {
        Some(ProtocolCall::Add(code, sid)) => {
            assert_eq!(code, "Lemma a.");
            assert_eq!(sid, 1);
        },
        other => panic!("expected an Add at the root, got {:?}", other),
    }
}

#[test]
fn init_pushes_even_over_a_nonempty_store() {
    let mut state = state_with(vec![op(2, 1, 1, 1, 7), op(1, 1, 1, 1, 1)]);
    let (updates, reinject) = process_response(
        &mut state,
        ProtocolResult::Good(ProtocolValue::StateId(5)),
        ClientCommand::Init,
    );
    assert!(updates.is_empty() && reinject.is_none());
    let snapshot = state.snapshot();
    assert_eq!(snapshot.len(), 3);
    assert_eq!(snapshot[0].state_id, 5);
    assert_eq!(snapshot[0].range, Range::new(1, 1, 1, 1));
    // a stale state id from the backend is ignored rather than breaking
    // the store's ordering
    let (_, _) = process_response(
        &mut state,
        ProtocolResult::Good(ProtocolValue::StateId(3)),
        ClientCommand::Init,
    );
    assert_eq!(state.snapshot().len(), 3);
}
