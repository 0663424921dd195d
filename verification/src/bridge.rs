//! The client bridge: classifies one editor command against the current
//! error state and produces the backend call to send, the echoed command
//! the response will be paired with, immediate UI updates, and any
//! commands to re-inject into the internal channel.

use vstd::prelude::*;

use crate::commands::{ClientCommand, DisplayCommand};
use crate::protocol::{ProtocolCall, ProtocolValue};
use crate::range::Range;
use crate::state::{spec_rewind_op, ErrorState, Operation, State};

verus! {

/// What the bridge decided for one command.
pub struct BridgeOutcome {
    /// The call to send to the backend, if any.
    pub call: Option<ProtocolCall>,
    /// The command the eventual response is paired with.
    pub command: ClientCommand,
    /// UI updates to apply immediately.
    pub displays: Vec<DisplayCommand>,
    /// Commands to re-inject into the internal channel, in order.
    pub reinjects: Vec<ClientCommand>,
    /// Whether the daemon should shut down.
    pub shutdown: bool,
}

/// Classifies one editor command.  Only `ignore-error` and
/// `stop-interrupt` mutate the store; the operation deque never changes
/// here.
#[verifier::loop_isolation(false)]
pub fn process_command(state: &mut State, command: ClientCommand) -> (r: BridgeOutcome)
    requires
        old(state).wf(),
    ensures
        final(state).wf(),
        final(state).operations@ == old(state).operations@,
        // only ignore-error and stop-interrupt touch the error fields
        !(command matches ClientCommand::IgnoreError) && !(command
            matches ClientCommand::StopInterrupt) ==> final(state).error_state == old(
            state,
        ).error_state && final(state).last_error_range == old(state).last_error_range,
        // init: always start a session
        command matches ClientCommand::Init ==> r.call == Some(
            ProtocolCall::Init(ProtocolValue::Optional(None)),
        ) && r.command == command && r.displays@.len() == 0 && r.reinjects@.len() == 0
            && !r.shutdown,
        // quit: send Quit and signal shutdown
        command matches ClientCommand::Quit ==> r.call == Some(ProtocolCall::Quit) && r.command
            == command && r.displays@.len() == 0 && r.shutdown,
        // previous: rewind to the second operation from the top
        command matches ClientCommand::Previous ==> old(state).error_state
            != ErrorState::Interrupted ==> r.command == command && r.displays@.len() == 0 && (
        if old(state).operations@.len() >= 2 {
            r.call == Some(ProtocolCall::EditAt(old(state).operations@[1].state_id))
        } else {
            r.call is None
        }),
        // rewind-to: target the frontmost operation ending before the
        // position; no call when the target is already the tip
        command matches ClientCommand::RewindTo(line, column) ==> old(state).error_state
            != ErrorState::Interrupted ==> ({
            let op = spec_rewind_op(old(state).operations@, line, column);
            &&& r.command == ClientCommand::BackTo(op)
            &&& r.displays@.len() == 0
            &&& (if op.state_id < old(state).spec_tip().state_id {
                r.call == Some(ProtocolCall::EditAt(op.state_id))
            } else {
                r.call is None
            })
        }),
        // move-to: re-inject one next per statement, the first replacing
        // the result pane and the rest appending
        command matches ClientCommand::MoveTo(ranges) ==> old(state).error_state
            == ErrorState::Okay ==> r.call is None && r.command == command && r.displays@.len()
            == 0 && r.reinjects@.len() == ranges@.len() && forall|i: int|
            0 <= i < ranges@.len() ==> is_next_command(
                #[trigger] r.reinjects@[i],
                i != 0,
                ranges@[i].0,
                ranges@[i].1@,
            ),
        // next in the ok state: add the code at the tip (the root state id
        // when the store is empty)
        command matches ClientCommand::Next(append, range, code) ==> old(state).error_state
            == ErrorState::Okay ==> r.displays@.len() == 0 && r.reinjects@.len() == 0 && r.command
            == command && call_is_add(r.call, code@, old(state).spec_tip().state_id),
        // next while an error or interrupt is pending: drop the statement
        command matches ClientCommand::Next(append, range, code) ==> old(state).error_state
            != ErrorState::Okay ==> r.call is None && r.command == command && r.reinjects@.len()
            == 0 && r.displays@.len() == 1 && r.displays@[0] == DisplayCommand::RemoveToBeProcessed(
            range,
        ),
        // ignore-error while an error is pending: back to ok
        command matches ClientCommand::IgnoreError ==> old(state).error_state
            == ErrorState::Error ==> final(state).error_state == ErrorState::Okay && final(state).last_error_range is None && r.call is None && r.command == command && r.reinjects@.len()
            == 0 && r.displays@.len() == 1 && r.displays@[0] == DisplayCommand::RefreshErrorRange(
            None,
            true,
        ),
        // show-goals: ask for goals
        command matches ClientCommand::ShowGoals(range) ==> old(state).error_state
            != ErrorState::Interrupted ==> r.call == Some(ProtocolCall::Goal) && r.command
            == command && r.displays@.len() == 0,
        // back-to: edit at the target operation
        command matches ClientCommand::BackTo(op) ==> r.call == Some(
            ProtocolCall::EditAt(op.state_id),
        ) && r.command == command && r.displays@.len() == 0,
        // query and hints have no row in the classification table: they
        // produce no call and no updates
        command matches ClientCommand::Query(q) ==> r.call is None && r.command == command
            && r.displays@.len() == 0 && r.reinjects@.len() == 0 && !r.shutdown,
        command matches ClientCommand::Hints ==> r.call is None && r.command == command
            && r.displays@.len() == 0 && r.reinjects@.len() == 0 && !r.shutdown,
        // status: ask without forcing
        command matches ClientCommand::Status ==> r.call == Some(
            ProtocolCall::Status(ProtocolValue::Boolean(false)),
        ) && r.command == command && r.displays@.len() == 0,
        // stop-interrupt: back to ok, no call
        command matches ClientCommand::StopInterrupt ==> final(state).error_state
            == ErrorState::Okay && final(state).last_error_range is None && r.call is None
            && r.command == command && r.reinjects@.len() == 0 && r.displays@.len() == 0,
{
    let error_state = state.get_error_status();
    match command {
        ClientCommand::StopInterrupt => {
            state.clear_error();
            outcome(None, ClientCommand::StopInterrupt, Vec::new(), Vec::new(), false)
        },
        ClientCommand::Init => {
            outcome(
                Some(ProtocolCall::Init(ProtocolValue::Optional(None))),
                ClientCommand::Init,
                Vec::new(),
                Vec::new(),
                false,
            )
        },
        ClientCommand::Quit => {
            outcome(Some(ProtocolCall::Quit), ClientCommand::Quit, Vec::new(), Vec::new(), true)
        },
        ClientCommand::Previous => {
            if error_state != ErrorState::Interrupted {
                let call = if state.operations.len() >= 2 {
                    Some(ProtocolCall::EditAt(state.operations[1].state_id))
                } else {
                    None
                };
                outcome(call, ClientCommand::Previous, Vec::new(), Vec::new(), false)
            } else {
                outcome(None, ClientCommand::Previous, Vec::new(), Vec::new(), false)
            }
        },
        ClientCommand::RewindTo(line, column) => {
            if error_state != ErrorState::Interrupted {
                let op = state.rewind_target(line, column);
                let tip_id = state.tip_state_id();
                let call = if op.state_id < tip_id {
                    Some(ProtocolCall::EditAt(op.state_id))
                } else {
                    None
                };
                outcome(call, ClientCommand::BackTo(op), Vec::new(), Vec::new(), false)
            } else {
                outcome(None, ClientCommand::RewindTo(line, column), Vec::new(), Vec::new(), false)
            }
        },
        ClientCommand::MoveTo(ranges) => {
            if error_state == ErrorState::Okay {
                let mut reinjects: Vec<ClientCommand> = Vec::new();
                let mut i: usize = 0;
                while i < ranges.len()
                    invariant
                        i <= ranges@.len(),
                        reinjects@.len() == i,
                        forall|k: int|
                            0 <= k < i ==> is_next_command(
                                #[trigger] reinjects@[k],
                                k != 0,
                                ranges@[k].0,
                                ranges@[k].1@,
                            ),
                    decreases ranges@.len() - i,
                {
                    let append = i != 0;
                    reinjects.push(ClientCommand::Next(append, ranges[i].0, ranges[i].1.clone()));
                    i += 1;
                }
                outcome(None, ClientCommand::MoveTo(ranges), Vec::new(), reinjects, false)
            } else {
                outcome(None, ClientCommand::MoveTo(ranges), Vec::new(), Vec::new(), false)
            }
        },
        ClientCommand::Next(append, range, code) => {
            if error_state == ErrorState::Okay {
                let call = Some(ProtocolCall::Add(code.clone(), state.tip_state_id()));
                outcome(
                    call,
                    ClientCommand::Next(append, range, code),
                    Vec::new(),
                    Vec::new(),
                    false,
                )
            } else {
                let mut displays: Vec<DisplayCommand> = Vec::new();
                displays.push(DisplayCommand::RemoveToBeProcessed(range));
                outcome(
                    None,
                    ClientCommand::Next(append, range, code),
                    displays,
                    Vec::new(),
                    false,
                )
            }
        },
        ClientCommand::IgnoreError => {
            if error_state == ErrorState::Error {
                state.clear_error();
                let mut displays: Vec<DisplayCommand> = Vec::new();
                displays.push(DisplayCommand::RefreshErrorRange(None, true));
                outcome(None, ClientCommand::IgnoreError, displays, Vec::new(), false)
            } else {
                outcome(None, ClientCommand::IgnoreError, Vec::new(), Vec::new(), false)
            }
        },
        ClientCommand::ShowGoals(range) => {
            if error_state != ErrorState::Interrupted {
                outcome(
                    Some(ProtocolCall::Goal),
                    ClientCommand::ShowGoals(range),
                    Vec::new(),
                    Vec::new(),
                    false,
                )
            } else {
                outcome(None, ClientCommand::ShowGoals(range), Vec::new(), Vec::new(), false)
            }
        },
        ClientCommand::BackTo(op) => {
            outcome(
                Some(ProtocolCall::EditAt(op.state_id)),
                ClientCommand::BackTo(op),
                Vec::new(),
                Vec::new(),
                false,
            )
        },
        ClientCommand::Status => {
            outcome(
                Some(ProtocolCall::Status(ProtocolValue::Boolean(false))),
                ClientCommand::Status,
                Vec::new(),
                Vec::new(),
                false,
            )
        },
        c => outcome(None, c, Vec::new(), Vec::new(), false),
    }
}

/// Whether a command is a `next` with the given flag, range and code.
pub open spec fn is_next_command(c: ClientCommand, append: bool, range: Range, code: Seq<char>) -> bool {
    match c {
        ClientCommand::Next(a, rg, cd) => a == append && rg == range && cd@ == code,
        _ => false,
    }
}

/// Whether a call is an `Add` of the given code at the given state id.
pub open spec fn call_is_add(call: Option<ProtocolCall>, code: Seq<char>, sid: i64) -> bool {
    match call {
        Some(ProtocolCall::Add(cd, s)) => cd@ == code && s == sid,
        _ => false,
    }
}

/// Bundles the bridge's decision.
fn outcome(
    call: Option<ProtocolCall>,
    command: ClientCommand,
    displays: Vec<DisplayCommand>,
    reinjects: Vec<ClientCommand>,
    shutdown: bool,
) -> (r: BridgeOutcome)
    ensures
        r.call == call,
        r.command == command,
        r.displays == displays,
        r.reinjects == reinjects,
        r.shutdown == shutdown,
{
    BridgeOutcome { call, command, displays, reinjects, shutdown }
}

} // verus!
