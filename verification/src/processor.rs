//! The response processor: interprets a backend response or feedback
//! against the command that produced it, mutates the proof-state store,
//! and emits the UI updates to apply.

use vstd::prelude::*;

use crate::commands::{ClientCommand, DisplayCommand};
use crate::protocol::{
    parts_texts, richpp_parts, FeedbackContent, MessageType, ProtocolResult, ProtocolRichPP,
    ProtocolRichPPPart, ProtocolValue,
};
use crate::range::{pos_le, Range};
use crate::state::{root_operation, ErrorState, Operation, State};

verus! {

/// The three removal updates for one discarded operation.
pub open spec fn spec_remove_triples(ops: Seq<Operation>) -> Seq<DisplayCommand>
    decreases ops.len(),
{
    if ops.len() == 0 {
        Seq::empty()
    } else {
        seq![
            DisplayCommand::RemoveProcessed(ops[0].range),
            DisplayCommand::RemoveToBeProcessed(ops[0].range),
            DisplayCommand::RemoveAxiom(ops[0].range),
        ] + spec_remove_triples(ops.drop_first())
    }
}

/// Whether a display is a result-pane message with the given texts, all
/// highlighted as errors, with the given append flag.
pub open spec fn is_error_color(d: DisplayCommand, texts: Seq<Seq<char>>, append: bool) -> bool {
    match d {
        DisplayCommand::ColorResult(m, ap) => ap == append && parts_texts(richpp_parts(m))
            == texts && forall|i: int|
            0 <= i < richpp_parts(m).len() ==> (#[trigger] richpp_parts(m)[i])
                matches ProtocolRichPPPart::Error(_),
        _ => false,
    }
}

/// Whether a display is an empty result-pane message with the given
/// append flag.
pub open spec fn is_clear_color(d: DisplayCommand, append: bool) -> bool {
    match d {
        DisplayCommand::ColorResult(m, ap) => ap == append && richpp_parts(m).len() == 0,
        _ => false,
    }
}

/// Nothing about the store changed.
pub open spec fn state_unchanged(a: State, b: State) -> bool {
    &&& a.operations@ == b.operations@
    &&& a.last_error_range == b.last_error_range
    &&& a.error_state == b.error_state
}

/// The new state id carried by a successful `Add` payload
/// `Pair(StateId(sid), Pair(union, _))`: the left case keeps `sid`, the
/// right case carries the id itself.
pub open spec fn spec_next_sid(v: ProtocolValue) -> Option<i64> {
    match v {
        ProtocolValue::Pair(a, b) => match (*a, *b) {
            (ProtocolValue::StateId(sid), ProtocolValue::Pair(u, _)) => match *u {
                ProtocolValue::Inl(x) => match *x {
                    ProtocolValue::Unit => Some(sid),
                    _ => None,
                },
                ProtocolValue::Inr(y) => match *y {
                    ProtocolValue::StateId(s2) => Some(s2),
                    _ => None,
                },
                _ => None,
            },
            _ => None,
        },
        _ => None,
    }
}

/// How many operations a rewind to `sid` pops: everything in front of the
/// first operation carrying `sid` (everything, if it is absent).
pub open spec fn spec_pop_until(ops: Seq<Operation>, sid: i64) -> int
    decreases ops.len(),
{
    if ops.len() == 0 {
        0
    } else if ops[0].state_id == sid {
        0
    } else {
        1 + spec_pop_until(ops.drop_first(), sid)
    }
}

/// Whether every element is a string value.
pub open spec fn all_str(items: Seq<ProtocolValue>) -> bool {
    forall|i: int| 0 <= i < items.len() ==> (#[trigger] items[i]) matches ProtocolValue::Str(_)
}

/// The module path joined with dots.
pub open spec fn spec_join_dot(items: Seq<ProtocolValue>) -> Seq<char>
    decreases items.len(),
{
    if items.len() == 0 {
        Seq::empty()
    } else {
        let head = match items[0] {
            ProtocolValue::Str(s) => s@,
            _ => Seq::empty(),
        };
        if items.len() == 1 {
            head
        } else {
            head + seq!['.'] + spec_join_dot(items.drop_first())
        }
    }
}

/// Truncates the store to state ids at most `sid` and emits the three
/// removal updates for each discarded operation, tip first.
#[verifier::loop_isolation(false)]
pub fn discard_states_until(state: &mut State, sid: i64, displays: &mut Vec<DisplayCommand>)
    requires
        old(state).wf(),
    ensures
        final(state).wf(),
        final(state).error_state == old(state).error_state,
        final(state).last_error_range == old(state).last_error_range,
        ({
            let k = crate::state::spec_cut_above(old(state).operations@, sid);
            &&& final(state).operations@ == old(state).operations@.skip(k)
            &&& final(displays)@ == old(displays)@ + spec_remove_triples(
                old(state).operations@.take(k),
            )
        }),
{
    let removed = state.discard_above(sid);
    proof {
        crate::state::lemma_cut_above(old(state).operations@, removed@, state.operations@, sid);
    }
    let mut i: usize = 0;
    while i < removed.len()
        invariant
            i <= removed@.len(),
            displays@ == old(displays)@ + spec_remove_triples(removed@.take(i as int)),
        decreases removed@.len() - i,
    {
        let r = removed[i].range;
        displays.push(DisplayCommand::RemoveProcessed(r));
        displays.push(DisplayCommand::RemoveToBeProcessed(r));
        displays.push(DisplayCommand::RemoveAxiom(r));
        proof {
            lemma_remove_triples_push(removed@, i as int);
        }
        i += 1;
    }
    proof {
        assert(removed@.take(removed@.len() as int) =~= removed@);
    }
}

/// Appending one more operation appends its three removal updates.
proof fn lemma_remove_triples_push(ops: Seq<Operation>, i: int)
    requires
        0 <= i < ops.len(),
    ensures
        spec_remove_triples(ops.take(i + 1)) == spec_remove_triples(ops.take(i)) + seq![
            DisplayCommand::RemoveProcessed(ops[i].range),
            DisplayCommand::RemoveToBeProcessed(ops[i].range),
            DisplayCommand::RemoveAxiom(ops[i].range),
        ],
    decreases i,
{
    if i == 0 {
        assert(ops.take(1)[0] == ops[0]);
        assert(ops.take(1).drop_first() =~= Seq::<Operation>::empty());
        assert(spec_remove_triples(Seq::<Operation>::empty()) == Seq::<DisplayCommand>::empty());
        assert(spec_remove_triples(ops.take(0)) =~= Seq::<DisplayCommand>::empty());
        assert(spec_remove_triples(ops.take(1)) =~= spec_remove_triples(ops.take(0)) + seq![
            DisplayCommand::RemoveProcessed(ops[0].range),
            DisplayCommand::RemoveToBeProcessed(ops[0].range),
            DisplayCommand::RemoveAxiom(ops[0].range),
        ]);
    } else {
        lemma_remove_triples_push(ops.drop_first(), i - 1);
        assert(ops.take(i + 1)[0] == ops[0]);
        assert(ops.take(i + 1).drop_first() =~= ops.drop_first().take(i));
        assert(ops.take(i)[0] == ops[0]);
        assert(ops.take(i).drop_first() =~= ops.drop_first().take(i - 1));
        assert(ops.drop_first()[i - 1] == ops[i]);
        assert(spec_remove_triples(ops.take(i + 1)) =~= spec_remove_triples(ops.take(i)) + seq![
            DisplayCommand::RemoveProcessed(ops[i].range),
            DisplayCommand::RemoveToBeProcessed(ops[i].range),
            DisplayCommand::RemoveAxiom(ops[i].range),
        ]);
    }
}

/// Records the failure: the status becomes `Error` with the offending
/// range, a resynchronising `BackTo` at the new tip is produced, and the
/// error message plus the range removals are emitted.  When no range is
/// known (a failure with safe state id `0`), no error range is recorded
/// and no highlight refresh is emitted, so the previous highlight remains.
#[verifier::loop_isolation(false)]
pub fn handle_error(
    state: &mut State,
    error_range: Option<Range>,
    message: ProtocolRichPP,
    append: bool,
    displays: &mut Vec<DisplayCommand>,
) -> (reinject: Option<ClientCommand>)
    requires
        old(state).wf(),
    ensures
        final(state).wf(),
        final(state).operations@ == old(state).operations@,
        final(state).error_state == ErrorState::Error,
        final(state).last_error_range == error_range,
        reinject == Some(
            ClientCommand::BackTo(
                if old(state).operations@.len() > 0 {
                    old(state).operations@[0]
                } else {
                    root_operation()
                },
            ),
        ),
        ({
            let base = old(displays)@.len() as int;
            &&& is_error_color(
                final(displays)@[base],
                parts_texts(richpp_parts(message)),
                append,
            )
            &&& (match error_range {
                Some(r) => final(displays)@.len() == base + 5 && final(displays)@[base + 1]
                    == DisplayCommand::RemoveToBeProcessed(r) && final(displays)@[base + 2]
                    == DisplayCommand::RemoveProcessed(r) && final(displays)@[base + 3]
                    == DisplayCommand::RemoveAxiom(r) && final(displays)@[base + 4]
                    == DisplayCommand::RefreshErrorRange(Some(r), true),
                None => final(displays)@.len() == base + 1,
            })
            &&& final(displays)@.take(base) == old(displays)@
        }),
{
    state.set_error(error_range);
    let safe_tip = state.tip();
    let reinject = Some(ClientCommand::BackTo(safe_tip));
    let ghost base = displays@.len() as int;
    let ghost message_texts = parts_texts(richpp_parts(message));
    let colored = message.error();
    proof {
        assert(parts_texts(richpp_parts(colored)) =~= message_texts);
    }
    displays.push(DisplayCommand::ColorResult(colored, append));
    match error_range {
        Some(r) => {
            displays.push(DisplayCommand::RemoveToBeProcessed(r));
            displays.push(DisplayCommand::RemoveProcessed(r));
            displays.push(DisplayCommand::RemoveAxiom(r));
            displays.push(DisplayCommand::RefreshErrorRange(Some(r), true));
        },
        None => {},
    }
    proof {
        assert(displays@.take(base) =~= old(displays)@);
    }
    reinject
}

/// Interprets one response against the command that produced it: mutates
/// the store and returns the UI updates to apply, plus a command to
/// re-inject into the internal channel on failure.
///
/// A payload whose shape breaks the protocol's promises (a success for
/// `next` without a state id, a failure without a safe state id) mutates
/// nothing and emits nothing; a stale state id from the backend is
/// likewise ignored rather than breaking the store's ordering.
#[verifier::loop_isolation(false)]
#[verifier::rlimit(100)]
pub fn process_response(state: &mut State, response: ProtocolResult, command: ClientCommand) -> (r:
    (Vec<DisplayCommand>, Option<ClientCommand>))
    requires
        old(state).wf(),
    ensures
        final(state).wf(),
        // a successful init records the root operation; a state id the
        // store's ordering cannot take (below 1, or not after the tip) is
        // ignored rather than breaking the invariant
        response matches ProtocolResult::Good(v) ==> command matches ClientCommand::Init ==> r.0@.len()
            == 0 && r.1 is None && (match v {
            ProtocolValue::StateId(sid) => if sid >= 1 && (old(state).operations@.len() == 0 || sid
                > old(state).operations@[0].state_id) {
                final(state).operations@ == seq![
                    Operation { state_id: sid, range: Range { begin: (1u64, 1u64), end: (1u64, 1u64) } },
                ] + old(state).operations@ && final(state).error_state == old(state).error_state
                    && final(state).last_error_range == old(state).last_error_range
            } else {
                state_unchanged(*old(state), *final(state))
            },
            _ => state_unchanged(*old(state), *final(state)),
        }),
        // a successful quit changes nothing
        response matches ProtocolResult::Good(v) ==> command matches ClientCommand::Quit ==> r.0@.len()
            == 0 && r.1 is None && state_unchanged(*old(state), *final(state)),
        // a successful previous pops the tip and clears the error state
        response matches ProtocolResult::Good(v) ==> command matches ClientCommand::Previous ==> r.1
            is None && final(state).error_state == ErrorState::Okay && final(state).last_error_range is None && (if old(state).operations@.len() > 0 {
            final(state).operations@ == old(state).operations@.drop_first() && r.0@
                == spec_remove_triples(old(state).operations@.take(1)) + seq![
                DisplayCommand::RefreshErrorRange(None, true),
                DisplayCommand::GotoTip,
            ]
        } else {
            final(state).operations@ == old(state).operations@ && r.0@ == seq![
                DisplayCommand::RefreshErrorRange(None, true),
                DisplayCommand::GotoTip,
            ]
        }),
        // a successful rewind pops down to the target operation; in the ok
        // state the error highlight and the result pane are also cleared
        response matches ProtocolResult::Good(v) ==> command matches ClientCommand::BackTo(op) ==> r.1
            is None && ({
            let k = spec_pop_until(old(state).operations@, op.state_id);
            &&& final(state).operations@ == old(state).operations@.skip(k)
            &&& final(state).error_state == old(state).error_state
            &&& final(state).last_error_range == old(state).last_error_range
            &&& (if old(state).error_state == ErrorState::Okay {
                r.0@.len() == 2 + spec_remove_triples(old(state).operations@.take(k)).len()
                    && r.0@[0] == DisplayCommand::RefreshErrorRange(None, false) && is_clear_color(
                    r.0@[1],
                    false,
                ) && r.0@.skip(2) == spec_remove_triples(old(state).operations@.take(k))
            } else {
                r.0@ == spec_remove_triples(old(state).operations@.take(k))
            })
        }),
        // a successful add in the ok state records the new operation and
        // clears the result pane and error highlight
        response matches ProtocolResult::Good(v) ==> command matches ClientCommand::Next(
            append,
            range,
            code,
        ) ==> old(state).error_state == ErrorState::Okay ==> (match spec_next_sid(v) {
            Some(sid) => if sid >= 1 && (old(state).operations@.len() == 0 || (sid > old(state).operations@[0].state_id && pos_le(old(state).operations@[0].range.end, range.end))) {
                final(state).operations@ == seq![Operation { state_id: sid, range }] + old(state).operations@ && final(state).error_state == old(state).error_state && final(state).last_error_range == old(state).last_error_range && r.0@.len() == 2
                    && is_clear_color(r.0@[0], append) && r.0@[1]
                    == DisplayCommand::RefreshErrorRange(None, false) && r.1 is None
            } else {
                state_unchanged(*old(state), *final(state)) && r.0@.len() == 0 && r.1 is None
            },
            None => state_unchanged(*old(state), *final(state)) && r.0@.len() == 0 && r.1 is None,
        }),
        // successful goals queries repaint the goal pane
        response matches ProtocolResult::Good(v) ==> command matches ClientCommand::ShowGoals(
            range,
        ) ==> old(state).error_state == ErrorState::Okay ==> state_unchanged(
            *old(state),
            *final(state),
        ) && r.1 is None && goals_output_ok(r.0@, v),
        // a successful status query reports the path and the proof name
        response matches ProtocolResult::Good(v) ==> command matches ClientCommand::Status ==> old(state).error_state == ErrorState::Okay ==> state_unchanged(*old(state), *final(state)) && r.1
            is None && status_output_ok(r.0@, v),
        // while an error or interrupt is pending, other successes change
        // nothing
        response matches ProtocolResult::Good(v) ==> old(state).error_state != ErrorState::Okay
            ==> !(command matches ClientCommand::Init) && !(command matches ClientCommand::Quit)
            && !(command matches ClientCommand::Previous) && !(command
            matches ClientCommand::BackTo(_)) ==> state_unchanged(*old(state), *final(state))
            && r.0@.len() == 0 && r.1 is None,
        // a failure truncates to the safe state, records the error, and
        // schedules a resynchronising rewind
        response matches ProtocolResult::Fail(ls, le, sv, msg) ==> (match sv {
            ProtocolValue::StateId(safe) => (match spec_fail_range(command) {
                Some(range) => ({
                    let k = if safe > 0 {
                        crate::state::spec_cut_above(old(state).operations@, safe)
                    } else {
                        0int
                    };
                    &&& final(state).operations@ == old(state).operations@.skip(k)
                    &&& final(state).error_state == ErrorState::Error
                    &&& final(state).last_error_range == (if safe > 0 {
                        Some(range)
                    } else {
                        None
                    })
                    &&& r.1 == Some(
                        ClientCommand::BackTo(
                            if final(state).operations@.len() > 0 {
                                final(state).operations@[0]
                            } else {
                                root_operation()
                            },
                        ),
                    )
                    &&& ({
                        let triples = spec_remove_triples(old(state).operations@.take(k));
                        let base = triples.len() as int;
                        &&& r.0@.take(base) == triples
                        &&& is_error_color(r.0@[base], parts_texts(richpp_parts(msg)), false)
                        &&& (if safe > 0 {
                            r.0@.len() == base + 5 && r.0@[base + 1]
                                == DisplayCommand::RemoveToBeProcessed(range) && r.0@[base + 2]
                                == DisplayCommand::RemoveProcessed(range) && r.0@[base + 3]
                                == DisplayCommand::RemoveAxiom(range) && r.0@[base + 4]
                                == DisplayCommand::RefreshErrorRange(Some(range), true)
                        } else {
                            r.0@.len() == base + 1
                        })
                    })
                }),
                None => state_unchanged(*old(state), *final(state)) && r.0@.len() == 0 && r.1
                    is None,
            }),
            _ => state_unchanged(*old(state), *final(state)) && r.0@.len() == 0 && r.1 is None,
        }),
        // feedback is not handled here
        response matches ProtocolResult::Feedback(..) ==> state_unchanged(
            *old(state),
            *final(state),
        ) && r.0@.len() == 0 && r.1 is None,
{
    let error_state = state.get_error_status();
    let mut displays: Vec<DisplayCommand> = Vec::new();
    match response {
        ProtocolResult::Good(value) => {
            match command {
                ClientCommand::Init => {
                    match value {
                        ProtocolValue::StateId(sid) => {
                            if sid >= 1 && (state.operations.len() == 0 || sid
                                > state.operations[0].state_id) {
                                state.push_operation(
                                    Operation { state_id: sid, range: Range::default() },
                                );
                                proof {
                                    assert(final(state).operations@ =~= seq![
                                        Operation {
                                            state_id: sid,
                                            range: Range { begin: (1u64, 1u64), end: (1u64, 1u64) },
                                        },
                                    ] + old(state).operations@);
                                }
                            }
                        },
                        _ => {},
                    }
                    (displays, None)
                },
                ClientCommand::Quit => (displays, None),
                ClientCommand::Previous => {
                    let popped = state.pop_front();
                    state.clear_error();
                    match popped {
                        Some(op) => {
                            displays.push(DisplayCommand::RemoveProcessed(op.range));
                            displays.push(DisplayCommand::RemoveToBeProcessed(op.range));
                            displays.push(DisplayCommand::RemoveAxiom(op.range));
                            proof {
                                assert(old(state).operations@.take(1)[0] == old(state).operations@[0]);
                                assert(old(state).operations@.take(1).drop_first() =~= Seq::<
                                    Operation,
                                >::empty());
                                assert(spec_remove_triples(Seq::<Operation>::empty()) =~= Seq::<
                                    DisplayCommand,
                                >::empty());
                                assert(displays@ =~= spec_remove_triples(
                                    old(state).operations@.take(1),
                                ));
                            }
                        },
                        None => {},
                    }
                    displays.push(DisplayCommand::RefreshErrorRange(None, true));
                    displays.push(DisplayCommand::GotoTip);
                    proof {
                        if old(state).operations@.len() > 0 {
                            assert(displays@ =~= spec_remove_triples(
                                old(state).operations@.take(1),
                            ) + seq![
                                DisplayCommand::RefreshErrorRange(None, true),
                                DisplayCommand::GotoTip,
                            ]);
                        } else {
                            assert(displays@ =~= seq![
                                DisplayCommand::RefreshErrorRange(None, true),
                                DisplayCommand::GotoTip,
                            ]);
                        }
                    }
                    (displays, None)
                },
                ClientCommand::BackTo(op) => {
                    if error_state == ErrorState::Okay {
                        displays.push(DisplayCommand::RefreshErrorRange(None, false));
                        displays.push(
                            DisplayCommand::ColorResult(ProtocolRichPP::RichPP(Vec::new()), false),
                        );
                    }
                    let ghost base = displays@.len() as int;
                    let ghost pre = displays@;
                    let total_ops = state.operations.len();
                    let mut removed_count: usize = 0;
                    while state.operations.len() > 0 && state.operations[0].state_id
                        != op.state_id
                        invariant
                            state.wf(),
                            total_ops == old(state).operations@.len(),
                            removed_count <= total_ops,
                            state.error_state == old(state).error_state,
                            state.last_error_range == old(state).last_error_range,
                            removed_count <= old(state).operations@.len(),
                            state.operations@ == old(state).operations@.skip(
                                removed_count as int,
                            ),
                            spec_pop_until(old(state).operations@, op.state_id) == removed_count
                                + spec_pop_until(state.operations@, op.state_id),
                            displays@ == pre + spec_remove_triples(
                                old(state).operations@.take(removed_count as int),
                            ),
                        decreases state.operations@.len(),
                    {
                        proof {
                            assert(old(state).operations@.skip(removed_count as int)[0] == old(state).operations@[removed_count as int]);
                            assert(old(state).operations@.skip(removed_count as int).drop_first()
                                =~= old(state).operations@.skip(removed_count as int + 1));
                            lemma_remove_triples_push(
                                old(state).operations@,
                                removed_count as int,
                            );
                        }
                        let popped = state.pop_front();
                        match popped {
                            Some(p) => {
                                displays.push(DisplayCommand::RemoveProcessed(p.range));
                                displays.push(DisplayCommand::RemoveToBeProcessed(p.range));
                                displays.push(DisplayCommand::RemoveAxiom(p.range));
                            },
                            None => {},
                        }
                        removed_count += 1;
                    }
                    proof {
                        assert(spec_pop_until(state.operations@, op.state_id) == 0);
                        let k = spec_pop_until(old(state).operations@, op.state_id);
                        assert(k == removed_count);
                        assert(displays@.skip(base) =~= spec_remove_triples(
                            old(state).operations@.take(k),
                        ));
                    }
                    (displays, None)
                },
                ClientCommand::Next(append, range, _code) => {
                    if error_state != ErrorState::Okay {
                        return (displays, None);
                    }
                    let sid_opt = next_sid_of(&value);
                    match sid_opt {
                        Some(sid) => {
                            let can_push = sid >= 1 && (state.operations.len() == 0 || (sid
                                > state.operations[0].state_id && pos_le_exec(
                                state.operations[0].range.end,
                                range.end,
                            )));
                            if can_push {
                                state.push_operation(Operation { state_id: sid, range });
                                displays.push(
                                    DisplayCommand::ColorResult(
                                        ProtocolRichPP::RichPP(Vec::new()),
                                        append,
                                    ),
                                );
                                displays.push(DisplayCommand::RefreshErrorRange(None, false));
                            }
                            (displays, None)
                        },
                        None => (displays, None),
                    }
                },
                ClientCommand::ShowGoals(_range) => {
                    if error_state != ErrorState::Okay {
                        return (displays, None);
                    }
                    push_goals_output(value, &mut displays);
                    (displays, None)
                },
                ClientCommand::Status => {
                    if error_state != ErrorState::Okay {
                        return (displays, None);
                    }
                    push_status_output(value, &mut displays);
                    (displays, None)
                },
                c => (displays, None),
            }
        },
        ProtocolResult::Fail(_ls, _le, sv, msg) => {
            match sv {
                ProtocolValue::StateId(safe) => {
                    let range_opt = fail_range_of(&command);
                    match range_opt {
                        Some(range) => {
                            if safe > 0 {
                                discard_states_until(state, safe, &mut displays);
                                let reinject = handle_error(
                                    state,
                                    Some(range),
                                    msg,
                                    false,
                                    &mut displays,
                                );
                                (displays, reinject)
                            } else {
                                proof {
                                    assert(old(state).operations@.skip(0) =~= old(state).operations@);
                                    assert(old(state).operations@.take(0) =~= Seq::<
                                        Operation,
                                    >::empty());
                                    assert(spec_remove_triples(Seq::<Operation>::empty()) =~= Seq::<
                                        DisplayCommand,
                                    >::empty());
                                }
                                let reinject = handle_error(state, None, msg, false, &mut displays);
                                proof {
                                    assert(displays@.take(0) =~= Seq::<DisplayCommand>::empty());
                                }
                                (displays, reinject)
                            }
                        },
                        None => (displays, None),
                    }
                },
                _ => (displays, None),
            }
        },
        ProtocolResult::Feedback(..) => (displays, None),
    }
}

/// The range a failing command points at: the statement of a `next`, the
/// queried range of `show-goals`, or the target of a rewind.
pub open spec fn spec_fail_range(command: ClientCommand) -> Option<Range> {
    match command {
        ClientCommand::Next(_, range, _) => Some(range),
        ClientCommand::ShowGoals(range) => Some(range),
        ClientCommand::BackTo(op) => Some(op.range),
        _ => None,
    }
}

/// The goal pane repaint a successful goals query produces: empty panes
/// for no goals, otherwise focused, background, given-up and shelved in
/// that order.
pub open spec fn goals_output_ok(ds: Seq<DisplayCommand>, v: ProtocolValue) -> bool {
    match v {
        ProtocolValue::Optional(o) => match o {
            None => ds.len() == 1 && (match ds[0] {
                DisplayCommand::OutputGoals(a, b, c, d) => a@.len() == 0 && b@.len() == 0
                    && c@.len() == 0 && d@.len() == 0,
                _ => false,
            }),
            Some(inner) => match *inner {
                ProtocolValue::Goals(fg, bg, sg, gg) => ds.len() == 1 && (match ds[0] {
                    DisplayCommand::OutputGoals(a, b, c, d) => a == fg && b == bg && c == gg && d
                        == sg,
                    _ => false,
                }),
                _ => ds.len() == 0,
            },
        },
        _ => ds.len() == 0,
    }
}

/// The status line a successful status query produces: the module path
/// joined with dots, and the current proof name or an empty name.
pub open spec fn status_output_ok(ds: Seq<DisplayCommand>, v: ProtocolValue) -> bool {
    match v {
        ProtocolValue::Status(paths, proof_name, _, _) => match *paths {
            ProtocolValue::List(items) => if all_str(items@) {
                ds.len() == 1 && (match ds[0] {
                    DisplayCommand::ShowStatus(path, name) => path@ == spec_join_dot(items@) && (
                    match *proof_name {
                        ProtocolValue::Optional(o) => match o {
                            None => name@ == Seq::<char>::empty(),
                            Some(inner) => match *inner {
                                ProtocolValue::Str(s) => name@ == s@,
                                _ => name@ == "?"@,
                            },
                        },
                        _ => name@ == Seq::<char>::empty(),
                    }),
                    _ => false,
                })
            } else {
                ds.len() == 0
            },
            _ => ds.len() == 0,
        },
        _ => ds.len() == 0,
    }
}

/// Joining one more path segment appends a dot (after the first) and the
/// segment's text.
proof fn lemma_join_dot_push(items: Seq<ProtocolValue>, i: int)
    requires
        0 <= i < items.len(),
    ensures
        spec_join_dot(items.take(i + 1)) == spec_join_dot(items.take(i)) + (if i > 0 {
            seq!['.']
        } else {
            Seq::<char>::empty()
        }) + (match items[i] {
            ProtocolValue::Str(s) => s@,
            _ => Seq::<char>::empty(),
        }),
    decreases i,
{
    let head = match items[0] {
        ProtocolValue::Str(s) => s@,
        _ => Seq::<char>::empty(),
    };
    if i == 0 {
        assert(items.take(1)[0] == items[0]);
        assert(spec_join_dot(items.take(0)) =~= Seq::<char>::empty());
        assert(spec_join_dot(items.take(1)) =~= spec_join_dot(items.take(0)) + Seq::<char>::empty()
            + (match items[0] {
            ProtocolValue::Str(s) => s@,
            _ => Seq::<char>::empty(),
        }));
    } else {
        lemma_join_dot_push(items.drop_first(), i - 1);
        assert(items.take(i + 1)[0] == items[0]);
        assert(items.take(i + 1).drop_first() =~= items.drop_first().take(i));
        assert(items.take(i)[0] == items[0]);
        assert(items.take(i).drop_first() =~= items.drop_first().take(i - 1));
        assert(items.drop_first()[i - 1] == items[i]);
        if i == 1 {
            assert(items.take(2).len() == 2);
            assert(spec_join_dot(items.take(2)) == head + seq!['.'] + spec_join_dot(
                items.drop_first().take(1),
            ));
            assert(spec_join_dot(items.take(1)) =~= head);
            assert(spec_join_dot(items.take(i + 1)) =~= spec_join_dot(items.take(i)) + seq!['.']
                + (match items[i] {
                ProtocolValue::Str(s) => s@,
                _ => Seq::<char>::empty(),
            }));
        } else {
            assert(spec_join_dot(items.take(i + 1)) =~= spec_join_dot(items.take(i)) + seq!['.']
                + (match items[i] {
                ProtocolValue::Str(s) => s@,
                _ => Seq::<char>::empty(),
            }));
        }
    }
}

/// Reads the new state id of a successful `Add` payload.
fn next_sid_of(v: &ProtocolValue) -> (r: Option<i64>)
    ensures
        r == spec_next_sid(*v),
{
    match v {
        ProtocolValue::Pair(a, b) => {
            match (&**a, &**b) {
                (ProtocolValue::StateId(sid), ProtocolValue::Pair(u, _)) => {
                    match &**u {
                        ProtocolValue::Inl(x) => {
                            match &**x {
                                ProtocolValue::Unit => Some(*sid),
                                _ => None,
                            }
                        },
                        ProtocolValue::Inr(y) => {
                            match &**y {
                                ProtocolValue::StateId(s2) => Some(*s2),
                                _ => None,
                            }
                        },
                        _ => None,
                    }
                },
                _ => None,
            }
        },
        _ => None,
    }
}

/// Reads the range a failing command points at.
fn fail_range_of(command: &ClientCommand) -> (r: Option<Range>)
    ensures
        r == spec_fail_range(*command),
{
    match command {
        ClientCommand::Next(_, range, _) => Some(*range),
        ClientCommand::ShowGoals(range) => Some(*range),
        ClientCommand::BackTo(op) => Some(op.range),
        _ => None,
    }
}

/// Lexicographic order on positions, executably.
fn pos_le_exec(a: (u64, u64), b: (u64, u64)) -> (r: bool)
    ensures
        r == pos_le(a, b),
{
    a.0 < b.0 || (a.0 == b.0 && a.1 <= b.1)
}

/// Emits the goal pane repaint for a successful goals query.
fn push_goals_output(value: ProtocolValue, displays: &mut Vec<DisplayCommand>)
    requires
        old(displays)@.len() == 0,
    ensures
        goals_output_ok(final(displays)@, value),
{
    match value {
        ProtocolValue::Optional(o) => {
            match o {
                None => {
                    displays.push(
                        DisplayCommand::OutputGoals(Vec::new(), Vec::new(), Vec::new(), Vec::new()),
                    );
                },
                Some(inner) => {
                    match *inner {
                        ProtocolValue::Goals(fg, bg, sg, gg) => {
                            displays.push(DisplayCommand::OutputGoals(fg, bg, gg, sg));
                        },
                        _ => {},
                    }
                },
            }
        },
        _ => {},
    }
}

/// Emits the status line for a successful status query.
#[verifier::loop_isolation(false)]
fn push_status_output(value: ProtocolValue, displays: &mut Vec<DisplayCommand>)
    requires
        old(displays)@.len() == 0,
    ensures
        status_output_ok(final(displays)@, value),
{
    match value {
        ProtocolValue::Status(paths, proof_name, _c, _d) => {
            match *paths {
                ProtocolValue::List(items) => {
                    let mut joined: Vec<char> = Vec::new();
                    let mut i: usize = 0;
                    let ghost iv = items@;
                    proof {
                        assert(iv.take(0) =~= Seq::<ProtocolValue>::empty());
                        assert(spec_join_dot(Seq::<ProtocolValue>::empty()) == Seq::<char>::empty());
                    }
                    while i < items.len()
                        invariant
                            i <= items@.len(),
                            items@ == iv,
                            forall|k: int|
                                0 <= k < i ==> (#[trigger] iv[k]) matches ProtocolValue::Str(_),
                            joined@ == spec_join_dot(iv.take(i as int)),
                        decreases items@.len() - i,
                    {
                        match &items[i] {
                            ProtocolValue::Str(s) => {
                                if i > 0 {
                                    joined.push('.');
                                }
                                crate::strutil::push_str_chars(&mut joined, s.as_str());
                                proof {
                                    lemma_join_dot_push(iv, i as int);
                                    assert(joined@ =~= spec_join_dot(iv.take(i + 1)));
                                }
                            },
                            _ => {
                                proof {
                                    assert(!(iv[i as int] matches ProtocolValue::Str(_)));
                                    assert(!all_str(iv));
                                }
                                return ;
                            },
                        }
                        i += 1;
                    }
                    proof {
                        assert(iv.take(iv.len() as int) =~= iv);
                        assert(joined@ =~= spec_join_dot(iv));
                        assert(all_str(iv));
                    }
                    let name: String = match *proof_name {
                        ProtocolValue::Optional(o) => match o {
                            None => String::new(),
                            Some(inner) => match *inner {
                                ProtocolValue::Str(s) => s,
                                _ => {
                                    let q = crate::strutil::str_chars("?");
                                    crate::strutil::chars_to_string(&q)
                                },
                            },
                        },
                        _ => String::new(),
                    };
                    displays.push(
                        DisplayCommand::ShowStatus(crate::strutil::chars_to_string(&joined), name),
                    );
                },
                _ => {},
            }
        },
        _ => {},
    }
}

/// Interprets one feedback notification: feedback never mutates the store.
/// Feedback about a state older than the tip is dropped; messages go to
/// the result pane by level; processed and added-axiom notices highlight
/// the recorded range of their state.
pub fn process_feedback(state: &State, feedback: ProtocolResult) -> (r: Vec<DisplayCommand>)
    requires
        state.wf(),
    ensures
        feedback_output_ok(r@, *state, feedback),
{
    let mut displays: Vec<DisplayCommand> = Vec::new();
    let error_state = state.get_error_status();
    match feedback {
        ProtocolResult::Feedback(_object, _route, sv, content) => {
            match sv {
                ProtocolValue::StateId(sid) => {
                    let tip = state.tip();
                    if tip.state_id > sid {
                        return displays;
                    }
                    match content {
                        FeedbackContent::Message(level, message) => {
                            match level {
                                MessageType::Error => {},
                                MessageType::Debug => {},
                                MessageType::Notice | MessageType::Info => {
                                    if error_state == ErrorState::Okay {
                                        displays.push(DisplayCommand::ColorResult(message, true));
                                    }
                                },
                                MessageType::Warning => {
                                    if error_state == ErrorState::Okay {
                                        let ghost message_texts = parts_texts(
                                            richpp_parts(message),
                                        );
                                        let warned = message.warning();
                                        proof {
                                            assert(parts_texts(richpp_parts(warned))
                                                =~= message_texts);
                                        }
                                        displays.push(DisplayCommand::ColorResult(warned, true));
                                    }
                                },
                            }
                        },
                        FeedbackContent::FileLoaded(name, path) => {
                            if error_state == ErrorState::Okay {
                                let ghost name_view = name@;
                                let ghost path_view = path@;
                                let mut parts: Vec<ProtocolRichPPPart> = Vec::new();
                                parts.push(
                                    ProtocolRichPPPart::Raw(
                                        crate::strutil::chars_to_string(
                                            &crate::strutil::str_chars("module \""),
                                        ),
                                    ),
                                );
                                parts.push(ProtocolRichPPPart::Reference(name));
                                parts.push(
                                    ProtocolRichPPPart::Raw(
                                        crate::strutil::chars_to_string(
                                            &crate::strutil::str_chars("\" ("),
                                        ),
                                    ),
                                );
                                parts.push(ProtocolRichPPPart::Path(path));
                                parts.push(
                                    ProtocolRichPPPart::Raw(
                                        crate::strutil::chars_to_string(
                                            &crate::strutil::str_chars(") imported."),
                                        ),
                                    ),
                                );
                                let m = ProtocolRichPP::RichPP(parts);
                                proof {
                                    assert(parts_texts(richpp_parts(m)) =~= seq![
                                        "module \""@,
                                        name_view,
                                        "\" ("@,
                                        path_view,
                                        ") imported."@,
                                    ]);
                                }
                                displays.push(DisplayCommand::ColorResult(m, true));
                            }
                        },
                        FeedbackContent::AddedAxiom => {
                            if error_state == ErrorState::Okay {
                                match state.find_range_by_sid(sid) {
                                    Some(range) => {
                                        displays.push(DisplayCommand::AddAxiom(range));
                                    },
                                    None => {},
                                }
                            }
                        },
                        FeedbackContent::Processed => {
                            if error_state == ErrorState::Okay {
                                match state.find_range_by_sid(sid) {
                                    Some(range) => {
                                        displays.push(DisplayCommand::AddToProcessed(range));
                                    },
                                    None => {},
                                }
                            }
                        },
                        FeedbackContent::WorkerStatus(_) => {},
                        FeedbackContent::Processing(_) => {},
                    }
                    displays
                },
                _ => displays,
            }
        },
        _ => displays,
    }
}

/// What one feedback notification must produce.
pub open spec fn feedback_output_ok(ds: Seq<DisplayCommand>, state: State, feedback: ProtocolResult) -> bool {
    match feedback {
        ProtocolResult::Feedback(_object, _route, sv, content) => match sv {
            ProtocolValue::StateId(sid) => if state.spec_tip().state_id > sid {
                ds.len() == 0
            } else {
                match content {
                    FeedbackContent::Message(level, message) => match level {
                        MessageType::Error => ds.len() == 0,
                        MessageType::Debug => ds.len() == 0,
                        MessageType::Notice | MessageType::Info => if state.error_state
                            == ErrorState::Okay {
                            ds.len() == 1 && ds[0] == DisplayCommand::ColorResult(message, true)
                        } else {
                            ds.len() == 0
                        },
                        MessageType::Warning => if state.error_state == ErrorState::Okay {
                            ds.len() == 1 && (match ds[0] {
                                DisplayCommand::ColorResult(m, ap) => ap && parts_texts(
                                    richpp_parts(m),
                                ) == parts_texts(richpp_parts(message)) && forall|i: int|
                                    0 <= i < richpp_parts(m).len() ==> (#[trigger] richpp_parts(
                                        m,
                                    )[i]) matches ProtocolRichPPPart::Warning(_),
                                _ => false,
                            })
                        } else {
                            ds.len() == 0
                        },
                    },
                    FeedbackContent::FileLoaded(name, path) => if state.error_state
                        == ErrorState::Okay {
                        ds.len() == 1 && (match ds[0] {
                            DisplayCommand::ColorResult(m, ap) => ap && richpp_parts(m).len() == 5
                                && parts_texts(richpp_parts(m)) == seq![
                                "module \""@,
                                name@,
                                "\" ("@,
                                path@,
                                ") imported."@,
                            ] && (richpp_parts(m)[1] matches ProtocolRichPPPart::Reference(_)) && (
                            richpp_parts(m)[3] matches ProtocolRichPPPart::Path(_)),
                            _ => false,
                        })
                    } else {
                        ds.len() == 0
                    },
                    FeedbackContent::AddedAxiom => if state.error_state == ErrorState::Okay {
                        match crate::state::spec_find_range(state.operations@, sid) {
                            Some(range) => ds.len() == 1 && ds[0] == DisplayCommand::AddAxiom(
                                range,
                            ),
                            None => ds.len() == 0,
                        }
                    } else {
                        ds.len() == 0
                    },
                    FeedbackContent::Processed => if state.error_state == ErrorState::Okay {
                        match crate::state::spec_find_range(state.operations@, sid) {
                            Some(range) => ds.len() == 1 && ds[0]
                                == DisplayCommand::AddToProcessed(range),
                            None => ds.len() == 0,
                        }
                    } else {
                        ds.len() == 0
                    },
                    _ => ds.len() == 0,
                }
            },
            _ => ds.len() == 0,
        },
        _ => ds.len() == 0,
    }
}

} // verus!
