//! The decoder: XML nodes from the backend become protocol values, results
//! and feedback.  Decoding validates shape — attribute presence, child
//! counts — and reports a `DecodeError` naming the malformed tag; a value
//! under an unknown element name decodes to `Unknown`, preserving forward
//! compatibility.

use vstd::prelude::*;
use vstd::string::StringExecFns;

use crate::protocol::{
    DecodeError, FeedbackContent, MessageType, ProtocolResult, ProtocolRichPP, ProtocolRichPPPart,
    ProtocolValue,
};
use crate::strutil::str_chars;
use crate::xml::{
    attributes_view, child_view, spec_text_of, Child, SpecChild, SpecNode, XMLNode,
};

verus! {

// ---------------------------------------------------------------------
// Spec helpers
// ---------------------------------------------------------------------
/// The value of the first attribute with the given name.
pub open spec fn spec_attr(attrs: Seq<(Seq<char>, Seq<char>)>, name: Seq<char>) -> Option<
    Seq<char>,
>
    decreases attrs.len(),
{
    if attrs.len() == 0 {
        None
    } else if attrs[0].0 == name {
        Some(attrs[0].1)
    } else {
        spec_attr(attrs.drop_first(), name)
    }
}

/// A decimal digit.
pub open spec fn is_digit(c: char) -> bool {
    '0' <= c && c <= '9'
}

/// The numeric value of a digit.
pub open spec fn digit_val(c: char) -> int {
    c as int - 48
}

/// Whether every character is a digit.
pub open spec fn all_digits(s: Seq<char>) -> bool {
    forall|i: int| 0 <= i < s.len() ==> is_digit(#[trigger] s[i])
}

/// The value of a digit string, most significant digit first.
pub open spec fn spec_digits_val(s: Seq<char>) -> int
    decreases s.len(),
{
    if s.len() == 0 {
        0
    } else {
        spec_digits_val(s.drop_last()) * 10 + digit_val(s.last())
    }
}

/// The signed integer a piece of text denotes: an optional sign, then at
/// least one digit, with the value in the machine range.
pub open spec fn spec_parse_i64(s: Seq<char>) -> Option<i64> {
    let negative = s.len() > 0 && s[0] == '-';
    let signed = s.len() > 0 && (s[0] == '-' || s[0] == '+');
    let digits = if signed {
        s.drop_first()
    } else {
        s
    };
    if digits.len() == 0 || !all_digits(digits) {
        None
    } else {
        let m = spec_digits_val(digits);
        if negative {
            if -m >= i64::MIN {
                Some((-m) as i64)
            } else {
                None
            }
        } else {
            if m <= i64::MAX {
                Some(m as i64)
            } else {
                None
            }
        }
    }
}

/// The child nodes of a children list, raw text skipped.
pub open spec fn spec_node_children(cs: Seq<SpecChild>) -> Seq<SpecNode>
    decreases cs.len(),
{
    if cs.len() == 0 {
        Seq::empty()
    } else {
        match cs[0] {
            SpecChild::Node(n) => seq![n] + spec_node_children(cs.drop_first()),
            SpecChild::Raw(_) => spec_node_children(cs.drop_first()),
        }
    }
}

/// The element names the value decoder understands.
pub open spec fn known_value_name(name: Seq<char>) -> bool {
    ||| name == "unit"@
    ||| name == "list"@
    ||| name == "string"@
    ||| name == "int"@
    ||| name == "bool"@
    ||| name == "pair"@
    ||| name == "option"@
    ||| name == "state_id"@
    ||| name == "route_id"@
    ||| name == "union"@
    ||| name == "status"@
    ||| name == "goals"@
    ||| name == "goal"@
}

/// A value read from a `<list>` node is a list.
proof fn lemma_rep_list_name(v: ProtocolValue, n: SpecNode)
    requires
        value_rep(v, n),
        n.name == "list"@,
    ensures
        v matches ProtocolValue::List(_),
{
    reveal_strlit("unit");
    reveal_strlit("list");
    reveal_strlit("string");
    reveal_strlit("int");
    reveal_strlit("bool");
    reveal_strlit("pair");
    reveal_strlit("option");
    reveal_strlit("state_id");
    reveal_strlit("route_id");
    reveal_strlit("union");
    reveal_strlit("status");
    reveal_strlit("goals");
    reveal_strlit("goal");
    assert("list"@[0] == 'l');
    match v {
        ProtocolValue::Unit => {
            assert(n.name == "unit"@);
            assert(n.name[0] == 'u');
        },
        ProtocolValue::Str(_) => {
            assert(n.name == "string"@);
            assert(n.name[0] == 's');
        },
        ProtocolValue::Int(_) => {
            assert(n.name == "int"@);
            assert(n.name[0] == 'i');
        },
        ProtocolValue::Boolean(_) => {
            assert(n.name == "bool"@);
            assert(n.name[0] == 'b');
        },
        ProtocolValue::List(_) => {},
        ProtocolValue::Pair(_, _) => {
            assert(n.name == "pair"@);
            assert(n.name[0] == 'p');
        },
        ProtocolValue::Optional(_) => {
            assert(n.name == "option"@);
            assert(n.name[0] == 'o');
        },
        ProtocolValue::StateId(_) => {
            assert(n.name == "state_id"@);
            assert(n.name[0] == 's');
        },
        ProtocolValue::RouteId(_) => {
            assert(n.name == "route_id"@);
            assert(n.name[0] == 'r');
        },
        ProtocolValue::Inl(_) => {
            assert(n.name == "union"@);
            assert(n.name[0] == 'u');
        },
        ProtocolValue::Inr(_) => {
            assert(n.name == "union"@);
            assert(n.name[0] == 'u');
        },
        ProtocolValue::Status(..) => {
            assert(n.name == "status"@);
            assert(n.name[0] == 's');
        },
        ProtocolValue::Goals(..) => {
            assert(n.name == "goals"@);
            assert(n.name[0] == 'g');
        },
        ProtocolValue::Goal(..) => {
            assert(n.name == "goal"@);
            assert(n.name[0] == 'g');
        },
        ProtocolValue::Unknown(_) => {
            assert(known_value_name(n.name));
        },
    }
}

/// A value read from a `<pair>` node is a pair.
proof fn lemma_rep_pair_name(v: ProtocolValue, n: SpecNode)
    requires
        value_rep(v, n),
        n.name == "pair"@,
    ensures
        v matches ProtocolValue::Pair(_, _),
{
    reveal_strlit("unit");
    reveal_strlit("list");
    reveal_strlit("string");
    reveal_strlit("int");
    reveal_strlit("bool");
    reveal_strlit("pair");
    reveal_strlit("option");
    reveal_strlit("state_id");
    reveal_strlit("route_id");
    reveal_strlit("union");
    reveal_strlit("status");
    reveal_strlit("goals");
    reveal_strlit("goal");
    assert("pair"@[0] == 'p');
    match v {
        ProtocolValue::Unit => {
            assert(n.name == "unit"@);
            assert(n.name[0] == 'u');
        },
        ProtocolValue::Str(_) => {
            assert(n.name == "string"@);
            assert(n.name[0] == 's');
        },
        ProtocolValue::Int(_) => {
            assert(n.name == "int"@);
            assert(n.name[0] == 'i');
        },
        ProtocolValue::Boolean(_) => {
            assert(n.name == "bool"@);
            assert(n.name[0] == 'b');
        },
        ProtocolValue::List(_) => {
            assert(n.name == "list"@);
            assert(n.name[0] == 'l');
        },
        ProtocolValue::Pair(_, _) => {},
        ProtocolValue::Optional(_) => {
            assert(n.name == "option"@);
            assert(n.name[0] == 'o');
        },
        ProtocolValue::StateId(_) => {
            assert(n.name == "state_id"@);
            assert(n.name[0] == 's');
        },
        ProtocolValue::RouteId(_) => {
            assert(n.name == "route_id"@);
            assert(n.name[0] == 'r');
        },
        ProtocolValue::Inl(_) => {
            assert(n.name == "union"@);
            assert(n.name[0] == 'u');
        },
        ProtocolValue::Inr(_) => {
            assert(n.name == "union"@);
            assert(n.name[0] == 'u');
        },
        ProtocolValue::Status(..) => {
            assert(n.name == "status"@);
            assert(n.name[0] == 's');
        },
        ProtocolValue::Goals(..) => {
            assert(n.name == "goals"@);
            assert(n.name[0] == 'g');
        },
        ProtocolValue::Goal(..) => {
            assert(n.name == "goal"@);
            assert(n.name[0] == 'g');
        },
        ProtocolValue::Unknown(_) => {
            assert(known_value_name(n.name));
        },
    }
}

// ---------------------------------------------------------------------
// What a decoded value says about its node
// ---------------------------------------------------------------------
/// Whether `v` is the value the decoder reads from the node `n`.
pub open spec fn value_rep(v: ProtocolValue, n: SpecNode) -> bool
    decreases v,
{
    match v {
        ProtocolValue::Unit => n.name == "unit"@,
        ProtocolValue::List(vs) => n.name == "list"@ && values_rep(
            vs@,
            spec_node_children(n.children),
        ),
        ProtocolValue::Str(s) => n.name == "string"@ && s@ == spec_text_of(n.children),
        ProtocolValue::Int(i) => n.name == "int"@ && spec_parse_i64(spec_text_of(n.children))
            == Some(i),
        ProtocolValue::Boolean(b) => n.name == "bool"@ && spec_attr(n.attributes, "val"@) == Some(
            if b {
                "true"@
            } else {
                "false"@
            },
        ),
        ProtocolValue::Pair(a, b) => n.name == "pair"@ && n.children.len() == 2 && (match (
            n.children[0],
            n.children[1],
        ) {
            (SpecChild::Node(na), SpecChild::Node(nb)) => value_rep(*a, na) && value_rep(*b, nb),
            _ => false,
        }),
        ProtocolValue::Optional(o) => n.name == "option"@ && (match o {
            None => spec_attr(n.attributes, "val"@) == Some("none"@),
            Some(inner) => spec_attr(n.attributes, "val"@) == Some("some"@) && n.children.len()
                == 1 && (match n.children[0] {
                SpecChild::Node(ni) => value_rep(*inner, ni),
                _ => false,
            }),
        }),
        ProtocolValue::StateId(i) => n.name == "state_id"@ && (match spec_attr(
            n.attributes,
            "val"@,
        ) {
            Some(t) => spec_parse_i64(t) == Some(i),
            None => false,
        }),
        ProtocolValue::RouteId(i) => n.name == "route_id"@ && (match spec_attr(
            n.attributes,
            "val"@,
        ) {
            Some(t) => spec_parse_i64(t) == Some(i),
            None => false,
        }),
        ProtocolValue::Inl(inner) => n.name == "union"@ && spec_attr(n.attributes, "val"@) == Some(
            "in_l"@,
        ) && n.children.len() == 1 && (match n.children[0] {
            SpecChild::Node(ni) => value_rep(*inner, ni),
            _ => false,
        }),
        ProtocolValue::Inr(inner) => n.name == "union"@ && spec_attr(n.attributes, "val"@) == Some(
            "in_r"@,
        ) && n.children.len() == 1 && (match n.children[0] {
            SpecChild::Node(ni) => value_rep(*inner, ni),
            _ => false,
        }),
        ProtocolValue::Status(a, b, c, d) => n.name == "status"@ && n.children.len() == 4 && (
        match (n.children[0], n.children[1], n.children[2], n.children[3]) {
            (
                SpecChild::Node(na),
                SpecChild::Node(nb),
                SpecChild::Node(nc),
                SpecChild::Node(nd),
            ) => value_rep(*a, na) && value_rep(*b, nb) && value_rep(*c, nc) && value_rep(*d, nd),
            _ => false,
        }),
        ProtocolValue::Goals(fg, bg, sg, gg) => n.name == "goals"@ && n.children.len() == 4 && (
        match (n.children[0], n.children[1], n.children[2], n.children[3]) {
            (
                SpecChild::Node(n0),
                SpecChild::Node(n1),
                SpecChild::Node(n2),
                SpecChild::Node(n3),
            ) => n0.name == "list"@ && n1.name == "list"@ && n2.name == "list"@ && n3.name
                == "list"@ && values_rep(fg@, spec_node_children(n0.children)) && bg_rep(
                bg@,
                spec_node_children(n1.children),
            ) && values_rep(sg@, spec_node_children(n2.children)) && values_rep(
                gg@,
                spec_node_children(n3.children),
            ),
            _ => false,
        }),
        ProtocolValue::Goal(name, hyps, ccl) => n.name == "goal"@ && n.children.len() == 3 && (
        match (n.children[0], n.children[1], n.children[2]) {
            (SpecChild::Node(n0), SpecChild::Node(n1), SpecChild::Node(n2)) => value_rep(*name, n0)
                && (if n1.name == "list"@ {
                hyps_rep(hyps@, spec_node_children(n1.children))
            } else {
                hyps@.len() == 0
            }) && richpp_rep(ccl, n2),
            _ => false,
        }),
        ProtocolValue::Unknown(raw) => !known_value_name(n.name) && raw@ == n,
    }
}

/// Element-wise representation of a list of values.
pub open spec fn values_rep(vs: Seq<ProtocolValue>, ns: Seq<SpecNode>) -> bool
    decreases vs,
{
    vs.len() == ns.len() && forall|i: int|
        0 <= i < vs.len() ==> value_rep(#[trigger] vs[i], ns[i])
}

/// Representation of the background-goal pairs: each node is a pair of two
/// goal lists.
pub open spec fn bg_rep(
    bs: Seq<(Vec<ProtocolValue>, Vec<ProtocolValue>)>,
    ns: Seq<SpecNode>,
) -> bool
    decreases bs,
{
    bs.len() == ns.len() && forall|i: int|
        0 <= i < bs.len() ==> bg_pair_rep(#[trigger] bs[i], ns[i])
}

/// One background pair: a `<pair>` of two `<list>`s of goals.
pub open spec fn bg_pair_rep(b: (Vec<ProtocolValue>, Vec<ProtocolValue>), n: SpecNode) -> bool
    decreases b,
{
    n.name == "pair"@ && n.children.len() == 2 && (match (n.children[0], n.children[1]) {
        (SpecChild::Node(nl), SpecChild::Node(nr)) => nl.name == "list"@ && nr.name == "list"@
            && values_rep(b.0@, spec_node_children(nl.children)) && values_rep(
            b.1@,
            spec_node_children(nr.children),
        ),
        _ => false,
    })
}

/// Element-wise representation of a goal's hypotheses.
pub open spec fn hyps_rep(hs: Seq<ProtocolRichPP>, ns: Seq<SpecNode>) -> bool {
    hs.len() == ns.len() && forall|i: int|
        0 <= i < hs.len() ==> richpp_rep(#[trigger] hs[i], ns[i])
}

/// Whether `m` is the message the decoder reads from a `<richpp>` node:
/// the parts come from the children of the inner `<pp>` wrapped in `<_>`.
pub open spec fn richpp_rep(m: ProtocolRichPP, n: SpecNode) -> bool {
    match crate::xml::spec_child_named(n.children, "_"@) {
        Some(inner1) => match crate::xml::spec_child_named(inner1.children, "pp"@) {
            Some(inner2) => parts_rep(crate::protocol::richpp_parts(m), inner2.children),
            None => false,
        },
        None => false,
    }
}

/// Element-wise representation of the parts of a message.
pub open spec fn parts_rep(ps: Seq<ProtocolRichPPPart>, cs: Seq<SpecChild>) -> bool {
    ps.len() == cs.len() && forall|i: int|
        0 <= i < ps.len() ==> part_rep(#[trigger] ps[i], cs[i])
}

/// One part: bare text becomes `Raw`, an annotated element becomes the
/// part its name maps to, an unknown element keeps its text as `Raw`.
pub open spec fn part_rep(p: ProtocolRichPPPart, c: SpecChild) -> bool {
    match c {
        SpecChild::Raw(s) => p matches ProtocolRichPPPart::Raw(t) && t@ == s,
        SpecChild::Node(el) => ({
            let text = spec_text_of(el.children);
            if el.name == "constr.keyword"@ {
                p matches ProtocolRichPPPart::Keyword(t) && t@ == text
            } else if el.name == "constr.evar"@ {
                p matches ProtocolRichPPPart::Evar(t) && t@ == text
            } else if el.name == "constr.type"@ {
                p matches ProtocolRichPPPart::Type(t) && t@ == text
            } else if el.name == "constr.notation"@ {
                p matches ProtocolRichPPPart::Notation(t) && t@ == text
            } else if el.name == "constr.variable"@ {
                p matches ProtocolRichPPPart::Variable(t) && t@ == text
            } else if el.name == "constr.reference"@ {
                p matches ProtocolRichPPPart::Reference(t) && t@ == text
            } else if el.name == "constr.path"@ {
                p matches ProtocolRichPPPart::Path(t) && t@ == text
            } else if el.name == "warning"@ {
                p matches ProtocolRichPPPart::Warning(t) && t@ == text
            } else if el.name == "error"@ {
                p matches ProtocolRichPPPart::Error(t) && t@ == text
            } else {
                p matches ProtocolRichPPPart::Raw(t) && t@ == text
            }
        }),
    }
}

// ---------------------------------------------------------------------
// When decoding fails, and with which error
// ---------------------------------------------------------------------
/// The shape of one background-goal entry: a pair of two lists.
pub open spec fn spec_bg_node_shape(n: SpecNode) -> bool {
    n.name == "pair"@ && n.children.len() == 2 && (match (n.children[0], n.children[1]) {
        (SpecChild::Node(a), SpecChild::Node(b)) => a.name == "list"@ && b.name == "list"@,
        _ => false,
    })
}

/// Whether a `<richpp>` node fails to decode: only missing wrappers do.
pub open spec fn spec_richpp_err(n: SpecNode) -> Option<DecodeError> {
    match crate::xml::spec_child_named(n.children, "_"@) {
        Some(inner1) => match crate::xml::spec_child_named(inner1.children, "pp"@) {
            Some(_) => None,
            None => Some(DecodeError::InvalidRichPP),
        },
        None => Some(DecodeError::InvalidRichPP),
    }
}

/// The first decode error among the node children of a children list.
pub open spec fn spec_children_values_err(cs: Seq<SpecChild>) -> Option<DecodeError>
    decreases cs, 3int,
{
    if cs.len() == 0 {
        None
    } else {
        match cs[0] {
            SpecChild::Node(nn) => match spec_value_err(nn) {
                Some(e) => Some(e),
                None => spec_children_values_err(cs.drop_first()),
            },
            SpecChild::Raw(_) => spec_children_values_err(cs.drop_first()),
        }
    }
}

/// The first richpp decode error among a list of hypothesis children;
/// a raw child where a node is needed is itself an error.
pub open spec fn spec_hyps_err(cs: Seq<SpecChild>) -> Option<DecodeError>
    decreases cs,
{
    if cs.len() == 0 {
        None
    } else {
        match cs[0] {
            SpecChild::Node(nn) => match spec_richpp_err(nn) {
                Some(e) => Some(e),
                None => spec_hyps_err(cs.drop_first()),
            },
            SpecChild::Raw(_) => Some(DecodeError::InvalidGoal),
        }
    }
}

/// Why decoding a value from `n` fails, or `None` when it succeeds.
pub open spec fn spec_value_err(n: SpecNode) -> Option<DecodeError>
    decreases n, 2int,
{
    if n.name == "unit"@ {
        if n.attributes.len() == 0 && n.children.len() == 0 {
            None
        } else {
            Some(DecodeError::InvalidUnit)
        }
    } else if n.name == "list"@ {
        if n.attributes.len() != 0 {
            Some(DecodeError::InvalidList)
        } else {
            spec_children_values_err(n.children)
        }
    } else if n.name == "string"@ {
        if n.attributes.len() != 0 {
            Some(DecodeError::InvalidString)
        } else {
            None
        }
    } else if n.name == "int"@ {
        if n.attributes.len() != 0 {
            Some(DecodeError::InvalidInteger)
        } else if spec_parse_i64(spec_text_of(n.children)) is None {
            Some(DecodeError::InvalidInteger)
        } else {
            None
        }
    } else if n.name == "bool"@ {
        if n.children.len() != 0 {
            Some(DecodeError::InvalidBoolean)
        } else {
            match spec_attr(n.attributes, "val"@) {
                Some(t) => if t == "true"@ || t == "false"@ {
                    None
                } else {
                    Some(DecodeError::InvalidBoolean)
                },
                None => Some(DecodeError::InvalidBoolean),
            }
        }
    } else if n.name == "pair"@ {
        if n.children.len() != 2 || n.attributes.len() != 0 {
            Some(DecodeError::InvalidPair)
        } else {
            match (n.children[0], n.children[1]) {
                (SpecChild::Node(na), SpecChild::Node(nb)) => match spec_value_err(na) {
                    Some(e) => Some(e),
                    None => spec_value_err(nb),
                },
                _ => Some(DecodeError::InvalidPair),
            }
        }
    } else if n.name == "option"@ {
        match spec_attr(n.attributes, "val"@) {
            Some(t) => if t == "some"@ {
                if n.children.len() != 1 {
                    Some(DecodeError::InvalidOption)
                } else {
                    match n.children[0] {
                        SpecChild::Node(ni) => spec_value_err(ni),
                        _ => Some(DecodeError::InvalidOption),
                    }
                }
            } else if t == "none"@ {
                if n.children.len() == 0 {
                    None
                } else {
                    Some(DecodeError::InvalidOption)
                }
            } else {
                Some(DecodeError::InvalidOption)
            },
            None => Some(DecodeError::InvalidOption),
        }
    } else if n.name == "state_id"@ || n.name == "route_id"@ {
        match spec_attr(n.attributes, "val"@) {
            Some(t) => if spec_parse_i64(t) is Some {
                None
            } else {
                Some(DecodeError::InvalidStateId)
            },
            None => Some(DecodeError::InvalidStateId),
        }
    } else if n.name == "union"@ {
        match spec_attr(n.attributes, "val"@) {
            Some(t) => if t == "in_l"@ || t == "in_r"@ {
                if n.children.len() != 1 {
                    Some(DecodeError::InvalidValue)
                } else {
                    match n.children[0] {
                        SpecChild::Node(ni) => spec_value_err(ni),
                        _ => Some(DecodeError::InvalidValue),
                    }
                }
            } else {
                Some(DecodeError::InvalidValue)
            },
            None => Some(DecodeError::InvalidValue),
        }
    } else if n.name == "status"@ {
        if n.children.len() != 4 {
            Some(DecodeError::InvalidStatus)
        } else {
            match (n.children[0], n.children[1], n.children[2], n.children[3]) {
                (
                    SpecChild::Node(na),
                    SpecChild::Node(nb),
                    SpecChild::Node(nc),
                    SpecChild::Node(nd),
                ) => match spec_value_err(na) {
                    Some(e) => Some(e),
                    None => match spec_value_err(nb) {
                        Some(e) => Some(e),
                        None => match spec_value_err(nc) {
                            Some(e) => Some(e),
                            None => spec_value_err(nd),
                        },
                    },
                },
                _ => Some(DecodeError::InvalidStatus),
            }
        }
    } else if n.name == "goals"@ {
        spec_goals_err(n)
    } else if n.name == "goal"@ {
        spec_goal_err(n)
    } else {
        None
    }
}

/// Why decoding a `<goals>` node fails.
pub open spec fn spec_goals_err(n: SpecNode) -> Option<DecodeError>
    decreases n, 1int,
{
    if n.children.len() != 4 {
        Some(DecodeError::InvalidGoals)
    } else {
        match (n.children[0], n.children[1], n.children[2], n.children[3]) {
            (
                SpecChild::Node(n0),
                SpecChild::Node(n1),
                SpecChild::Node(n2),
                SpecChild::Node(n3),
            ) => match spec_value_err(n0) {
                Some(e) => Some(e),
                None => match spec_value_err(n1) {
                    Some(e) => Some(e),
                    None => match spec_value_err(n2) {
                        Some(e) => Some(e),
                        None => match spec_value_err(n3) {
                            Some(e) => Some(e),
                            None => if n0.name == "list"@ && n1.name == "list"@ && n2.name
                                == "list"@ && n3.name == "list"@ {
                                if forall|i: int|
                                    0 <= i < spec_node_children(n1.children).len()
                                        ==> spec_bg_node_shape(
                                        #[trigger] spec_node_children(n1.children)[i],
                                    ) {
                                    None
                                } else {
                                    Some(DecodeError::InvalidGoals)
                                }
                            } else {
                                Some(DecodeError::InvalidGoals)
                            },
                        },
                    },
                },
            },
            _ => Some(DecodeError::InvalidGoals),
        }
    }
}

/// Why decoding a `<goal>` node fails.
pub open spec fn spec_goal_err(n: SpecNode) -> Option<DecodeError>
    decreases n, 1int,
{
    if n.children.len() != 3 {
        Some(DecodeError::InvalidGoal)
    } else {
        match (n.children[0], n.children[1], n.children[2]) {
            (SpecChild::Node(n0), SpecChild::Node(n1), SpecChild::Node(n2)) => match
                spec_value_err(n0) {
                Some(e) => Some(e),
                None => {
                    let hyps_e = if n1.name == "list"@ {
                        spec_hyps_err(n1.children)
                    } else {
                        None
                    };
                    match hyps_e {
                        Some(e) => Some(e),
                        None => spec_richpp_err(n2),
                    }
                },
            },
            _ => Some(DecodeError::InvalidGoal),
        }
    }
}

// ---------------------------------------------------------------------
// Results and feedback
// ---------------------------------------------------------------------
/// Whether `f` is the feedback content the decoder reads from `n`.
pub open spec fn feedback_content_rep(f: FeedbackContent, n: SpecNode) -> bool {
    match f {
        FeedbackContent::Processed => spec_attr(n.attributes, "val"@) == Some("processed"@),
        FeedbackContent::Message(level, m) => spec_attr(n.attributes, "val"@) == Some("message"@)
            && n.children.len() >= 1 && (match n.children[0] {
            SpecChild::Node(msg) => msg.children.len() >= 3 && (match msg.children[0] {
                SpecChild::Node(lv) => level_rep(level, lv),
                _ => false,
            }) && (match msg.children[2] {
                SpecChild::Node(rp) => richpp_rep(m, rp),
                _ => false,
            }),
            _ => false,
        }),
        FeedbackContent::WorkerStatus(raw) => spec_attr(n.attributes, "val"@) == Some(
            "workerstatus"@,
        ) && n.children.len() >= 1 && (match n.children[0] {
            SpecChild::Node(inner) => raw@ == inner,
            _ => false,
        }),
        FeedbackContent::Processing(raw) => spec_attr(n.attributes, "val"@) == Some(
            "processingin"@,
        ) && n.children.len() >= 1 && (match n.children[0] {
            SpecChild::Node(inner) => raw@ == inner,
            _ => false,
        }),
        FeedbackContent::AddedAxiom => spec_attr(n.attributes, "val"@) == Some("addedaxiom"@),
        FeedbackContent::FileLoaded(name, path) => spec_attr(n.attributes, "val"@) == Some(
            "fileloaded"@,
        ) && n.children.len() >= 2 && (match (n.children[0], n.children[1]) {
            (SpecChild::Node(a), SpecChild::Node(b)) => a.name == "string"@ && b.name == "string"@
                && name@ == spec_text_of(a.children) && path@ == spec_text_of(b.children),
            _ => false,
        }),
    }
}

/// Whether `l` is the message level named by the `val` attribute of `n`.
pub open spec fn level_rep(l: MessageType, n: SpecNode) -> bool {
    match l {
        MessageType::Debug => spec_attr(n.attributes, "val"@) == Some("debug"@),
        MessageType::Info => spec_attr(n.attributes, "val"@) == Some("info"@),
        MessageType::Notice => spec_attr(n.attributes, "val"@) == Some("notice"@),
        MessageType::Warning => spec_attr(n.attributes, "val"@) == Some("warning"@),
        MessageType::Error => spec_attr(n.attributes, "val"@) == Some("error"@),
    }
}

/// Whether `r` is the result the decoder reads from `n`: a `<value>` node
/// is a good or failed response, a `<feedback>` node is feedback.
pub open spec fn result_rep(r: ProtocolResult, n: SpecNode) -> bool {
    match r {
        ProtocolResult::Good(v) => n.name == "value"@ && spec_attr(n.attributes, "val"@) == Some(
            "good"@,
        ) && n.children.len() >= 1 && (match n.children[0] {
            SpecChild::Node(inner) => value_rep(v, inner),
            _ => false,
        }),
        ProtocolResult::Fail(loc_s, loc_e, sid, m) => n.name == "value"@ && spec_attr(
            n.attributes,
            "val"@,
        ) == Some("fail"@) && (match loc_s {
            Some(i) => (match spec_attr(n.attributes, "loc_s"@) {
                Some(t) => spec_parse_i64(t) == Some(i),
                None => false,
            }),
            None => spec_attr(n.attributes, "loc_s"@) is None,
        }) && (match loc_e {
            Some(i) => (match spec_attr(n.attributes, "loc_e"@) {
                Some(t) => spec_parse_i64(t) == Some(i),
                None => false,
            }),
            None => spec_attr(n.attributes, "loc_e"@) is None,
        }) && (match crate::xml::spec_child_named(n.children, "state_id"@) {
            Some(sn) => value_rep(sid, sn),
            None => false,
        }) && (match crate::xml::spec_child_named(n.children, "richpp"@) {
            Some(rn) => richpp_rep(m, rn),
            None => false,
        }),
        ProtocolResult::Feedback(object, route, sid, content) => n.name == "feedback"@ && (
        match spec_attr(n.attributes, "object"@) {
            Some(t) => object@ == t,
            None => false,
        }) && (match spec_attr(n.attributes, "route"@) {
            Some(t) => route@ == t,
            None => false,
        }) && n.children.len() >= 2 && (match (n.children[0], n.children[1]) {
            (SpecChild::Node(sn), SpecChild::Node(cn)) => value_rep(sid, sn)
                && feedback_content_rep(content, cn),
            _ => false,
        }),
    }
}

/// Why decoding a feedback content element fails.
pub open spec fn spec_feedback_content_err(n: SpecNode) -> Option<DecodeError> {
    match spec_attr(n.attributes, "val"@) {
        None => Some(DecodeError::InvalidFeedbackContent),
        Some(t) => if t == "processed"@ || t == "addedaxiom"@ {
            None
        } else if t == "message"@ {
            if n.children.len() < 1 {
                Some(DecodeError::InvalidFeedbackContent)
            } else {
                match n.children[0] {
                    SpecChild::Node(msg) => if msg.children.len() < 3 {
                        Some(DecodeError::InvalidFeedbackContent)
                    } else {
                        match msg.children[0] {
                            SpecChild::Node(lv) => match spec_attr(lv.attributes, "val"@) {
                                Some(u) => if u == "debug"@ || u == "info"@ || u == "notice"@ || u
                                    == "warning"@ || u == "error"@ {
                                    match msg.children[2] {
                                        SpecChild::Node(rp) => spec_richpp_err(rp),
                                        _ => Some(DecodeError::InvalidFeedbackContent),
                                    }
                                } else {
                                    Some(DecodeError::InvalidFeedbackContent)
                                },
                                None => Some(DecodeError::InvalidFeedbackContent),
                            },
                            _ => Some(DecodeError::InvalidFeedbackContent),
                        }
                    },
                    _ => Some(DecodeError::InvalidFeedbackContent),
                }
            }
        } else if t == "workerstatus"@ || t == "processingin"@ {
            if n.children.len() >= 1 && n.children[0] matches SpecChild::Node(_) {
                None
            } else {
                Some(DecodeError::InvalidFeedbackContent)
            }
        } else if t == "fileloaded"@ {
            if n.children.len() >= 2 && (match (n.children[0], n.children[1]) {
                (SpecChild::Node(a), SpecChild::Node(b)) => a.name == "string"@ && b.name
                    == "string"@,
                _ => false,
            }) {
                None
            } else {
                Some(DecodeError::InvalidFeedbackContent)
            }
        } else {
            Some(DecodeError::InvalidFeedbackContent)
        },
    }
}

/// Why decoding a result from `n` fails.
pub open spec fn spec_result_err(n: SpecNode) -> Option<DecodeError> {
    if n.name == "value"@ {
        match spec_attr(n.attributes, "val"@) {
            None => Some(DecodeError::InvalidValue),
            Some(t) => if t == "good"@ {
                if n.children.len() >= 1 && n.children[0] matches SpecChild::Node(_) {
                    spec_value_err(n.children[0]->Node_0)
                } else {
                    Some(DecodeError::InvalidValue)
                }
            } else if t == "fail"@ {
                let locs_bad = match spec_attr(n.attributes, "loc_s"@) {
                    Some(u) => spec_parse_i64(u) is None,
                    None => false,
                };
                let loce_bad = match spec_attr(n.attributes, "loc_e"@) {
                    Some(u) => spec_parse_i64(u) is None,
                    None => false,
                };
                if locs_bad || loce_bad {
                    Some(DecodeError::InvalidValue)
                } else {
                    match crate::xml::spec_child_named(n.children, "state_id"@) {
                        Some(sn) => match spec_value_err(sn) {
                            Some(e) => Some(e),
                            None => match crate::xml::spec_child_named(n.children, "richpp"@) {
                                Some(rn) => spec_richpp_err(rn),
                                None => Some(DecodeError::InvalidValue),
                            },
                        },
                        None => Some(DecodeError::InvalidValue),
                    }
                }
            } else {
                Some(DecodeError::InvalidValue)
            },
        }
    } else if n.name == "feedback"@ {
        if spec_attr(n.attributes, "object"@) is None || spec_attr(n.attributes, "route"@)
            is None {
            Some(DecodeError::InvalidFeedback)
        } else if n.children.len() < 2 {
            Some(DecodeError::InvalidFeedback)
        } else {
            match (n.children[0], n.children[1]) {
                (SpecChild::Node(sn), SpecChild::Node(cn)) => match spec_value_err(sn) {
                    Some(e) => Some(e),
                    None => spec_feedback_content_err(cn),
                },
                _ => Some(DecodeError::InvalidFeedback),
            }
        }
    } else {
        Some(DecodeError::InvalidValue)
    }
}

// ---------------------------------------------------------------------
// Executable helpers
// ---------------------------------------------------------------------
/// Whether the node's name is the given literal.
fn name_is(n: &XMLNode, lit: &str) -> (r: bool)
    ensures
        r == (n@.name == lit@),
{
    n.name.eq(&lit.to_owned())
}

/// Looks up the first attribute with the given name.
#[verifier::loop_isolation(false)]
fn attr_lookup<'a>(n: &'a XMLNode, name: &str) -> (r: Option<&'a String>)
    ensures
        match r {
            Some(s) => spec_attr(n@.attributes, name@) == Some(s@),
            None => spec_attr(n@.attributes, name@) is None,
        },
{
    let key = name.to_owned();
    let mut i: usize = 0;
    proof {
        assert(n@.attributes.skip(0) =~= n@.attributes);
    }
    while i < n.attributes.len()
        invariant
            i <= n.attributes@.len(),
            spec_attr(n@.attributes, name@) == spec_attr(n@.attributes.skip(i as int), name@),
        decreases n.attributes@.len() - i,
    {
        proof {
            assert(n@.attributes.skip(i as int)[0] == n@.attributes[i as int]);
            assert(n@.attributes.skip(i as int).drop_first() =~= n@.attributes.skip(i + 1));
            assert(n@.attributes[i as int] == ((#[trigger] n.attributes@[i as int]).0@,
            n.attributes@[i as int].1@));
        }
        if n.attributes[i].0.eq(&key) {
            return Some(&n.attributes[i].1);
        }
        i += 1;
    }
    None
}

/// The digit-string value only grows as digits are appended.
proof fn lemma_digits_val_monotone(s: Seq<char>, k: int)
    requires
        0 <= k <= s.len(),
        all_digits(s),
    ensures
        spec_digits_val(s) >= spec_digits_val(s.take(k)),
        spec_digits_val(s.take(k)) >= 0,
    decreases s.len() - k,
{
    if k == s.len() {
        assert(s.take(k) =~= s);
        lemma_digits_val_nonneg(s);
    } else {
        lemma_digits_val_monotone(s, k + 1);
        assert(s.take(k + 1).drop_last() =~= s.take(k));
        assert(s.take(k + 1).last() == s[k]);
        lemma_digits_val_nonneg(s.take(k));
    }
}

/// A digit string denotes a non-negative value.
proof fn lemma_digits_val_nonneg(s: Seq<char>)
    requires
        forall|i: int| 0 <= i < s.len() ==> is_digit(#[trigger] s[i]),
    ensures
        spec_digits_val(s) >= 0,
    decreases s.len(),
{
    if s.len() > 0 {
        lemma_digits_val_nonneg(s.drop_last());
    }
}

/// Parses a signed decimal integer from text, as the backend writes them.
#[verifier::loop_isolation(false)]
fn parse_i64_chars(s: &Vec<char>) -> (r: Option<i64>)
    ensures
        r == spec_parse_i64(s@),
{
    let n = s.len();
    let mut i: usize = 0;
    let mut negative = false;
    if n > 0 && (s[0] == '-' || s[0] == '+') {
        negative = s[0] == '-';
        i = 1;
    }
    let ghost digits = if i == 1 {
        s@.drop_first()
    } else {
        s@
    };
    if i >= n {
        return None;
    }
    let limit: u64 = 9223372036854775808u64;
    let mut mag: u64 = 0;
    let mut j: usize = i;
    proof {
        assert(digits.take(0) =~= Seq::<char>::empty());
    }
    while j < n
        invariant
            i <= j <= n,
            n == s@.len(),
            digits == if i == 1 {
                s@.drop_first()
            } else {
                s@
            },
            digits.len() == n - i,
            forall|m: int| 0 <= m < j - i ==> is_digit(#[trigger] digits[m]),
            mag == spec_digits_val(digits.take(j - i)),
            mag <= limit,
        decreases n - j,
    {
        let c = s[j];
        proof {
            assert(digits[j - i] == s@[j as int]);
        }
        if !('0' <= c && c <= '9') {
            return None;
        }
        let d: u64 = (c as u32 as u64) - 48;
        proof {
            assert(d == digit_val(c));
            assert(d <= 9);
        }
        if mag > (limit - d) / 10 {
            proof {
                assert(mag * 10 + d > limit) by (nonlinear_arith)
                    requires
                        mag > (limit - d) / 10,
                        d <= 9,
                        limit == 9223372036854775808u64,
                ;
                assert(digits.take(j - i + 1).drop_last() =~= digits.take(j - i));
                assert(digits.take(j - i + 1).last() == digits[j - i]);
                assert(spec_digits_val(digits.take(j - i + 1)) == mag * 10 + d);
                if all_digits(digits) {
                    lemma_digits_val_monotone(digits, j - i + 1);
                    assert(spec_digits_val(digits) > limit);
                }
            }
            return None;
        }
        proof {
            assert(mag * 10 + d <= limit) by (nonlinear_arith)
                requires
                    mag <= (limit - d) / 10,
                    d <= 9,
                    limit == 9223372036854775808u64,
            ;
            assert(digits.take(j - i + 1).drop_last() =~= digits.take(j - i));
            assert(digits.take(j - i + 1).last() == digits[j - i]);
        }
        mag = mag * 10 + d;
        j += 1;
    }
    proof {
        assert(digits.take(n - i) =~= digits);
        assert(mag == spec_digits_val(digits));
    }
    if negative {
        if mag == limit {
            Some(i64::MIN)
        } else {
            Some(-(mag as i64))
        }
    } else {
        if mag == limit {
            None
        } else {
            Some(mag as i64)
        }
    }
}

/// Parses a signed decimal integer from a string.
fn parse_i64_str(s: &String) -> (r: Option<i64>)
    ensures
        r == spec_parse_i64(s@),
{
    let chars = str_chars(s.as_str());
    parse_i64_chars(&chars)
}

/// Splitting off one more child keeps the node children in step.
proof fn lemma_nc_push(cs: Seq<SpecChild>, c: SpecChild)
    ensures
        spec_node_children(cs.push(c)) == spec_node_children(cs) + (match c {
            SpecChild::Node(n) => seq![n],
            SpecChild::Raw(_) => Seq::<SpecNode>::empty(),
        }),
    decreases cs.len(),
{
    if cs.len() == 0 {
        assert(cs.push(c).drop_first() =~= Seq::<SpecChild>::empty());
        assert(cs.push(c)[0] == c);
        assert(spec_node_children(Seq::<SpecChild>::empty()) == Seq::<SpecNode>::empty());
        assert(spec_node_children(cs) == Seq::<SpecNode>::empty());
        match c {
            SpecChild::Node(n) => {
                assert(spec_node_children(cs.push(c)) == seq![n] + spec_node_children(
                    cs.push(c).drop_first(),
                ));
                assert(spec_node_children(cs.push(c)) =~= spec_node_children(cs) + seq![n]);
            },
            SpecChild::Raw(_) => {
                assert(spec_node_children(cs.push(c)) == spec_node_children(
                    cs.push(c).drop_first(),
                ));
                assert(spec_node_children(cs.push(c)) =~= spec_node_children(cs) + Seq::<
                    SpecNode,
                >::empty());
            },
        }
    } else {
        lemma_nc_push(cs.drop_first(), c);
        assert(cs.push(c)[0] == cs[0]);
        assert(cs.push(c).drop_first() =~= cs.drop_first().push(c));
        match cs[0] {
            SpecChild::Node(n0) => {
                assert(spec_node_children(cs.push(c)) =~= spec_node_children(cs) + (match c {
                    SpecChild::Node(n) => seq![n],
                    SpecChild::Raw(_) => Seq::<SpecNode>::empty(),
                }));
            },
            SpecChild::Raw(_) => {
                assert(spec_node_children(cs.push(c)) =~= spec_node_children(cs) + (match c {
                    SpecChild::Node(n) => seq![n],
                    SpecChild::Raw(_) => Seq::<SpecNode>::empty(),
                }));
            },
        }
    }
}

impl ProtocolRichPP {
    /// Tries to decode a rich-text message from a `<richpp>` node, mapping
    /// each annotated element to its part and bare text to plain parts.
    #[verifier::loop_isolation(false)]
    pub fn decode(xml: &XMLNode) -> (r: Result<ProtocolRichPP, DecodeError>)
        ensures
            match r {
                Ok(m) => spec_richpp_err(xml@) is None && richpp_rep(m, xml@),
                Err(e) => spec_richpp_err(xml@) == Some(e),
            },
    {
        let inner1 = match xml.get_child(String::from_str("_")) {
            Some(n) => n,
            None => {
                return Err(DecodeError::InvalidRichPP);
            },
        };
        let inner2 = match inner1.get_child(String::from_str("pp")) {
            Some(n) => n,
            None => {
                return Err(DecodeError::InvalidRichPP);
            },
        };
        let mut parts: Vec<ProtocolRichPPPart> = Vec::new();
        let mut i: usize = 0;
        proof {
            crate::xml::lemma_children_view_index(inner2.children@);
        }
        while i < inner2.children.len()
            invariant
                i <= inner2.children@.len(),
                parts@.len() == i,
                forall|k: int| 0 <= k < i ==> part_rep(#[trigger] parts@[k], inner2@.children[k]),
            decreases inner2.children@.len() - i,
        {
            proof {
                assert(inner2@.children[i as int] == child_view(inner2.children@[i as int]));
            }
            match &inner2.children[i] {
                Child::Raw(s) => {
                    parts.push(ProtocolRichPPPart::Raw(s.clone()));
                },
                Child::Node(el) => {
                    let text = el.get_text();
                    if name_is(el, "constr.keyword") {
                        parts.push(ProtocolRichPPPart::Keyword(text));
                    } else if name_is(el, "constr.evar") {
                        parts.push(ProtocolRichPPPart::Evar(text));
                    } else if name_is(el, "constr.type") {
                        parts.push(ProtocolRichPPPart::Type(text));
                    } else if name_is(el, "constr.notation") {
                        parts.push(ProtocolRichPPPart::Notation(text));
                    } else if name_is(el, "constr.variable") {
                        parts.push(ProtocolRichPPPart::Variable(text));
                    } else if name_is(el, "constr.reference") {
                        parts.push(ProtocolRichPPPart::Reference(text));
                    } else if name_is(el, "constr.path") {
                        parts.push(ProtocolRichPPPart::Path(text));
                    } else if name_is(el, "warning") {
                        parts.push(ProtocolRichPPPart::Warning(text));
                    } else if name_is(el, "error") {
                        parts.push(ProtocolRichPPPart::Error(text));
                    } else {
                        parts.push(ProtocolRichPPPart::Raw(text));
                    }
                },
            }
            i += 1;
        }
        let m = ProtocolRichPP::RichPP(parts);
        proof {
            assert(parts_rep(crate::protocol::richpp_parts(m), inner2@.children));
        }
        Ok(m)
    }
}

impl ProtocolValue {
    /// Tries to decode a protocol value from an XML node.  A malformed
    /// shape under a known element name yields the error naming that tag;
    /// an unknown element name yields `Unknown`.
    #[verifier::loop_isolation(false)]
    #[verifier::rlimit(100)]
    pub fn decode(xml: &XMLNode) -> (r: Result<ProtocolValue, DecodeError>)
        ensures
            match r {
                Ok(v) => spec_value_err(xml@) is None && value_rep(v, xml@),
                Err(e) => spec_value_err(xml@) == Some(e),
            },
        decreases *xml, 1int,
    {
        proof {
            crate::xml::lemma_children_view_index(xml.children@);
        }
        if name_is(xml, "unit") {
            if xml.attributes.len() != 0 || xml.children.len() != 0 {
                return Err(DecodeError::InvalidUnit);
            }
            Ok(ProtocolValue::Unit)
        } else if name_is(xml, "list") {
            if xml.attributes.len() != 0 {
                return Err(DecodeError::InvalidList);
            }
            let mut vals: Vec<ProtocolValue> = Vec::new();
            let mut i: usize = 0;
            proof {
                assert(xml@.children.skip(0) =~= xml@.children);
                assert(xml@.children.take(0) =~= Seq::<SpecChild>::empty());
            }
            while i < xml.children.len()
                invariant
                    i <= xml.children@.len(),
                    spec_children_values_err(xml@.children) == spec_children_values_err(
                        xml@.children.skip(i as int),
                    ),
                    vals@.len() == spec_node_children(xml@.children.take(i as int)).len(),
                    values_rep(vals@, spec_node_children(xml@.children.take(i as int))),
                decreases xml.children@.len() - i,
            {
                proof {
                    assert(xml@.children.skip(i as int)[0] == xml@.children[i as int]);
                    assert(xml@.children.skip(i as int).drop_first() =~= xml@.children.skip(
                        i + 1,
                    ));
                    assert(xml@.children.take(i + 1) =~= xml@.children.take(i as int).push(
                        xml@.children[i as int],
                    ));
                    lemma_nc_push(xml@.children.take(i as int), xml@.children[i as int]);
                }
                match &xml.children[i] {
                    Child::Node(child) => {
                        match ProtocolValue::decode(child) {
                            Ok(v) => {
                                vals.push(v);
                                proof {
                                    let ncs = spec_node_children(xml@.children.take(i + 1));
                                    assert(ncs == spec_node_children(
                                        xml@.children.take(i as int),
                                    ).push(child@));
                                    assert(values_rep(vals@, ncs));
                                }
                            },
                            Err(e) => {
                                return Err(e);
                            },
                        }
                    },
                    Child::Raw(_) => {},
                }
                i += 1;
            }
            proof {
                assert(xml@.children.take(xml.children@.len() as int) =~= xml@.children);
            }
            Ok(ProtocolValue::List(vals))
        } else if name_is(xml, "string") {
            if xml.attributes.len() != 0 {
                return Err(DecodeError::InvalidString);
            }
            Ok(ProtocolValue::Str(xml.get_text()))
        } else if name_is(xml, "int") {
            if xml.attributes.len() != 0 {
                return Err(DecodeError::InvalidInteger);
            }
            let text = xml.get_text();
            match parse_i64_str(&text) {
                Some(i) => Ok(ProtocolValue::Int(i)),
                None => Err(DecodeError::InvalidInteger),
            }
        } else if name_is(xml, "bool") {
            if xml.children.len() != 0 {
                return Err(DecodeError::InvalidBoolean);
            }
            match attr_lookup(xml, "val") {
                Some(t) => {
                    if t.eq(&String::from_str("true")) {
                        Ok(ProtocolValue::Boolean(true))
                    } else if t.eq(&String::from_str("false")) {
                        Ok(ProtocolValue::Boolean(false))
                    } else {
                        Err(DecodeError::InvalidBoolean)
                    }
                },
                None => Err(DecodeError::InvalidBoolean),
            }
        } else if name_is(xml, "pair") {
            if xml.children.len() != 2 || xml.attributes.len() != 0 {
                return Err(DecodeError::InvalidPair);
            }
            let na = match &xml.children[0] {
                Child::Node(n) => n,
                Child::Raw(_) => {
                    return Err(DecodeError::InvalidPair);
                },
            };
            let nb = match &xml.children[1] {
                Child::Node(n) => n,
                Child::Raw(_) => {
                    return Err(DecodeError::InvalidPair);
                },
            };
            let va = match ProtocolValue::decode(na) {
                Ok(v) => v,
                Err(e) => {
                    return Err(e);
                },
            };
            let vb = match ProtocolValue::decode(nb) {
                Ok(v) => v,
                Err(e) => {
                    return Err(e);
                },
            };
            Ok(ProtocolValue::Pair(Box::new(va), Box::new(vb)))
        } else if name_is(xml, "option") {
            let is_some: bool = match attr_lookup(xml, "val") {
                Some(t) => {
                    if t.eq(&String::from_str("some")) {
                        true
                    } else if t.eq(&String::from_str("none")) {
                        false
                    } else {
                        return Err(DecodeError::InvalidOption);
                    }
                },
                None => {
                    return Err(DecodeError::InvalidOption);
                },
            };
            if is_some {
                if xml.children.len() != 1 {
                    return Err(DecodeError::InvalidOption);
                }
                let ni = match &xml.children[0] {
                    Child::Node(n) => n,
                    Child::Raw(_) => {
                        return Err(DecodeError::InvalidOption);
                    },
                };
                match ProtocolValue::decode(ni) {
                    Ok(v) => Ok(ProtocolValue::Optional(Some(Box::new(v)))),
                    Err(e) => Err(e),
                }
            } else {
                if xml.children.len() != 0 {
                    return Err(DecodeError::InvalidOption);
                }
                Ok(ProtocolValue::Optional(None))
            }
        } else if name_is(xml, "state_id") {
            match attr_lookup(xml, "val") {
                Some(t) => match parse_i64_str(t) {
                    Some(i) => Ok(ProtocolValue::StateId(i)),
                    None => Err(DecodeError::InvalidStateId),
                },
                None => Err(DecodeError::InvalidStateId),
            }
        } else if name_is(xml, "route_id") {
            match attr_lookup(xml, "val") {
                Some(t) => match parse_i64_str(t) {
                    Some(i) => Ok(ProtocolValue::RouteId(i)),
                    None => Err(DecodeError::InvalidStateId),
                },
                None => Err(DecodeError::InvalidStateId),
            }
        } else if name_is(xml, "union") {
            let left: bool = match attr_lookup(xml, "val") {
                Some(t) => {
                    if t.eq(&String::from_str("in_l")) {
                        true
                    } else if t.eq(&String::from_str("in_r")) {
                        false
                    } else {
                        return Err(DecodeError::InvalidValue);
                    }
                },
                None => {
                    return Err(DecodeError::InvalidValue);
                },
            };
            if xml.children.len() != 1 {
                return Err(DecodeError::InvalidValue);
            }
            let ni = match &xml.children[0] {
                Child::Node(n) => n,
                Child::Raw(_) => {
                    return Err(DecodeError::InvalidValue);
                },
            };
            match ProtocolValue::decode(ni) {
                Ok(v) => {
                    if left {
                        Ok(ProtocolValue::Inl(Box::new(v)))
                    } else {
                        Ok(ProtocolValue::Inr(Box::new(v)))
                    }
                },
                Err(e) => Err(e),
            }
        } else if name_is(xml, "status") {
            if xml.children.len() != 4 {
                return Err(DecodeError::InvalidStatus);
            }
            let na = match &xml.children[0] {
                Child::Node(n) => n,
                Child::Raw(_) => {
                    return Err(DecodeError::InvalidStatus);
                },
            };
            let nb = match &xml.children[1] {
                Child::Node(n) => n,
                Child::Raw(_) => {
                    return Err(DecodeError::InvalidStatus);
                },
            };
            let nc = match &xml.children[2] {
                Child::Node(n) => n,
                Child::Raw(_) => {
                    return Err(DecodeError::InvalidStatus);
                },
            };
            let nd = match &xml.children[3] {
                Child::Node(n) => n,
                Child::Raw(_) => {
                    return Err(DecodeError::InvalidStatus);
                },
            };
            let va = match ProtocolValue::decode(na) {
                Ok(v) => v,
                Err(e) => {
                    return Err(e);
                },
            };
            let vb = match ProtocolValue::decode(nb) {
                Ok(v) => v,
                Err(e) => {
                    return Err(e);
                },
            };
            let vc = match ProtocolValue::decode(nc) {
                Ok(v) => v,
                Err(e) => {
                    return Err(e);
                },
            };
            let vd = match ProtocolValue::decode(nd) {
                Ok(v) => v,
                Err(e) => {
                    return Err(e);
                },
            };
            Ok(
                ProtocolValue::Status(
                    Box::new(va),
                    Box::new(vb),
                    Box::new(vc),
                    Box::new(vd),
                ),
            )
        } else if name_is(xml, "goals") {
            decode_goals(xml)
        } else if name_is(xml, "goal") {
            decode_goal(xml)
        } else {
            Ok(ProtocolValue::Unknown(xml.clone()))
        }
    }
}

/// Decodes a `<goals>` node: four lists of goals, the background list
/// holding pairs of goal lists.
#[verifier::loop_isolation(false)]
#[verifier::rlimit(100)]
fn decode_goals(xml: &XMLNode) -> (r: Result<ProtocolValue, DecodeError>)
    requires
        xml@.name == "goals"@,
    ensures
        match r {
            Ok(v) => spec_goals_err(xml@) is None && value_rep(v, xml@),
            Err(e) => spec_goals_err(xml@) == Some(e),
        },
    decreases *xml, 0int,
{
    proof {
        reveal_strlit("unit");
        reveal_strlit("list");
        reveal_strlit("string");
        reveal_strlit("int");
        reveal_strlit("bool");
        reveal_strlit("pair");
        reveal_strlit("option");
        reveal_strlit("state_id");
        reveal_strlit("route_id");
        reveal_strlit("union");
        reveal_strlit("status");
        reveal_strlit("goals");
        reveal_strlit("goal");
        reveal_with_fuel(value_rep, 3);
        crate::xml::lemma_children_view_index(xml.children@);
    }
    if xml.children.len() != 4 {
        return Err(DecodeError::InvalidGoals);
    }
    let n0 = match &xml.children[0] {
        Child::Node(n) => n,
        Child::Raw(_) => {
            return Err(DecodeError::InvalidGoals);
        },
    };
    let n1 = match &xml.children[1] {
        Child::Node(n) => n,
        Child::Raw(_) => {
            return Err(DecodeError::InvalidGoals);
        },
    };
    let n2 = match &xml.children[2] {
        Child::Node(n) => n,
        Child::Raw(_) => {
            return Err(DecodeError::InvalidGoals);
        },
    };
    let n3 = match &xml.children[3] {
        Child::Node(n) => n,
        Child::Raw(_) => {
            return Err(DecodeError::InvalidGoals);
        },
    };
    let v0 = match ProtocolValue::decode(n0) {
        Ok(v) => v,
        Err(e) => {
            return Err(e);
        },
    };
    let v1 = match ProtocolValue::decode(n1) {
        Ok(v) => v,
        Err(e) => {
            return Err(e);
        },
    };
    let v2 = match ProtocolValue::decode(n2) {
        Ok(v) => v,
        Err(e) => {
            return Err(e);
        },
    };
    let v3 = match ProtocolValue::decode(n3) {
        Ok(v) => v,
        Err(e) => {
            return Err(e);
        },
    };
    let ghost gv0 = v0;
    let ghost gv1 = v1;
    let ghost gv2 = v2;
    let ghost gv3 = v3;
    let (fg, bvs, sg, gg) = match (v0, v1, v2, v3) {
        (
            ProtocolValue::List(a),
            ProtocolValue::List(b),
            ProtocolValue::List(c),
            ProtocolValue::List(d),
        ) => (a, b, c, d),
        _ => {
            proof {
                if n0@.name == "list"@ && n1@.name == "list"@ && n2@.name == "list"@ && n3@.name
                    == "list"@ {
                    lemma_rep_list_name(gv0, n0@);
                    lemma_rep_list_name(gv1, n1@);
                    lemma_rep_list_name(gv2, n2@);
                    lemma_rep_list_name(gv3, n3@);
                }
            }
            return Err(DecodeError::InvalidGoals);
        },
    };
    let ghost nc1 = spec_node_children(n1@.children);
    let bg = match extract_background(bvs, Ghost(nc1)) {
        Ok(bg) => bg,
        Err(e) => {
            return Err(e);
        },
    };
    Ok(ProtocolValue::Goals(fg, bg, sg, gg))
}

/// Turns the decoded background list into pairs of goal lists; an entry
/// that is not a pair of two lists makes the whole `<goals>` invalid.
#[verifier::loop_isolation(false)]
fn extract_background(
    bvs: Vec<ProtocolValue>,
    Ghost(ns): Ghost<Seq<SpecNode>>,
) -> (r: Result<Vec<(Vec<ProtocolValue>, Vec<ProtocolValue>)>, DecodeError>)
    requires
        values_rep(bvs@, ns),
    ensures
        match r {
            Ok(bg) => bg_rep(bg@, ns) && forall|i: int|
                0 <= i < ns.len() ==> spec_bg_node_shape(#[trigger] ns[i]),
            Err(e) => e == DecodeError::InvalidGoals && !(forall|i: int|
                0 <= i < ns.len() ==> spec_bg_node_shape(#[trigger] ns[i])),
        },
{
    proof {
        reveal_strlit("unit");
        reveal_strlit("list");
        reveal_strlit("string");
        reveal_strlit("int");
        reveal_strlit("bool");
        reveal_strlit("pair");
        reveal_strlit("option");
        reveal_strlit("state_id");
        reveal_strlit("route_id");
        reveal_strlit("union");
        reveal_strlit("status");
        reveal_strlit("goals");
        reveal_strlit("goal");
        reveal_with_fuel(value_rep, 4);
    }
    let mut bvs = bvs;
    let ghost borig = bvs@;
    let mut bg: Vec<(Vec<ProtocolValue>, Vec<ProtocolValue>)> = Vec::new();
    while bvs.len() > 0
        invariant
            bg@.len() + bvs@.len() == borig.len(),
            bvs@ == borig.skip(bg@.len() as int),
            forall|k: int| 0 <= k < bg@.len() ==> bg_pair_rep(#[trigger] bg@[k], ns[k]),
        decreases bvs@.len(),
    {
        let ghost done = bg@.len() as int;
        proof {
            assert(borig.skip(done)[0] == borig[done]);
            assert(borig.skip(done).remove(0) =~= borig.skip(done + 1));
            assert(value_rep(borig[done], ns[done]));
        }
        let b = bvs.remove(0);
        match b {
            ProtocolValue::Pair(l0, r0) => {
                let ghost gl = *l0;
                let ghost gr = *r0;
                match (*l0, *r0) {
                    (ProtocolValue::List(lv), ProtocolValue::List(rv)) => {
                        proof {
                            let np = ns[done];
                            assert(value_rep(borig[done], np));
                            assert(np.children[0] matches SpecChild::Node(_));
                            assert(np.children[1] matches SpecChild::Node(_));
                            let nl = np.children[0]->Node_0;
                            let nr = np.children[1]->Node_0;
                            assert(value_rep(gl, nl) && value_rep(gr, nr));
                            assert(value_rep(ProtocolValue::List(lv), nl));
                            assert(value_rep(ProtocolValue::List(rv), nr));
                            assert(nl.name == "list"@ && values_rep(
                                lv@,
                                spec_node_children(nl.children),
                            ));
                            assert(nr.name == "list"@ && values_rep(
                                rv@,
                                spec_node_children(nr.children),
                            ));
                            assert(bg_pair_rep((lv, rv), np));
                        }
                        bg.push((lv, rv));
                    },
                    _ => {
                        proof {
                            let np = ns[done];
                            assert(value_rep(borig[done], np));
                            if spec_bg_node_shape(np) {
                                let nl = np.children[0]->Node_0;
                                let nr = np.children[1]->Node_0;
                                assert(value_rep(gl, nl) && value_rep(gr, nr));
                                assert(nl.name == "list"@ && nr.name == "list"@);
                                lemma_rep_list_name(gl, nl);
                                lemma_rep_list_name(gr, nr);
                            }
                            assert(!spec_bg_node_shape(np));
                        }
                        return Err(DecodeError::InvalidGoals);
                    },
                }
            },
            _ => {
                proof {
                    let np = ns[done];
                    assert(value_rep(borig[done], np));
                    if spec_bg_node_shape(np) {
                        lemma_rep_pair_name(borig[done], np);
                    }
                    assert(!spec_bg_node_shape(np));
                }
                return Err(DecodeError::InvalidGoals);
            },
        }
    }
    proof {
        assert(bg@.len() == ns.len());
        assert forall|k: int| 0 <= k < ns.len() implies spec_bg_node_shape(#[trigger] ns[k]) by {
            assert(bg_pair_rep(bg@[k], ns[k]));
        }
    }
    Ok(bg)
}

/// Decodes the hypothesis list of a goal: every child must be a
/// well-formed rich-text node.
#[verifier::loop_isolation(false)]
fn decode_hypotheses(n1: &XMLNode) -> (r: Result<Vec<ProtocolRichPP>, DecodeError>)
    ensures
        match r {
            Ok(hs) => spec_hyps_err(n1@.children) is None && hyps_rep(
                hs@,
                spec_node_children(n1@.children),
            ),
            Err(e) => spec_hyps_err(n1@.children) == Some(e),
        },
{
    let mut hyps: Vec<ProtocolRichPP> = Vec::new();
    proof {
        crate::xml::lemma_children_view_index(n1.children@);
        assert(n1@.children.skip(0) =~= n1@.children);
        assert(n1@.children.take(0) =~= Seq::<SpecChild>::empty());
    }
    let mut i: usize = 0;
    while i < n1.children.len()
        invariant
            i <= n1.children@.len(),
            spec_hyps_err(n1@.children) == spec_hyps_err(n1@.children.skip(i as int)),
            hyps@.len() == spec_node_children(n1@.children.take(i as int)).len(),
            hyps_rep(hyps@, spec_node_children(n1@.children.take(i as int))),
        decreases n1.children@.len() - i,
    {
        proof {
            assert(n1@.children.skip(i as int)[0] == n1@.children[i as int]);
            assert(n1@.children.skip(i as int).drop_first() =~= n1@.children.skip(i + 1));
            assert(n1@.children.take(i + 1) =~= n1@.children.take(i as int).push(
                n1@.children[i as int],
            ));
            lemma_nc_push(n1@.children.take(i as int), n1@.children[i as int]);
        }
        match &n1.children[i] {
            Child::Node(el) => {
                match ProtocolRichPP::decode(el) {
                    Ok(m) => {
                        hyps.push(m);
                        proof {
                            let ncs = spec_node_children(n1@.children.take(i + 1));
                            assert(ncs == spec_node_children(n1@.children.take(i as int)).push(
                                el@,
                            ));
                            assert(hyps_rep(hyps@, ncs));
                        }
                    },
                    Err(e) => {
                        return Err(e);
                    },
                }
            },
            Child::Raw(_) => {
                return Err(DecodeError::InvalidGoal);
            },
        }
        i += 1;
    }
    proof {
        assert(n1@.children.take(n1.children@.len() as int) =~= n1@.children);
        assert(n1@.children.skip(n1.children@.len() as int) =~= Seq::<SpecChild>::empty());
        assert(spec_hyps_err(Seq::<SpecChild>::empty()) is None);
    }
    Ok(hyps)
}

/// Decodes a `<goal>` node: a name, a list of hypotheses, a conclusion.
#[verifier::loop_isolation(false)]
#[verifier::rlimit(100)]
fn decode_goal(xml: &XMLNode) -> (r: Result<ProtocolValue, DecodeError>)
    requires
        xml@.name == "goal"@,
    ensures
        match r {
            Ok(v) => spec_goal_err(xml@) is None && value_rep(v, xml@),
            Err(e) => spec_goal_err(xml@) == Some(e),
        },
    decreases *xml, 0int,
{
    proof {
        reveal_strlit("unit");
        reveal_strlit("list");
        reveal_strlit("string");
        reveal_strlit("int");
        reveal_strlit("bool");
        reveal_strlit("pair");
        reveal_strlit("option");
        reveal_strlit("state_id");
        reveal_strlit("route_id");
        reveal_strlit("union");
        reveal_strlit("status");
        reveal_strlit("goals");
        reveal_strlit("goal");
        reveal_with_fuel(value_rep, 3);
        crate::xml::lemma_children_view_index(xml.children@);
    }
    if xml.children.len() != 3 {
        return Err(DecodeError::InvalidGoal);
    }
    let n0 = match &xml.children[0] {
        Child::Node(n) => n,
        Child::Raw(_) => {
            return Err(DecodeError::InvalidGoal);
        },
    };
    let n1 = match &xml.children[1] {
        Child::Node(n) => n,
        Child::Raw(_) => {
            return Err(DecodeError::InvalidGoal);
        },
    };
    let n2 = match &xml.children[2] {
        Child::Node(n) => n,
        Child::Raw(_) => {
            return Err(DecodeError::InvalidGoal);
        },
    };
    let namev = match ProtocolValue::decode(n0) {
        Ok(v) => v,
        Err(e) => {
            return Err(e);
        },
    };
    let mut hyps: Vec<ProtocolRichPP> = Vec::new();
    if name_is(n1, "list") {
        match decode_hypotheses(n1) {
            Ok(hs) => {
                hyps = hs;
            },
            Err(e) => {
                return Err(e);
            },
        }
    }
    let ccl = match ProtocolRichPP::decode(n2) {
        Ok(m) => m,
        Err(e) => {
            return Err(e);
        },
    };
    Ok(ProtocolValue::Goal(Box::new(namev), hyps, ccl))
}


impl FeedbackContent {
    /// Tries to decode a feedback content element from its node.
    pub fn decode(xml: &XMLNode) -> (r: Result<FeedbackContent, DecodeError>)
        ensures
            match r {
                Ok(f) => spec_feedback_content_err(xml@) is None && feedback_content_rep(f, xml@),
                Err(e) => spec_feedback_content_err(xml@) == Some(e),
            },
    {
        proof {
            crate::xml::lemma_children_view_index(xml.children@);
        }
        let val = match attr_lookup(xml, "val") {
            Some(t) => t,
            None => {
                return Err(DecodeError::InvalidFeedbackContent);
            },
        };
        if val.eq(&String::from_str("processed")) {
            Ok(FeedbackContent::Processed)
        } else if val.eq(&String::from_str("addedaxiom")) {
            Ok(FeedbackContent::AddedAxiom)
        } else if val.eq(&String::from_str("message")) {
            if xml.children.len() < 1 {
                return Err(DecodeError::InvalidFeedbackContent);
            }
            let msg = match &xml.children[0] {
                Child::Node(n) => n,
                Child::Raw(_) => {
                    return Err(DecodeError::InvalidFeedbackContent);
                },
            };
            proof {
                crate::xml::lemma_children_view_index(msg.children@);
            }
            if msg.children.len() < 3 {
                return Err(DecodeError::InvalidFeedbackContent);
            }
            let lv = match &msg.children[0] {
                Child::Node(n) => n,
                Child::Raw(_) => {
                    return Err(DecodeError::InvalidFeedbackContent);
                },
            };
            let level_name = match attr_lookup(lv, "val") {
                Some(t) => t,
                None => {
                    return Err(DecodeError::InvalidFeedbackContent);
                },
            };
            let level = if level_name.eq(&String::from_str("debug")) {
                MessageType::Debug
            } else if level_name.eq(&String::from_str("info")) {
                MessageType::Info
            } else if level_name.eq(&String::from_str("notice")) {
                MessageType::Notice
            } else if level_name.eq(&String::from_str("warning")) {
                MessageType::Warning
            } else if level_name.eq(&String::from_str("error")) {
                MessageType::Error
            } else {
                return Err(DecodeError::InvalidFeedbackContent);
            };
            let rp = match &msg.children[2] {
                Child::Node(n) => n,
                Child::Raw(_) => {
                    return Err(DecodeError::InvalidFeedbackContent);
                },
            };
            match ProtocolRichPP::decode(rp) {
                Ok(m) => Ok(FeedbackContent::Message(level, m)),
                Err(e) => Err(e),
            }
        } else if val.eq(&String::from_str("workerstatus")) {
            if xml.children.len() < 1 {
                return Err(DecodeError::InvalidFeedbackContent);
            }
            match &xml.children[0] {
                Child::Node(n) => Ok(FeedbackContent::WorkerStatus(n.clone())),
                Child::Raw(_) => Err(DecodeError::InvalidFeedbackContent),
            }
        } else if val.eq(&String::from_str("processingin")) {
            if xml.children.len() < 1 {
                return Err(DecodeError::InvalidFeedbackContent);
            }
            match &xml.children[0] {
                Child::Node(n) => Ok(FeedbackContent::Processing(n.clone())),
                Child::Raw(_) => Err(DecodeError::InvalidFeedbackContent),
            }
        } else if val.eq(&String::from_str("fileloaded")) {
            if xml.children.len() < 2 {
                return Err(DecodeError::InvalidFeedbackContent);
            }
            let a = match &xml.children[0] {
                Child::Node(n) => n,
                Child::Raw(_) => {
                    return Err(DecodeError::InvalidFeedbackContent);
                },
            };
            let b = match &xml.children[1] {
                Child::Node(n) => n,
                Child::Raw(_) => {
                    return Err(DecodeError::InvalidFeedbackContent);
                },
            };
            if !name_is(a, "string") || !name_is(b, "string") {
                return Err(DecodeError::InvalidFeedbackContent);
            }
            Ok(FeedbackContent::FileLoaded(a.get_text(), b.get_text()))
        } else {
            Err(DecodeError::InvalidFeedbackContent)
        }
    }
}

impl ProtocolResult {
    /// Tries to decode a result from an XML node: a `<value>` response or
    /// a `<feedback>` notification.
    pub fn decode(xml: &XMLNode) -> (r: Result<ProtocolResult, DecodeError>)
        ensures
            match r {
                Ok(res) => spec_result_err(xml@) is None && result_rep(res, xml@),
                Err(e) => spec_result_err(xml@) == Some(e),
            },
    {
        proof {
            crate::xml::lemma_children_view_index(xml.children@);
        }
        if name_is(xml, "value") {
            let val = match attr_lookup(xml, "val") {
                Some(t) => t,
                None => {
                    return Err(DecodeError::InvalidValue);
                },
            };
            if val.eq(&String::from_str("good")) {
                if xml.children.len() < 1 {
                    return Err(DecodeError::InvalidValue);
                }
                let inner = match &xml.children[0] {
                    Child::Node(n) => n,
                    Child::Raw(_) => {
                        return Err(DecodeError::InvalidValue);
                    },
                };
                match ProtocolValue::decode(inner) {
                    Ok(v) => Ok(ProtocolResult::Good(v)),
                    Err(e) => Err(e),
                }
            } else if val.eq(&String::from_str("fail")) {
                let loc_s: Option<i64> = match attr_lookup(xml, "loc_s") {
                    Some(t) => match parse_i64_str(t) {
                        Some(i) => Some(i),
                        None => {
                            return Err(DecodeError::InvalidValue);
                        },
                    },
                    None => None,
                };
                let loc_e: Option<i64> = match attr_lookup(xml, "loc_e") {
                    Some(t) => match parse_i64_str(t) {
                        Some(i) => Some(i),
                        None => {
                            return Err(DecodeError::InvalidValue);
                        },
                    },
                    None => None,
                };
                let sn = match xml.get_child(String::from_str("state_id")) {
                    Some(n) => n,
                    None => {
                        return Err(DecodeError::InvalidValue);
                    },
                };
                let sid = match ProtocolValue::decode(sn) {
                    Ok(v) => v,
                    Err(e) => {
                        return Err(e);
                    },
                };
                let rn = match xml.get_child(String::from_str("richpp")) {
                    Some(n) => n,
                    None => {
                        return Err(DecodeError::InvalidValue);
                    },
                };
                match ProtocolRichPP::decode(rn) {
                    Ok(m) => Ok(ProtocolResult::Fail(loc_s, loc_e, sid, m)),
                    Err(e) => Err(e),
                }
            } else {
                Err(DecodeError::InvalidValue)
            }
        } else if name_is(xml, "feedback") {
            let object = match attr_lookup(xml, "object") {
                Some(t) => t.clone(),
                None => {
                    return Err(DecodeError::InvalidFeedback);
                },
            };
            let route = match attr_lookup(xml, "route") {
                Some(t) => t.clone(),
                None => {
                    return Err(DecodeError::InvalidFeedback);
                },
            };
            if xml.children.len() < 2 {
                return Err(DecodeError::InvalidFeedback);
            }
            let sn = match &xml.children[0] {
                Child::Node(n) => n,
                Child::Raw(_) => {
                    return Err(DecodeError::InvalidFeedback);
                },
            };
            let cn = match &xml.children[1] {
                Child::Node(n) => n,
                Child::Raw(_) => {
                    return Err(DecodeError::InvalidFeedback);
                },
            };
            let sid = match ProtocolValue::decode(sn) {
                Ok(v) => v,
                Err(e) => {
                    return Err(e);
                },
            };
            match FeedbackContent::decode(cn) {
                Ok(content) => Ok(ProtocolResult::Feedback(object, route, sid, content)),
                Err(e) => Err(e),
            }
        } else {
            Err(DecodeError::InvalidValue)
        }
    }
}

} // verus!
