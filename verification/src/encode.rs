//! The encoder: protocol values and calls become XML wire text.
//!
//! Every value maps to a fixed node shape; the wire text is the rendering
//! of that node.  Goal records only ever travel from the backend to the
//! daemon, so they have no encoding, and neither does a raw `Unknown`
//! value.

use vstd::prelude::*;
use vstd::string::StringExecFns;

use crate::protocol::{ProtocolCall, ProtocolValue};
use crate::strutil::{chars_to_string, i64_dec_chars, spec_i64_dec};
use crate::xml::{render_node, spec_render_node, Child, SpecChild, SpecNode, XMLNode};

verus! {

/// The node for a string value: `<string>text</string>`.
pub open spec fn spec_str_node(s: Seq<char>) -> SpecNode {
    SpecNode {
        name: "string"@,
        attributes: Seq::empty(),
        children: if s.len() == 0 {
            Seq::empty()
        } else {
            seq![SpecChild::Raw(s)]
        },
    }
}

/// The node for an integer value: `<int>n</int>`.
pub open spec fn spec_int_node(i: i64) -> SpecNode {
    SpecNode {
        name: "int"@,
        attributes: Seq::empty(),
        children: seq![SpecChild::Raw(spec_i64_dec(i as int))],
    }
}

/// The node for a boolean value: `<bool val="..."/>`.
pub open spec fn spec_bool_node(b: bool) -> SpecNode {
    SpecNode {
        name: "bool"@,
        attributes: seq![
            ("val"@, if b {
                "true"@
            } else {
                "false"@
            }),
        ],
        children: Seq::empty(),
    }
}

/// The node for a state id: `<state_id val="n"/>`.
pub open spec fn spec_sid_node(i: i64) -> SpecNode {
    SpecNode {
        name: "state_id"@,
        attributes: seq![("val"@, spec_i64_dec(i as int))],
        children: Seq::empty(),
    }
}

/// The node for a unit value: `<unit/>`.
pub open spec fn spec_unit_node() -> SpecNode {
    SpecNode { name: "unit"@, attributes: Seq::empty(), children: Seq::empty() }
}

/// The node for a pair: `<pair>a b</pair>`.
pub open spec fn spec_pair_node(a: SpecNode, b: SpecNode) -> SpecNode {
    SpecNode {
        name: "pair"@,
        attributes: Seq::empty(),
        children: seq![SpecChild::Node(a), SpecChild::Node(b)],
    }
}

/// Whether a value has an encoding: goal records and unknown raw nodes do
/// not.
pub open spec fn spec_value_clean(v: ProtocolValue) -> bool
    decreases v,
{
    match v {
        ProtocolValue::Unit => true,
        ProtocolValue::List(vs) => spec_values_clean(vs@),
        ProtocolValue::Str(_) => true,
        ProtocolValue::Int(_) => true,
        ProtocolValue::Boolean(_) => true,
        ProtocolValue::Pair(a, b) => spec_value_clean(*a) && spec_value_clean(*b),
        ProtocolValue::Optional(o) => match o {
            Some(v) => spec_value_clean(*v),
            None => true,
        },
        ProtocolValue::StateId(_) => true,
        ProtocolValue::RouteId(_) => true,
        ProtocolValue::Inl(v) => spec_value_clean(*v),
        ProtocolValue::Inr(v) => spec_value_clean(*v),
        ProtocolValue::Status(a, b, c, d) => spec_value_clean(*a) && spec_value_clean(*b)
            && spec_value_clean(*c) && spec_value_clean(*d),
        ProtocolValue::Goals(..) => false,
        ProtocolValue::Goal(..) => false,
        ProtocolValue::Unknown(_) => false,
    }
}

/// Whether every value of a list has an encoding.
pub open spec fn spec_values_clean(vs: Seq<ProtocolValue>) -> bool
    decreases vs,
{
    if vs.len() == 0 {
        true
    } else {
        spec_value_clean(vs[0]) && spec_values_clean(vs.drop_first())
    }
}

/// The node shape a value encodes to.
pub open spec fn spec_value_node(v: ProtocolValue) -> SpecNode
    decreases v,
{
    match v {
        ProtocolValue::Unit => spec_unit_node(),
        ProtocolValue::List(vs) => SpecNode {
            name: "list"@,
            attributes: Seq::empty(),
            children: spec_values_children(vs@),
        },
        ProtocolValue::Str(s) => spec_str_node(s@),
        ProtocolValue::Int(i) => spec_int_node(i),
        ProtocolValue::Boolean(b) => spec_bool_node(b),
        ProtocolValue::Pair(a, b) => spec_pair_node(spec_value_node(*a), spec_value_node(*b)),
        ProtocolValue::Optional(o) => match o {
            None => SpecNode {
                name: "option"@,
                attributes: seq![("val"@, "none"@)],
                children: Seq::empty(),
            },
            Some(v) => SpecNode {
                name: "option"@,
                attributes: seq![("val"@, "some"@)],
                children: seq![SpecChild::Node(spec_value_node(*v))],
            },
        },
        ProtocolValue::StateId(i) => spec_sid_node(i),
        ProtocolValue::RouteId(i) => SpecNode {
            name: "route_id"@,
            attributes: seq![("val"@, spec_i64_dec(i as int))],
            children: Seq::empty(),
        },
        ProtocolValue::Inl(v) => SpecNode {
            name: "union"@,
            attributes: seq![("val"@, "in_l"@)],
            children: seq![SpecChild::Node(spec_value_node(*v))],
        },
        ProtocolValue::Inr(v) => SpecNode {
            name: "union"@,
            attributes: seq![("val"@, "in_r"@)],
            children: seq![SpecChild::Node(spec_value_node(*v))],
        },
        ProtocolValue::Status(a, b, c, d) => SpecNode {
            name: "status"@,
            attributes: Seq::empty(),
            children: seq![
                SpecChild::Node(spec_value_node(*a)),
                SpecChild::Node(spec_value_node(*b)),
                SpecChild::Node(spec_value_node(*c)),
                SpecChild::Node(spec_value_node(*d)),
            ],
        },
        ProtocolValue::Goals(..) => spec_unit_node(),
        ProtocolValue::Goal(..) => spec_unit_node(),
        ProtocolValue::Unknown(_) => spec_unit_node(),
    }
}

/// The child nodes a list of values encodes to.
pub open spec fn spec_values_children(vs: Seq<ProtocolValue>) -> Seq<SpecChild>
    decreases vs,
{
    if vs.len() == 0 {
        Seq::empty()
    } else {
        seq![SpecChild::Node(spec_value_node(vs[0]))] + spec_values_children(vs.drop_first())
    }
}

/// Builds the node a value encodes to.
#[verifier::loop_isolation(false)]
fn value_to_node(v: &ProtocolValue) -> (r: XMLNode)
    requires
        spec_value_clean(*v),
    ensures
        r@ == spec_value_node(*v),
    decreases *v,
{
    match v {
        ProtocolValue::Unit => simple_node("unit"),
        ProtocolValue::List(vs) => {
            let mut node = simple_node("list");
            let mut i: usize = 0;
            proof {
                assert(vs@.skip(0) =~= vs@);
                lemma_values_clean_index(vs@);
            }
            while i < vs.len()
                invariant
                    *v == ProtocolValue::List(*vs),
                    i <= vs@.len(),
                    forall|k: int| 0 <= k < vs@.len() ==> spec_value_clean(#[trigger] vs@[k]),
                    node@.name == "list"@,
                    node@.attributes == Seq::<(Seq<char>, Seq<char>)>::empty(),
                    node@.children + spec_values_children(vs@.skip(i as int))
                        == spec_values_children(vs@),
                decreases vs@.len() - i,
            {
                proof {
                    assert(vs@.skip(i as int)[0] == vs@[i as int]);
                    assert(vs@.skip(i as int).drop_first() =~= vs@.skip(i + 1));
                }
                let child = value_to_node(&vs[i]);
                push_node_child(&mut node, child);
                proof {
                    assert(node@.children + spec_values_children(vs@.skip(i + 1))
                        =~= spec_values_children(vs@));
                }
                i += 1;
            }
            proof {
                assert(spec_values_children(vs@.skip(vs@.len() as int)) =~= Seq::<
                    SpecChild,
                >::empty());
                assert(node@.children =~= spec_values_children(vs@));
                assert(node@ == spec_value_node(*v));
            }
            node
        },
        ProtocolValue::Str(s) => {
            let mut node = simple_node("string");
            if s.as_str().unicode_len() > 0 {
                push_raw_child(&mut node, s.clone());
                proof {
                    assert(node@.children =~= spec_value_node(*v).children);
                }
            } else {
                proof {
                    assert(node@.children =~= spec_value_node(*v).children);
                }
            }
            node
        },
        ProtocolValue::Int(i) => {
            let mut node = simple_node("int");
            let digits = chars_to_string(&i64_dec_chars(*i));
            push_raw_child(&mut node, digits);
            proof {
                assert(node@.children =~= spec_value_node(*v).children);
            }
            node
        },
        ProtocolValue::Boolean(b) => {
            let mut node = simple_node("bool");
            let val = if *b {
                String::from_str("true")
            } else {
                String::from_str("false")
            };
            push_attribute(&mut node, String::from_str("val"), val);
            proof {
                assert(node@.attributes =~= spec_value_node(*v).attributes);
            }
            node
        },
        ProtocolValue::Pair(a, b) => {
            let mut node = simple_node("pair");
            let na = value_to_node(a);
            let nb = value_to_node(b);
            push_node_child(&mut node, na);
            push_node_child(&mut node, nb);
            proof {
                assert(node@.children =~= spec_value_node(*v).children);
            }
            node
        },
        ProtocolValue::Optional(o) => {
            let mut node = simple_node("option");
            match o {
                None => {
                    push_attribute(&mut node, String::from_str("val"), String::from_str("none"));
                },
                Some(inner) => {
                    push_attribute(&mut node, String::from_str("val"), String::from_str("some"));
                    let ni = value_to_node(inner);
                    push_node_child(&mut node, ni);
                },
            }
            proof {
                assert(node@.attributes =~= spec_value_node(*v).attributes);
                assert(node@.children =~= spec_value_node(*v).children);
            }
            node
        },
        ProtocolValue::StateId(i) => {
            let mut node = simple_node("state_id");
            push_attribute(&mut node, String::from_str("val"), chars_to_string(&i64_dec_chars(*i)));
            proof {
                assert(node@.attributes =~= spec_value_node(*v).attributes);
            }
            node
        },
        ProtocolValue::RouteId(i) => {
            let mut node = simple_node("route_id");
            push_attribute(&mut node, String::from_str("val"), chars_to_string(&i64_dec_chars(*i)));
            proof {
                assert(node@.attributes =~= spec_value_node(*v).attributes);
            }
            node
        },
        ProtocolValue::Inl(inner) => {
            let mut node = simple_node("union");
            push_attribute(&mut node, String::from_str("val"), String::from_str("in_l"));
            let ni = value_to_node(inner);
            push_node_child(&mut node, ni);
            proof {
                assert(node@.attributes =~= spec_value_node(*v).attributes);
                assert(node@.children =~= spec_value_node(*v).children);
            }
            node
        },
        ProtocolValue::Inr(inner) => {
            let mut node = simple_node("union");
            push_attribute(&mut node, String::from_str("val"), String::from_str("in_r"));
            let ni = value_to_node(inner);
            push_node_child(&mut node, ni);
            proof {
                assert(node@.attributes =~= spec_value_node(*v).attributes);
                assert(node@.children =~= spec_value_node(*v).children);
            }
            node
        },
        ProtocolValue::Status(a, b, c, d) => {
            let mut node = simple_node("status");
            let na = value_to_node(a);
            let nb = value_to_node(b);
            let nc = value_to_node(c);
            let nd = value_to_node(d);
            push_node_child(&mut node, na);
            push_node_child(&mut node, nb);
            push_node_child(&mut node, nc);
            push_node_child(&mut node, nd);
            proof {
                assert(node@.children =~= spec_value_node(*v).children);
            }
            node
        },
        ProtocolValue::Goals(..) => simple_node("unit"),
        ProtocolValue::Goal(..) => simple_node("unit"),
        ProtocolValue::Unknown(_) => simple_node("unit"),
    }
}

/// Clean lists are element-wise clean.
proof fn lemma_values_clean_index(vs: Seq<ProtocolValue>)
    requires
        spec_values_clean(vs),
    ensures
        forall|k: int| 0 <= k < vs.len() ==> spec_value_clean(#[trigger] vs[k]),
    decreases vs.len(),
{
    if vs.len() > 0 {
        lemma_values_clean_index(vs.drop_first());
        assert forall|k: int| 0 <= k < vs.len() implies spec_value_clean(#[trigger] vs[k]) by {
            if k > 0 {
                assert(vs[k] == vs.drop_first()[k - 1]);
            }
        }
    }
}

/// A node with the given name and nothing else.
fn simple_node(name: &str) -> (r: XMLNode)
    ensures
        r@.name == name@,
        r@.attributes == Seq::<(Seq<char>, Seq<char>)>::empty(),
        r@.children == Seq::<SpecChild>::empty(),
{
    let r = XMLNode { name: name.to_owned(), attributes: Vec::new(), children: Vec::new() };
    proof {
        assert(r@.attributes =~= Seq::<(Seq<char>, Seq<char>)>::empty());
    }
    r
}

/// Appends a child node.
fn push_node_child(node: &mut XMLNode, child: XMLNode)
    ensures
        final(node)@.name == old(node)@.name,
        final(node)@.attributes == old(node)@.attributes,
        final(node)@.children == old(node)@.children.push(SpecChild::Node(child@)),
{
    let ghost prev = node.children@;
    node.children.push(Child::Node(child));
    proof {
        crate::xml::lemma_children_view_index(prev);
        crate::xml::lemma_children_view_index(node.children@);
        assert(final(node)@.children =~= old(node)@.children.push(SpecChild::Node(child@)));
    }
}

/// Appends a raw-text child.
fn push_raw_child(node: &mut XMLNode, text: String)
    ensures
        final(node)@.name == old(node)@.name,
        final(node)@.attributes == old(node)@.attributes,
        final(node)@.children == old(node)@.children.push(SpecChild::Raw(text@)),
{
    let ghost prev = node.children@;
    node.children.push(Child::Raw(text));
    proof {
        crate::xml::lemma_children_view_index(prev);
        crate::xml::lemma_children_view_index(node.children@);
        assert(final(node)@.children =~= old(node)@.children.push(SpecChild::Raw(text@)));
    }
}

/// Appends an attribute.
fn push_attribute(node: &mut XMLNode, name: String, value: String)
    ensures
        final(node)@.name == old(node)@.name,
        final(node)@.children == old(node)@.children,
        final(node)@.attributes == old(node)@.attributes.push((name@, value@)),
{
    node.attributes.push((name, value));
    proof {
        assert(final(node)@.attributes =~= old(node)@.attributes.push((name@, value@)));
    }
}

impl ProtocolValue {
    /// Encodes the value as XML wire text.
    pub fn encode(self) -> (r: String)
        requires
            spec_value_clean(self),
        ensures
            r@ == spec_render_node(spec_value_node(self)),
    {
        let node = value_to_node(&self);
        let chars = render_node(&node);
        chars_to_string(&chars)
    }
}

/// The node shape a call encodes to: `<call val="Name">payload</call>`.
pub open spec fn spec_call_node(c: ProtocolCall) -> SpecNode {
    match c {
        ProtocolCall::Init(v) => spec_call_of("Init"@, spec_value_node(v)),
        ProtocolCall::Quit => spec_call_of("Quit"@, spec_unit_node()),
        ProtocolCall::EditAt(sid) => spec_call_of("Edit_at"@, spec_sid_node(sid)),
        ProtocolCall::Query(v) => spec_call_of("Query"@, spec_value_node(v)),
        ProtocolCall::Hints => spec_call_of("Hints"@, spec_unit_node()),
        ProtocolCall::Goal => spec_call_of("Goal"@, spec_unit_node()),
        ProtocolCall::Add(code, sid) => spec_call_of(
            "Add"@,
            spec_pair_node(
                spec_pair_node(spec_str_node(code@), spec_int_node(-1i64)),
                spec_pair_node(spec_sid_node(sid), spec_bool_node(true)),
            ),
        ),
        ProtocolCall::Status(v) => spec_call_of("Status"@, spec_value_node(v)),
    }
}

/// A `<call val="name">` node around a payload.
pub open spec fn spec_call_of(name: Seq<char>, payload: SpecNode) -> SpecNode {
    SpecNode {
        name: "call"@,
        attributes: seq![("val"@, name)],
        children: seq![SpecChild::Node(payload)],
    }
}

/// Whether a call's payload has an encoding.
pub open spec fn spec_call_clean(c: ProtocolCall) -> bool {
    match c {
        ProtocolCall::Init(v) => spec_value_clean(v),
        ProtocolCall::Query(v) => spec_value_clean(v),
        ProtocolCall::Status(v) => spec_value_clean(v),
        _ => true,
    }
}

impl ProtocolCall {
    /// Encodes the call as XML wire text.
    pub fn encode(self) -> (r: String)
        requires
            spec_call_clean(self),
        ensures
            r@ == spec_render_node(spec_call_node(self)),
    {
        let (name, payload): (&str, XMLNode) = match &self {
            ProtocolCall::Init(v) => ("Init", value_to_node(v)),
            ProtocolCall::Quit => ("Quit", simple_node("unit")),
            ProtocolCall::EditAt(sid) => {
                ("Edit_at", value_to_node(&ProtocolValue::StateId(*sid)))
            },
            ProtocolCall::Query(v) => ("Query", value_to_node(v)),
            ProtocolCall::Hints => ("Hints", simple_node("unit")),
            ProtocolCall::Goal => ("Goal", simple_node("unit")),
            ProtocolCall::Add(code, sid) => {
                let code_value = ProtocolValue::Str(code.clone());
                let offset_value = ProtocolValue::Int(-1);
                proof {
                    assert(spec_value_clean(code_value));
                    assert(spec_value_clean(offset_value));
                    assert(spec_value_node(code_value) == spec_str_node(code@));
                    assert(spec_value_node(offset_value) == spec_int_node(-1i64));
                }
                let first = ProtocolValue::Pair(Box::new(code_value), Box::new(offset_value));
                proof {
                    assert(spec_value_clean(first));
                    assert(spec_value_node(first) == spec_pair_node(
                        spec_str_node(code@),
                        spec_int_node(-1i64),
                    ));
                }
                let sid_value = ProtocolValue::StateId(*sid);
                let flag_value = ProtocolValue::Boolean(true);
                proof {
                    assert(spec_value_clean(sid_value));
                    assert(spec_value_clean(flag_value));
                    assert(spec_value_node(sid_value) == spec_sid_node(*sid));
                    assert(spec_value_node(flag_value) == spec_bool_node(true));
                }
                let second = ProtocolValue::Pair(Box::new(sid_value), Box::new(flag_value));
                proof {
                    assert(spec_value_clean(second));
                    assert(spec_value_node(second) == spec_pair_node(
                        spec_sid_node(*sid),
                        spec_bool_node(true),
                    ));
                }
                let payload = ProtocolValue::Pair(Box::new(first), Box::new(second));
                proof {
                    assert(spec_value_clean(payload));
                }
                ("Add", value_to_node(&payload))
            },
            ProtocolCall::Status(v) => ("Status", value_to_node(v)),
        };
        let mut node = simple_node("call");
        push_attribute(&mut node, String::from_str("val"), name.to_owned());
        push_node_child(&mut node, payload);
        proof {
            assert(node@.attributes =~= spec_call_node(self).attributes);
            assert(node@.children =~= spec_call_node(self).children);
        }
        let chars = render_node(&node);
        chars_to_string(&chars)
    }
}

} // verus!
