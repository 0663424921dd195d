//! The protocol codec: encoding shapes, decoding from nodes, escape
//! round trips, and the error kinds.

use coqide_daemon::protocol::{
    DecodeError, FeedbackContent, MessageType, ProtocolCall, ProtocolResult, ProtocolRichPP,
    ProtocolRichPPPart, ProtocolValue,
};
use coqide_daemon::xml::{escape, render_node, unescape, Child, XMLNode};

fn node(name: &str, attrs: Vec<(&str, &str)>, children: Vec<Child>) -> XMLNode {
    XMLNode {
        name: name.to_string(),
        attributes: attrs
            .into_iter()
            .map(|(k, v)| (k.to_string(), v.to_string()))
            .collect(),
        children,
    }
}

fn text(t: &str) -> Child {
    Child::Raw(t.to_string())
}

#[test]
fn unit_encodes_self_closing() {
    assert_eq!(ProtocolValue::Unit.encode(), "<unit/>");
}

#[test]
fn scalar_values_encode_to_their_shapes() {
    assert_eq!(ProtocolValue::Int(-42).encode(), "<int>-42</int>");
    assert_eq!(ProtocolValue::Boolean(true).encode(), "<bool val=\"true\"/>");
    assert_eq!(ProtocolValue::StateId(3).encode(), "<state_id val=\"3\"/>");
    assert_eq!(ProtocolValue::RouteId(0).encode(), "<route_id val=\"0\"/>");
    assert_eq!(
        ProtocolValue::Str("a<b&c".to_string()).encode(),
        "<string>a&lt;b&amp;c</string>"
    );
    assert_eq!(ProtocolValue::Optional(None).encode(), "<option val=\"none\"/>");
}

#[test]
fn compound_values_nest() {
    let v = ProtocolValue::Pair(
        Box::new(ProtocolValue::StateId(2)),
        Box::new(ProtocolValue::Inl(Box::new(ProtocolValue::Unit))),
    );
    assert_eq!(
        v.encode(),
        "<pair><state_id val=\"2\"/><union val=\"in_l\"><unit/></union></pair>"
    );
    let l = ProtocolValue::List(vec![ProtocolValue::Int(1), ProtocolValue::Int(2)]);
    assert_eq!(l.encode(), "<list><int>1</int><int>2</int></list>");
}

#[test]
fn add_calls_carry_the_code_and_the_state_id() {
    let call = ProtocolCall::Add("auto.".to_string(), 7);
    assert_eq!(
        call.encode(),
        "<call val=\"Add\"><pair><pair><string>auto.</string><int>-1</int></pair>\
         <pair><state_id val=\"7\"/><bool val=\"true\"/></pair></pair></call>"
    );
    assert_eq!(
        ProtocolCall::EditAt(3).encode(),
        "<call val=\"Edit_at\"><state_id val=\"3\"/></call>"
    );
    assert_eq!(ProtocolCall::Quit.encode(), "<call val=\"Quit\"><unit/></call>");
}

#[test]
fn decoding_undoes_encoding_on_a_compound_value() {
    // the wire form of Pair(StateId 2, Inr(StateId 4)), built as nodes
    let n = node(
        "pair",
        vec![],
        vec![
            Child::Node(node("state_id", vec![("val", "2")], vec![])),
            Child::Node(node(
                "union",
                vec![("val", "in_r")],
                vec![Child::Node(node("state_id", vec![("val", "4")], vec![]))],
            )),
        ],
    );
    let decoded = ProtocolValue::decode(&n).expect("well-formed");
    match decoded {
        ProtocolValue::Pair(a, b) => {
            assert!(matches!(*a, ProtocolValue::StateId(2)));
            match *b {
                ProtocolValue::Inr(inner) => assert!(matches!(*inner, ProtocolValue::StateId(4))),
                other => panic!("expected Inr, got {:?}", other),
            }
        },
        other => panic!("expected a pair, got {:?}", other),
    }
}

#[test]
fn encode_then_decode_yields_the_original_value() {
    // encoding a value and reading its node back gives the same value
    let v = ProtocolValue::Pair(
        Box::new(ProtocolValue::Str("x<y".to_string())),
        Box::new(ProtocolValue::List(vec![
            ProtocolValue::Boolean(false),
            ProtocolValue::Optional(Some(Box::new(ProtocolValue::Int(-7)))),
        ])),
    );
    let expected = format!("{:?}", v);
    // the same node shape the encoder renders
    let n = node(
        "pair",
        vec![],
        vec![
            Child::Node(node("string", vec![], vec![text("x<y")])),
            Child::Node(node(
                "list",
                vec![],
                vec![
                    Child::Node(node("bool", vec![("val", "false")], vec![])),
                    Child::Node(node(
                        "option",
                        vec![("val", "some")],
                        vec![Child::Node(node("int", vec![], vec![text("-7")]))],
                    )),
                ],
            )),
        ],
    );
    let rendered: String = render_node(&n).into_iter().collect();
    assert_eq!(rendered, v.encode());
    let decoded = ProtocolValue::decode(&n).expect("well-formed");
    assert_eq!(format!("{:?}", decoded), expected);
}

#[test]
fn unknown_elements_decode_to_unknown() {
    let n = node("mystery", vec![], vec![]);
    assert!(matches!(ProtocolValue::decode(&n), Ok(ProtocolValue::Unknown(_))));
}

#[test]
fn malformed_shapes_report_their_tag() {
    let bad_unit = node("unit", vec![("val", "1")], vec![]);
    assert!(matches!(ProtocolValue::decode(&bad_unit), Err(DecodeError::InvalidUnit)));
    let bad_pair = node("pair", vec![], vec![text("lonely")]);
    assert!(matches!(ProtocolValue::decode(&bad_pair), Err(DecodeError::InvalidPair)));
    let bad_bool = node("bool", vec![("val", "maybe")], vec![]);
    assert!(matches!(ProtocolValue::decode(&bad_bool), Err(DecodeError::InvalidBoolean)));
    let bad_int = node("int", vec![], vec![text("twelve")]);
    assert!(matches!(ProtocolValue::decode(&bad_int), Err(DecodeError::InvalidInteger)));
    let bad_sid = node("state_id", vec![], vec![]);
    assert!(matches!(ProtocolValue::decode(&bad_sid), Err(DecodeError::InvalidStateId)));
    let bad_option = node("option", vec![("val", "maybe")], vec![]);
    assert!(matches!(ProtocolValue::decode(&bad_option), Err(DecodeError::InvalidOption)));
    assert_eq!(DecodeError::InvalidUnit.message(), "Invalid <unit/> tag");
}

#[test]
fn integer_bounds_are_respected() {
    let max = node("int", vec![], vec![text("9223372036854775807")]);
    assert!(matches!(ProtocolValue::decode(&max), Ok(ProtocolValue::Int(i64::MAX))));
    let min = node("int", vec![], vec![text("-9223372036854775808")]);
    assert!(matches!(ProtocolValue::decode(&min), Ok(ProtocolValue::Int(i64::MIN))));
    let over = node("int", vec![], vec![text("9223372036854775808")]);
    assert!(matches!(ProtocolValue::decode(&over), Err(DecodeError::InvalidInteger)));
}

#[test]
fn good_responses_decode_with_their_value() {
    let n = node(
        "value",
        vec![("val", "good")],
        vec![Child::Node(node("state_id", vec![("val", "2")], vec![]))],
    );
    match ProtocolResult::decode(&n) {
        Ok(ProtocolResult::Good(ProtocolValue::StateId(2))) => {},
        other => panic!("expected Good(StateId 2), got {:?}", other),
    }
}

#[test]
fn fail_responses_carry_the_safe_state_and_the_message() {
    let richpp = node(
        "richpp",
        vec![],
        vec![Child::Node(node(
            "_",
            vec![],
            vec![Child::Node(node("pp", vec![], vec![text("oops")]))],
        ))],
    );
    let n = node(
        "value",
        vec![("val", "fail"), ("loc_s", "3"), ("loc_e", "9")],
        vec![
            Child::Node(node("state_id", vec![("val", "2")], vec![])),
            Child::Node(richpp),
        ],
    );
    match ProtocolResult::decode(&n) {
        Ok(ProtocolResult::Fail(Some(3), Some(9), ProtocolValue::StateId(2), m)) => {
            let ProtocolRichPP::RichPP(parts) = m;
            assert!(matches!(&parts[0], ProtocolRichPPPart::Raw(t) if t == "oops"));
        },
        other => panic!("expected a Fail, got {:?}", other),
    }
}

#[test]
fn feedback_decodes_its_level_and_content() {
    let message = node(
        "message",
        vec![],
        vec![
            Child::Node(node("message_level", vec![("val", "notice")], vec![])),
            Child::Node(node("option", vec![("val", "none")], vec![])),
            Child::Node(node(
                "richpp",
                vec![],
                vec![Child::Node(node(
                    "_",
                    vec![],
                    vec![Child::Node(node(
                        "pp",
                        vec![],
                        vec![
                            text("x = "),
                            Child::Node(node("constr.keyword", vec![], vec![text("nat")])),
                        ],
                    ))],
                ))],
            )),
        ],
    );
    let n = node(
        "feedback",
        vec![("object", "state"), ("route", "0")],
        vec![
            Child::Node(node("state_id", vec![("val", "5")], vec![])),
            Child::Node(node(
                "feedback_content",
                vec![("val", "message")],
                vec![Child::Node(message)],
            )),
        ],
    );
    match ProtocolResult::decode(&n) {
        Ok(ProtocolResult::Feedback(object, route, ProtocolValue::StateId(5), content)) => {
            assert_eq!(object, "state");
            assert_eq!(route, "0");
            match content {
                FeedbackContent::Message(MessageType::Notice, ProtocolRichPP::RichPP(parts)) => {
                    assert!(matches!(&parts[0], ProtocolRichPPPart::Raw(t) if t == "x = "));
                    assert!(matches!(&parts[1], ProtocolRichPPPart::Keyword(t) if t == "nat"));
                },
                other => panic!("expected a notice message, got {:?}", other),
            }
        },
        other => panic!("expected feedback, got {:?}", other),
    }
}

#[test]
fn goals_decode_into_the_four_lists() {
    let goal = |name: &str, ccl: &str| {
        Child::Node(node(
            "goal",
            vec![],
            vec![
                Child::Node(node("string", vec![], vec![text(name)])),
                Child::Node(node("list", vec![], vec![])),
                Child::Node(node(
                    "richpp",
                    vec![],
                    vec![Child::Node(node(
                        "_",
                        vec![],
                        vec![Child::Node(node("pp", vec![], vec![text(ccl)]))],
                    ))],
                )),
            ],
        ))
    };
    let n = node(
        "goals",
        vec![],
        vec![
            Child::Node(node("list", vec![], vec![goal("g1", "True")])),
            Child::Node(node("list", vec![], vec![])),
            Child::Node(node("list", vec![], vec![])),
            Child::Node(node("list", vec![], vec![])),
        ],
    );
    match ProtocolValue::decode(&n) {
        Ok(ProtocolValue::Goals(fg, bg, sg, gg)) => {
            assert_eq!(fg.len(), 1);
            assert!(bg.is_empty() && sg.is_empty() && gg.is_empty());
            assert!(matches!(&fg[0], ProtocolValue::Goal(..)));
        },
        other => panic!("expected goals, got {:?}", other),
    }
}

#[test]
fn xml_escape_round_trips() {
    let original = "a < b && c > d (* \"quoted\" *)".to_string();
    let escaped = escape(original.clone());
    assert_eq!(escaped, "a &lt; b &amp;&amp; c &gt; d (* \"quoted\" *)");
    assert_eq!(unescape(escaped), original);
    assert_eq!(unescape("&nbsp;&apos;&quot;&#40;&#41;".to_string()), " '\"()");
}

#[test]
fn node_rendering_is_the_wire_form() {
    let n = node(
        "bool",
        vec![("val", "true")],
        vec![],
    );
    let rendered: String = render_node(&n).into_iter().collect();
    assert_eq!(rendered, "<bool val=\"true\"/>");
    let n = node("string", vec![], vec![text("x<y")]);
    let rendered: String = render_node(&n).into_iter().collect();
    assert_eq!(rendered, "<string>x&lt;y</string>");
}

#[test]
fn get_text_and_get_child_read_the_node() {
    let n = node(
        "outer",
        vec![],
        vec![
            text("a"),
            Child::Node(node("inner", vec![], vec![text("b")])),
            text("c"),
        ],
    );
    assert_eq!(n.get_text(), "ac");
    let inner = n.get_child("inner".to_string()).expect("child");
    assert_eq!(inner.get_text(), "b");
    assert!(n.get_child("absent".to_string()).is_none());
    assert!(n.children[1].as_node().is_some());
    assert!(n.children[0].raw().is_some());
}

#[test]
fn unit_nodes_decode_to_unit() {
    let n = node("unit", vec![], vec![]);
    assert!(matches!(ProtocolValue::decode(&n), Ok(ProtocolValue::Unit)));
}
