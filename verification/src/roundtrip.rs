//! The codec round trip: encoding a value and decoding the resulting node
//! yields the value back, for every value the encoder accepts.

use vstd::prelude::*;

use crate::decode::{
    all_digits, digit_val, is_digit, spec_attr, spec_children_values_err, spec_node_children,
    spec_parse_i64, spec_value_err, value_rep, values_rep, spec_digits_val,
};
use crate::encode::{
    spec_value_clean, spec_value_node, spec_values_children, spec_values_clean,
};
use crate::protocol::ProtocolValue;
use crate::strutil::{digit_char, spec_i64_dec, spec_u64_dec};
use crate::xml::{spec_text_of, SpecChild, SpecNode};

verus! {

/// Two values carry the same content: the same shape with the same
/// numbers, booleans and string contents.
pub open spec fn values_alike(a: ProtocolValue, b: ProtocolValue) -> bool
    decreases a,
{
    match (a, b) {
        (ProtocolValue::Unit, ProtocolValue::Unit) => true,
        (ProtocolValue::List(xs), ProtocolValue::List(ys)) => lists_alike(xs@, ys@),
        (ProtocolValue::Str(x), ProtocolValue::Str(y)) => x@ == y@,
        (ProtocolValue::Int(x), ProtocolValue::Int(y)) => x == y,
        (ProtocolValue::Boolean(x), ProtocolValue::Boolean(y)) => x == y,
        (ProtocolValue::Pair(x1, x2), ProtocolValue::Pair(y1, y2)) => values_alike(*x1, *y1)
            && values_alike(*x2, *y2),
        (ProtocolValue::Optional(x), ProtocolValue::Optional(y)) => match (x, y) {
            (None, None) => true,
            (Some(xi), Some(yi)) => values_alike(*xi, *yi),
            _ => false,
        },
        (ProtocolValue::StateId(x), ProtocolValue::StateId(y)) => x == y,
        (ProtocolValue::RouteId(x), ProtocolValue::RouteId(y)) => x == y,
        (ProtocolValue::Inl(x), ProtocolValue::Inl(y)) => values_alike(*x, *y),
        (ProtocolValue::Inr(x), ProtocolValue::Inr(y)) => values_alike(*x, *y),
        (ProtocolValue::Status(x1, x2, x3, x4), ProtocolValue::Status(y1, y2, y3, y4)) =>
            values_alike(*x1, *y1) && values_alike(*x2, *y2) && values_alike(*x3, *y3)
            && values_alike(*x4, *y4),
        _ => false,
    }
}

/// Element-wise likeness of two value lists.
pub open spec fn lists_alike(xs: Seq<ProtocolValue>, ys: Seq<ProtocolValue>) -> bool
    decreases xs,
{
    xs.len() == ys.len() && forall|i: int|
        0 <= i < xs.len() ==> values_alike(#[trigger] xs[i], ys[i])
}

/// Every character of a decimal rendering is a digit, the rendering is
/// nonempty, and it denotes the number it was made from.
proof fn lemma_u64_dec_digits(n: int)
    requires
        n >= 0,
    ensures
        spec_u64_dec(n).len() >= 1,
        all_digits(spec_u64_dec(n)),
        spec_digits_val(spec_u64_dec(n)) == n,
    decreases n,
{
    if n < 10 {
        assert(spec_u64_dec(n) == seq![digit_char(n)]);
        assert(digit_char(n) as int == n + 48);
        assert(is_digit(digit_char(n)));
        assert(spec_u64_dec(n).drop_last() =~= Seq::<char>::empty());
        assert(spec_u64_dec(n).last() == digit_char(n));
        assert(spec_digits_val(Seq::<char>::empty()) == 0);
        assert(spec_digits_val(spec_u64_dec(n)) == digit_val(digit_char(n)));
        assert(digit_val(digit_char(n)) == n);
    } else {
        lemma_u64_dec_digits(n / 10);
        let prefix = spec_u64_dec(n / 10);
        let s = spec_u64_dec(n);
        assert(s == prefix.push(digit_char(n % 10)));
        assert(s.drop_last() =~= prefix);
        assert(s.last() == digit_char(n % 10));
        assert(digit_char(n % 10) as int == n % 10 + 48);
        assert(is_digit(digit_char(n % 10)) && digit_val(digit_char(n % 10)) == n % 10);
        assert forall|i: int| 0 <= i < s.len() implies is_digit(#[trigger] s[i]) by {
            if i < prefix.len() {
                assert(s[i] == prefix[i]);
            }
        }
        assert(spec_digits_val(s) == spec_digits_val(prefix) * 10 + (n % 10));
        assert(spec_digits_val(prefix) * 10 + n % 10 == n) by (nonlinear_arith)
            requires
                spec_digits_val(prefix) == n / 10,
                n >= 10,
        ;
    }
}

/// Parsing a decimal rendering gives the number back.
pub proof fn lemma_parse_i64_dec(i: i64)
    ensures
        spec_parse_i64(spec_i64_dec(i as int)) == Some(i),
{
    if i >= 0 {
        let s = spec_i64_dec(i as int);
        assert(s == spec_u64_dec(i as int));
        lemma_u64_dec_digits(i as int);
        assert(is_digit(s[0]));
        assert('-' as int == 45 && '+' as int == 43 && '0' as int == 48 && '9' as int == 57);
        assert(s[0] != '-' && s[0] != '+');
        assert(spec_parse_i64(s) == Some(i));
    } else {
        let m = -(i as int);
        let s = spec_i64_dec(i as int);
        assert(s == seq!['-'].add(spec_u64_dec(m)));
        lemma_u64_dec_digits(m);
        assert(s[0] == '-');
        assert(s.drop_first() =~= spec_u64_dec(m));
        assert(spec_digits_val(s.drop_first()) == m);
        assert(-m >= i64::MIN);
        assert(spec_parse_i64(s) == Some(i));
    }
}

/// The lengths and distinguishing characters of the element names and
/// attribute values the codec uses: enough to tell any two of them apart.
proof fn lemma_name_facts()
    ensures
        "unit"@.len() == 4 && "unit"@[0] == 'u' && "unit"@[2] == 'i',
        "list"@.len() == 4 && "list"@[0] == 'l' && "list"@[2] == 's',
        "string"@.len() == 6 && "string"@[0] == 's' && "string"@[2] == 'r',
        "int"@.len() == 3 && "int"@[0] == 'i' && "int"@[2] == 't',
        "bool"@.len() == 4 && "bool"@[0] == 'b' && "bool"@[2] == 'o',
        "pair"@.len() == 4 && "pair"@[0] == 'p' && "pair"@[2] == 'i',
        "option"@.len() == 6 && "option"@[0] == 'o' && "option"@[2] == 't',
        "state_id"@.len() == 8 && "state_id"@[0] == 's' && "state_id"@[2] == 'a',
        "route_id"@.len() == 8 && "route_id"@[0] == 'r' && "route_id"@[2] == 'u',
        "union"@.len() == 5 && "union"@[0] == 'u' && "union"@[2] == 'i',
        "status"@.len() == 6 && "status"@[0] == 's' && "status"@[2] == 'a',
        "goals"@.len() == 5 && "goals"@[0] == 'g' && "goals"@[2] == 'a',
        "goal"@.len() == 4 && "goal"@[0] == 'g' && "goal"@[2] == 'a',
        "true"@.len() == 4 && "true"@[0] == 't',
        "false"@.len() == 5 && "false"@[0] == 'f',
        "some"@.len() == 4 && "some"@[0] == 's',
        "none"@.len() == 4 && "none"@[0] == 'n',
        "in_l"@.len() == 4 && "in_l"@[3] == 'l',
        "in_r"@.len() == 4 && "in_r"@[3] == 'r',
{
    reveal_strlit("unit");
    reveal_strlit("list");
    reveal_strlit("string");
    reveal_strlit("int");
    reveal_strlit("bool");
    reveal_strlit("pair");
    reveal_strlit("option");
    reveal_strlit("state_id");
    reveal_strlit("route_id");
    reveal_strlit("union");
    reveal_strlit("status");
    reveal_strlit("goals");
    reveal_strlit("goal");
    reveal_strlit("true");
    reveal_strlit("false");
    reveal_strlit("some");
    reveal_strlit("none");
    reveal_strlit("in_l");
    reveal_strlit("in_r");
}

/// What the node name forces the decoded value's shape to be.
proof fn lemma_rep_shape(w: ProtocolValue, n: SpecNode)
    requires
        value_rep(w, n),
    ensures
        n.name == "unit"@ ==> w matches ProtocolValue::Unit,
        n.name == "list"@ ==> w matches ProtocolValue::List(_),
        n.name == "string"@ ==> w matches ProtocolValue::Str(_),
        n.name == "int"@ ==> w matches ProtocolValue::Int(_),
        n.name == "bool"@ ==> w matches ProtocolValue::Boolean(_),
        n.name == "pair"@ ==> w matches ProtocolValue::Pair(_, _),
        n.name == "option"@ ==> w matches ProtocolValue::Optional(_),
        n.name == "state_id"@ ==> w matches ProtocolValue::StateId(_),
        n.name == "route_id"@ ==> w matches ProtocolValue::RouteId(_),
        n.name == "union"@ ==> (w matches ProtocolValue::Inl(_) || w
            matches ProtocolValue::Inr(_)),
        n.name == "status"@ ==> w matches ProtocolValue::Status(..),
{
    lemma_name_facts();
    match w {
        ProtocolValue::Unit => {
            assert(n.name == "unit"@);
        },
        ProtocolValue::List(_) => {
            assert(n.name == "list"@);
        },
        ProtocolValue::Str(_) => {
            assert(n.name == "string"@);
        },
        ProtocolValue::Int(_) => {
            assert(n.name == "int"@);
        },
        ProtocolValue::Boolean(_) => {
            assert(n.name == "bool"@);
        },
        ProtocolValue::Pair(_, _) => {
            assert(n.name == "pair"@);
        },
        ProtocolValue::Optional(_) => {
            assert(n.name == "option"@);
        },
        ProtocolValue::StateId(_) => {
            assert(n.name == "state_id"@);
        },
        ProtocolValue::RouteId(_) => {
            assert(n.name == "route_id"@);
        },
        ProtocolValue::Inl(_) => {
            assert(n.name == "union"@);
        },
        ProtocolValue::Inr(_) => {
            assert(n.name == "union"@);
        },
        ProtocolValue::Status(..) => {
            assert(n.name == "status"@);
        },
        ProtocolValue::Goals(..) => {
            assert(n.name == "goals"@);
        },
        ProtocolValue::Goal(..) => {
            assert(n.name == "goal"@);
        },
        ProtocolValue::Unknown(_) => {
            assert(!crate::decode::known_value_name(n.name));
        },
    }
}

/// The node children of an encoded list are the encoded elements.
proof fn lemma_children_of_values(vs: Seq<ProtocolValue>)
    ensures
        spec_node_children(spec_values_children(vs)).len() == vs.len(),
        forall|i: int|
            0 <= i < vs.len() ==> spec_node_children(spec_values_children(vs))[i]
                == spec_value_node(#[trigger] vs[i]),
    decreases vs.len(),
{
    if vs.len() == 0 {
        assert(spec_values_children(vs) =~= Seq::<SpecChild>::empty());
        assert(spec_node_children(Seq::<SpecChild>::empty()) =~= Seq::<SpecNode>::empty());
    } else {
        lemma_children_of_values(vs.drop_first());
        let cs = spec_values_children(vs);
        assert(cs == seq![SpecChild::Node(spec_value_node(vs[0]))] + spec_values_children(
            vs.drop_first(),
        ));
        assert(cs[0] == SpecChild::Node(spec_value_node(vs[0])));
        assert(cs.drop_first() =~= spec_values_children(vs.drop_first()));
        assert forall|i: int| 0 <= i < vs.len() implies spec_node_children(cs)[i]
            == spec_value_node(#[trigger] vs[i]) by {
            if i > 0 {
                assert(vs[i] == vs.drop_first()[i - 1]);
            }
        }
    }
}

/// A clean list is element-wise clean.
proof fn lemma_clean_elements(vs: Seq<ProtocolValue>)
    requires
        spec_values_clean(vs),
    ensures
        forall|i: int| 0 <= i < vs.len() ==> spec_value_clean(#[trigger] vs[i]),
    decreases vs.len(),
{
    if vs.len() > 0 {
        lemma_clean_elements(vs.drop_first());
        assert forall|i: int| 0 <= i < vs.len() implies spec_value_clean(#[trigger] vs[i]) by {
            if i > 0 {
                assert(vs[i] == vs.drop_first()[i - 1]);
            }
        }
    }
}

/// The text inside an encoded string or integer node.
proof fn lemma_text_of_one(s: Seq<char>)
    ensures
        spec_text_of(seq![SpecChild::Raw(s)]) == s,
        spec_text_of(Seq::<SpecChild>::empty()) == Seq::<char>::empty(),
{
    let one = seq![SpecChild::Raw(s)];
    assert(one.drop_first() =~= Seq::<SpecChild>::empty());
    assert(spec_text_of(Seq::<SpecChild>::empty()) =~= Seq::<char>::empty());
    assert(spec_text_of(one) =~= s);
}

/// Decoding an encoded value yields the original back.
pub proof fn lemma_round_trip(v: ProtocolValue, w: ProtocolValue)
    requires
        spec_value_clean(v),
        value_rep(w, spec_value_node(v)),
    ensures
        values_alike(w, v),
    decreases v, 1int,
{
    lemma_name_facts();
    let n = spec_value_node(v);
    lemma_rep_shape(w, n);
    match v {
        ProtocolValue::Unit => {},
        ProtocolValue::List(vs) => {
            match w {
                ProtocolValue::List(ws) => {
                    lemma_children_of_values(vs@);
                    lemma_clean_elements(vs@);
                    lemma_round_trip_list(vs@, ws@);
                },
                _ => {},
            }
        },
        ProtocolValue::Str(s) => {
            match w {
                ProtocolValue::Str(s2) => {
                    if s@.len() == 0 {
                        lemma_text_of_one(Seq::<char>::empty());
                        assert(s2@ == Seq::<char>::empty());
                        assert(s2@ =~= s@);
                    } else {
                        lemma_text_of_one(s@);
                    }
                },
                _ => {},
            }
        },
        ProtocolValue::Int(i) => {
            match w {
                ProtocolValue::Int(i2) => {
                    lemma_text_of_one(spec_i64_dec(i as int));
                    lemma_parse_i64_dec(i);
                },
                _ => {},
            }
        },
        ProtocolValue::Boolean(b) => {
            match w {
                ProtocolValue::Boolean(b2) => {
                    if b2 != b {
                        assert("true"@ != "false"@);
                        assert(spec_attr(n.attributes, "val"@) == Some(
                            if b {
                                "true"@
                            } else {
                                "false"@
                            },
                        ));
                    }
                },
                _ => {},
            }
        },
        ProtocolValue::Pair(a, b) => {
            match w {
                ProtocolValue::Pair(wa, wb) => {
                    assert(n.children[0] == SpecChild::Node(spec_value_node(*a)));
                    assert(n.children[1] == SpecChild::Node(spec_value_node(*b)));
                    lemma_round_trip(*a, *wa);
                    lemma_round_trip(*b, *wb);
                },
                _ => {},
            }
        },
        ProtocolValue::Optional(o) => {
            match w {
                ProtocolValue::Optional(o2) => {
                    match (o, o2) {
                        (None, None) => {},
                        (Some(inner), Some(wi)) => {
                            assert(n.children[0] == SpecChild::Node(spec_value_node(*inner)));
                            lemma_round_trip(*inner, *wi);
                        },
                        (None, Some(_)) => {
                            assert("some"@ != "none"@);
                        },
                        (Some(_), None) => {
                            assert("some"@ != "none"@);
                        },
                    }
                },
                _ => {},
            }
        },
        ProtocolValue::StateId(i) => {
            match w {
                ProtocolValue::StateId(i2) => {
                    lemma_parse_i64_dec(i);
                },
                _ => {},
            }
        },
        ProtocolValue::RouteId(i) => {
            match w {
                ProtocolValue::RouteId(i2) => {
                    lemma_parse_i64_dec(i);
                },
                _ => {},
            }
        },
        ProtocolValue::Inl(inner) => {
            match w {
                ProtocolValue::Inl(wi) => {
                    assert(n.children[0] == SpecChild::Node(spec_value_node(*inner)));
                    lemma_round_trip(*inner, *wi);
                },
                ProtocolValue::Inr(_) => {
                    assert("in_l"@ != "in_r"@);
                },
                _ => {},
            }
        },
        ProtocolValue::Inr(inner) => {
            match w {
                ProtocolValue::Inr(wi) => {
                    assert(n.children[0] == SpecChild::Node(spec_value_node(*inner)));
                    lemma_round_trip(*inner, *wi);
                },
                ProtocolValue::Inl(_) => {
                    assert("in_l"@ != "in_r"@);
                },
                _ => {},
            }
        },
        ProtocolValue::Status(a, b, c, d) => {
            match w {
                ProtocolValue::Status(wa, wb, wc, wd) => {
                    assert(n.children[0] == SpecChild::Node(spec_value_node(*a)));
                    assert(n.children[1] == SpecChild::Node(spec_value_node(*b)));
                    assert(n.children[2] == SpecChild::Node(spec_value_node(*c)));
                    assert(n.children[3] == SpecChild::Node(spec_value_node(*d)));
                    lemma_round_trip(*a, *wa);
                    lemma_round_trip(*b, *wb);
                    lemma_round_trip(*c, *wc);
                    lemma_round_trip(*d, *wd);
                },
                _ => {},
            }
        },
        ProtocolValue::Goals(..) => {},
        ProtocolValue::Goal(..) => {},
        ProtocolValue::Unknown(_) => {},
    }
}

/// Element-wise round trip for encoded lists.
proof fn lemma_round_trip_list(vs: Seq<ProtocolValue>, ws: Seq<ProtocolValue>)
    requires
        forall|i: int| 0 <= i < vs.len() ==> spec_value_clean(#[trigger] vs[i]),
        values_rep(ws, spec_node_children(spec_values_children(vs))),
        spec_node_children(spec_values_children(vs)).len() == vs.len(),
        forall|i: int|
            0 <= i < vs.len() ==> spec_node_children(spec_values_children(vs))[i]
                == spec_value_node(#[trigger] vs[i]),
    ensures
        lists_alike(ws, vs),
    decreases vs, 0int,
{
    assert(ws.len() == vs.len());
    assert forall|i: int| 0 <= i < ws.len() implies values_alike(#[trigger] ws[i], vs[i]) by {
        assert(value_rep(ws[i], spec_node_children(spec_values_children(vs))[i]));
        lemma_round_trip(vs[i], ws[i]);
    }
}

/// The decoder accepts every encoded value: decoding the encoded node of
/// a clean value cannot fail.
pub proof fn lemma_encoded_node_decodes(v: ProtocolValue)
    requires
        spec_value_clean(v),
    ensures
        spec_value_err(spec_value_node(v)) is None,
    decreases v, 1int,
{
    lemma_name_facts();
    let n = spec_value_node(v);
    match v {
        ProtocolValue::Unit => {},
        ProtocolValue::List(vs) => {
            lemma_clean_elements(vs@);
            lemma_children_err_none(vs@);
        },
        ProtocolValue::Str(_) => {},
        ProtocolValue::Int(i) => {
            lemma_text_of_one(spec_i64_dec(i as int));
            lemma_parse_i64_dec(i);
        },
        ProtocolValue::Boolean(b) => {
            assert(spec_attr(n.attributes, "val"@) == Some(
                if b {
                    "true"@
                } else {
                    "false"@
                },
            ));
        },
        ProtocolValue::Pair(a, b) => {
            lemma_encoded_node_decodes(*a);
            lemma_encoded_node_decodes(*b);
            assert(n.children[0] == SpecChild::Node(spec_value_node(*a)));
            assert(n.children[1] == SpecChild::Node(spec_value_node(*b)));
        },
        ProtocolValue::Optional(o) => {
            match o {
                None => {},
                Some(inner) => {
                    lemma_encoded_node_decodes(*inner);
                    assert(n.children[0] == SpecChild::Node(spec_value_node(*inner)));
                },
            }
        },
        ProtocolValue::StateId(i) => {
            lemma_parse_i64_dec(i);
        },
        ProtocolValue::RouteId(i) => {
            lemma_parse_i64_dec(i);
        },
        ProtocolValue::Inl(inner) => {
            lemma_encoded_node_decodes(*inner);
            assert(n.children[0] == SpecChild::Node(spec_value_node(*inner)));
        },
        ProtocolValue::Inr(inner) => {
            lemma_encoded_node_decodes(*inner);
            assert(n.children[0] == SpecChild::Node(spec_value_node(*inner)));
        },
        ProtocolValue::Status(a, b, c, d) => {
            lemma_encoded_node_decodes(*a);
            lemma_encoded_node_decodes(*b);
            lemma_encoded_node_decodes(*c);
            lemma_encoded_node_decodes(*d);
            assert(n.children[0] == SpecChild::Node(spec_value_node(*a)));
            assert(n.children[1] == SpecChild::Node(spec_value_node(*b)));
            assert(n.children[2] == SpecChild::Node(spec_value_node(*c)));
            assert(n.children[3] == SpecChild::Node(spec_value_node(*d)));
        },
        ProtocolValue::Goals(..) => {},
        ProtocolValue::Goal(..) => {},
        ProtocolValue::Unknown(_) => {},
    }
}

/// None of the encoded children of a clean list fails to decode.
proof fn lemma_children_err_none(vs: Seq<ProtocolValue>)
    requires
        forall|i: int| 0 <= i < vs.len() ==> spec_value_clean(#[trigger] vs[i]),
    ensures
        spec_children_values_err(spec_values_children(vs)) is None,
    decreases vs, 0int,
{
    if vs.len() == 0 {
        assert(spec_values_children(vs) =~= Seq::<SpecChild>::empty());
        assert(spec_children_values_err(Seq::<SpecChild>::empty()) is None);
    } else {
        let cs = spec_values_children(vs);
        assert(cs[0] == SpecChild::Node(spec_value_node(vs[0])));
        assert(cs.drop_first() =~= spec_values_children(vs.drop_first()));
        lemma_encoded_node_decodes(vs[0]);
        assert forall|i: int| 0 <= i < vs.drop_first().len() implies spec_value_clean(
            #[trigger] vs.drop_first()[i],
        ) by {
            assert(vs.drop_first()[i] == vs[i + 1]);
        }
        lemma_children_err_none(vs.drop_first());
    }
}

} // verus!
