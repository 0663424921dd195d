//! The XML node shape used by the backend protocol, its escape rules, and
//! the renderer from nodes to wire text.
//!
//! A node `<name attributes...>children...</name>` carries a name, a list
//! of attributes and a list of children; a child is either another node or
//! raw text.  Raw text travels escaped on the wire; attribute values travel
//! unescaped and must not contain a double quote.

use vstd::prelude::*;

use crate::strutil::{chars_to_string, push_chars, str_chars};

verus! {

/// The child of an XML node: either another node or raw text.
#[derive(Debug)]
pub enum Child {
    Node(XMLNode),
    Raw(String),
}

/// A generic XML node `<name attributes...>children...</name>`.
#[derive(Debug)]
pub struct XMLNode {
    /// The name of the node.
    pub name: String,
    /// All attributes present in the tag, in their written order.
    pub attributes: Vec<(String, String)>,
    /// The children inside the node.
    pub children: Vec<Child>,
}

/// The mathematical shape of a child.
pub enum SpecChild {
    Node(SpecNode),
    Raw(Seq<char>),
}

/// The mathematical shape of a node: what the parser and renderer contracts
/// speak about.
pub struct SpecNode {
    pub name: Seq<char>,
    pub attributes: Seq<(Seq<char>, Seq<char>)>,
    pub children: Seq<SpecChild>,
}

/// The shape of a child value.
pub open spec fn child_view(c: Child) -> SpecChild
    decreases c,
{
    match c {
        Child::Node(n) => SpecChild::Node(node_view(n)),
        Child::Raw(s) => SpecChild::Raw(s@),
    }
}

/// The shapes of a list of children.
pub open spec fn children_view(cs: Seq<Child>) -> Seq<SpecChild>
    decreases cs,
{
    if cs.len() == 0 {
        Seq::empty()
    } else {
        seq![child_view(cs[0])] + children_view(cs.drop_first())
    }
}

/// The shapes of a list of attributes.
pub open spec fn attributes_view(attrs: Seq<(String, String)>) -> Seq<(Seq<char>, Seq<char>)> {
    Seq::new(attrs.len(), |i: int| (attrs[i].0@, attrs[i].1@))
}

/// The shape of a node value.
pub open spec fn node_view(n: XMLNode) -> SpecNode
    decreases n,
{
    SpecNode {
        name: n.name@,
        attributes: attributes_view(n.attributes@),
        children: children_view(n.children@),
    }
}

impl View for XMLNode {
    type V = SpecNode;

    open spec fn view(&self) -> SpecNode {
        node_view(*self)
    }
}

/// Indexing lemma for `children_view`.
pub proof fn lemma_children_view_index(cs: Seq<Child>)
    ensures
        children_view(cs).len() == cs.len(),
        forall|i: int| 0 <= i < cs.len() ==> children_view(cs)[i] == child_view(cs[i]),
    decreases cs.len(),
{
    if cs.len() > 0 {
        lemma_children_view_index(cs.drop_first());
    }
}

/// Deep copy of a child, preserving its shape.
fn deep_copy_child(c: &Child) -> (r: Child)
    ensures
        child_view(r) == child_view(*c),
    decreases c,
{
    match c {
        Child::Node(n) => Child::Node(deep_copy_node(n)),
        Child::Raw(s) => Child::Raw(s.clone()),
    }
}

/// Deep copy of a node, preserving its shape.
fn deep_copy_node(n: &XMLNode) -> (r: XMLNode)
    ensures
        node_view(r) == node_view(*n),
    decreases n,
{
    let name = n.name.clone();
    let mut attributes: Vec<(String, String)> = Vec::new();
    let mut i: usize = 0;
    while i < n.attributes.len()
        invariant
            i <= n.attributes@.len(),
            attributes@.len() == i,
            attributes_view(attributes@) == attributes_view(n.attributes@.subrange(0, i as int)),
        decreases n.attributes@.len() - i,
    {
        let ghost prev = attributes@;
        attributes.push((n.attributes[i].0.clone(), n.attributes[i].1.clone()));
        proof {
            let lhs = attributes_view(attributes@);
            let rhs = attributes_view(n.attributes@.subrange(0, i + 1 as int));
            assert forall|m: int| 0 <= m < lhs.len() implies lhs[m] == rhs[m] by {
                if m < i {
                    assert(attributes_view(prev)[m] == attributes_view(
                        n.attributes@.subrange(0, i as int),
                    )[m]);
                    assert(n.attributes@.subrange(0, i as int)[m] == n.attributes@[m]);
                    assert(n.attributes@.subrange(0, i + 1 as int)[m] == n.attributes@[m]);
                    assert(attributes@[m] == prev[m]);
                } else {
                    assert(n.attributes@.subrange(0, i + 1 as int)[m] == n.attributes@[i as int]);
                }
            }
            assert(lhs =~= rhs);
        }
        i += 1;
    }
    let mut children: Vec<Child> = Vec::new();
    let mut j: usize = 0;
    proof {
        lemma_children_view_index(n.children@);
    }
    while j < n.children.len()
        invariant
            j <= n.children@.len(),
            children@.len() == j,
            forall|k: int|
                0 <= k < j ==> child_view(#[trigger] children@[k]) == child_view(n.children@[k]),
        decreases n.children@.len() - j,
    {
        let c = deep_copy_child(&n.children[j]);
        children.push(c);
        j += 1;
    }
    let r = XMLNode { name, attributes, children };
    proof {
        assert(n.attributes@.subrange(0, n.attributes@.len() as int) =~= n.attributes@);
        lemma_children_view_index(r.children@);
        lemma_children_view_index(n.children@);
        assert(children_view(r.children@) =~= children_view(n.children@));
        assert(attributes_view(r.attributes@) =~= attributes_view(n.attributes@));
    }
    r
}

impl Clone for Child {
    /// A deep copy with the same shape.
    fn clone(&self) -> (r: Self)
        ensures
            child_view(r) == child_view(*self),
    {
        deep_copy_child(self)
    }
}

impl Clone for XMLNode {
    /// A deep copy with the same shape.
    fn clone(&self) -> (r: Self)
        ensures
            r@ == self@,
    {
        deep_copy_node(self)
    }
}

impl Default for XMLNode {
    /// A node with no name, no attributes and no children.
    fn default() -> (r: Self)
        ensures
            r@.name == Seq::<char>::empty(),
            r@.attributes == Seq::<(Seq<char>, Seq<char>)>::empty(),
            r@.children == Seq::<SpecChild>::empty(),
    {
        let r = XMLNode { name: String::new(), attributes: Vec::new(), children: Vec::new() };
        proof {
            assert(attributes_view(r.attributes@) =~= Seq::<(Seq<char>, Seq<char>)>::empty());
        }
        r
    }
}

/// The raw text directly inside a node: the concatenation of its raw
/// children.
pub open spec fn spec_text_of(cs: Seq<SpecChild>) -> Seq<char>
    decreases cs.len(),
{
    if cs.len() == 0 {
        Seq::empty()
    } else {
        (match cs[0] {
            SpecChild::Raw(s) => s,
            SpecChild::Node(_) => Seq::empty(),
        }) + spec_text_of(cs.drop_first())
    }
}

/// The first child node with the given name, if any.
pub open spec fn spec_child_named(cs: Seq<SpecChild>, name: Seq<char>) -> Option<SpecNode>
    decreases cs.len(),
{
    if cs.len() == 0 {
        None
    } else {
        match cs[0] {
            SpecChild::Node(n) => if n.name == name {
                Some(n)
            } else {
                spec_child_named(cs.drop_first(), name)
            },
            SpecChild::Raw(_) => spec_child_named(cs.drop_first(), name),
        }
    }
}

impl XMLNode {
    /// Retrieves all the raw text directly inside the node.
    pub fn get_text(&self) -> (r: String)
        ensures
            r@ == spec_text_of(self@.children),
    {
        let mut out: Vec<char> = Vec::new();
        let mut i: usize = 0;
        proof {
            lemma_children_view_index(self.children@);
            assert(self@.children.skip(0) =~= self@.children);
        }
        while i < self.children.len()
            invariant
                i <= self.children@.len(),
                children_view(self.children@).len() == self.children@.len(),
                forall|k: int|
                    0 <= k < self.children@.len() ==> children_view(self.children@)[k]
                        == child_view(self.children@[k]),
                spec_text_of(self@.children) == out@ + spec_text_of(self@.children.skip(i as int)),
                self@.children == children_view(self.children@),
            decreases self.children@.len() - i,
        {
            proof {
                assert(self@.children.skip(i as int)[0] == self@.children[i as int]);
                assert(self@.children.skip(i as int).drop_first() =~= self@.children.skip(i + 1));
            }
            match &self.children[i] {
                Child::Raw(s) => {
                    push_chars(&mut out, &str_chars(s.as_str()));
                },
                Child::Node(_) => {},
            }
            i += 1;
        }
        proof {
            assert(spec_text_of(self@.children.skip(self.children@.len() as int)) =~= Seq::<
                char,
            >::empty());
            assert(out@ =~= spec_text_of(self@.children));
        }
        chars_to_string(&out)
    }

    /// Tries to retrieve the first child node whose tag name is `name`.
    pub fn get_child(&self, name: String) -> (r: Option<&XMLNode>)
        ensures
            match r {
                Some(n) => spec_child_named(self@.children, name@) == Some(n@),
                None => spec_child_named(self@.children, name@) is None,
            },
    {
        let mut i: usize = 0;
        proof {
            lemma_children_view_index(self.children@);
            assert(self@.children.skip(0) =~= self@.children);
        }
        while i < self.children.len()
            invariant
                i <= self.children@.len(),
                children_view(self.children@).len() == self.children@.len(),
                forall|k: int|
                    0 <= k < self.children@.len() ==> children_view(self.children@)[k]
                        == child_view(self.children@[k]),
                spec_child_named(self@.children, name@) == spec_child_named(
                    self@.children.skip(i as int),
                    name@,
                ),
                self@.children == children_view(self.children@),
            decreases self.children@.len() - i,
        {
            proof {
                assert(self@.children.skip(i as int)[0] == self@.children[i as int]);
                assert(self@.children.skip(i as int).drop_first() =~= self@.children.skip(i + 1));
            }
            match &self.children[i] {
                Child::Node(n) => {
                    if n.name.eq(&name) {
                        return Some(n);
                    }
                },
                Child::Raw(_) => {},
            }
            i += 1;
        }
        None
    }
}

impl Child {
    /// Tries to view the child as a node.
    pub fn as_node(&self) -> (r: Option<&XMLNode>)
        ensures
            match r {
                Some(n) => child_view(*self) == SpecChild::Node(n@),
                None => self matches Child::Raw(_),
            },
    {
        match self {
            Child::Node(n) => Some(n),
            _ => None,
        }
    }

    /// Retrieves the raw text the child is, if it is raw text.
    pub fn raw(&self) -> (r: Option<&String>)
        ensures
            match r {
                Some(s) => child_view(*self) == SpecChild::Raw(s@),
                None => self matches Child::Node(_),
            },
    {
        match self {
            Child::Raw(s) => Some(s),
            _ => None,
        }
    }
}

// ---------------------------------------------------------------------
// Escape rules
// ---------------------------------------------------------------------
/// The wire form of one character of raw text: `&`, `<` and `>` become
/// entities, anything else stands for itself.
pub open spec fn spec_escape_char(c: char) -> Seq<char> {
    if c == '&' {
        seq!['&', 'a', 'm', 'p', ';']
    } else if c == '<' {
        seq!['&', 'l', 't', ';']
    } else if c == '>' {
        seq!['&', 'g', 't', ';']
    } else {
        seq![c]
    }
}

/// The wire form of raw text.
pub open spec fn spec_escape(s: Seq<char>) -> Seq<char>
    decreases s.len(),
{
    if s.len() == 0 {
        Seq::empty()
    } else {
        spec_escape_char(s[0]) + spec_escape(s.drop_first())
    }
}

/// Escapes special characters like `&` or `<` to their XML entities.
pub fn escape(s: String) -> (r: String)
    ensures
        r@ == spec_escape(s@),
{
    let chars = str_chars(s.as_str());
    let mut out: Vec<char> = Vec::new();
    let mut i: usize = 0;
    proof {
        assert(s@.skip(0) =~= s@);
    }
    while i < chars.len()
        invariant
            i <= chars@.len(),
            chars@ == s@,
            spec_escape(s@) == out@ + spec_escape(s@.skip(i as int)),
        decreases chars@.len() - i,
    {
        proof {
            assert(s@.skip(i as int)[0] == s@[i as int]);
            assert(s@.skip(i as int).drop_first() =~= s@.skip(i + 1));
        }
        let c = chars[i];
        if c == '&' {
            out.push('&');
            out.push('a');
            out.push('m');
            out.push('p');
            out.push(';');
        } else if c == '<' {
            out.push('&');
            out.push('l');
            out.push('t');
            out.push(';');
        } else if c == '>' {
            out.push('&');
            out.push('g');
            out.push('t');
            out.push(';');
        } else {
            out.push(c);
        }
        i += 1;
    }
    proof {
        assert(spec_escape(s@.skip(s@.len() as int)) =~= Seq::<char>::empty());
        assert(out@ =~= spec_escape(s@));
    }
    chars_to_string(&out)
}

/// The entities the decoder unescapes, tried in this order at each
/// position.
pub open spec fn entity_table() -> Seq<(Seq<char>, char)> {
    seq![
        (seq!['&', 'n', 'b', 's', 'p', ';'], ' '),
        (seq!['&', 'a', 'p', 'o', 's', ';'], '\''),
        (seq!['&', 'q', 'u', 'o', 't', ';'], '"'),
        (seq!['&', '#', '4', '0', ';'], '('),
        (seq!['&', '#', '4', '1', ';'], ')'),
        (seq!['&', 'g', 't', ';'], '>'),
        (seq!['&', 'l', 't', ';'], '<'),
        (seq!['&', 'a', 'm', 'p', ';'], '&'),
    ]
}

/// The entity matching at the front of `s`, if any.
pub open spec fn spec_entity_at(s: Seq<char>) -> Option<(Seq<char>, char)> {
    let t = entity_table();
    if s.len() >= 6 && s.subrange(0, 6) == t[0].0 {
        Some(t[0])
    } else if s.len() >= 6 && s.subrange(0, 6) == t[1].0 {
        Some(t[1])
    } else if s.len() >= 6 && s.subrange(0, 6) == t[2].0 {
        Some(t[2])
    } else if s.len() >= 5 && s.subrange(0, 5) == t[3].0 {
        Some(t[3])
    } else if s.len() >= 5 && s.subrange(0, 5) == t[4].0 {
        Some(t[4])
    } else if s.len() >= 4 && s.subrange(0, 4) == t[5].0 {
        Some(t[5])
    } else if s.len() >= 4 && s.subrange(0, 4) == t[6].0 {
        Some(t[6])
    } else if s.len() >= 5 && s.subrange(0, 5) == t[7].0 {
        Some(t[7])
    } else {
        None
    }
}

/// Unescaped raw text: each known entity becomes its character, scanning
/// left to right.
pub open spec fn spec_unescape(s: Seq<char>) -> Seq<char>
    decreases s.len(),
{
    if s.len() == 0 {
        Seq::empty()
    } else {
        match spec_entity_at(s) {
            Some(e) => seq![e.1] + spec_unescape(s.skip(e.0.len() as int)),
            None => seq![s[0]] + spec_unescape(s.drop_first()),
        }
    }
}

// ---------------------------------------------------------------------
// Rendering
// ---------------------------------------------------------------------
/// The wire rendering of an attribute list: a space before each
/// `name="value"`.
pub open spec fn spec_render_attrs(attrs: Seq<(Seq<char>, Seq<char>)>) -> Seq<char>
    decreases attrs.len(),
{
    if attrs.len() == 0 {
        Seq::empty()
    } else {
        seq![' '] + attrs[0].0 + seq!['=', '"'] + attrs[0].1 + seq!['"'] + spec_render_attrs(
            attrs.drop_first(),
        )
    }
}

/// The wire rendering of a child.
pub open spec fn spec_render_child(c: SpecChild) -> Seq<char>
    decreases c,
{
    match c {
        SpecChild::Node(n) => spec_render_node(n),
        SpecChild::Raw(s) => spec_escape(s),
    }
}

/// The wire rendering of a list of children.
pub open spec fn spec_render_children(cs: Seq<SpecChild>) -> Seq<char>
    decreases cs,
{
    if cs.len() == 0 {
        Seq::empty()
    } else {
        spec_render_child(cs[0]) + spec_render_children(cs.drop_first())
    }
}

/// The wire rendering of a node: self-closing when it has no children.
pub open spec fn spec_render_node(n: SpecNode) -> Seq<char>
    decreases n,
{
    seq!['<'] + n.name + spec_render_attrs(n.attributes) + (if n.children.len() == 0 {
        seq!['/', '>']
    } else {
        seq!['>'] + spec_render_children(n.children) + seq!['<', '/'] + n.name + seq!['>']
    })
}

/// Renders a node to wire text.
pub fn render_node(n: &XMLNode) -> (r: Vec<char>)
    ensures
        r@ == spec_render_node(n@),
    decreases *n,
{
    let mut out: Vec<char> = Vec::new();
    out.push('<');
    push_chars(&mut out, &str_chars(n.name.as_str()));
    let mut i: usize = 0;
    proof {
        assert(n@.attributes.skip(0) =~= n@.attributes);
    }
    while i < n.attributes.len()
        invariant
            i <= n.attributes@.len(),
            n@.attributes.len() == n.attributes@.len(),
            forall|k: int|
                0 <= k < n.attributes@.len() ==> n@.attributes[k] == ((#[trigger] n.attributes@[k]).0@, n.attributes@[k].1@),
            out@ + spec_render_attrs(n@.attributes.skip(i as int)) == seq!['<'] + n@.name
                + spec_render_attrs(n@.attributes),
        decreases n.attributes@.len() - i,
    {
        proof {
            assert(n@.attributes.skip(i as int)[0] == n@.attributes[i as int]);
            assert(n@.attributes.skip(i as int).drop_first() =~= n@.attributes.skip(i + 1));
        }
        out.push(' ');
        push_chars(&mut out, &str_chars(n.attributes[i].0.as_str()));
        out.push('=');
        out.push('"');
        push_chars(&mut out, &str_chars(n.attributes[i].1.as_str()));
        out.push('"');
        proof {
            assert(out@ + spec_render_attrs(n@.attributes.skip(i + 1)) =~= seq!['<'] + n@.name
                + spec_render_attrs(n@.attributes));
        }
        i += 1;
    }
    if n.children.len() == 0 {
        out.push('/');
        out.push('>');
        proof {
            assert(out@ =~= spec_render_node(n@));
        }
        return out;
    }
    out.push('>');
    let mut j: usize = 0;
    proof {
        lemma_children_view_index(n.children@);
        assert(n@.children.skip(0) =~= n@.children);
    }
    while j < n.children.len()
        invariant
            j <= n.children@.len(),
            n@.children == children_view(n.children@),
            n@.children.len() == n.children@.len(),
            forall|k: int|
                0 <= k < n.children@.len() ==> n@.children[k] == child_view(
                    #[trigger] n.children@[k],
                ),
            out@ + spec_render_children(n@.children.skip(j as int)) == seq!['<'] + n@.name
                + spec_render_attrs(n@.attributes) + seq!['>'] + spec_render_children(n@.children),
        decreases n.children@.len() - j,
    {
        proof {
            assert(n@.children.skip(j as int)[0] == n@.children[j as int]);
            assert(n@.children.skip(j as int).drop_first() =~= n@.children.skip(j + 1));
        }
        let ghost out_before = out@;
        match &n.children[j] {
            Child::Node(child) => {
                let rendered = render_node(child);
                push_chars(&mut out, &rendered);
                proof {
                    assert(n@.children[j as int] == SpecChild::Node(child@));
                    assert(out@ == out_before + spec_render_child(n@.children[j as int]));
                }
            },
            Child::Raw(s) => {
                let escaped = escape(s.clone());
                push_chars(&mut out, &str_chars(escaped.as_str()));
                proof {
                    assert(n@.children[j as int] == SpecChild::Raw(s@));
                    assert(out@ == out_before + spec_render_child(n@.children[j as int]));
                }
            },
        }
        proof {
            let target = seq!['<'] + n@.name + spec_render_attrs(n@.attributes) + seq!['>']
                + spec_render_children(n@.children);
            assert(spec_render_children(n@.children.skip(j as int)) == spec_render_child(
                n@.children[j as int],
            ) + spec_render_children(n@.children.skip(j + 1)));
            assert(out_before + (spec_render_child(n@.children[j as int])
                + spec_render_children(n@.children.skip(j + 1))) =~= (out_before
                + spec_render_child(n@.children[j as int])) + spec_render_children(
                n@.children.skip(j + 1),
            ));
            assert(out@ + spec_render_children(n@.children.skip(j + 1)) == target);
        }
        j += 1;
    }
    out.push('<');
    out.push('/');
    push_chars(&mut out, &str_chars(n.name.as_str()));
    out.push('>');
    proof {
        assert(spec_render_children(n@.children.skip(n@.children.len() as int)) =~= Seq::<
            char,
        >::empty());
        assert(out@ =~= spec_render_node(n@));
    }
    out
}

// ---------------------------------------------------------------------
// Escape round trip
// ---------------------------------------------------------------------
/// The entity scanner on escaped text: at the front of `spec_escape(s)` it
/// finds exactly the entity the first character of `s` was escaped to, or
/// nothing when that character stands for itself.
proof fn lemma_entity_at_escape(s: Seq<char>)
    requires
        s.len() > 0,
    ensures
        s[0] == '&' ==> spec_entity_at(spec_escape(s)) == Some((entity_table()[7].0, '&')),
        s[0] == '<' ==> spec_entity_at(spec_escape(s)) == Some((entity_table()[6].0, '<')),
        s[0] == '>' ==> spec_entity_at(spec_escape(s)) == Some((entity_table()[5].0, '>')),
        s[0] != '&' && s[0] != '<' && s[0] != '>' ==> spec_entity_at(spec_escape(s)) is None,
{
    let e = spec_escape(s);
    assert(e == spec_escape_char(s[0]) + spec_escape(s.drop_first()));
    let c = s[0];
    if c == '&' {
        assert(e[0] == '&' && e[1] == 'a' && e[2] == 'm' && e[3] == 'p' && e[4] == ';');
        if e.len() >= 6 {
            assert(e.subrange(0, 6)[1] == 'a');
            assert(e.subrange(0, 6)[2] == 'm');
        }
        assert(e.subrange(0, 5) =~= entity_table()[7].0);
    } else if c == '<' {
        assert(e[0] == '&' && e[1] == 'l' && e[2] == 't' && e[3] == ';');
        if e.len() >= 6 {
            assert(e.subrange(0, 6)[1] == 'l');
        }
        if e.len() >= 5 {
            assert(e.subrange(0, 5)[1] == 'l');
        }
        assert(e.subrange(0, 4) =~= entity_table()[6].0);
    } else if c == '>' {
        assert(e[0] == '&' && e[1] == 'g' && e[2] == 't' && e[3] == ';');
        if e.len() >= 6 {
            assert(e.subrange(0, 6)[1] == 'g');
        }
        if e.len() >= 5 {
            assert(e.subrange(0, 5)[1] == 'g');
        }
        assert(e.subrange(0, 4) =~= entity_table()[5].0);
    } else {
        assert(e[0] == c);
        assert forall|k: int| 0 <= k < 8 implies !(e.len() >= (#[trigger] entity_table()[k]).0.len()
            && e.subrange(0, entity_table()[k].0.len() as int) == entity_table()[k].0) by {
            if e.len() >= entity_table()[k].0.len() {
                assert(e.subrange(0, entity_table()[k].0.len() as int)[0] == c);
                assert(entity_table()[k].0[0] == '&');
            }
        }
    }
}

/// Unescaping undoes escaping: raw text survives the wire unchanged.
pub proof fn lemma_unescape_escape(s: Seq<char>)
    ensures
        spec_unescape(spec_escape(s)) == s,
    decreases s.len(),
{
    if s.len() == 0 {
        assert(spec_unescape(spec_escape(s)) =~= s);
    } else {
        let e = spec_escape(s);
        assert(e == spec_escape_char(s[0]) + spec_escape(s.drop_first()));
        lemma_entity_at_escape(s);
        lemma_unescape_escape(s.drop_first());
        let c = s[0];
        if c == '&' {
            assert(e.skip(5) =~= spec_escape(s.drop_first()));
            assert(spec_unescape(e) == seq!['&'] + spec_unescape(e.skip(5)));
            assert(spec_unescape(e) =~= s);
        } else if c == '<' {
            assert(e.skip(4) =~= spec_escape(s.drop_first()));
            assert(spec_unescape(e) =~= s);
        } else if c == '>' {
            assert(e.skip(4) =~= spec_escape(s.drop_first()));
            assert(spec_unescape(e) =~= s);
        } else {
            assert(e.drop_first() =~= spec_escape(s.drop_first()));
            assert(e[0] == c);
            assert(spec_unescape(e) =~= s);
        }
    }
}

/// Whether the characters of `pat` stand in `v` at position `i`.
fn matches_at(v: &Vec<char>, i: usize, pat: &Vec<char>) -> (r: bool)
    requires
        i <= v@.len(),
    ensures
        r == (v@.len() - i >= pat@.len() && v@.subrange(i as int, i + pat@.len()) == pat@),
{
    if v.len() - i < pat.len() {
        proof {
            assert(v@.len() - i < pat@.len());
        }
        return false;
    }
    let mut k: usize = 0;
    while k < pat.len()
        invariant
            k <= pat@.len(),
            i + pat@.len() <= v@.len(),
            v@.len() <= usize::MAX,
            forall|m: int| 0 <= m < k ==> v@[i + m] == pat@[m],
        decreases pat@.len() - k,
    {
        proof {
            assert(i + k < v@.len());
        }
        if v[i + k] != pat[k] {
            proof {
                assert(v@.subrange(i as int, i + pat@.len())[k as int] == v@[i + k]);
            }
            return false;
        }
        k += 1;
    }
    proof {
        assert(v@.subrange(i as int, i + pat@.len()) =~= pat@);
    }
    true
}

/// Unescapes entity sequences like `&nbsp;` or `&amp;` back to their
/// characters.
pub fn unescape(s: String) -> (r: String)
    ensures
        r@ == spec_unescape(s@),
{
    let v = str_chars(s.as_str());
    let pats: Vec<(Vec<char>, char)> = vec![
        (vec!['&', 'n', 'b', 's', 'p', ';'], ' '),
        (vec!['&', 'a', 'p', 'o', 's', ';'], '\''),
        (vec!['&', 'q', 'u', 'o', 't', ';'], '"'),
        (vec!['&', '#', '4', '0', ';'], '('),
        (vec!['&', '#', '4', '1', ';'], ')'),
        (vec!['&', 'g', 't', ';'], '>'),
        (vec!['&', 'l', 't', ';'], '<'),
        (vec!['&', 'a', 'm', 'p', ';'], '&'),
    ];
    proof {
        assert(pats@.len() == entity_table().len());
        assert forall|k: int| 0 <= k < pats@.len() implies (#[trigger] pats@[k]).0@
            == entity_table()[k].0 && pats@[k].1 == entity_table()[k].1 by {
            assert(pats@[k].0@ =~= entity_table()[k].0);
        }
    }
    let mut out: Vec<char> = Vec::new();
    let mut i: usize = 0;
    proof {
        assert(s@.skip(0) =~= s@);
    }
    while i < v.len()
        invariant
            i <= v@.len(),
            v@ == s@,
            pats@.len() == entity_table().len(),
            forall|k: int|
                0 <= k < pats@.len() ==> (#[trigger] pats@[k]).0@ == entity_table()[k].0
                    && pats@[k].1 == entity_table()[k].1,
            spec_unescape(s@) == out@ + spec_unescape(s@.skip(i as int)),
        decreases v@.len() - i,
    {
        let ghost rest = s@.skip(i as int);
        proof {
            assert(rest[0] == s@[i as int]);
            assert(rest.drop_first() =~= s@.skip(i + 1));
        }
        let ghost prev_out = out@;
        let mut matched: bool = false;
        let mut k: usize = 0;
        while k < 8 && !matched
            invariant
                k <= 8,
                i <= v@.len(),
                v@ == s@,
                rest == s@.skip(i as int),
                out@ == prev_out,
                pats@.len() == 8,
                entity_table().len() == 8,
                forall|m: int|
                    0 <= m < pats@.len() ==> (#[trigger] pats@[m]).0@ == entity_table()[m].0
                        && pats@[m].1 == entity_table()[m].1,
                !matched ==> forall|m: int|
                    0 <= m < k ==> !(rest.len() >= (#[trigger] entity_table()[m]).0.len()
                        && rest.subrange(0, entity_table()[m].0.len() as int)
                        == entity_table()[m].0),
                matched ==> ({
                    &&& 1 <= k <= 8
                    &&& rest.len() >= entity_table()[k - 1].0.len()
                    &&& rest.subrange(0, entity_table()[k - 1].0.len() as int) == entity_table()[
                        k - 1
                    ].0
                    &&& forall|m: int|
                        0 <= m < k - 1 ==> !(rest.len() >= (#[trigger] entity_table()[m]).0.len()
                            && rest.subrange(0, entity_table()[m].0.len() as int)
                            == entity_table()[m].0)
                }),
            decreases 8 - k,
        {
            let pat = &pats[k].0;
            if matches_at(&v, i, pat) {
                proof {
                    assert(v@.subrange(i as int, i + pat@.len()) =~= rest.subrange(
                        0,
                        pat@.len() as int,
                    ));
                }
                matched = true;
            } else {
                proof {
                    if rest.len() >= pat@.len() {
                        assert(v@.subrange(i as int, i + pat@.len()) =~= rest.subrange(
                            0,
                            pat@.len() as int,
                        ));
                    }
                }
            }
            k += 1;
        }
        if matched {
            let adv = pats[k - 1].0.len();
            out.push(pats[k - 1].1);
            proof {
                let e = entity_table()[k as int - 1];
                assert(spec_entity_at(rest) == Some(e));
                assert(rest.skip(e.0.len() as int) =~= s@.skip(i + e.0.len()));
                assert(out@ =~= prev_out.push(e.1));
                assert(out@ + spec_unescape(s@.skip(i + e.0.len())) =~= prev_out + spec_unescape(
                    rest,
                ));
            }
            i += adv;
        } else {
            proof {
                assert(spec_entity_at(rest) is None);
            }
            out.push(v[i]);
            proof {
                assert(out@ + spec_unescape(s@.skip(i + 1)) =~= prev_out + spec_unescape(rest));
            }
            i += 1;
        }
    }
    proof {
        assert(spec_unescape(s@.skip(s@.len() as int)) =~= Seq::<char>::empty());
        assert(out@ =~= spec_unescape(s@));
    }
    chars_to_string(&out)
}


// ---------------------------------------------------------------------
// The streaming decoder: wire text to nodes
// ---------------------------------------------------------------------
/// The characters allowed in tag and attribute names.
pub open spec fn xml_ident_char(c: char) -> bool {
    ('a' <= c && c <= 'z') || ('A' <= c && c <= 'Z') || ('0' <= c && c <= '9') || c == '_' || c
        == '-' || c == '.'
}

/// The spacing characters between tags and attributes.
pub open spec fn xml_space(c: char) -> bool {
    c == ' ' || c == '\t' || c == '\n' || c == '\r' || c == '\u{c}'
}

/// The end of the name run starting at `i`.
pub open spec fn spec_ident_end(s: Seq<char>, i: int) -> int
    decreases s.len() - i,
    when 0 <= i <= s.len()
{
    if i >= s.len() {
        i
    } else if xml_ident_char(s[i]) {
        spec_ident_end(s, i + 1)
    } else {
        i
    }
}

/// The end of the spacing run starting at `i`.
pub open spec fn spec_spaces_end(s: Seq<char>, i: int) -> int
    decreases s.len() - i,
    when 0 <= i <= s.len()
{
    if i >= s.len() {
        i
    } else if xml_space(s[i]) {
        spec_spaces_end(s, i + 1)
    } else {
        i
    }
}

/// The position of the next occurrence of `t` at or after `i`, or the end
/// of the text.
pub open spec fn spec_find(s: Seq<char>, i: int, t: char) -> int
    decreases s.len() - i,
    when 0 <= i <= s.len()
{
    if i >= s.len() {
        i
    } else if s[i] == t {
        i
    } else {
        spec_find(s, i + 1, t)
    }
}

/// Scanning never moves backwards and stays inside the text.
proof fn lemma_xml_scan_bounds(s: Seq<char>, i: int, t: char)
    requires
        0 <= i <= s.len(),
    ensures
        i <= spec_ident_end(s, i) <= s.len(),
        i <= spec_spaces_end(s, i) <= s.len(),
        i <= spec_find(s, i, t) <= s.len(),
        i < s.len() && xml_ident_char(s[i]) ==> spec_ident_end(s, i) > i,
        i < s.len() && s[i] != t ==> spec_find(s, i, t) > i,
    decreases s.len() - i,
{
    if i < s.len() {
        lemma_xml_scan_bounds(s, i + 1, t);
    }
}

/// The position after a closing tag `</name>` at `i`, if one stands
/// there; the name is not checked against the opening tag, as on the wire
/// the backend closes what it opens.
pub open spec fn spec_tag_end(s: Seq<char>, i: int) -> Option<int> {
    if i + 2 <= s.len() && s[i] == '<' && s[i + 1] == '/' {
        let ne = spec_ident_end(s, i + 2);
        if ne > i + 2 && ne < s.len() && s[ne] == '>' {
            Some(ne + 1)
        } else {
            None
        }
    } else {
        None
    }
}

/// One node read from position `i` of the wire text:
/// `<name attributes...>children...</name>` or the self-closing
/// `<name attributes.../>`, with raw text unescaped.  `None` when no
/// complete well-formed node starts there — because the text is malformed
/// or because more input is needed.
pub open spec fn spec_parse_node(s: Seq<char>, i: int) -> Option<(SpecNode, int)>
    decreases s.len() - i, 0int,
    when 0 <= i <= s.len()
    via spec_parse_node_decreases
{
    if i >= s.len() || s[i] != '<' {
        None
    } else {
        let ne = spec_ident_end(s, i + 1);
        if ne == i + 1 {
            None
        } else {
            let name = s.subrange(i + 1, ne);
            match spec_parse_attrs(s, spec_spaces_end(s, ne)) {
                None => None,
                Some((attrs, ae)) => if ae <= i + 1 || ae > s.len() {
                    None
                } else {
                    let b = spec_spaces_end(s, ae);
                    if b >= s.len() {
                        None
                    } else if s[b] == '/' {
                        if b + 1 < s.len() && s[b + 1] == '>' {
                            Some(
                                (
                                    SpecNode { name, attributes: attrs, children: Seq::empty() },
                                    b + 2,
                                ),
                            )
                        } else {
                            None
                        }
                    } else if s[b] == '>' {
                        match spec_parse_children(s, b + 1) {
                            None => None,
                            Some((children, ce)) => match spec_tag_end(s, ce) {
                                None => None,
                                Some(te) => Some((SpecNode { name, attributes: attrs, children }, te)),
                            },
                        }
                    } else {
                        None
                    }
                },
            }
        }
    }
}

#[via_fn]
proof fn spec_parse_node_decreases(s: Seq<char>, i: int) {
    if 0 <= i && i < s.len() && s[i] == '<' {
        lemma_xml_scan_bounds(s, i + 1, '"');
        let ne = spec_ident_end(s, i + 1);
        if ne > i + 1 {
            lemma_xml_scan_bounds(s, ne, '"');
            match spec_parse_attrs(s, spec_spaces_end(s, ne)) {
                None => {},
                Some((attrs, ae)) => {
                    if i + 1 < ae <= s.len() {
                        lemma_xml_scan_bounds(s, ae, '"');
                    }
                },
            }
        }
    }
}

/// The attribute list read from position `i`: `name="value"` pairs with
/// spacing, up to the first character that cannot start an attribute.
/// Values travel unescaped between the quotes.
pub open spec fn spec_parse_attrs(s: Seq<char>, i: int) -> Option<
    (Seq<(Seq<char>, Seq<char>)>, int),
>
    decreases s.len() - i, 0int,
    when 0 <= i <= s.len()
    via spec_parse_attrs_decreases
{
    if i >= s.len() {
        None
    } else if !xml_ident_char(s[i]) {
        Some((Seq::empty(), i))
    } else {
        let ne = spec_ident_end(s, i);
        let p1 = spec_spaces_end(s, ne);
        if p1 >= s.len() || s[p1] != '=' {
            None
        } else {
            let p2 = spec_spaces_end(s, p1 + 1);
            if p2 >= s.len() || s[p2] != '"' {
                None
            } else {
                let ve = spec_find(s, p2 + 1, '"');
                if ve >= s.len() {
                    None
                } else {
                    let p3 = spec_spaces_end(s, ve + 1);
                    match spec_parse_attrs(s, p3) {
                        None => None,
                        Some((rest, e)) => Some(
                            (
                                seq![(s.subrange(i, ne), s.subrange(p2 + 1, ve))] + rest,
                                e,
                            ),
                        ),
                    }
                }
            }
        }
    }
}

#[via_fn]
proof fn spec_parse_attrs_decreases(s: Seq<char>, i: int) {
    if 0 <= i && i < s.len() && xml_ident_char(s[i]) {
        lemma_xml_scan_bounds(s, i, '"');
        let ne = spec_ident_end(s, i);
        lemma_xml_scan_bounds(s, ne, '"');
        let p1 = spec_spaces_end(s, ne);
        if p1 < s.len() && s[p1] == '=' {
            lemma_xml_scan_bounds(s, p1 + 1, '"');
            let p2 = spec_spaces_end(s, p1 + 1);
            if p2 < s.len() && s[p2] == '"' {
                lemma_xml_scan_bounds(s, p2 + 1, '"');
                let ve = spec_find(s, p2 + 1, '"');
                if ve < s.len() {
                    lemma_xml_scan_bounds(s, ve + 1, '"');
                }
            }
        }
    }
}

/// The children read from position `i`, up to (and not consuming) the
/// closing tag: nested nodes, and runs of raw text unescaped per the
/// entity table.
pub open spec fn spec_parse_children(s: Seq<char>, i: int) -> Option<(Seq<SpecChild>, int)>
    decreases s.len() - i, 1int,
    when 0 <= i <= s.len()
    via spec_parse_children_decreases
{
    if i >= s.len() {
        None
    } else if spec_tag_end(s, i) is Some {
        Some((Seq::empty(), i))
    } else if s[i] == '<' {
        match spec_parse_node(s, i) {
            None => None,
            Some((n, e)) => if e <= i || e > s.len() {
                None
            } else {
                match spec_parse_children(s, e) {
                    None => None,
                    Some((rest, ce)) => Some((seq![SpecChild::Node(n)] + rest, ce)),
                }
            },
        }
    } else {
        let re = spec_find(s, i, '<');
        if re >= s.len() {
            None
        } else {
            match spec_parse_children(s, re) {
                None => None,
                Some((rest, ce)) => Some(
                    (seq![SpecChild::Raw(spec_unescape(s.subrange(i, re)))] + rest, ce),
                ),
            }
        }
    }
}

#[via_fn]
proof fn spec_parse_children_decreases(s: Seq<char>, i: int) {
    if 0 <= i && i < s.len() {
        lemma_xml_scan_bounds(s, i, '<');
        let re = spec_find(s, i, '<');
        if re <= s.len() {
            lemma_xml_scan_bounds(s, re, '<');
        }
    }
}

/// One step of the streaming decoder: reads one complete node from the
/// front of the buffer, or reports that no complete node is there yet —
/// the caller keeps the buffer and waits for more input (text that can
/// never extend to a node also reports `None`; the backend never sends
/// such text, and the caller's stall on a full buffer surfaces it).
pub fn decode_node(buffer: &Vec<char>) -> (r: Option<(XMLNode, usize)>)
    ensures
        match r {
            Some((n, used)) => used <= buffer@.len() && spec_node_at(buffer@) == Some(
                (n@, used as int),
            ),
            None => spec_node_at(buffer@) is None,
        },
{
    match parse_node_at(buffer, 0) {
        Some((n, used)) => Some((n, used)),
        None => None,
    }
}

/// The node at the front of the wire text, if a complete one is there.
pub open spec fn spec_node_at(s: Seq<char>) -> Option<(SpecNode, int)> {
    spec_parse_node(s, 0)
}

/// Reads one node from position `i`.
#[verifier::loop_isolation(false)]
fn parse_node_at(v: &Vec<char>, i: usize) -> (r: Option<(XMLNode, usize)>)
    requires
        i <= v@.len(),
    ensures
        match r {
            Some((n, e)) => i < e <= v@.len() && spec_parse_node(v@, i as int) == Some(
                (n@, e as int),
            ),
            None => spec_parse_node(v@, i as int) is None,
        },
    decreases v@.len() - i, 0int,
{
    if i >= v.len() || v[i] != '<' {
        return None;
    }
    let ne = ident_end_at(v, i + 1);
    if ne == i + 1 {
        return None;
    }
    let name = slice_to_string(v, i + 1, ne);
    let a0 = spaces_end_at(v, ne);
    let (attributes, ae) = match parse_attrs_at(v, a0) {
        Some(x) => x,
        None => {
            return None;
        },
    };
    if ae <= i + 1 {
        return None;
    }
    let b = spaces_end_at(v, ae);
    if b >= v.len() {
        return None;
    }
    if v[b] == '/' {
        if b + 1 < v.len() && v[b + 1] == '>' {
            let node = XMLNode { name, attributes, children: Vec::new() };
            proof {
                lemma_children_view_index(node.children@);
                assert(node@.children =~= Seq::<SpecChild>::empty());
            }
            return Some((node, b + 2));
        }
        return None;
    }
    if v[b] == '>' {
        let (children, ce) = match parse_children_at(v, b + 1) {
            Some(x) => x,
            None => {
                return None;
            },
        };
        let te = match tag_end_at(v, ce) {
            Some(x) => x,
            None => {
                return None;
            },
        };
        let node = XMLNode { name, attributes, children };
        return Some((node, te));
    }
    None
}

/// Reads the attribute list from position `i`.
#[verifier::loop_isolation(false)]
fn parse_attrs_at(v: &Vec<char>, i: usize) -> (r: Option<(Vec<(String, String)>, usize)>)
    requires
        i <= v@.len(),
    ensures
        match r {
            Some((attrs, e)) => i <= e <= v@.len() && spec_parse_attrs(v@, i as int) == Some(
                (attributes_view(attrs@), e as int),
            ),
            None => spec_parse_attrs(v@, i as int) is None,
        },
    decreases v@.len() - i, 0int,
{
    if i >= v.len() {
        return None;
    }
    let c = v[i];
    let is_ident = ('a' <= c && c <= 'z') || ('A' <= c && c <= 'Z') || ('0' <= c && c <= '9') || c
        == '_' || c == '-' || c == '.';
    if !is_ident {
        let empty: Vec<(String, String)> = Vec::new();
        proof {
            assert(attributes_view(empty@) =~= Seq::<(Seq<char>, Seq<char>)>::empty());
        }
        return Some((empty, i));
    }
    let ne = ident_end_at(v, i);
    let p1 = spaces_end_at(v, ne);
    if p1 >= v.len() || v[p1] != '=' {
        return None;
    }
    let p2 = spaces_end_at(v, p1 + 1);
    if p2 >= v.len() || v[p2] != '"' {
        return None;
    }
    let ve = find_at(v, p2 + 1, '"');
    if ve >= v.len() {
        return None;
    }
    let p3 = spaces_end_at(v, ve + 1);
    let name = slice_to_string(v, i, ne);
    let value = slice_to_string(v, p2 + 1, ve);
    let (rest, e) = match parse_attrs_at(v, p3) {
        Some(x) => x,
        None => {
            return None;
        },
    };
    let mut attrs: Vec<(String, String)> = Vec::new();
    attrs.push((name, value));
    let mut k: usize = 0;
    let ghost rv = attributes_view(rest@);
    let ghost head = (v@.subrange(i as int, ne as int), v@.subrange(p2 + 1, ve as int));
    proof {
        assert(rv.take(0) =~= Seq::<(Seq<char>, Seq<char>)>::empty());
        assert(attributes_view(attrs@) =~= seq![head] + rv.take(0));
    }
    while k < rest.len()
        invariant
            k <= rest@.len(),
            attrs@.len() == k + 1,
            attributes_view(attrs@) == seq![head] + rv.take(k as int),
            rv.len() == rest@.len(),
            forall|m: int|
                0 <= m < rest@.len() ==> rv[m] == ((#[trigger] rest@[m]).0@, rest@[m].1@),
        decreases rest@.len() - k,
    {
        let ghost prev = attrs@;
        let pair = (rest[k].0.clone(), rest[k].1.clone());
        attrs.push(pair);
        proof {
            let lhs = attributes_view(attrs@);
            let rhs = seq![head] + rv.take(k + 1);
            assert forall|m: int| 0 <= m < lhs.len() implies lhs[m] == rhs[m] by {
                if m < k + 1 {
                    assert(attrs@[m] == prev[m]);
                    assert(attributes_view(prev)[m] == (seq![head] + rv.take(k as int))[m]);
                } else {
                    assert(attrs@[m] == (pair.0, pair.1));
                    assert(rv.take(k + 1)[k as int] == rv[k as int]);
                }
            }
            assert(lhs =~= rhs);
        }
        k += 1;
    }
    proof {
        assert(rv.take(rv.len() as int) =~= rv);
        assert(attributes_view(attrs@) =~= seq![(v@.subrange(i as int, ne as int), v@.subrange(
            p2 + 1,
            ve as int,
        ))] + rv);
    }
    Some((attrs, e))
}

/// Reads the children from position `i`, stopping before the closing tag.
#[verifier::loop_isolation(false)]
fn parse_children_at(v: &Vec<char>, i: usize) -> (r: Option<(Vec<Child>, usize)>)
    requires
        i <= v@.len(),
    ensures
        match r {
            Some((cs, e)) => i <= e <= v@.len() && spec_parse_children(v@, i as int) == Some(
                (children_view(cs@), e as int),
            ),
            None => spec_parse_children(v@, i as int) is None,
        },
    decreases v@.len() - i, 1int,
{
    if i >= v.len() {
        return None;
    }
    if tag_end_at(v, i).is_some() {
        let empty: Vec<Child> = Vec::new();
        proof {
            assert(children_view(empty@) =~= Seq::<SpecChild>::empty());
        }
        return Some((empty, i));
    }
    if v[i] == '<' {
        let (n, e) = match parse_node_at(v, i) {
            Some(x) => x,
            None => {
                return None;
            },
        };
        let (rest, ce) = match parse_children_at(v, e) {
            Some(x) => x,
            None => {
                return None;
            },
        };
        let mut children: Vec<Child> = Vec::new();
        let ghost nview = n@;
        children.push(Child::Node(n));
        proof {
            lemma_children_view_index(children@);
            assert(children_view(children@) =~= seq![SpecChild::Node(nview)]);
        }
        let out = append_children(children, rest);
        proof {
            assert(children_view(out@) =~= seq![SpecChild::Node(nview)] + children_view(rest@));
        }
        return Some((out, ce));
    }
    let re = find_at(v, i, '<');
    if re >= v.len() {
        return None;
    }
    let raw_text = unescape(slice_to_string(v, i, re));
    let (rest, ce) = match parse_children_at(v, re) {
        Some(x) => x,
        None => {
            return None;
        },
    };
    let mut children: Vec<Child> = Vec::new();
    let ghost rawview = raw_text@;
    children.push(Child::Raw(raw_text));
    proof {
        lemma_children_view_index(children@);
        assert(children_view(children@) =~= seq![SpecChild::Raw(rawview)]);
    }
    let out = append_children(children, rest);
    proof {
        assert(children_view(out@) =~= seq![SpecChild::Raw(rawview)] + children_view(rest@));
    }
    Some((out, ce))
}

/// Concatenates two child lists, preserving their shapes in order.
#[verifier::loop_isolation(false)]
fn append_children(first: Vec<Child>, rest: Vec<Child>) -> (r: Vec<Child>)
    ensures
        children_view(r@) == children_view(first@) + children_view(rest@),
{
    let mut out = first;
    let ghost fview = out@;
    let mut rest = rest;
    let ghost rorig = rest@;
    proof {
        lemma_children_view_index(fview);
        lemma_children_view_index(rorig);
    }
    while rest.len() > 0
        invariant
            out@.len() + rest@.len() == fview.len() + rorig.len(),
            rest@ == rorig.skip((rorig.len() - rest@.len()) as int),
            out@.len() >= fview.len(),
            forall|m: int| 0 <= m < fview.len() ==> child_view(#[trigger] out@[m]) == child_view(fview[m]),
            forall|m: int|
                fview.len() <= m < out@.len() ==> child_view(#[trigger] out@[m]) == child_view(
                    rorig[m - fview.len()],
                ),
        decreases rest@.len(),
    {
        let ghost done = (rorig.len() - rest@.len()) as int;
        proof {
            assert(rorig.skip(done)[0] == rorig[done]);
            assert(rorig.skip(done).remove(0) =~= rorig.skip(done + 1));
        }
        let c = rest.remove(0);
        out.push(c);
    }
    proof {
        lemma_children_view_index(out@);
        assert(children_view(out@) =~= children_view(fview) + children_view(rorig));
    }
    out
}

/// The end of the closing tag at `i`, if one stands there.
#[verifier::loop_isolation(false)]
fn tag_end_at(v: &Vec<char>, i: usize) -> (r: Option<usize>)
    requires
        i <= v@.len(),
    ensures
        match r {
            Some(e) => i < e <= v@.len() && spec_tag_end(v@, i as int) == Some(e as int),
            None => spec_tag_end(v@, i as int) is None,
        },
{
    if v.len() - i < 2 || v[i] != '<' || v[i + 1] != '/' {
        return None;
    }
    let ne = ident_end_at(v, i + 2);
    if ne > i + 2 && ne < v.len() && v[ne] == '>' {
        Some(ne + 1)
    } else {
        None
    }
}

/// Scans past the name characters from `i`.
#[verifier::loop_isolation(false)]
fn ident_end_at(v: &Vec<char>, i: usize) -> (r: usize)
    requires
        i <= v@.len(),
    ensures
        r == spec_ident_end(v@, i as int),
        i <= r <= v@.len(),
        i < v@.len() && xml_ident_char(v@[i as int]) ==> r > i,
{
    let mut j = i;
    while j < v.len() && (('a' <= v[j] && v[j] <= 'z') || ('A' <= v[j] && v[j] <= 'Z') || ('0'
        <= v[j] && v[j] <= '9') || v[j] == '_' || v[j] == '-' || v[j] == '.')
        invariant
            i <= j <= v@.len(),
            spec_ident_end(v@, i as int) == spec_ident_end(v@, j as int),
        decreases v@.len() - j,
    {
        j += 1;
    }
    j
}

/// Scans past the spacing characters from `i`.
#[verifier::loop_isolation(false)]
fn spaces_end_at(v: &Vec<char>, i: usize) -> (r: usize)
    requires
        i <= v@.len(),
    ensures
        r == spec_spaces_end(v@, i as int),
        i <= r <= v@.len(),
{
    let mut j = i;
    while j < v.len() && (v[j] == ' ' || v[j] == '\t' || v[j] == '\n' || v[j] == '\r' || v[j]
        == '\u{c}')
        invariant
            i <= j <= v@.len(),
            spec_spaces_end(v@, i as int) == spec_spaces_end(v@, j as int),
        decreases v@.len() - j,
    {
        j += 1;
    }
    j
}

/// Scans to the next occurrence of `t` from `i`.
#[verifier::loop_isolation(false)]
fn find_at(v: &Vec<char>, i: usize, t: char) -> (r: usize)
    requires
        i <= v@.len(),
    ensures
        r == spec_find(v@, i as int, t),
        i <= r <= v@.len(),
        i < v@.len() && v@[i as int] != t ==> r > i,
{
    let mut j = i;
    while j < v.len() && v[j] != t
        invariant
            i <= j <= v@.len(),
            spec_find(v@, i as int, t) == spec_find(v@, j as int, t),
        decreases v@.len() - j,
    {
        j += 1;
    }
    j
}

/// Copies the characters of `v` between `from` and `to` into a string.
#[verifier::loop_isolation(false)]
fn slice_to_string(v: &Vec<char>, from: usize, to: usize) -> (r: String)
    requires
        from <= to <= v@.len(),
    ensures
        r@ == v@.subrange(from as int, to as int),
{
    let mut out: Vec<char> = Vec::new();
    let mut j = from;
    proof {
        assert(v@.subrange(from as int, from as int) =~= Seq::<char>::empty());
    }
    while j < to
        invariant
            from <= j <= to,
            out@ == v@.subrange(from as int, j as int),
        decreases to - j,
    {
        out.push(v[j]);
        proof {
            assert(v@.subrange(from as int, j + 1) =~= v@.subrange(from as int, j as int).push(
                v@[j as int],
            ));
        }
        j += 1;
    }
    chars_to_string(&out)
}

} // verus!
