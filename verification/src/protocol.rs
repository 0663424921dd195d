//! The value grammar of the backend protocol: self-describing values,
//! results, feedback, rich-text messages, and the calls the daemon sends.

use vstd::prelude::*;

use crate::xml::XMLNode;

verus! {

/// A self-describing protocol value.
#[derive(Debug)]
pub enum ProtocolValue {
    /// `<unit/>`, which holds no value.
    Unit,
    /// `<list>...</list>`, a list of values.
    List(Vec<ProtocolValue>),
    /// `<string>...</string>`, a string literal.
    Str(String),
    /// `<int>...</int>`, a single integer.
    Int(i64),
    /// `<bool val="..."/>`, a boolean.
    Boolean(bool),
    /// `<pair>v1 v2</pair>`, a pair of values.
    Pair(Box<ProtocolValue>, Box<ProtocolValue>),
    /// `<option val="none"/>` or `<option val="some">v</option>`.
    Optional(Option<Box<ProtocolValue>>),
    /// `<state_id val="..."/>`, a backend state identifier.
    StateId(i64),
    /// `<route_id val="..."/>`, a feedback route identifier.
    RouteId(i64),
    /// `<union val="in_l">v</union>`, the left case of a sum.
    Inl(Box<ProtocolValue>),
    /// `<union val="in_r">v</union>`, the right case of a sum.
    Inr(Box<ProtocolValue>),
    /// `<status>paths proof-name pending-proofs proof-number</status>`.
    Status(Box<ProtocolValue>, Box<ProtocolValue>, Box<ProtocolValue>, Box<ProtocolValue>),
    /// `<goals>fg bg sg gg</goals>`: focused goals, background goal
    /// pairs, shelved goals, given-up goals.
    Goals(
        Vec<ProtocolValue>,
        Vec<(Vec<ProtocolValue>, Vec<ProtocolValue>)>,
        Vec<ProtocolValue>,
        Vec<ProtocolValue>,
    ),
    /// `<goal>name hypotheses conclusion</goal>`.
    Goal(Box<ProtocolValue>, Vec<ProtocolRichPP>, ProtocolRichPP),
    /// A value under an element name the decoder does not know; kept raw
    /// for forward compatibility.
    Unknown(XMLNode),
}

/// A result returned by the backend: a successful value, a failure with a
/// safe state to return to, or asynchronous feedback.
#[derive(Debug)]
pub enum ProtocolResult {
    /// Everything went well, with a transmitted value.
    Good(ProtocolValue),
    /// An error occurred.
    Fail(
        /// The optional start offset of the error location.
        Option<i64>,
        /// The optional end offset of the error location.
        Option<i64>,
        /// The state id to go back to on error, as a `StateId` value.
        ProtocolValue,
        /// The error message.
        ProtocolRichPP,
    ),
    /// Asynchronous feedback.
    Feedback(
        /// The object the feedback relates to.
        String,
        /// The route id of the feedback.
        String,
        /// The state id the feedback relates to, as a `StateId` value.
        ProtocolValue,
        /// The content of the feedback.
        FeedbackContent,
    ),
}

impl ProtocolResult {
    /// Whether this result is feedback rather than a response.
    pub fn is_feedback(&self) -> (r: bool)
        ensures
            r == (self matches ProtocolResult::Feedback(..)),
    {
        match self {
            ProtocolResult::Feedback(..) => true,
            _ => false,
        }
    }
}

/// The content of a feedback result.
#[derive(Debug)]
pub enum FeedbackContent {
    /// A rich-text message at some level.
    Message(MessageType, ProtocolRichPP),
    /// Some piece of code has been processed.
    Processed,
    /// Worker status report.
    WorkerStatus(XMLNode),
    /// The backend is processing a call.
    Processing(XMLNode),
    /// Some proof has been temporarily admitted.
    AddedAxiom,
    /// A module has been loaded from a file: its name and its path.
    FileLoaded(String, String),
}

/// The level of a message sent by the backend.
#[derive(Clone, Copy, Debug, PartialEq, Eq, Structural)]
pub enum MessageType {
    Debug,
    Info,
    Notice,
    Warning,
    Error,
}

/// A pretty-printed message: an ordered list of annotated parts.
#[derive(Debug)]
pub enum ProtocolRichPP {
    RichPP(Vec<ProtocolRichPPPart>),
}

/// One part of a rich-text message, carrying its text.
#[derive(Debug)]
pub enum ProtocolRichPPPart {
    /// Plain text.
    Raw(String),
    /// A keyword.
    Keyword(String),
    /// An existential variable.
    Evar(String),
    /// A type.
    Type(String),
    /// A notation.
    Notation(String),
    /// A variable.
    Variable(String),
    /// A reference.
    Reference(String),
    /// A module path.
    Path(String),
    /// Warning-highlighted text.
    Warning(String),
    /// Error-highlighted text.
    Error(String),
}

/// Commands the backend understands.
#[derive(Debug)]
pub enum ProtocolCall {
    /// Initialize the session.
    Init(
        /// Must be of the form `Optional(_)`.
        ProtocolValue,
    ),
    /// Quit.
    Quit,
    /// Go back to a previous state.
    EditAt(
        /// The state id to go back to.
        i64,
    ),
    /// Run a query in a disposable context; the value must be of the form
    /// `Pair(RouteId(_), Pair(Str(_), StateId(_)))`.
    Query(ProtocolValue),
    /// Fetch hints.
    Hints,
    /// Get the current goals.
    Goal,
    /// Send a piece of code for verification, tied to a state id.
    Add(String, i64),
    /// Ask for the worker status; the value is the `force` boolean.
    Status(ProtocolValue),
}

/// The ways a backend document can be malformed.
#[derive(Clone, Copy, Debug, PartialEq, Eq, Structural)]
pub enum DecodeError {
    InvalidUnit,
    InvalidList,
    InvalidString,
    InvalidInteger,
    InvalidBoolean,
    InvalidPair,
    InvalidOption,
    InvalidStatus,
    InvalidValue,
    InvalidRichPP,
    InvalidStateId,
    InvalidFeedback,
    InvalidFeedbackContent,
    InvalidGoals,
    InvalidGoal,
}

impl DecodeError {
    /// A human-readable description of the malformed tag.
    pub fn message(&self) -> (r: &'static str)
        ensures
            r@.len() > 0,
    {
        proof {
            reveal_strlit("Invalid <unit/> tag");
            reveal_strlit("Invalid <list/> tag");
            reveal_strlit("Invalid <string/> tag");
            reveal_strlit("Invalid <int/> tag");
            reveal_strlit("Invalid <bool/> tag");
            reveal_strlit("Invalid <pair/> tag");
            reveal_strlit("Invalid <option/> tag");
            reveal_strlit("Invalid <status/> tag");
            reveal_strlit("Invalid <value/> tag");
            reveal_strlit("Invalid <richpp/> tag");
            reveal_strlit("Invalid <state_id/> tag");
            reveal_strlit("Invalid <feedback/> tag");
            reveal_strlit("Invalid <feedback_content/> tag");
            reveal_strlit("Invalid <goals/> tag");
            reveal_strlit("Invalid <goal> tag");
        }
        match self {
            DecodeError::InvalidUnit => "Invalid <unit/> tag",
            DecodeError::InvalidList => "Invalid <list/> tag",
            DecodeError::InvalidString => "Invalid <string/> tag",
            DecodeError::InvalidInteger => "Invalid <int/> tag",
            DecodeError::InvalidBoolean => "Invalid <bool/> tag",
            DecodeError::InvalidPair => "Invalid <pair/> tag",
            DecodeError::InvalidOption => "Invalid <option/> tag",
            DecodeError::InvalidStatus => "Invalid <status/> tag",
            DecodeError::InvalidValue => "Invalid <value/> tag",
            DecodeError::InvalidRichPP => "Invalid <richpp/> tag",
            DecodeError::InvalidStateId => "Invalid <state_id/> tag",
            DecodeError::InvalidFeedback => "Invalid <feedback/> tag",
            DecodeError::InvalidFeedbackContent => "Invalid <feedback_content/> tag",
            DecodeError::InvalidGoals => "Invalid <goals/> tag",
            DecodeError::InvalidGoal => "Invalid <goal> tag",
        }
    }
}

/// The text a rich-text part carries.
pub open spec fn part_text(p: ProtocolRichPPPart) -> Seq<char> {
    match p {
        ProtocolRichPPPart::Raw(s) => s@,
        ProtocolRichPPPart::Keyword(s) => s@,
        ProtocolRichPPPart::Evar(s) => s@,
        ProtocolRichPPPart::Type(s) => s@,
        ProtocolRichPPPart::Notation(s) => s@,
        ProtocolRichPPPart::Variable(s) => s@,
        ProtocolRichPPPart::Reference(s) => s@,
        ProtocolRichPPPart::Path(s) => s@,
        ProtocolRichPPPart::Warning(s) => s@,
        ProtocolRichPPPart::Error(s) => s@,
    }
}

/// The texts of a message's parts, in order.
pub open spec fn parts_texts(ps: Seq<ProtocolRichPPPart>) -> Seq<Seq<char>> {
    Seq::new(ps.len(), |i: int| part_text(ps[i]))
}

/// The parts of a message.
pub open spec fn richpp_parts(m: ProtocolRichPP) -> Seq<ProtocolRichPPPart> {
    match m {
        ProtocolRichPP::RichPP(ps) => ps@,
    }
}

impl ProtocolRichPPPart {
    /// Drops the annotation, keeping the text as plain text.
    pub fn strip_colors(self) -> (r: Self)
        ensures
            r matches ProtocolRichPPPart::Raw(s) && s@ == part_text(self),
    {
        match self {
            ProtocolRichPPPart::Raw(s) => ProtocolRichPPPart::Raw(s),
            ProtocolRichPPPart::Keyword(s) => ProtocolRichPPPart::Raw(s),
            ProtocolRichPPPart::Evar(s) => ProtocolRichPPPart::Raw(s),
            ProtocolRichPPPart::Type(s) => ProtocolRichPPPart::Raw(s),
            ProtocolRichPPPart::Notation(s) => ProtocolRichPPPart::Raw(s),
            ProtocolRichPPPart::Variable(s) => ProtocolRichPPPart::Raw(s),
            ProtocolRichPPPart::Reference(s) => ProtocolRichPPPart::Raw(s),
            ProtocolRichPPPart::Path(s) => ProtocolRichPPPart::Raw(s),
            ProtocolRichPPPart::Warning(s) => ProtocolRichPPPart::Raw(s),
            ProtocolRichPPPart::Error(s) => ProtocolRichPPPart::Raw(s),
        }
    }
}

impl ProtocolRichPP {
    /// Drops every annotation: the same texts, all plain.
    pub fn strip(self) -> (r: Self)
        ensures
            richpp_parts(r).len() == richpp_parts(self).len(),
            forall|i: int|
                0 <= i < richpp_parts(r).len() ==> ((#[trigger] richpp_parts(r)[i])
                    matches ProtocolRichPPPart::Raw(_)) && part_text(richpp_parts(r)[i])
                    == part_text(richpp_parts(self)[i]),
    {
        let ProtocolRichPP::RichPP(parts) = self;
        let ghost orig = parts@;
        let mut parts = parts;
        let mut out: Vec<ProtocolRichPPPart> = Vec::new();
        while parts.len() > 0
            invariant
                out@.len() + parts@.len() == orig.len(),
                parts@ == orig.skip(out@.len() as int),
                forall|k: int|
                    0 <= k < out@.len() ==> ((#[trigger] out@[k]) matches ProtocolRichPPPart::Raw(
                        _,
                    )) && part_text(out@[k]) == part_text(orig[k]),
            decreases parts@.len(),
        {
            let ghost done = out@.len() as int;
            proof {
                assert(orig.skip(done)[0] == orig[done]);
                assert(orig.skip(done).remove(0) =~= orig.skip(done + 1));
            }
            let p = parts.remove(0);
            out.push(p.strip_colors());
        }
        ProtocolRichPP::RichPP(out)
    }

    /// Highlights the whole message as a warning: the same texts, all
    /// tagged as warnings.
    pub fn warning(self) -> (r: Self)
        ensures
            richpp_parts(r).len() == richpp_parts(self).len(),
            forall|i: int|
                0 <= i < richpp_parts(r).len() ==> ((#[trigger] richpp_parts(r)[i])
                    matches ProtocolRichPPPart::Warning(_)) && part_text(richpp_parts(r)[i])
                    == part_text(richpp_parts(self)[i]),
    {
        let ProtocolRichPP::RichPP(parts) = self;
        let ghost orig = parts@;
        let mut parts = parts;
        let mut out: Vec<ProtocolRichPPPart> = Vec::new();
        while parts.len() > 0
            invariant
                out@.len() + parts@.len() == orig.len(),
                parts@ == orig.skip(out@.len() as int),
                forall|k: int|
                    0 <= k < out@.len() ==> ((#[trigger] out@[k])
                        matches ProtocolRichPPPart::Warning(_)) && part_text(out@[k]) == part_text(
                        orig[k],
                    ),
            decreases parts@.len(),
        {
            let ghost done = out@.len() as int;
            proof {
                assert(orig.skip(done)[0] == orig[done]);
                assert(orig.skip(done).remove(0) =~= orig.skip(done + 1));
            }
            let p = parts.remove(0);
            let stripped = p.strip_colors();
            match stripped {
                ProtocolRichPPPart::Raw(s) => out.push(ProtocolRichPPPart::Warning(s)),
                other => out.push(other),
            }
        }
        ProtocolRichPP::RichPP(out)
    }

    /// Highlights the whole message as an error: the same texts, all
    /// tagged as errors.
    pub fn error(self) -> (r: Self)
        ensures
            richpp_parts(r).len() == richpp_parts(self).len(),
            forall|i: int|
                0 <= i < richpp_parts(r).len() ==> ((#[trigger] richpp_parts(r)[i])
                    matches ProtocolRichPPPart::Error(_)) && part_text(richpp_parts(r)[i])
                    == part_text(richpp_parts(self)[i]),
    {
        let ProtocolRichPP::RichPP(parts) = self;
        let ghost orig = parts@;
        let mut parts = parts;
        let mut out: Vec<ProtocolRichPPPart> = Vec::new();
        while parts.len() > 0
            invariant
                out@.len() + parts@.len() == orig.len(),
                parts@ == orig.skip(out@.len() as int),
                forall|k: int|
                    0 <= k < out@.len() ==> ((#[trigger] out@[k])
                        matches ProtocolRichPPPart::Error(_)) && part_text(out@[k]) == part_text(
                        orig[k],
                    ),
            decreases parts@.len(),
        {
            let ghost done = out@.len() as int;
            proof {
                assert(orig.skip(done)[0] == orig[done]);
                assert(orig.skip(done).remove(0) =~= orig.skip(done + 1));
            }
            let p = parts.remove(0);
            let stripped = p.strip_colors();
            match stripped {
                ProtocolRichPPPart::Raw(s) => out.push(ProtocolRichPPPart::Error(s)),
                other => out.push(other),
            }
        }
        ProtocolRichPP::RichPP(out)
    }

    /// The plain text of the whole message, with annotations dropped.
    pub fn to_text(&self) -> (r: String)
        ensures
            r@ == richpp_text(*self),
    {
        let ProtocolRichPP::RichPP(parts) = self;
        let mut out: Vec<char> = Vec::new();
        let mut i: usize = 0;
        proof {
            assert(parts@.skip(0) =~= parts@);
        }
        while i < parts.len()
            invariant
                i <= parts@.len(),
                out@ + texts_concat_from(parts@.skip(i as int)) == texts_concat_from(parts@),
            decreases parts@.len() - i,
        {
            proof {
                assert(parts@.skip(i as int)[0] == parts@[i as int]);
                assert(parts@.skip(i as int).drop_first() =~= parts@.skip(i + 1));
            }
            let part = &parts[i];
            let s: &String = match part {
                ProtocolRichPPPart::Raw(s) => s,
                ProtocolRichPPPart::Keyword(s) => s,
                ProtocolRichPPPart::Evar(s) => s,
                ProtocolRichPPPart::Type(s) => s,
                ProtocolRichPPPart::Notation(s) => s,
                ProtocolRichPPPart::Variable(s) => s,
                ProtocolRichPPPart::Reference(s) => s,
                ProtocolRichPPPart::Path(s) => s,
                ProtocolRichPPPart::Warning(s) => s,
                ProtocolRichPPPart::Error(s) => s,
            };
            crate::strutil::push_str_chars(&mut out, s.as_str());
            proof {
                assert(out@ + texts_concat_from(parts@.skip(i + 1)) =~= texts_concat_from(
                    parts@,
                ));
            }
            i += 1;
        }
        proof {
            assert(texts_concat_from(parts@.skip(parts@.len() as int)) =~= Seq::<char>::empty());
            assert(out@ =~= texts_concat_from(parts@));
        }
        crate::strutil::chars_to_string(&out)
    }
}

/// The concatenated texts of a list of parts.
pub open spec fn texts_concat_from(ps: Seq<ProtocolRichPPPart>) -> Seq<char>
    decreases ps.len(),
{
    if ps.len() == 0 {
        Seq::empty()
    } else {
        part_text(ps[0]) + texts_concat_from(ps.drop_first())
    }
}

/// The plain text of a whole message.
pub open spec fn richpp_text(m: ProtocolRichPP) -> Seq<char> {
    texts_concat_from(richpp_parts(m))
}

} // verus!
