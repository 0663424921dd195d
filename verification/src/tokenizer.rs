//! The statement tokenizer: a small state machine that cuts a character
//! stream of proof-assistant source into statement ranges, handling string
//! literals, nested comments, bullets, and the `.` vs `..` vs
//! qualified-identifier disambiguation.
//!
//! Concatenating the texts of the emitted statements, in order, gives back
//! the consumed prefix of the input (see [`tokenize`]): no character is
//! duplicated and none is lost, except that the character which ends the
//! scan can fall beyond the last statement.

use vstd::prelude::*;

use crate::range::Range;
use crate::strutil::chars_to_string;

verus! {

/// Bullet styles.
///
/// `{` and `}` are not in here because they do not stack: `{{` is two
/// separate statements.
#[derive(Clone, Copy, Debug, PartialEq, Eq, Structural)]
pub enum BulletStyle {
    /// `+`
    Plus,
    /// `-`
    Minus,
    /// `*`
    Star,
}

/// The bullet style a character starts, if any.
pub open spec fn spec_bullet_of(c: char) -> Option<BulletStyle> {
    if c == '+' {
        Some(BulletStyle::Plus)
    } else if c == '-' {
        Some(BulletStyle::Minus)
    } else if c == '*' {
        Some(BulletStyle::Star)
    } else {
        None
    }
}

impl BulletStyle {
    /// Gets the [`BulletStyle`] corresponding to a given character.
    pub fn from_char(c: char) -> (r: Option<Self>)
        ensures
            r == spec_bullet_of(c),
    {
        match c {
            '+' => Some(Self::Plus),
            '-' => Some(Self::Minus),
            '*' => Some(Self::Star),
            _ => None,
        }
    }
}

/// Whether `c` has the Unicode `White_Space` property; the list is fixed by
/// the Unicode standard.
pub open spec fn spec_is_whitespace(c: char) -> bool {
    c == ' ' || c == '\t' || c == '\n' || c == '\u{b}' || c == '\u{c}' || c == '\r'
        || c == '\u{85}' || c == '\u{a0}' || c == '\u{1680}' || ('\u{2000}' <= c && c
        <= '\u{200a}') || c == '\u{2028}' || c == '\u{2029}' || c == '\u{202f}' || c == '\u{205f}'
        || c == '\u{3000}'
}

/// Decides the Unicode `White_Space` property.
pub fn is_whitespace_char(c: char) -> (r: bool)
    ensures
        r == spec_is_whitespace(c),
{
    c == ' ' || c == '\t' || c == '\n' || c == '\u{b}' || c == '\u{c}' || c == '\r'
        || c == '\u{85}' || c == '\u{a0}' || c == '\u{1680}' || ('\u{2000}' <= c && c
        <= '\u{200a}') || c == '\u{2028}' || c == '\u{2029}' || c == '\u{202f}' || c == '\u{205f}'
        || c == '\u{3000}'
}

/// Whether `c` has the Unicode `Alphabetic` property.  The property is a
/// large character table, so it is only named here; ASCII letters are the
/// one part contracts rely on.
pub uninterp spec fn spec_is_alphabetic(c: char) -> bool;

/// Relies on `char::is_alphabetic`: true exactly for characters with the
/// Unicode `Alphabetic` property, which on ASCII are the letters.
#[verifier::external_body]
pub fn is_alphabetic_char(c: char) -> (r: bool)
    ensures
        r == spec_is_alphabetic(c),
        ('a' <= c && c <= 'z') || ('A' <= c && c <= 'Z') ==> r,
        c < '\u{80}' && !(('a' <= c && c <= 'z') || ('A' <= c && c <= 'Z')) ==> !r,
{
    c.is_alphabetic()
}

/// The states of the tokenizer's state machine.
#[derive(Clone, Copy, Debug)]
pub enum MachineState {
    /// The cursor is inside a string: a `"`-delimited run of characters.
    InString,
    /// A backslash was just read inside a string: the next character is
    /// escaped.
    BackslashInString,
    /// The cursor lies inside a comment `(*<...>*)`; comments nest.
    InComment {
        /// Was the cursor at the beginning of a statement before the
        /// comment opened?
        at_beginning_of_coq_line: bool,
    },
    /// A `(` was just read; the machine does not yet know whether a comment
    /// starts here.
    AtBeginningOfComment { at_beginning_of_coq_line: bool },
    /// A `*` was just read inside a comment; the machine does not yet know
    /// whether the comment closes here.
    AtEndOfComment { at_beginning_of_coq_line: bool },
    /// A `.` that may end the statement was just read.
    AtEOL,
    /// A bullet run (`-`, `*` or `+` repeated) is being read.
    InBullet {
        /// The current bullet style.
        bullet_style: BulletStyle,
    },
    /// A whitespace character was just read; a following `.` may end the
    /// statement or start the `..` token.
    AfterWhitespace,
    /// The sequence ` .` was just read; the next character decides between
    /// a statement end and the `..` token.
    AfterWhitespaceAndEOL,
}

/// The position being analyzed: a 1-based line and column.
#[derive(Clone, Copy, Debug, PartialEq, Eq, Structural)]
pub struct Cursor(pub u64, pub u64);

impl Cursor {
    pub fn new(line: u64, column: u64) -> (r: Self)
        ensures
            r == Cursor(line, column),
    {
        Cursor(line, column)
    }

    /// Advances past `c`: a newline moves to the start of the next line,
    /// any other character moves one column right.
    pub fn step(&mut self, c: char)
        requires
            old(self).0 + 1 <= u64::MAX,
            old(self).1 + 1 <= u64::MAX,
        ensures
            c == '\n' ==> *final(self) == Cursor((old(self).0 + 1) as u64, 1u64),
            c != '\n' ==> *final(self) == Cursor(old(self).0, (old(self).1 + 1) as u64),
    {
        if c == '\n' {
            self.0 += 1;
            self.1 = 1;
        } else {
            self.1 += 1;
        }
    }

    /// Moves one column left.
    pub fn back(&mut self)
        requires
            old(self).1 >= 1,
        ensures
            *final(self) == Cursor(old(self).0, (old(self).1 - 1) as u64),
    {
        self.1 -= 1;
    }
}

/// The scan commands.
#[derive(Clone, Copy, Debug)]
pub enum Command {
    /// Yield only the next statement.
    Next,
    /// Yield statements until the cursor has passed the target.
    To { target: Cursor },
}

/// The global machine state.
pub struct GlobalState {
    /// The position being analyzed; updated for each consumed character.
    pub cursor: Cursor,
    /// The text consumed since the last emitted statement.
    pub code: Vec<char>,
    /// Where the statement being read began.
    pub starting: Cursor,
    /// The scan command.
    pub command: Command,
    /// Whether any statement was emitted yet.
    pub any_found: bool,
    /// Whether the cursor is at the beginning of a statement.
    pub at_beginning_of_coq_line: bool,
    /// The current state stack.
    pub states: Vec<MachineState>,
}

/// The machine states that were entered by backing up over the current
/// character: while one is on top of the stack, the column is at least 2,
/// so the cursor can step back.
pub open spec fn top_backtracks(states: Seq<MachineState>) -> bool {
    states.len() > 0 && (states.last() matches MachineState::AtEOL || states.last()
        matches MachineState::InBullet { .. })
}

impl GlobalState {
    /// The machine's own invariant: the column is 1-based, a state that
    /// backs up the cursor is only entered with the column at least 2, and
    /// the backing-up states only ever sit alone on the stack.
    pub open spec fn wf(&self) -> bool {
        &&& self.cursor.1 >= 1
        &&& top_backtracks(self.states@) ==> self.cursor.1 >= 2
        &&& forall|i: int|
            0 <= i < self.states@.len() && ((#[trigger] self.states@[i])
                matches MachineState::AtEOL || self.states@[i] matches MachineState::InBullet {
                ..
            }) ==> self.states@.len() == 1
    }

    pub fn new(starting: Cursor, command: Command) -> (r: Self)
        ensures
            r.cursor == starting,
            r.code@ == Seq::<char>::empty(),
            r.starting == starting,
            r.command == command,
            r.any_found == false,
            r.at_beginning_of_coq_line == true,
            r.states@ == Seq::<MachineState>::empty(),
    {
        Self {
            cursor: starting,
            code: Vec::new(),
            starting,
            command,
            any_found: false,
            at_beginning_of_coq_line: true,
            states: Vec::new(),
        }
    }

    pub fn push_state(&mut self, st: MachineState)
        ensures
            final(self).cursor == old(self).cursor,
            final(self).code == old(self).code,
            final(self).starting == old(self).starting,
            final(self).command == old(self).command,
            final(self).any_found == old(self).any_found,
            final(self).at_beginning_of_coq_line == old(self).at_beginning_of_coq_line,
            final(self).states@ == old(self).states@.push(st),
    {
        self.states.push(st);
    }

    pub fn pop_state(&mut self) -> (r: Option<MachineState>)
        ensures
            final(self).cursor == old(self).cursor,
            final(self).code == old(self).code,
            final(self).starting == old(self).starting,
            final(self).command == old(self).command,
            final(self).any_found == old(self).any_found,
            final(self).at_beginning_of_coq_line == old(self).at_beginning_of_coq_line,
            match r {
                Some(st) => old(self).states@.len() > 0 && st == old(self).states@.last()
                    && final(self).states@ == old(self).states@.drop_last(),
                None => old(self).states@.len() == 0 && final(self).states@ == old(self).states@,
            },
    {
        self.states.pop()
    }

    pub fn append_char(&mut self, c: char)
        ensures
            final(self).cursor == old(self).cursor,
            final(self).starting == old(self).starting,
            final(self).command == old(self).command,
            final(self).any_found == old(self).any_found,
            final(self).at_beginning_of_coq_line == old(self).at_beginning_of_coq_line,
            final(self).states == old(self).states,
            final(self).code@ == old(self).code@.push(c),
    {
        self.code.push(c);
    }

    /// Advances the cursor past `c`.
    pub fn next(&mut self, c: char)
        requires
            old(self).cursor.0 + 1 <= u64::MAX,
            old(self).cursor.1 + 1 <= u64::MAX,
        ensures
            final(self).code == old(self).code,
            final(self).starting == old(self).starting,
            final(self).command == old(self).command,
            final(self).any_found == old(self).any_found,
            final(self).at_beginning_of_coq_line == old(self).at_beginning_of_coq_line,
            final(self).states == old(self).states,
            c == '\n' ==> final(self).cursor == Cursor((old(self).cursor.0 + 1) as u64, 1u64),
            c != '\n' ==> final(self).cursor == Cursor(
                old(self).cursor.0,
                (old(self).cursor.1 + 1) as u64,
            ),
    {
        self.cursor.step(c);
    }

    /// Backs up over the last consumed character: the cursor moves one
    /// column left and the character leaves the pending text.
    pub fn backtrack_once(&mut self)
        requires
            old(self).cursor.1 >= 1,
            old(self).code@.len() > 0,
        ensures
            final(self).starting == old(self).starting,
            final(self).command == old(self).command,
            final(self).any_found == old(self).any_found,
            final(self).at_beginning_of_coq_line == old(self).at_beginning_of_coq_line,
            final(self).states == old(self).states,
            final(self).cursor == Cursor(old(self).cursor.0, (old(self).cursor.1 - 1) as u64),
            final(self).code@ == old(self).code@.drop_last(),
    {
        self.cursor.back();
        let _ = self.code.pop();
    }
}

/// The mathematical state of the machine: what the transition contracts
/// speak about.
pub struct SpecMachine {
    pub cursor: Cursor,
    pub code: Seq<char>,
    pub starting: Cursor,
    pub command: Command,
    pub any_found: bool,
    pub at_beginning_of_coq_line: bool,
    pub states: Seq<MachineState>,
}

/// The mathematical state of a machine value.
pub open spec fn machine_view(st: GlobalState) -> SpecMachine {
    SpecMachine {
        cursor: st.cursor,
        code: st.code@,
        starting: st.starting,
        command: st.command,
        any_found: st.any_found,
        at_beginning_of_coq_line: st.at_beginning_of_coq_line,
        states: st.states@,
    }
}

/// The mathematical shape of the emitted statements.
pub open spec fn out_view(out: Seq<(Range, String)>) -> Seq<(Range, Seq<char>)> {
    Seq::new(out.len(), |i: int| (out[i].0, out[i].1@))
}

/// Appending a statement appends its shape.
proof fn lemma_out_view_push(out: Seq<(Range, String)>, x: (Range, String))
    ensures
        out_view(out.push(x)) == out_view(out).push((x.0, x.1@)),
{
    assert(out_view(out.push(x)) =~= out_view(out).push((x.0, x.1@)));
}

/// Popping the top machine state; popping an empty stack changes nothing.
pub open spec fn m_pop(m: SpecMachine) -> SpecMachine {
    SpecMachine {
        states: if m.states.len() > 0 {
            m.states.drop_last()
        } else {
            m.states
        },
        ..m
    }
}

/// Pushing a machine state.
pub open spec fn m_push(m: SpecMachine, s: MachineState) -> SpecMachine {
    SpecMachine { states: m.states.push(s), ..m }
}

/// Advancing the cursor past `c`: a newline moves to the start of the
/// next line, any other character one column right.
pub open spec fn m_next(m: SpecMachine, c: char) -> SpecMachine {
    SpecMachine {
        cursor: if c == '\n' {
            Cursor((m.cursor.0 + 1) as u64, 1u64)
        } else {
            Cursor(m.cursor.0, (m.cursor.1 + 1) as u64)
        },
        ..m
    }
}

/// Backing up over the last consumed character.
pub open spec fn m_back(m: SpecMachine) -> SpecMachine {
    SpecMachine {
        cursor: Cursor(m.cursor.0, (m.cursor.1 - 1) as u64),
        code: m.code.drop_last(),
        ..m
    }
}

/// Appending a character to the pending text.
pub open spec fn m_append(m: SpecMachine, c: char) -> SpecMachine {
    SpecMachine { code: m.code.push(c), ..m }
}

/// Recording whether the cursor is at the beginning of a statement.
pub open spec fn m_flag(m: SpecMachine, b: bool) -> SpecMachine {
    SpecMachine { at_beginning_of_coq_line: b, ..m }
}

/// Whether the scan may stop with the machine as it stands.
pub open spec fn spec_reached(m: SpecMachine) -> bool {
    match m.command {
        Command::Next => true,
        Command::To { target } => m.cursor.0 > target.0 || (m.cursor.0 == target.0 && m.cursor.1
            >= target.1),
    }
}

/// Emitting the pending text as one statement: the statement covers from
/// the recorded start to the cursor, the next statement starts one column
/// further, and the machine is back at the beginning of a statement.
pub open spec fn spec_emit(m: SpecMachine, out: Seq<(Range, Seq<char>)>) -> (
    SpecMachine,
    Seq<(Range, Seq<char>)>,
    bool,
) {
    let range = Range { begin: (m.starting.0, m.starting.1), end: (m.cursor.0, m.cursor.1) };
    let m2 = SpecMachine {
        code: Seq::empty(),
        starting: Cursor(m.cursor.0, (m.cursor.1 + 1) as u64),
        any_found: true,
        at_beginning_of_coq_line: true,
        ..m
    };
    (m2, out.push((range, m.code)), spec_reached(m2))
}

/// One transition of the tokenizer on the character `c`, which the caller
/// has already appended to the pending text: the lexical rules of §4.1 in
/// mathematical form.  Strings end only at an unescaped quote; comments
/// nest and restore the beginning-of-statement flag on close; a `.`
/// terminates the statement unless it continues a qualified identifier or
/// the `..` token; a bullet run extends only with the same style; `{` and
/// `}` at the beginning of a statement are single-character statements.
/// Returns the machine, the statements, and whether scanning continues.
pub open spec fn spec_step(m: SpecMachine, out: Seq<(Range, Seq<char>)>, c: char) -> (
    SpecMachine,
    Seq<(Range, Seq<char>)>,
    bool,
)
    decreases m.states.len(),
{
    if m.states.len() == 0 {
        if c == '(' {
            (
                m_next(
                    m_push(
                        m,
                        MachineState::AtBeginningOfComment {
                            at_beginning_of_coq_line: m.at_beginning_of_coq_line,
                        },
                    ),
                    c,
                ),
                out,
                true,
            )
        } else if c == '"' {
            (m_next(m_push(m, MachineState::InString), c), out, true)
        } else if c == '.' {
            (m_next(m_push(m, MachineState::AtEOL), c), out, true)
        } else if (c == '{' || c == '}') && m.at_beginning_of_coq_line {
            let (me, oe, stop) = spec_emit(m, out);
            if stop {
                (me, oe, false)
            } else {
                (m_next(me, c), oe, true)
            }
        } else if spec_is_whitespace(c) {
            (m_next(m_push(m, MachineState::AfterWhitespace), c), out, true)
        } else if m.at_beginning_of_coq_line && spec_bullet_of(c) is Some {
            (
                m_next(
                    m_push(
                        m,
                        MachineState::InBullet { bullet_style: spec_bullet_of(c)->Some_0 },
                    ),
                    c,
                ),
                out,
                true,
            )
        } else {
            (m_next(m_flag(m, false), c), out, true)
        }
    } else {
        match m.states.last() {
            MachineState::AtEOL => {
                if spec_is_alphabetic(c) || c == '.' {
                    (m_next(m_pop(m), c), out, true)
                } else {
                    let (me, oe, stop) = spec_emit(m_back(m), out);
                    if stop {
                        (me, oe, false)
                    } else {
                        spec_step(m_pop(m_next(m_append(me, c), '\u{0}')), oe, c)
                    }
                }
            },
            MachineState::InString => {
                let m1 = if c == '"' {
                    m_pop(m)
                } else if c == '\\' {
                    m_push(m, MachineState::BackslashInString)
                } else {
                    m
                };
                (m_next(m_flag(m1, false), c), out, true)
            },
            MachineState::BackslashInString => (m_next(m_pop(m), c), out, true),
            MachineState::InComment { at_beginning_of_coq_line } => {
                let m1 = if c == '*' {
                    m_push(m, MachineState::AtEndOfComment { at_beginning_of_coq_line })
                } else if c == '(' {
                    m_push(m, MachineState::AtBeginningOfComment { at_beginning_of_coq_line })
                } else {
                    m
                };
                (m_next(m1, c), out, true)
            },
            MachineState::AtBeginningOfComment { at_beginning_of_coq_line } => {
                let m1 = if c == '*' {
                    m_push(m_pop(m), MachineState::InComment { at_beginning_of_coq_line })
                } else {
                    let mp = m_pop(m);
                    if mp.states.len() == 0 {
                        m_flag(mp, false)
                    } else {
                        mp
                    }
                };
                (m_next(m1, c), out, true)
            },
            MachineState::AtEndOfComment { at_beginning_of_coq_line } => {
                let m1 = if c == ')' {
                    m_flag(m_pop(m_pop(m)), at_beginning_of_coq_line)
                } else if c != '*' {
                    m_pop(m)
                } else {
                    m
                };
                (m_next(m1, c), out, true)
            },
            MachineState::InBullet { bullet_style } => {
                if spec_bullet_of(c) == Some(bullet_style) {
                    (m_next(m, c), out, true)
                } else {
                    let (me, oe, stop) = spec_emit(m_back(m), out);
                    if stop {
                        (me, oe, false)
                    } else {
                        spec_step(m_pop(m_next(m_append(me, c), '\u{0}')), oe, c)
                    }
                }
            },
            MachineState::AfterWhitespace => {
                if c == '.' {
                    (
                        m_next(
                            m_flag(m_push(m_pop(m), MachineState::AfterWhitespaceAndEOL), false),
                            c,
                        ),
                        out,
                        true,
                    )
                } else {
                    spec_step(m_pop(m), out, c)
                }
            },
            MachineState::AfterWhitespaceAndEOL => {
                if c == '.' {
                    (m_next(m_flag(m_pop(m), false), c), out, true)
                } else {
                    let (me, oe, stop) = spec_emit(m, out);
                    if stop {
                        (me, oe, false)
                    } else {
                        spec_step(m_pop(me), oe, c)
                    }
                }
            },
        }
    }
}

/// The machine a scan starts from.
pub open spec fn spec_initial(starting: Cursor, command: Command) -> SpecMachine {
    SpecMachine {
        cursor: starting,
        code: Seq::empty(),
        starting,
        command,
        any_found: false,
        at_beginning_of_coq_line: true,
        states: Seq::empty(),
    }
}

/// The whole scan from position `i`: each character is appended to the
/// pending text and stepped through the machine, until a step allows
/// stopping or the input ends.  Returns the machine, the statements, and
/// how many characters were consumed.
pub open spec fn spec_scan(
    input: Seq<char>,
    i: int,
    m: SpecMachine,
    out: Seq<(Range, Seq<char>)>,
) -> (SpecMachine, Seq<(Range, Seq<char>)>, int)
    decreases input.len() - i,
    when 0 <= i <= input.len()
{
    if i >= input.len() {
        (m, out, i)
    } else {
        let stepped = spec_step(m_append(m, input[i]), out, input[i]);
        if !stepped.2 {
            (stepped.0, stepped.1, i + 1)
        } else {
            spec_scan(input, i + 1, stepped.0, stepped.1)
        }
    }
}

/// Escapes a statement text for the one-line output framing:
/// `\n` becomes `\\n` and `"` becomes `\\"`.
pub open spec fn spec_escape_char(c: char) -> Seq<char> {
    if c == '\n' {
        seq!['\\', 'n']
    } else if c == '"' {
        seq!['\\', '"']
    } else {
        seq![c]
    }
}

/// The escaped form of a whole text.
pub open spec fn spec_escape(s: Seq<char>) -> Seq<char>
    decreases s.len(),
{
    if s.len() == 0 {
        Seq::empty()
    } else {
        spec_escape(s.drop_last()) + spec_escape_char(s.last())
    }
}

/// Escapes a given string to make it safe for the one-line output framing.
///
/// - `\n` is substituted for `\\n`
/// - `"` is replaced with `\\"`
pub fn escape(code: &String) -> (r: String)
    ensures
        r@ == spec_escape(code@),
{
    let chars = crate::strutil::str_chars(code.as_str());
    let mut out: Vec<char> = Vec::new();
    let mut i: usize = 0;
    while i < chars.len()
        invariant
            i <= chars@.len(),
            chars@ == code@,
            out@ == spec_escape(code@.subrange(0, i as int)),
        decreases chars@.len() - i,
    {
        let c = chars[i];
        if c == '\n' {
            out.push('\\');
            out.push('n');
        } else if c == '"' {
            out.push('\\');
            out.push('"');
        } else {
            out.push(c);
        }
        proof {
            assert(code@.subrange(0, i + 1 as int).drop_last() =~= code@.subrange(0, i as int));
            assert(code@.subrange(0, i + 1 as int).last() == code@[i as int]);
            assert(out@ =~= spec_escape(code@.subrange(0, i + 1 as int)));
        }
        i += 1;
    }
    proof {
        assert(code@.subrange(0, code@.len() as int) =~= code@);
    }
    chars_to_string(&out)
}

/// Whether the scan may stop after the statement just emitted.
pub open spec fn spec_reached_target(st: &GlobalState) -> bool {
    spec_reached(machine_view(*st))
}

/// Whether the scan may stop: `next` stops after one statement, `to` stops
/// once the cursor has passed the target.
pub fn reached_target(st: &GlobalState) -> (r: bool)
    ensures
        r == spec_reached_target(st),
{
    match &st.command {
        Command::Next => true,
        Command::To { target } => {
            st.cursor.0 > target.0 || (st.cursor.0 == target.0 && st.cursor.1 >= target.1)
        },
    }
}

/// The concatenation of the emitted statement texts, in order.
pub open spec fn texts_concat(out: Seq<(Range, String)>) -> Seq<char>
    decreases out.len(),
{
    if out.len() == 0 {
        Seq::empty()
    } else {
        texts_concat(out.drop_last()) + out.last().1@
    }
}

/// Emits the pending text as one statement and resets the machine for the
/// next one.  Returns whether the scan may stop here.
fn emit_statement(st: &mut GlobalState, out: &mut Vec<(Range, String)>) -> (stop: bool)
    requires
        old(st).cursor.0 + 1 <= u64::MAX,
        old(st).cursor.1 + 1 <= u64::MAX,
    ensures
        final(st).cursor == old(st).cursor,
        final(st).code@ == Seq::<char>::empty(),
        final(st).starting == Cursor(old(st).cursor.0, (old(st).cursor.1 + 1) as u64),
        final(st).command == old(st).command,
        final(st).any_found == true,
        final(st).at_beginning_of_coq_line == true,
        final(st).states@ == old(st).states@,
        final(out)@.len() == old(out)@.len() + 1,
        final(out)@.drop_last() == old(out)@,
        final(out)@.last().0 == (Range {
            begin: (old(st).starting.0, old(st).starting.1),
            end: (old(st).cursor.0, old(st).cursor.1),
        }),
        final(out)@.last().1@ == old(st).code@,
        texts_concat(final(out)@) == texts_concat(old(out)@) + old(st).code@,
        stop == spec_reached_target(final(st)),
        ({
            let (m2, o2, stop2) = spec_emit(machine_view(*old(st)), out_view(old(out)@));
            &&& machine_view(*final(st)) == m2
            &&& out_view(final(out)@) == o2
            &&& stop == stop2
        }),
{
    let range = Range::new(st.starting.0, st.starting.1, st.cursor.0, st.cursor.1);
    let text = chars_to_string(&st.code);
    out.push((range, text));
    st.starting = st.cursor;
    st.starting.step('\0');
    st.code = Vec::new();
    st.any_found = true;
    st.at_beginning_of_coq_line = true;
    proof {
        assert(out@.drop_last() =~= old(out)@);
        assert(texts_concat(out@) == texts_concat(old(out)@) + old(st).code@);
        lemma_out_view_push(old(out)@, (range, text));
        assert(out@ == old(out)@.push((range, text)));
        assert(out_view(out@) =~= out_view(old(out)@).push((range, old(st).code@)));
    }
    reached_target(st)
}

/// Tries to parse the given character in the current state.
///
/// The caller has already appended `c` to the pending text.  Returns `true`
/// if processing continues, `false` if the scan stops here.  Statements are
/// pushed onto `out`; the concatenation of all emitted texts plus the
/// pending text never loses or duplicates a character, except that the
/// character on which the scan stops may be dropped.
pub fn parse(c: char, st: &mut GlobalState, out: &mut Vec<(Range, String)>) -> (cont: bool)
    requires
        old(st).wf(),
        old(st).cursor.0 + 2 <= u64::MAX,
        old(st).cursor.1 + 2 <= u64::MAX,
        top_backtracks(old(st).states@) ==> old(st).code@.len() > 0 && old(st).code@.last() == c,
    ensures
        cont ==> final(st).wf(),
        final(st).command == old(st).command,
        final(st).cursor.0 <= old(st).cursor.0 + 1,
        final(st).cursor.1 <= old(st).cursor.1 + 2,
        old(out)@.is_prefix_of(final(out)@),
        texts_concat(final(out)@) + final(st).code@ == texts_concat(old(out)@) + old(st).code@
            || (!cont && texts_concat(final(out)@) + final(st).code@ + seq![c] == texts_concat(
            old(out)@,
        ) + old(st).code@),
        ({
            let stepped = spec_step(machine_view(*old(st)), out_view(old(out)@), c);
            &&& machine_view(*final(st)) == stepped.0
            &&& out_view(final(out)@) == stepped.1
            &&& cont == stepped.2
        }),
    decreases old(st).states@.len(),
{
    let ghost m0 = machine_view(*old(st));
    let ghost o0 = out_view(old(out)@);
    let last_state = if st.states.len() > 0 {
        Some(st.states[st.states.len() - 1])
    } else {
        None
    };

    match last_state {
        Some(MachineState::AtEOL) => {
            // The previous character was a `.` directly after a word
            // character, so it may be a qualified-identifier dot rather
            // than a statement end.
            if is_alphabetic_char(c) {
                let _ = st.pop_state();
                proof {
                    assert(machine_view(*st).states =~= m_pop(m0).states);
                    assert(machine_view(*st) == m_pop(m0));
                }
            } else if c == '.' {
                // `..` is a notation token, not a statement end.
                let _ = st.pop_state();
                proof {
                    assert(machine_view(*st).states =~= m_pop(m0).states);
                    assert(machine_view(*st) == m_pop(m0));
                }
            } else {
                st.backtrack_once();
                proof {
                    assert(machine_view(*st) == m_back(m0));
                }
                if emit_statement(st, out) {
                    proof {
                        assert(machine_view(*st) == spec_emit(m_back(m0), o0).0);
                        assert(out_view(out@) == spec_emit(m_back(m0), o0).1);
                    }
                    return false;
                }
                st.append_char(c);
                st.next('\0');

                let _ = st.pop_state();

                proof {
                    assert(machine_view(*st) == m_pop(
                        m_next(m_append(spec_emit(m_back(m0), o0).0, c), '\u{0}'),
                    ));
                    assert(out_view(out@) == spec_emit(m_back(m0), o0).1);
                }
                return parse(c, st, out);
            }
        },
        Some(MachineState::InString) => {
            // Inside a `"`-delimited string, which only a `"` ends; `\`
            // escapes the next character.
            match c {
                '"' => {
                    let _ = st.pop_state();
                },
                '\\' => {
                    st.push_state(MachineState::BackslashInString);
                },
                _ => {},
            }
            st.at_beginning_of_coq_line = false;
            proof {
                let target = m_flag(
                    if c == '"' {
                        m_pop(m0)
                    } else if c == '\\' {
                        m_push(m0, MachineState::BackslashInString)
                    } else {
                        m0
                    },
                    false,
                );
                assert(machine_view(*st).states =~= target.states);
                assert(machine_view(*st) == target);
            }
        },
        Some(MachineState::BackslashInString) => {
            // The previous `\` escapes this character.
            let _ = st.pop_state();
            proof {
                assert(machine_view(*st).states =~= m_pop(m0).states);
                assert(machine_view(*st) == m_pop(m0));
            }
        },
        Some(MachineState::InComment { at_beginning_of_coq_line }) => {
            // Inside a comment: a `*` may close it, a `(` may open a
            // nested one.
            if c == '*' {
                st.push_state(MachineState::AtEndOfComment { at_beginning_of_coq_line });
            } else if c == '(' {
                st.push_state(MachineState::AtBeginningOfComment { at_beginning_of_coq_line });
            }
            proof {
                let target = if c == '*' {
                    m_push(m0, MachineState::AtEndOfComment { at_beginning_of_coq_line })
                } else if c == '(' {
                    m_push(m0, MachineState::AtBeginningOfComment { at_beginning_of_coq_line })
                } else {
                    m0
                };
                assert(machine_view(*st).states =~= target.states);
                assert(machine_view(*st) == target);
            }
        },
        Some(MachineState::AtBeginningOfComment { at_beginning_of_coq_line }) => {
            // A `(` was read; a `*` starts a comment here, anything else
            // leaves the `(` as a plain character.
            if c == '*' {
                let _ = st.pop_state();
                st.push_state(MachineState::InComment { at_beginning_of_coq_line });
                proof {
                    let target = m_push(m_pop(m0), MachineState::InComment { at_beginning_of_coq_line });
                    assert(machine_view(*st).states =~= target.states);
                    assert(machine_view(*st) == target);
                }
            } else {
                let _ = st.pop_state();
                if st.states.len() == 0 {
                    st.at_beginning_of_coq_line = false;
                }
                proof {
                    let target = if m_pop(m0).states.len() == 0 {
                        m_flag(m_pop(m0), false)
                    } else {
                        m_pop(m0)
                    };
                    assert(machine_view(*st).states =~= target.states);
                    assert(machine_view(*st) == target);
                }
            }
        },
        Some(MachineState::AtEndOfComment { at_beginning_of_coq_line }) => {
            // A `*` was read inside a comment: a `)` closes the comment
            // and re-enters the enclosing state; another `*` keeps the
            // closing candidate alive.
            if c == ')' {
                let _ = st.pop_state();
                let _ = st.pop_state();
                st.at_beginning_of_coq_line = at_beginning_of_coq_line;
            } else if c != '*' {
                let _ = st.pop_state();
            }
            proof {
                let target = if c == ')' {
                    m_flag(m_pop(m_pop(m0)), at_beginning_of_coq_line)
                } else if c != '*' {
                    m_pop(m0)
                } else {
                    m0
                };
                assert(machine_view(*st).states =~= target.states);
                assert(machine_view(*st) == target);
            }
        },
        Some(MachineState::InBullet { bullet_style }) => {
            // A bullet run continues only with the same style; any other
            // character ends the bullet statement.
            let same = match BulletStyle::from_char(c) {
                Some(style) => match (style, bullet_style) {
                    (BulletStyle::Plus, BulletStyle::Plus) => true,
                    (BulletStyle::Minus, BulletStyle::Minus) => true,
                    (BulletStyle::Star, BulletStyle::Star) => true,
                    _ => false,
                },
                None => false,
            };
            if !same {
                st.backtrack_once();
                proof {
                    assert(machine_view(*st) == m_back(m0));
                }
                if emit_statement(st, out) {
                    proof {
                        assert(machine_view(*st) == spec_emit(m_back(m0), o0).0);
                        assert(out_view(out@) == spec_emit(m_back(m0), o0).1);
                    }
                    return false;
                }
                st.append_char(c);
                st.next('\0');

                let _ = st.pop_state();

                proof {
                    assert(machine_view(*st) == m_pop(
                        m_next(m_append(spec_emit(m_back(m0), o0).0, c), '\u{0}'),
                    ));
                    assert(out_view(out@) == spec_emit(m_back(m0), o0).1);
                }
                return parse(c, st, out);
            }
        },
        Some(MachineState::AfterWhitespace) => {
            // Whitespace just before: a `.` here may end the statement or
            // start the `..` token.
            if c == '.' {
                let _ = st.pop_state();
                st.push_state(MachineState::AfterWhitespaceAndEOL);
                st.at_beginning_of_coq_line = false;
                proof {
                    let target = m_flag(
                        m_push(m_pop(m0), MachineState::AfterWhitespaceAndEOL),
                        false,
                    );
                    assert(machine_view(*st).states =~= target.states);
                    assert(machine_view(*st) == target);
                }
            } else {
                let _ = st.pop_state();
                proof {
                    assert(machine_view(*st) == m_pop(m0));
                    assert(out_view(out@) == o0);
                }
                return parse(c, st, out);
            }
        },
        Some(MachineState::AfterWhitespaceAndEOL) => {
            // The sequence ` .` just before: another `.` makes the `..`
            // token, anything else ends the statement here.
            if c == '.' {
                let _ = st.pop_state();
                st.at_beginning_of_coq_line = false;
                proof {
                    let target = m_flag(m_pop(m0), false);
                    assert(machine_view(*st).states =~= target.states);
                    assert(machine_view(*st) == target);
                }
            } else {
                if emit_statement(st, out) {
                    proof {
                        assert(machine_view(*st) == spec_emit(m0, o0).0);
                        assert(out_view(out@) == spec_emit(m0, o0).1);
                    }
                    return false;
                }

                let _ = st.pop_state();
                proof {
                    assert(machine_view(*st) == m_pop(spec_emit(m0, o0).0));
                    assert(out_view(out@) == spec_emit(m0, o0).1);
                }
                return parse(c, st, out);
            }
        },
        None => {
            // No pending state: dispatch on the character itself.
            //
            // - `(` may start a comment.
            // - `*`, `-` and `+` at the beginning of a statement start
            //   bullets.
            // - `{` and `}` at the beginning of a statement are
            //   single-character statements.
            // - `"` starts a string.
            // - `.` may end the statement, subject to the `..` and
            //   qualified-identifier checks.
            // - whitespace postpones the decision about a following `.`.
            if c == '(' {
                st.push_state(
                    MachineState::AtBeginningOfComment {
                        at_beginning_of_coq_line: st.at_beginning_of_coq_line,
                    },
                );
            } else if c == '"' {
                st.push_state(MachineState::InString);
            } else if c == '.' {
                st.push_state(MachineState::AtEOL);
            } else if (c == '{' || c == '}') && st.at_beginning_of_coq_line {
                if emit_statement(st, out) {
                    proof {
                        assert(machine_view(*st) == spec_emit(m0, o0).0);
                        assert(out_view(out@) == spec_emit(m0, o0).1);
                    }
                    return false;
                }
            } else if is_whitespace_char(c) {
                st.push_state(MachineState::AfterWhitespace);
            } else {
                match BulletStyle::from_char(c) {
                    Some(style) if st.at_beginning_of_coq_line => {
                        st.push_state(MachineState::InBullet { bullet_style: style });
                        proof {
                            let target = m_push(
                                m0,
                                MachineState::InBullet { bullet_style: spec_bullet_of(c)->Some_0 },
                            );
                            assert(machine_view(*st).states =~= target.states);
                            assert(machine_view(*st) == target);
                        }
                    },
                    _ => {
                        st.at_beginning_of_coq_line = false;
                        proof {
                            assert(machine_view(*st).states =~= m_flag(m0, false).states);
                            assert(machine_view(*st) == m_flag(m0, false));
                        }
                    },
                }
            }
        },
    }

    st.next(c);

    true
}

/// Scans `input` from the starting cursor, collecting statements until the
/// command allows stopping or the input ends.  Returns the statements, the
/// final machine state, and how many characters were consumed.  The
/// concatenated statement texts followed by the pending text are exactly a
/// prefix of the input.
pub fn tokenize(input: &Vec<char>, starting: Cursor, command: Command) -> (r: (
    Vec<(Range, String)>,
    GlobalState,
    usize,
))
    requires
        starting.1 >= 1,
        starting.0 + input@.len() + 2 <= u64::MAX,
        starting.1 + 2 * input@.len() + 2 <= u64::MAX,
    ensures
        r.2 <= input@.len(),
        r.1.command == command,
        exists|k: int|
            0 <= k <= r.2 && texts_concat(r.0@) + r.1.code@ == input@.subrange(0, k),
        ({
            let scanned = spec_scan(input@, 0, spec_initial(starting, command), Seq::empty());
            &&& machine_view(r.1) == scanned.0
            &&& out_view(r.0@) == scanned.1
            &&& r.2 == scanned.2
        }),
{
    let mut st = GlobalState::new(starting, command);
    let mut out: Vec<(Range, String)> = Vec::new();
    let mut i: usize = 0;
    proof {
        assert(texts_concat(out@) + st.code@ =~= input@.subrange(0, 0));
        assert(machine_view(st) == spec_initial(starting, command));
        assert(out_view(out@) =~= Seq::<(Range, Seq<char>)>::empty());
    }
    while i < input.len()
        invariant
            i <= input@.len(),
            st.wf(),
            st.command == command,
            st.cursor.0 <= starting.0 + i,
            st.cursor.1 <= starting.1 + 2 * i,
            starting.0 + input@.len() + 2 <= u64::MAX,
            starting.1 + 2 * input@.len() + 2 <= u64::MAX,
            texts_concat(out@) + st.code@ == input@.subrange(0, i as int),
            spec_scan(input@, 0, spec_initial(starting, command), Seq::empty()) == spec_scan(
                input@,
                i as int,
                machine_view(st),
                out_view(out@),
            ),
        decreases input@.len() - i,
    {
        let c = input[i];
        let ghost prev_code = st.code@;
        let ghost m_before = machine_view(st);
        let ghost o_before = out_view(out@);
        st.append_char(c);
        proof {
            assert((texts_concat(out@) + st.code@) =~= (texts_concat(out@) + prev_code).push(c));
            assert(input@.subrange(0, i + 1 as int) =~= input@.subrange(0, i as int).push(
                input@[i as int],
            ));
            assert(texts_concat(out@) + st.code@ == input@.subrange(0, i + 1 as int));
            assert(machine_view(st) == m_append(m_before, c));
        }
        let cont = parse(c, &mut st, &mut out);
        proof {
            assert(spec_scan(input@, i as int, m_before, o_before) == (if !cont {
                (machine_view(st), out_view(out@), i + 1 as int)
            } else {
                spec_scan(input@, i + 1, machine_view(st), out_view(out@))
            }));
        }
        if !cont {
            proof {
                if texts_concat(out@) + st.code@ + seq![c] == input@.subrange(0, i + 1 as int) {
                    assert(texts_concat(out@) + st.code@ =~= input@.subrange(0, i as int));
                }
            }
            return (out, st, i + 1);
        }
        i += 1;
    }
    (out, st, i)
}

/// Renders one emitted statement in the one-line output framing
/// `L.C,L.C "escaped-text"`.
pub fn render_statement(range: &Range, text: &String) -> (r: String)
    ensures
        r@ == crate::range::spec_range_str(*range) + seq![' ', '"'] + spec_escape(text@) + seq![
            '"',
        ],
{
    let mut chars = range.render();
    chars.push(' ');
    chars.push('"');
    let escaped = escape(text);
    crate::strutil::push_str_chars(&mut chars, escaped.as_str());
    chars.push('"');
    proof {
        assert(chars@ =~= crate::range::spec_range_str(*range) + seq![' ', '"'] + spec_escape(
            text@,
        ) + seq!['"']);
    }
    chars_to_string(&chars)
}

} // verus!
