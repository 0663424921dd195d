//! The editor command grammar: one line-terminated command per line,
//! case-sensitive keywords, `L.C,L.C` ranges and `"…"` strings with `\"`
//! as the escape.  A line that fits no rule is junk and is reported as
//! such, so the caller can log and skip it.

use vstd::prelude::*;

use crate::commands::ClientCommand;
use crate::decode::{digit_val, is_digit, spec_digits_val};
use crate::range::Range;
use crate::strutil::chars_to_string;

verus! {

/// A spacing character inside a command line.
pub open spec fn is_space(c: char) -> bool {
    c == ' ' || c == '\t'
}

/// Only spacing from `from` to the end of the line.
pub open spec fn spaces_to_end(s: Seq<char>, from: int) -> bool {
    forall|i: int| from <= i < s.len() ==> is_space(#[trigger] s[i])
}

/// The line is the given keyword, possibly followed by spacing.
pub open spec fn is_keyword_line(s: Seq<char>, kw: Seq<char>) -> bool {
    s.len() >= kw.len() && s.take(kw.len() as int) == kw && spaces_to_end(s, kw.len() as int)
}

/// The written form of a command string: a double quote is escaped with a
/// backslash, everything else stands for itself.
pub open spec fn spec_quoted(code: Seq<char>) -> Seq<char>
    decreases code.len(),
{
    if code.len() == 0 {
        Seq::empty()
    } else if code[0] == '"' {
        seq!['\\', '"'] + spec_quoted(code.drop_first())
    } else {
        seq![code[0]] + spec_quoted(code.drop_first())
    }
}

/// A nonempty run of digits denoting `n`.
pub open spec fn digits_for(s: Seq<char>, n: u64) -> bool {
    s.len() >= 1 && (forall|i: int| 0 <= i < s.len() ==> is_digit(#[trigger] s[i]))
        && spec_digits_val(s) == n
}

/// The written form of a range: `L.C,L.C` with some digit runs.
pub open spec fn range_rep(s: Seq<char>, r: Range) -> bool {
    exists|d1: Seq<char>, d2: Seq<char>, d3: Seq<char>, d4: Seq<char>|
        #![trigger digits_for(d1, r.begin.0), digits_for(d2, r.begin.1), digits_for(d3, r.end.0), digits_for(d4, r.end.1)]
        s == d1 + seq!['.'] + d2 + seq![','] + d3 + seq!['.'] + d4 && digits_for(d1, r.begin.0)
            && digits_for(d2, r.begin.1) && digits_for(d3, r.end.0) && digits_for(d4, r.end.1)
}

/// A nonempty run of spacing characters.
pub open spec fn spacing(s: Seq<char>) -> bool {
    s.len() >= 1 && forall|i: int| 0 <= i < s.len() ==> is_space(#[trigger] s[i])
}

/// A possibly empty run of spacing characters.
pub open spec fn spacing0(s: Seq<char>) -> bool {
    forall|i: int| 0 <= i < s.len() ==> is_space(#[trigger] s[i])
}

/// The written shape of a `next` command line with the given pieces.
pub open spec fn next_line_shape(
    s: Seq<char>,
    range: Range,
    code: Seq<char>,
    w1: Seq<char>,
    rs: Seq<char>,
    w2: Seq<char>,
    tail: Seq<char>,
) -> bool {
    s == "next"@ + w1 + rs + w2 + seq!['"'] + spec_quoted(code) + seq!['"'] + tail && spacing(w1)
        && range_rep(rs, range) && spacing0(w2) && spacing0(tail)
}

/// The written shape of a `show-goals` command line with the given pieces.
pub open spec fn show_goals_line_shape(
    s: Seq<char>,
    range: Range,
    w1: Seq<char>,
    rs: Seq<char>,
    tail: Seq<char>,
) -> bool {
    s == "show-goals"@ + w1 + rs + tail && spacing0(w1) && range_rep(rs, range) && spacing0(tail)
}

/// The written shape of a `query` command line with the given pieces.
pub open spec fn query_line_shape(s: Seq<char>, q: Seq<char>, ws: Seq<char>, tail: Seq<char>) -> bool {
    s == "query"@ + ws + seq!['"'] + spec_quoted(q) + seq!['"'] + tail && spacing(ws) && spacing0(
        tail,
    )
}

/// Some split of `s` has the shape of a `query` command line.
pub open spec fn query_exists(s: Seq<char>, q: Seq<char>) -> bool {
    exists|ws: Seq<char>, tail: Seq<char>| #[trigger] query_line_shape(s, q, ws, tail)
}

/// Introduces the `query` shape from concrete pieces.
proof fn lemma_query_rep(s: Seq<char>, q: Seq<char>, ws: Seq<char>, tail: Seq<char>)
    requires
        query_line_shape(s, q, ws, tail),
    ensures
        query_exists(s, q),
{
}

/// The written shape of a `rewind-to` command line with the given pieces.
pub open spec fn rewind_line_shape(
    s: Seq<char>,
    line: u64,
    column: u64,
    w1: Seq<char>,
    d1: Seq<char>,
    w2: Seq<char>,
    d2: Seq<char>,
    tail: Seq<char>,
) -> bool {
    s == "rewind-to"@ + w1 + d1 + w2 + d2 + tail && spacing(w1) && digits_for(d1, line) && spacing(
        w2,
    ) && digits_for(d2, column) && spacing0(tail)
}

/// Some split of `s` has the shape of a `rewind-to` command line.
pub open spec fn rewind_exists(s: Seq<char>, line: u64, column: u64) -> bool {
    exists|w1: Seq<char>, d1: Seq<char>, w2: Seq<char>, d2: Seq<char>, tail: Seq<char>|
        #[trigger] rewind_line_shape(s, line, column, w1, d1, w2, d2, tail)
}

/// Introduces the `rewind-to` shape from concrete pieces.
proof fn lemma_rewind_rep(
    s: Seq<char>,
    line: u64,
    column: u64,
    w1: Seq<char>,
    d1: Seq<char>,
    w2: Seq<char>,
    d2: Seq<char>,
    tail: Seq<char>,
)
    requires
        rewind_line_shape(s, line, column, w1, d1, w2, d2, tail),
    ensures
        rewind_exists(s, line, column),
{
}

/// Some split of `s` has the shape of a `next` command line.
pub open spec fn next_exists(s: Seq<char>, range: Range, code: Seq<char>) -> bool {
    exists|w1: Seq<char>, rs: Seq<char>, w2: Seq<char>, tail: Seq<char>|
        #[trigger] next_line_shape(s, range, code, w1, rs, w2, tail)
}

/// Some split of `s` has the shape of a `show-goals` command line.
pub open spec fn show_goals_exists(s: Seq<char>, range: Range) -> bool {
    exists|w1: Seq<char>, rs: Seq<char>, tail: Seq<char>|
        #[trigger] show_goals_line_shape(s, range, w1, rs, tail)
}

/// Introduces the `next` shape from concrete pieces.
proof fn lemma_next_rep(
    s: Seq<char>,
    range: Range,
    code: Seq<char>,
    w1: Seq<char>,
    rs: Seq<char>,
    w2: Seq<char>,
    tail: Seq<char>,
)
    requires
        next_line_shape(s, range, code, w1, rs, w2, tail),
    ensures
        next_exists(s, range, code),
{
}

/// Introduces the `show-goals` shape from concrete pieces.
proof fn lemma_show_goals_rep(
    s: Seq<char>,
    range: Range,
    w1: Seq<char>,
    rs: Seq<char>,
    tail: Seq<char>,
)
    requires
        show_goals_line_shape(s, range, w1, rs, tail),
    ensures
        show_goals_exists(s, range),
{
}

/// What a parsed command says about the line it came from.
pub open spec fn command_line_rep(c: ClientCommand, s: Seq<char>) -> bool {
    match c {
        ClientCommand::Init => is_keyword_line(s, "init"@),
        ClientCommand::Quit => is_keyword_line(s, "quit"@),
        ClientCommand::Previous => is_keyword_line(s, "previous"@),
        ClientCommand::Hints => is_keyword_line(s, "hints"@),
        ClientCommand::IgnoreError => is_keyword_line(s, "ignore-error"@),
        ClientCommand::Status => is_keyword_line(s, "status"@),
        ClientCommand::StopInterrupt => is_keyword_line(s, "stop-interrupt"@),
        ClientCommand::Query(q) => query_exists(s, q@),
        ClientCommand::RewindTo(line, column) => rewind_exists(s, line, column),
        ClientCommand::Next(append, range, code) => !append && next_exists(s, range, code@),
        ClientCommand::ShowGoals(range) => show_goals_exists(s, range),
        ClientCommand::MoveTo(items) => items@.len() >= 1 && s.len() > "move-to"@.len() && s.take(
            "move-to"@.len() as int,
        ) == "move-to"@,
        _ => false,
    }
}

/// The end of the spacing run starting at `i`.
pub open spec fn spec_space_end(s: Seq<char>, i: int) -> int
    decreases s.len() - i,
    when 0 <= i <= s.len()
{
    if i >= s.len() {
        i
    } else if is_space(s[i]) {
        spec_space_end(s, i + 1)
    } else {
        i
    }
}

/// The end of the digit run starting at `i`.
pub open spec fn spec_digit_end(s: Seq<char>, i: int) -> int
    decreases s.len() - i,
    when 0 <= i <= s.len()
{
    if i >= s.len() {
        i
    } else if is_digit(s[i]) {
        spec_digit_end(s, i + 1)
    } else {
        i
    }
}

/// The number denoted by the digit run at `i`, when one starts there and
/// its value fits the machine.
pub open spec fn spec_u64_at(s: Seq<char>, i: int) -> Option<(u64, int)> {
    if 0 <= i < s.len() && is_digit(s[i]) {
        let e = spec_digit_end(s, i);
        let m = spec_digits_val(s.subrange(i, e));
        if m <= u64::MAX {
            Some((m as u64, e))
        } else {
            None
        }
    } else {
        None
    }
}

/// The range `L.C,L.C` read from `i`, when one stands there.
pub open spec fn spec_range_at(s: Seq<char>, i: int) -> Option<(Range, int)> {
    match spec_u64_at(s, i) {
        None => None,
        Some((bl, p1)) => if p1 < s.len() && s[p1] == '.' {
            match spec_u64_at(s, p1 + 1) {
                None => None,
                Some((bc, p2)) => if p2 < s.len() && s[p2] == ',' {
                    match spec_u64_at(s, p2 + 1) {
                        None => None,
                        Some((el, p3)) => if p3 < s.len() && s[p3] == '.' {
                            match spec_u64_at(s, p3 + 1) {
                                None => None,
                                Some((ec, p4)) => Some(
                                    (Range { begin: (bl, bc), end: (el, ec) }, p4),
                                ),
                            }
                        } else {
                            None
                        },
                    }
                } else {
                    None
                },
            }
        } else {
            None
        },
    }
}

/// The content and end of the quoted string starting after the opening
/// quote at `j`: `\"` stands for a quote, an unescaped quote closes.
pub open spec fn spec_string_body(s: Seq<char>, j: int) -> Option<(Seq<char>, int)>
    decreases s.len() - j,
    when 0 <= j <= s.len()
{
    if j >= s.len() {
        None
    } else if s[j] == '"' {
        Some((Seq::empty(), j + 1))
    } else if s[j] == '\\' && j + 1 < s.len() && s[j + 1] == '"' {
        match spec_string_body(s, j + 2) {
            None => None,
            Some((t, e)) => Some((seq!['"'] + t, e)),
        }
    } else {
        match spec_string_body(s, j + 1) {
            None => None,
            Some((t, e)) => Some((seq![s[j]] + t, e)),
        }
    }
}

/// The quoted string starting at `i`, when one stands there.
pub open spec fn spec_string_at(s: Seq<char>, i: int) -> Option<(Seq<char>, int)> {
    if 0 <= i < s.len() && s[i] == '"' {
        spec_string_body(s, i + 1)
    } else {
        None
    }
}

/// Digit-run values only grow as the run extends.
proof fn lemma_digit_run_mono(s: Seq<char>, i: int, j: int, e: int)
    requires
        0 <= i <= j <= e <= s.len(),
        forall|m: int| i <= m < e ==> is_digit(#[trigger] s[m]),
    ensures
        spec_digits_val(s.subrange(i, e)) >= spec_digits_val(s.subrange(i, j)),
        spec_digits_val(s.subrange(i, j)) >= 0,
    decreases e - j,
{
    if j == e {
        lemma_digit_run_nonneg(s, i, j);
    } else {
        lemma_digit_run_mono(s, i, j + 1, e);
        lemma_digit_run_nonneg(s, i, j);
        assert(s.subrange(i, j + 1).drop_last() =~= s.subrange(i, j));
        assert(s.subrange(i, j + 1).last() == s[j]);
    }
}

/// A digit run denotes a non-negative value.
proof fn lemma_digit_run_nonneg(s: Seq<char>, i: int, j: int)
    requires
        0 <= i <= j <= s.len(),
        forall|m: int| i <= m < j ==> is_digit(#[trigger] s[m]),
    ensures
        spec_digits_val(s.subrange(i, j)) >= 0,
    decreases j - i,
{
    if j > i {
        lemma_digit_run_nonneg(s, i, j - 1);
        assert(s.subrange(i, j).drop_last() =~= s.subrange(i, j - 1));
        assert(s.subrange(i, j).last() == s[j - 1]);
    }
}

/// Consumes spacing characters from `i`.
#[verifier::loop_isolation(false)]
fn skip_spaces(v: &Vec<char>, i: usize) -> (r: usize)
    requires
        i <= v@.len(),
    ensures
        i <= r <= v@.len(),
        spacing0(v@.subrange(i as int, r as int)),
        r < v@.len() ==> !is_space(v@[r as int]),
        r == spec_space_end(v@, i as int),
{
    let mut j = i;
    while j < v.len() && (v[j] == ' ' || v[j] == '\t')
        invariant
            i <= j <= v@.len(),
            spacing0(v@.subrange(i as int, j as int)),
            spec_space_end(v@, i as int) == spec_space_end(v@, j as int),
        decreases v@.len() - j,
    {
        proof {
            assert(v@.subrange(i as int, j + 1)
                =~= v@.subrange(i as int, j as int).push(v@[j as int]));
        }
        j += 1;
    }
    j
}

/// Reads a nonempty digit run from `i`, as a number.
#[verifier::loop_isolation(false)]
fn parse_u64_at(v: &Vec<char>, i: usize) -> (r: Option<(u64, usize)>)
    requires
        i <= v@.len(),
    ensures
        match r {
            Some((n, j)) => i < j <= v@.len() && digits_for(v@.subrange(i as int, j as int), n) && (
            j < v@.len() ==> !is_digit(v@[j as int])) && spec_u64_at(v@, i as int) == Some(
                (n, j as int),
            ),
            None => spec_u64_at(v@, i as int) is None,
        },
{
    let mut j = i;
    let mut n: u64 = 0;
    proof {
        assert(v@.subrange(i as int, i as int) =~= Seq::<char>::empty());
        if i < v@.len() && is_digit(v@[i as int]) {
            lemma_digit_end_facts(v@, i as int);
        }
    }
    while j < v.len() && '0' <= v[j] && v[j] <= '9'
        invariant
            i <= j <= v@.len(),
            forall|m: int| i <= m < j ==> is_digit(#[trigger] v@[m]),
            n == spec_digits_val(v@.subrange(i as int, j as int)),
            n <= u64::MAX,
            i < v@.len() && is_digit(v@[i as int]) ==> j <= spec_digit_end(v@, i as int),
            spec_digit_end(v@, i as int) == spec_digit_end(v@, j as int),
        decreases v@.len() - j,
    {
        let c = v[j];
        let d = (c as u32 as u64) - 48;
        proof {
            assert(d == digit_val(c));
        }
        if n > (u64::MAX - d) / 10 {
            proof {
                assert(n * 10 + d > u64::MAX) by (nonlinear_arith)
                    requires
                        n > (u64::MAX - d) / 10,
                        d <= 9,
                        d >= 0,
                ;
                let e = spec_digit_end(v@, i as int);
                lemma_digit_end_facts(v@, i as int);
                assert(v@.subrange(i as int, j + 1).drop_last() =~= v@.subrange(
                    i as int,
                    j as int,
                ));
                assert(v@.subrange(i as int, j + 1).last() == v@[j as int]);
                assert(spec_digits_val(v@.subrange(i as int, j + 1)) == n * 10 + d);
                lemma_digit_run_mono(v@, i as int, j + 1, e);
                assert(spec_digits_val(v@.subrange(i as int, e)) > u64::MAX);
            }
            return None;
        }
        proof {
            assert(n * 10 + d <= u64::MAX) by (nonlinear_arith)
                requires
                    n <= (u64::MAX - d) / 10,
                    d <= 9,
            ;
            assert(v@.subrange(i as int, j + 1).drop_last() =~= v@.subrange(i as int, j as int));
            assert(v@.subrange(i as int, j + 1).last() == v@[j as int]);
        }
        n = n * 10 + d;
        j += 1;
    }
    if j == i {
        return None;
    }
    proof {
        assert(j == spec_digit_end(v@, i as int));
    }
    Some((n, j))
}

/// The digit run is bounded and consists of digits.
proof fn lemma_digit_end_facts(s: Seq<char>, i: int)
    requires
        0 <= i <= s.len(),
    ensures
        i <= spec_digit_end(s, i) <= s.len(),
        forall|m: int| i <= m < spec_digit_end(s, i) ==> is_digit(#[trigger] s[m]),
        spec_digit_end(s, i) < s.len() ==> !is_digit(s[spec_digit_end(s, i)]),
    decreases s.len() - i,
{
    if i < s.len() && is_digit(s[i]) {
        lemma_digit_end_facts(s, i + 1);
    }
}

/// Reads a range `L.C,L.C` from `i`.
#[verifier::loop_isolation(false)]
fn parse_range_at(v: &Vec<char>, i: usize) -> (r: Option<(Range, usize)>)
    requires
        i <= v@.len(),
    ensures
        match r {
            Some((range, j)) => i < j <= v@.len() && range_rep(
                v@.subrange(i as int, j as int),
                range,
            ) && spec_range_at(v@, i as int) == Some((range, j as int)),
            None => spec_range_at(v@, i as int) is None,
        },
{
    let (bl, p1) = match parse_u64_at(v, i) {
        Some(x) => x,
        None => {
            return None;
        },
    };
    if p1 >= v.len() || v[p1] != '.' {
        return None;
    }
    let (bc, p2) = match parse_u64_at(v, p1 + 1) {
        Some(x) => x,
        None => {
            return None;
        },
    };
    if p2 >= v.len() || v[p2] != ',' {
        return None;
    }
    let (el, p3) = match parse_u64_at(v, p2 + 1) {
        Some(x) => x,
        None => {
            return None;
        },
    };
    if p3 >= v.len() || v[p3] != '.' {
        return None;
    }
    let (ec, p4) = match parse_u64_at(v, p3 + 1) {
        Some(x) => x,
        None => {
            return None;
        },
    };
    let range = Range::new(bl, bc, el, ec);
    proof {
        let s = v@.subrange(i as int, p4 as int);
        let d1 = v@.subrange(i as int, p1 as int);
        let d2 = v@.subrange(p1 + 1, p2 as int);
        let d3 = v@.subrange(p2 + 1, p3 as int);
        let d4 = v@.subrange(p3 + 1, p4 as int);
        assert(s =~= d1 + seq!['.'] + d2 + seq![','] + d3 + seq!['.'] + d4);
        assert(digits_for(d1, range.begin.0));
        assert(digits_for(d2, range.begin.1));
        assert(digits_for(d3, range.end.0));
        assert(digits_for(d4, range.end.1));
    }
    Some((range, p4))
}

/// Reads a `"…"` string from `i`, undoing the `\"` escapes.
#[verifier::loop_isolation(false)]
#[verifier::rlimit(100)]
fn parse_string_at(v: &Vec<char>, i: usize) -> (r: Option<(String, usize)>)
    requires
        i <= v@.len(),
    ensures
        match r {
            Some((code, j)) => i < j <= v@.len() && v@.subrange(i as int, j as int) == seq!['"']
                + spec_quoted(code@) + seq!['"'] && spec_string_at(v@, i as int) == Some(
                (code@, j as int),
            ),
            None => spec_string_at(v@, i as int) is None,
        },
{
    if i >= v.len() || v[i] != '"' {
        return None;
    }
    let mut j = i + 1;
    let mut out: Vec<char> = Vec::new();
    proof {
        assert(v@.subrange(i + 1, i + 1) =~= Seq::<char>::empty());
        assert(spec_quoted(Seq::<char>::empty()) =~= Seq::<char>::empty());
    }
    while j < v.len() && v[j] != '"'
        invariant
            i + 1 <= j <= v@.len(),
            v@.subrange(i + 1, j as int) == spec_quoted(out@),
            spec_string_body(v@, i + 1) == (match spec_string_body(v@, j as int) {
                Some((t, e)) => Some((out@ + t, e)),
                None => None::<(Seq<char>, int)>,
            }),
        decreases v@.len() - j,
    {
        if v[j] == '\\' && j + 1 < v.len() && v[j + 1] == '"' {
            let ghost prev = out@;
            out.push('"');
            proof {
                lemma_quoted_push(prev, '"');
                assert(spec_quoted(out@) == spec_quoted(prev) + seq!['\\', '"']);
                assert(v@.subrange(i + 1, j + 2) =~= v@.subrange(i + 1, j as int) + seq![
                    '\\',
                    '"',
                ]);
                assert(v@.subrange(i + 1, j + 2) == spec_quoted(out@));
                assert(spec_string_body(v@, j as int) == (match spec_string_body(v@, j + 2) {
                    Some((t, e)) => Some((seq!['"'] + t, e)),
                    None => None::<(Seq<char>, int)>,
                }));
                match spec_string_body(v@, j + 2) {
                    Some((t, e)) => {
                        assert(prev + (seq!['"'] + t) =~= out@ + t);
                    },
                    None => {},
                }
            }
            j += 2;
        } else {
            let c = v[j];
            let ghost prev = out@;
            out.push(c);
            proof {
                lemma_quoted_push(prev, c);
                assert(spec_quoted(out@) == spec_quoted(prev) + (if c == '"' {
                    seq!['\\', '"']
                } else {
                    seq![c]
                }));
                assert(v@.subrange(i + 1, j + 1) =~= v@.subrange(i + 1, j as int) + seq![c]);
                assert(v@.subrange(i + 1, j + 1) == spec_quoted(out@));
                assert(spec_string_body(v@, j as int) == (match spec_string_body(v@, j + 1) {
                    Some((t, e)) => Some((seq![c] + t, e)),
                    None => None::<(Seq<char>, int)>,
                }));
                match spec_string_body(v@, j + 1) {
                    Some((t, e)) => {
                        assert(prev + (seq![c] + t) =~= out@ + t);
                    },
                    None => {},
                }
            }
            j += 1;
        }
    }
    if j >= v.len() {
        return None;
    }
    proof {
        assert(v@.subrange(i as int, j + 1) =~= seq!['"'] + spec_quoted(out@) + seq!['"']);
        assert(spec_string_body(v@, j as int) == Some((Seq::<char>::empty(), j + 1)));
        assert(out@ + Seq::<char>::empty() =~= out@);
    }
    Some((chars_to_string(&out), j + 1))
}

/// Quoting one more character appends its written form.
proof fn lemma_quoted_push(code: Seq<char>, c: char)
    ensures
        spec_quoted(code.push(c)) == spec_quoted(code) + (if c == '"' {
            seq!['\\', '"']
        } else {
            seq![c]
        }),
    decreases code.len(),
{
    if code.len() == 0 {
        assert(code.push(c)[0] == c);
        assert(code.push(c).drop_first() =~= Seq::<char>::empty());
        assert(spec_quoted(Seq::<char>::empty()) =~= Seq::<char>::empty());
        assert(code =~= Seq::<char>::empty());
        assert(spec_quoted(code.push(c)) =~= spec_quoted(code) + (if c == '"' {
            seq!['\\', '"']
        } else {
            seq![c]
        }));
    } else {
        lemma_quoted_push(code.drop_first(), c);
        assert(code.push(c)[0] == code[0]);
        assert(code.push(c).drop_first() =~= code.drop_first().push(c));
        assert(spec_quoted(code.push(c)) =~= spec_quoted(code) + (if c == '"' {
            seq!['\\', '"']
        } else {
            seq![c]
        }));
    }
}

/// Whether the line starts with the keyword.
#[verifier::loop_isolation(false)]
fn keyword_at(v: &Vec<char>, kw: &Vec<char>) -> (r: bool)
    ensures
        r == (v@.len() >= kw@.len() && v@.take(kw@.len() as int) == kw@),
{
    if v.len() < kw.len() {
        return false;
    }
    let mut m: usize = 0;
    while m < kw.len()
        invariant
            m <= kw@.len(),
            kw@.len() <= v@.len(),
            forall|k: int| 0 <= k < m ==> v@[k] == kw@[k],
        decreases kw@.len() - m,
    {
        if v[m] != kw[m] {
            proof {
                assert(v@.take(kw@.len() as int)[m as int] == v@[m as int]);
            }
            return false;
        }
        m += 1;
    }
    proof {
        assert(v@.take(kw@.len() as int) =~= kw@);
    }
    true
}

/// Whether only spacing follows position `i`.
#[verifier::loop_isolation(false)]
fn only_spaces_from(v: &Vec<char>, i: usize) -> (r: bool)
    requires
        i <= v@.len(),
    ensures
        r == spaces_to_end(v@, i as int),
{
    let mut j = i;
    while j < v.len()
        invariant
            i <= j <= v@.len(),
            forall|k: int| i <= k < j ==> is_space(#[trigger] v@[k]),
        decreases v@.len() - j,
    {
        if !(v[j] == ' ' || v[j] == '\t') {
            return false;
        }
        j += 1;
    }
    true
}

/// The lengths and first characters of the command keywords: enough to
/// tell any two of them apart.
proof fn lemma_keyword_facts()
    ensures
        "init"@.len() == 4 && "init"@[0] == 'i' && "init"@[1] == 'n' && "init"@[2] == 'i',
        "query"@.len() == 5 && "query"@[0] == 'q' && "query"@[1] == 'u' && "query"@[2] == 'e',
        "quit"@.len() == 4 && "quit"@[0] == 'q' && "quit"@[1] == 'u' && "quit"@[2] == 'i',
        "previous"@.len() == 8 && "previous"@[0] == 'p',
        "hints"@.len() == 5 && "hints"@[0] == 'h',
        "ignore-error"@.len() == 12 && "ignore-error"@[0] == 'i' && "ignore-error"@[1] == 'g',
        "next"@.len() == 4 && "next"@[0] == 'n',
        "rewind-to"@.len() == 9 && "rewind-to"@[0] == 'r',
        "move-to"@.len() == 7 && "move-to"@[0] == 'm',
        "show-goals"@.len() == 10 && "show-goals"@[0] == 's' && "show-goals"@[1] == 'h',
        "status"@.len() == 6 && "status"@[0] == 's' && "status"@[1] == 't' && "status"@[2] == 'a',
        "stop-interrupt"@.len() == 14 && "stop-interrupt"@[0] == 's' && "stop-interrupt"@[1]
            == 't' && "stop-interrupt"@[2] == 'o',
{
    reveal_strlit("init");
    reveal_strlit("query");
    reveal_strlit("quit");
    reveal_strlit("previous");
    reveal_strlit("hints");
    reveal_strlit("ignore-error");
    reveal_strlit("next");
    reveal_strlit("rewind-to");
    reveal_strlit("move-to");
    reveal_strlit("show-goals");
    reveal_strlit("status");
    reveal_strlit("stop-interrupt");
}

/// The position and content read by a well-formed `query` line:
/// `query` then spacing, a quoted string, and spacing to the end.
pub open spec fn spec_query_line(s: Seq<char>) -> Option<Seq<char>> {
    if s.len() >= 5 && s.take(5) == "query"@ {
        let p = spec_space_end(s, 5);
        if p > 5 {
            match spec_string_at(s, p) {
                Some((q, e)) => if spaces_to_end(s, e) {
                    Some(q)
                } else {
                    None
                },
                None => None,
            }
        } else {
            None
        }
    } else {
        None
    }
}

/// The position pair read by a well-formed `rewind-to` line.
pub open spec fn spec_rewind_line(s: Seq<char>) -> Option<(u64, u64)> {
    if s.len() >= 9 && s.take(9) == "rewind-to"@ {
        let p = spec_space_end(s, 9);
        if p > 9 {
            match spec_u64_at(s, p) {
                Some((l, e1)) => {
                    let p2 = spec_space_end(s, e1);
                    if p2 > e1 {
                        match spec_u64_at(s, p2) {
                            Some((c, e2)) => if spaces_to_end(s, e2) {
                                Some((l, c))
                            } else {
                                None
                            },
                            None => None,
                        }
                    } else {
                        None
                    }
                },
                None => None,
            }
        } else {
            None
        }
    } else {
        None
    }
}

/// The range and code read by a well-formed `next` line.
pub open spec fn spec_next_line(s: Seq<char>) -> Option<(Range, Seq<char>)> {
    if s.len() >= 4 && s.take(4) == "next"@ {
        let p = spec_space_end(s, 4);
        if p > 4 {
            match spec_range_at(s, p) {
                Some((range, p2)) => {
                    let p3 = spec_space_end(s, p2);
                    match spec_string_at(s, p3) {
                        Some((code, p4)) => if spaces_to_end(s, p4) {
                            Some((range, code))
                        } else {
                            None
                        },
                        None => None,
                    }
                },
                None => None,
            }
        } else {
            None
        }
    } else {
        None
    }
}

/// The range read by a well-formed `show-goals` line.
pub open spec fn spec_show_goals_line(s: Seq<char>) -> Option<Range> {
    if s.len() >= 10 && s.take(10) == "show-goals"@ {
        let p = spec_space_end(s, 10);
        match spec_range_at(s, p) {
            Some((range, p2)) => if spaces_to_end(s, p2) {
                Some(range)
            } else {
                None
            },
            None => None,
        }
    } else {
        None
    }
}

/// Reads a `query` line after its keyword matched.
#[verifier::loop_isolation(false)]
#[verifier::rlimit(100)]
fn handle_query(v: &Vec<char>) -> (r: Option<ClientCommand>)
    requires
        v@.len() >= 5,
        v@.take(5) == "query"@,
    ensures
        r matches Some(c) ==> command_line_rep(c, v@) && c matches ClientCommand::Query(_),
        spec_query_line(v@) matches Some(q) ==> (match r {
            Some(c) => c matches ClientCommand::Query(code) && code@ == q,
            None => false,
        }),
{
    let p = skip_spaces(v, 5);
    if p == 5 {
        return None;
    }
    match parse_string_at(v, p) {
        Some((q, p2)) => {
            if only_spaces_from(v, p2) {
                proof {
                    let ws = v@.subrange(5, p as int);
                    let tail = v@.subrange(p2 as int, v@.len() as int);
                    assert(v@ =~= "query"@ + ws + v@.subrange(p as int, p2 as int) + tail);
                    assert(v@ =~= "query"@ + ws + seq!['"'] + spec_quoted(q@) + seq!['"'] + tail);
                    assert(spacing(ws));
                    assert(spacing0(tail));
                    assert(query_line_shape(v@, q@, ws, tail));
                    lemma_query_rep(v@, q@, ws, tail);
                }
                return Some(ClientCommand::Query(q));
            }
            None
        },
        None => None,
    }
}

/// Reads a `rewind-to` line after its keyword matched.
#[verifier::loop_isolation(false)]
#[verifier::rlimit(100)]
fn handle_rewind_to(v: &Vec<char>) -> (r: Option<ClientCommand>)
    requires
        v@.len() >= 9,
        v@.take(9) == "rewind-to"@,
    ensures
        r matches Some(c) ==> command_line_rep(c, v@) && c matches ClientCommand::RewindTo(_, _),
        spec_rewind_line(v@) matches Some(lc) ==> r == Some(
            ClientCommand::RewindTo(lc.0, lc.1),
        ),
{
    let p = skip_spaces(v, 9);
    if p == 9 {
        return None;
    }
    match parse_u64_at(v, p) {
        Some((l, p2)) => {
            let p3 = skip_spaces(v, p2);
            if p3 == p2 {
                return None;
            }
            match parse_u64_at(v, p3) {
                Some((c, p4)) => {
                    if only_spaces_from(v, p4) {
                        proof {
                            let w1 = v@.subrange(9, p as int);
                            let d1 = v@.subrange(p as int, p2 as int);
                            let w2 = v@.subrange(p2 as int, p3 as int);
                            let d2 = v@.subrange(p3 as int, p4 as int);
                            let tail = v@.subrange(p4 as int, v@.len() as int);
                            assert(v@ =~= "rewind-to"@ + w1 + d1 + w2 + d2 + tail);
                            assert(spacing(w1));
                            assert(digits_for(d1, l));
                            assert(spacing(w2));
                            assert(digits_for(d2, c));
                            assert(spacing0(tail));
                            assert(rewind_line_shape(v@, l, c, w1, d1, w2, d2, tail));
                            lemma_rewind_rep(v@, l, c, w1, d1, w2, d2, tail);
                        }
                        return Some(ClientCommand::RewindTo(l, c));
                    }
                    None
                },
                None => None,
            }
        },
        None => None,
    }
}

/// Reads a `next` line after its keyword matched.
#[verifier::loop_isolation(false)]
#[verifier::rlimit(100)]
fn handle_next(v: &Vec<char>) -> (r: Option<ClientCommand>)
    requires
        v@.len() >= 4,
        v@.take(4) == "next"@,
    ensures
        r matches Some(c) ==> command_line_rep(c, v@) && c matches ClientCommand::Next(_, _, _),
        spec_next_line(v@) matches Some(rc) ==> (match r {
            Some(c) => c matches ClientCommand::Next(append, range, code) && !append && range
                == rc.0 && code@ == rc.1,
            None => false,
        }),
{
    let p = skip_spaces(v, 4);
    if p == 4 {
        return None;
    }
    match parse_range_at(v, p) {
        Some((range, p2)) => {
            let p3 = skip_spaces(v, p2);
            match parse_string_at(v, p3) {
                Some((code, p4)) => {
                    if only_spaces_from(v, p4) {
                        proof {
                            let w1 = v@.subrange(4, p as int);
                            let rs = v@.subrange(p as int, p2 as int);
                            let w2 = v@.subrange(p2 as int, p3 as int);
                            let tail = v@.subrange(p4 as int, v@.len() as int);
                            assert(v@ =~= "next"@ + w1 + rs + w2 + v@.subrange(
                                p3 as int,
                                p4 as int,
                            ) + tail);
                            assert(v@ =~= "next"@ + w1 + rs + w2 + seq!['"'] + spec_quoted(code@)
                                + seq!['"'] + tail);
                            assert(spacing(w1));
                            assert(range_rep(rs, range));
                            assert(spacing0(w2));
                            assert(spacing0(tail));
                            assert(next_line_shape(v@, range, code@, w1, rs, w2, tail));
                            lemma_next_rep(v@, range, code@, w1, rs, w2, tail);
                        }
                        return Some(ClientCommand::Next(false, range, code));
                    }
                    None
                },
                None => None,
            }
        },
        None => None,
    }
}

/// Reads a `show-goals` line after its keyword matched.
#[verifier::loop_isolation(false)]
#[verifier::rlimit(100)]
fn handle_show_goals(v: &Vec<char>) -> (r: Option<ClientCommand>)
    requires
        v@.len() >= 10,
        v@.take(10) == "show-goals"@,
    ensures
        r matches Some(c) ==> command_line_rep(c, v@) && c matches ClientCommand::ShowGoals(_),
        spec_show_goals_line(v@) matches Some(range) ==> r == Some(
            ClientCommand::ShowGoals(range),
        ),
{
    let p = skip_spaces(v, 10);
    match parse_range_at(v, p) {
        Some((range, p2)) => {
            if only_spaces_from(v, p2) {
                proof {
                    let w1 = v@.subrange(10, p as int);
                    let rs = v@.subrange(p as int, p2 as int);
                    let tail = v@.subrange(p2 as int, v@.len() as int);
                    assert(v@ =~= "show-goals"@ + w1 + rs + tail);
                    assert(spacing0(w1));
                    assert(range_rep(rs, range));
                    assert(spacing0(tail));
                    assert(show_goals_line_shape(v@, range, w1, rs, tail));
                    lemma_show_goals_rep(v@, range, w1, rs, tail);
                }
                return Some(ClientCommand::ShowGoals(range));
            }
            None
        },
        None => None,
    }
}

/// Reads a `move-to` line after its keyword matched.
#[verifier::loop_isolation(false)]
fn handle_move_to(v: &Vec<char>) -> (r: Option<ClientCommand>)
    requires
        v@.len() >= 7,
        v@.take(7) == "move-to"@,
    ensures
        r matches Some(c) ==> command_line_rep(c, v@) && c matches ClientCommand::MoveTo(_),
{
    let mut items: Vec<(Range, String)> = Vec::new();
    let mut p = skip_spaces(v, 7);
    if p == 7 {
        return None;
    }
    loop
        invariant
            p <= v@.len(),
        decreases v@.len() - p,
    {
        let (range, p2) = match parse_range_at(v, p) {
            Some(x) => x,
            None => {
                return None;
            },
        };
        let p3 = skip_spaces(v, p2);
        let (code, p4) = match parse_string_at(v, p3) {
            Some(x) => x,
            None => {
                return None;
            },
        };
        items.push((range, code));
        let p5 = skip_spaces(v, p4);
        if p5 >= v.len() {
            proof {
                assert(v@.take("move-to"@.len() as int) == "move-to"@);
            }
            return Some(ClientCommand::MoveTo(items));
        }
        if p5 == p4 {
            return None;
        }
        p = p5;
    }
}

/// Parses one editor command line (without its terminating newline).
/// A line that fits no rule of the grammar yields `None`, to be logged
/// and skipped by the caller.
#[verifier::loop_isolation(false)]
#[verifier::rlimit(100)]
pub fn parse_client_command(line: &Vec<char>) -> (r: Option<ClientCommand>)
    ensures
        r matches Some(c) ==> command_line_rep(c, line@),
        is_keyword_line(line@, "init"@) ==> r == Some(ClientCommand::Init),
        is_keyword_line(line@, "quit"@) ==> r == Some(ClientCommand::Quit),
        is_keyword_line(line@, "previous"@) ==> r == Some(ClientCommand::Previous),
        is_keyword_line(line@, "hints"@) ==> r == Some(ClientCommand::Hints),
        is_keyword_line(line@, "ignore-error"@) ==> r == Some(ClientCommand::IgnoreError),
        is_keyword_line(line@, "status"@) ==> r == Some(ClientCommand::Status),
        is_keyword_line(line@, "stop-interrupt"@) ==> r == Some(ClientCommand::StopInterrupt),
        spec_query_line(line@) matches Some(q) ==> (match r {
            Some(c) => c matches ClientCommand::Query(code) && code@ == q,
            None => false,
        }),
        spec_rewind_line(line@) matches Some(lc) ==> r == Some(
            ClientCommand::RewindTo(lc.0, lc.1),
        ),
        spec_next_line(line@) matches Some(rc) ==> (match r {
            Some(c) => c matches ClientCommand::Next(append, range, code) && !append && range
                == rc.0 && code@ == rc.1,
            None => false,
        }),
        spec_show_goals_line(line@) matches Some(range) ==> r == Some(
            ClientCommand::ShowGoals(range),
        ),
{
    proof {
        lemma_keyword_facts();
    }
    let v = line;
    if keyword_at(v, &kw_chars("init")) && only_spaces_from(v, 4) {
        return Some(ClientCommand::Init);
    }
    if keyword_at(v, &kw_chars("query")) {
        return handle_query(v);
    }
    if keyword_at(v, &kw_chars("quit")) && only_spaces_from(v, 4) {
        return Some(ClientCommand::Quit);
    }
    if keyword_at(v, &kw_chars("previous")) && only_spaces_from(v, 8) {
        return Some(ClientCommand::Previous);
    }
    if keyword_at(v, &kw_chars("hints")) && only_spaces_from(v, 5) {
        return Some(ClientCommand::Hints);
    }
    if keyword_at(v, &kw_chars("ignore-error")) && only_spaces_from(v, 12) {
        return Some(ClientCommand::IgnoreError);
    }
    if keyword_at(v, &kw_chars("next")) {
        return handle_next(v);
    }
    if keyword_at(v, &kw_chars("rewind-to")) {
        return handle_rewind_to(v);
    }
    if keyword_at(v, &kw_chars("move-to")) {
        return handle_move_to(v);
    }
    if keyword_at(v, &kw_chars("show-goals")) {
        return handle_show_goals(v);
    }
    if keyword_at(v, &kw_chars("status")) && only_spaces_from(v, 6) {
        return Some(ClientCommand::Status);
    }
    if keyword_at(v, &kw_chars("stop-interrupt")) && only_spaces_from(v, 14) {
        return Some(ClientCommand::StopInterrupt);
    }
    None
}

/// The characters of a keyword.
fn kw_chars(kw: &str) -> (r: Vec<char>)
    ensures
        r@ == kw@,
{
    crate::strutil::str_chars(kw)
}


/// One step of the editor-command framing.
#[derive(Debug)]
pub enum CommandFraming {
    /// A full line was available: the parsed command (or none, for a junk
    /// line) and how many characters were consumed.
    Complete(Option<ClientCommand>, usize),
    /// No line terminator yet: keep the buffer and wait for more input.
    NeedMore,
}

/// The position of the first line terminator in the buffer, or its end.
pub open spec fn spec_line_end(s: Seq<char>, i: int) -> int
    decreases s.len() - i,
    when 0 <= i <= s.len()
{
    if i >= s.len() {
        i
    } else if s[i] == '\n' {
        i
    } else {
        spec_line_end(s, i + 1)
    }
}

/// One step of the streaming command decoder: without a full line it
/// reports that more input is needed; a full line is parsed whole; a line
/// that fits no rule consumes one character, so junk is skipped a byte at
/// a time.
#[verifier::loop_isolation(false)]
pub fn decode_command_line(buffer: &Vec<char>) -> (r: CommandFraming)
    ensures
        ({
            let nl = spec_line_end(buffer@, 0);
            &&& (nl >= buffer@.len() ==> r matches CommandFraming::NeedMore)
            &&& (nl < buffer@.len() ==> (match r {
                CommandFraming::Complete(cmd, used) => (match cmd {
                    Some(c) => command_line_rep(c, buffer@.take(nl)) && used == nl + 1,
                    None => used == 1,
                }),
                CommandFraming::NeedMore => false,
            }))
            &&& (nl < buffer@.len() && is_keyword_line(buffer@.take(nl), "init"@) ==> (match r {
                CommandFraming::Complete(cmd, used) => cmd == Some(ClientCommand::Init) && used
                    == nl + 1,
                CommandFraming::NeedMore => false,
            }))
            &&& (match spec_next_line(buffer@.take(nl)) {
                Some(rc) => nl < buffer@.len() ==> (match r {
                    CommandFraming::Complete(cmd, used) => used == nl + 1 && (match cmd {
                        Some(c) => (match c {
                            ClientCommand::Next(append, range, code) => !append && range == rc.0
                                && code@ == rc.1,
                            _ => false,
                        }),
                        None => false,
                    }),
                    CommandFraming::NeedMore => false,
                }),
                None => true,
            })
            &&& (match spec_rewind_line(buffer@.take(nl)) {
                Some(lc) => nl < buffer@.len() ==> (match r {
                    CommandFraming::Complete(cmd, used) => cmd == Some(
                        ClientCommand::RewindTo(lc.0, lc.1),
                    ) && used == nl + 1,
                    CommandFraming::NeedMore => false,
                }),
                None => true,
            })
        }),
{
    let mut nl: usize = 0;
    while nl < buffer.len() && buffer[nl] != '\n'
        invariant
            nl <= buffer@.len(),
            spec_line_end(buffer@, 0) == spec_line_end(buffer@, nl as int),
        decreases buffer@.len() - nl,
    {
        nl += 1;
    }
    if nl >= buffer.len() {
        return CommandFraming::NeedMore;
    }
    let mut line: Vec<char> = Vec::new();
    let mut k: usize = 0;
    proof {
        assert(line@ =~= buffer@.take(0));
    }
    while k < nl
        invariant
            k <= nl,
            nl < buffer@.len(),
            line@ == buffer@.take(k as int),
        decreases nl - k,
    {
        line.push(buffer[k]);
        proof {
            assert(buffer@.take(k + 1) =~= buffer@.take(k as int).push(buffer@[k as int]));
        }
        k += 1;
    }
    match parse_client_command(&line) {
        Some(c) => CommandFraming::Complete(Some(c), nl + 1),
        None => CommandFraming::Complete(None, 1),
    }
}

} // verus!
