//! The project configuration grammar: whitespace-separated tokens with
//! `"…"` quoting and `#` line comments, and the selection of the backend
//! flags `-R`, `-I`, `-Q` and `-arg` from those tokens.  Locating the
//! configuration file on disk is the caller's business.

use vstd::prelude::*;

use crate::strutil::chars_to_string;

verus! {

/// A whitespace character of the configuration grammar.
pub open spec fn cfg_space(c: char) -> bool {
    c == ' ' || c == '\t' || c == '\n' || c == '\r'
}

/// The tokens of a configuration text from position `i`: whitespace
/// separates tokens, `"…"` quotes one token, and `#` discards the rest of
/// the line.
pub open spec fn spec_tokens(s: Seq<char>, i: int) -> Seq<Seq<char>>
    decreases s.len() - i,
    when 0 <= i <= s.len()
    via spec_tokens_decreases
{
    if i >= s.len() {
        Seq::empty()
    } else if cfg_space(s[i]) {
        spec_tokens(s, i + 1)
    } else if s[i] == '#' {
        spec_tokens(s, spec_end_of_line(s, i))
    } else if s[i] == '"' {
        let close = spec_closing_quote(s, i + 1);
        if close >= s.len() {
            seq![s.subrange(i + 1, s.len() as int)]
        } else {
            seq![s.subrange(i + 1, close)] + spec_tokens(s, close + 1)
        }
    } else {
        let end = spec_end_of_word(s, i);
        seq![s.subrange(i, end)] + spec_tokens(s, end)
    }
}

#[via_fn]
proof fn spec_tokens_decreases(s: Seq<char>, i: int) {
    if 0 <= i && i < s.len() {
        lemma_scan_bounds(s, i);
        if s[i] == '#' {
            lemma_scan_bounds(s, i + 1);
            assert(spec_end_of_line(s, i) == spec_end_of_line(s, i + 1));
        } else if s[i] == '"' {
            lemma_scan_bounds(s, i + 1);
        }
    }
}

/// The position after the current line.
pub open spec fn spec_end_of_line(s: Seq<char>, i: int) -> int
    decreases s.len() - i,
    when 0 <= i <= s.len()
{
    if i >= s.len() {
        i
    } else if s[i] == '\n' {
        i + 1
    } else {
        spec_end_of_line(s, i + 1)
    }
}

/// The position of the closing quote, or the end of the text.
pub open spec fn spec_closing_quote(s: Seq<char>, i: int) -> int
    decreases s.len() - i,
    when 0 <= i <= s.len()
{
    if i >= s.len() {
        i
    } else if s[i] == '"' {
        i
    } else {
        spec_closing_quote(s, i + 1)
    }
}

/// The position after the current word.
pub open spec fn spec_end_of_word(s: Seq<char>, i: int) -> int
    decreases s.len() - i,
    when 0 <= i <= s.len()
{
    if i >= s.len() {
        i
    } else if cfg_space(s[i]) || s[i] == '"' || s[i] == '#' {
        i
    } else {
        spec_end_of_word(s, i + 1)
    }
}

/// Scanning from a position never moves backwards.
proof fn lemma_scan_bounds(s: Seq<char>, i: int)
    requires
        0 <= i <= s.len(),
    ensures
        i <= spec_end_of_line(s, i) <= s.len(),
        i <= spec_closing_quote(s, i) <= s.len(),
        i < s.len() && !cfg_space(s[i]) && s[i] != '"' && s[i] != '#' ==> i < spec_end_of_word(
            s,
            i,
        ) <= s.len(),
        i <= spec_end_of_word(s, i) <= s.len(),
    decreases s.len() - i,
{
    if i < s.len() {
        lemma_scan_bounds(s, i + 1);
    }
}

/// Scans to the end of the current line.
#[verifier::loop_isolation(false)]
fn end_of_line(v: &Vec<char>, i: usize) -> (r: usize)
    requires
        i <= v@.len(),
    ensures
        r == spec_end_of_line(v@, i as int),
        i <= r <= v@.len(),
        i < v@.len() ==> r > i,
{
    let mut j = i;
    while j < v.len() && v[j] != '\n'
        invariant
            i <= j <= v@.len(),
            spec_end_of_line(v@, i as int) == spec_end_of_line(v@, j as int),
        decreases v@.len() - j,
    {
        j += 1;
    }
    if j < v.len() {
        j + 1
    } else {
        j
    }
}

/// Scans to the closing quote.
#[verifier::loop_isolation(false)]
fn closing_quote(v: &Vec<char>, i: usize) -> (r: usize)
    requires
        i <= v@.len(),
    ensures
        r == spec_closing_quote(v@, i as int),
        i <= r <= v@.len(),
{
    let mut j = i;
    while j < v.len() && v[j] != '"'
        invariant
            i <= j <= v@.len(),
            spec_closing_quote(v@, i as int) == spec_closing_quote(v@, j as int),
        decreases v@.len() - j,
    {
        j += 1;
    }
    j
}

/// Scans to the end of the current word.
#[verifier::loop_isolation(false)]
fn end_of_word(v: &Vec<char>, i: usize) -> (r: usize)
    requires
        i <= v@.len(),
    ensures
        r == spec_end_of_word(v@, i as int),
        i <= r <= v@.len(),
{
    let mut j = i;
    while j < v.len() && !(v[j] == ' ' || v[j] == '\t' || v[j] == '\n' || v[j] == '\r' || v[j]
        == '"' || v[j] == '#')
        invariant
            i <= j <= v@.len(),
            spec_end_of_word(v@, i as int) == spec_end_of_word(v@, j as int),
        decreases v@.len() - j,
    {
        j += 1;
    }
    j
}

/// Copies the characters of `v` between `from` and `to`.
#[verifier::loop_isolation(false)]
fn slice_string(v: &Vec<char>, from: usize, to: usize) -> (r: String)
    requires
        from <= to <= v@.len(),
    ensures
        r@ == v@.subrange(from as int, to as int),
{
    let mut out: Vec<char> = Vec::new();
    let mut j = from;
    proof {
        assert(v@.subrange(from as int, from as int) =~= Seq::<char>::empty());
    }
    while j < to
        invariant
            from <= j <= to,
            out@ == v@.subrange(from as int, j as int),
        decreases to - j,
    {
        out.push(v[j]);
        proof {
            assert(v@.subrange(from as int, j + 1) =~= v@.subrange(from as int, j as int).push(
                v@[j as int],
            ));
        }
        j += 1;
    }
    chars_to_string(&out)
}

/// Splits a configuration text into its tokens.
#[verifier::loop_isolation(false)]
pub fn parse(text: &Vec<char>) -> (r: Vec<String>)
    ensures
        r.deep_view() == spec_tokens(text@, 0),
{
    let mut out: Vec<String> = Vec::new();
    let mut i: usize = 0;
    while i < text.len()
        invariant
            i <= text@.len(),
            out.deep_view() + spec_tokens(text@, i as int) == spec_tokens(text@, 0),
        decreases text@.len() - i,
    {
        let c = text[i];
        if c == ' ' || c == '\t' || c == '\n' || c == '\r' {
            i += 1;
        } else if c == '#' {
            i = end_of_line(text, i);
            proof {
                lemma_scan_bounds(text@, i as int);
            }
        } else if c == '"' {
            let close = closing_quote(text, i + 1);
            if close >= text.len() {
                let token = slice_string(text, i + 1, text.len());
                let ghost prev = out.deep_view();
                out.push(token);
                proof {
                    assert(out.deep_view() =~= prev.push(token@));
                    assert(out.deep_view() + spec_tokens(text@, text@.len() as int) =~= prev
                        + spec_tokens(text@, i as int));
                }
                i = text.len();
            } else {
                let token = slice_string(text, i + 1, close);
                let ghost prev = out.deep_view();
                out.push(token);
                proof {
                    assert(out.deep_view() =~= prev.push(token@));
                    assert(out.deep_view() + spec_tokens(text@, close + 1) =~= prev + spec_tokens(
                        text@,
                        i as int,
                    ));
                }
                i = close + 1;
            }
        } else {
            let end = end_of_word(text, i);
            proof {
                lemma_scan_bounds(text@, i as int);
            }
            let token = slice_string(text, i, end);
            let ghost prev = out.deep_view();
            out.push(token);
            proof {
                assert(out.deep_view() =~= prev.push(token@));
                assert(out.deep_view() + spec_tokens(text@, end as int) =~= prev + spec_tokens(
                    text@,
                    i as int,
                ));
            }
            i = end;
        }
    }
    proof {
        assert(spec_tokens(text@, text@.len() as int) =~= Seq::<Seq<char>>::empty());
        assert(out.deep_view() =~= spec_tokens(text@, 0));
    }
    out
}

/// The backend flags selected from a token list: `-R` and `-Q` keep two
/// following tokens, `-I` keeps one, the value of `-arg` is tokenized
/// again, and anything else is dropped.  A flag missing its followers
/// makes the whole file unusable.
pub open spec fn spec_flags(toks: Seq<Seq<char>>, i: int) -> Option<Seq<Seq<char>>>
    decreases toks.len() - i,
    when 0 <= i <= toks.len()
{
    if i >= toks.len() {
        Some(Seq::empty())
    } else if toks[i] == "-R"@ || toks[i] == "-Q"@ {
        if i + 3 <= toks.len() {
            match spec_flags(toks, i + 3) {
                Some(rest) => Some(seq![toks[i], toks[i + 1], toks[i + 2]] + rest),
                None => None,
            }
        } else {
            None
        }
    } else if toks[i] == "-I"@ {
        if i + 2 <= toks.len() {
            match spec_flags(toks, i + 2) {
                Some(rest) => Some(seq![toks[i], toks[i + 1]] + rest),
                None => None,
            }
        } else {
            None
        }
    } else if toks[i] == "-arg"@ {
        if i + 2 <= toks.len() {
            match spec_flags(toks, i + 2) {
                Some(rest) => Some(spec_tokens(toks[i + 1], 0) + rest),
                None => None,
            }
        } else {
            None
        }
    } else {
        spec_flags(toks, i + 1)
    }
}

/// Selects the backend flags from the tokens of a configuration file.
/// `None` reports a flag missing its arguments.
#[verifier::loop_isolation(false)]
pub fn interpret_flags(toks: &Vec<String>) -> (r: Option<Vec<String>>)
    ensures
        match r {
            Some(out) => spec_flags(toks.deep_view(), 0) == Some(out.deep_view()),
            None => spec_flags(toks.deep_view(), 0) is None,
        },
{
    let ghost tv = toks.deep_view();
    let mut out: Vec<String> = Vec::new();
    let mut i: usize = 0;
    proof {
        assert(tv.len() == toks@.len());
    }
    while i < toks.len()
        invariant
            i <= tv.len(),
            tv.len() == toks@.len(),
            forall|k: int| 0 <= k < tv.len() ==> tv[k] == #[trigger] toks@[k]@,
            forall|rest: Seq<Seq<char>>|
                spec_flags(tv, i as int) == Some(rest) ==> spec_flags(tv, 0) == Some(
                    out.deep_view() + rest,
                ),
            spec_flags(tv, i as int) is None ==> spec_flags(tv, 0) is None,
        decreases tv.len() - i,
    {
        let ghost prev = out.deep_view();
        let tok = &toks[i];
        if tok.eq(&String::from_str("-R")) || tok.eq(&String::from_str("-Q")) {
            if toks.len() - i < 3 {
                return None;
            }
            out.push(toks[i].clone());
            out.push(toks[i + 1].clone());
            out.push(toks[i + 2].clone());
            proof {
                assert(out.deep_view() =~= prev + seq![tv[i as int], tv[i + 1], tv[i + 2]]);
                assert forall|rest: Seq<Seq<char>>|
                    spec_flags(tv, i + 3) == Some(rest) implies spec_flags(tv, 0) == Some(
                    out.deep_view() + rest,
                ) by {
                    assert(spec_flags(tv, i as int) == Some(
                        seq![tv[i as int], tv[i + 1], tv[i + 2]] + rest,
                    ));
                    assert(out.deep_view() + rest =~= prev + (seq![
                        tv[i as int],
                        tv[i + 1],
                        tv[i + 2],
                    ] + rest));
                }
            }
            i += 3;
        } else if tok.eq(&String::from_str("-I")) {
            if toks.len() - i < 2 {
                return None;
            }
            out.push(toks[i].clone());
            out.push(toks[i + 1].clone());
            proof {
                assert(out.deep_view() =~= prev + seq![tv[i as int], tv[i + 1]]);
                assert forall|rest: Seq<Seq<char>>|
                    spec_flags(tv, i + 2) == Some(rest) implies spec_flags(tv, 0) == Some(
                    out.deep_view() + rest,
                ) by {
                    assert(spec_flags(tv, i as int) == Some(
                        seq![tv[i as int], tv[i + 1]] + rest,
                    ));
                    assert(out.deep_view() + rest =~= prev + (seq![tv[i as int], tv[i + 1]]
                        + rest));
                }
            }
            i += 2;
        } else if tok.eq(&String::from_str("-arg")) {
            if toks.len() - i < 2 {
                return None;
            }
            let inner_chars = crate::strutil::str_chars(toks[i + 1].as_str());
            let mut inner = parse(&inner_chars);
            let ghost iv = inner.deep_view();
            let mut k: usize = 0;
            while k < inner.len()
                invariant
                    k <= iv.len(),
                    iv.len() == inner@.len(),
                    forall|m: int| 0 <= m < iv.len() ==> iv[m] == #[trigger] inner@[m]@,
                    out.deep_view() == prev + iv.take(k as int),
                decreases iv.len() - k,
            {
                let ghost mid = out.deep_view();
                out.push(inner[k].clone());
                proof {
                    assert(out.deep_view() =~= mid.push(iv[k as int]));
                    assert(prev + iv.take(k + 1) =~= (prev + iv.take(k as int)).push(
                        iv[k as int],
                    ));
                }
                k += 1;
            }
            proof {
                assert(iv.take(iv.len() as int) =~= iv);
                assert(out.deep_view() =~= prev + spec_tokens(tv[i + 1], 0));
                assert forall|rest: Seq<Seq<char>>|
                    spec_flags(tv, i + 2) == Some(rest) implies spec_flags(tv, 0) == Some(
                    out.deep_view() + rest,
                ) by {
                    assert(spec_flags(tv, i as int) == Some(spec_tokens(tv[i + 1], 0) + rest));
                    assert(out.deep_view() + rest =~= prev + (spec_tokens(tv[i + 1], 0) + rest));
                }
            }
            i += 2;
        } else {
            i += 1;
        }
    }
    proof {
        assert(spec_flags(tv, tv.len() as int) == Some(Seq::<Seq<char>>::empty()));
        assert(out.deep_view() + Seq::<Seq<char>>::empty() =~= out.deep_view());
    }
    Some(out)
}

} // verus!
