//! The UI emitter's pure part: rendering rich-text messages into result
//! pane content with color descriptors, rendering goals into the goal
//! pane, and the result-pane line cursor.
//!
//! The I/O shell writes the rendered content to the scratch files and
//! sends the editor commands; everything here only computes text.

use vstd::prelude::*;

use crate::protocol::{part_text, richpp_parts, ProtocolRichPP, ProtocolRichPPPart, ProtocolValue};
use crate::range::{spec_range_str, Range};
use crate::strutil::{chars_to_string, push_chars, str_chars};

verus! {

/// The highlighter name of a rich-text part.
pub open spec fn spec_color_name(p: ProtocolRichPPPart) -> Seq<char> {
    match p {
        ProtocolRichPPPart::Keyword(_) => "keyword"@,
        ProtocolRichPPPart::Evar(_) => "evar"@,
        ProtocolRichPPPart::Type(_) => "type"@,
        ProtocolRichPPPart::Notation(_) => "notation"@,
        ProtocolRichPPPart::Variable(_) => "variable"@,
        ProtocolRichPPPart::Reference(_) => "reference"@,
        ProtocolRichPPPart::Path(_) => "path"@,
        ProtocolRichPPPart::Warning(_) => "warning"@,
        ProtocolRichPPPart::Error(_) => "error"@,
        ProtocolRichPPPart::Raw(_) => "unknown"@,
    }
}

/// Retrieves the name of the color corresponding to a rich-text part.
pub fn color_name(part: &ProtocolRichPPPart) -> (r: String)
    ensures
        r@ == spec_color_name(*part),
{
    let s: &str = match part {
        ProtocolRichPPPart::Keyword(_) => "keyword",
        ProtocolRichPPPart::Evar(_) => "evar",
        ProtocolRichPPPart::Type(_) => "type",
        ProtocolRichPPPart::Notation(_) => "notation",
        ProtocolRichPPPart::Variable(_) => "variable",
        ProtocolRichPPPart::Reference(_) => "reference",
        ProtocolRichPPPart::Path(_) => "path",
        ProtocolRichPPPart::Warning(_) => "warning",
        ProtocolRichPPPart::Error(_) => "error",
        ProtocolRichPPPart::Raw(_) => "unknown",
    };
    s.to_owned()
}

/// One piece of text with newlines padded: each `\n` is followed by
/// `starting_column - 1` spaces, so continuation lines align.
pub open spec fn spec_padded(text: Seq<char>, starting_column: int) -> Seq<char>
    decreases text.len(),
{
    if text.len() == 0 {
        Seq::empty()
    } else if text[0] == '\n' {
        seq!['\n'] + Seq::new((starting_column - 1) as nat, |i: int| ' ') + spec_padded(
            text.drop_first(),
            starting_column,
        )
    } else {
        seq![text[0]] + spec_padded(text.drop_first(), starting_column)
    }
}

/// The rendered message of a whole part list.
pub open spec fn spec_padded_message(texts: Seq<Seq<char>>, starting_column: int) -> Seq<char>
    decreases texts.len(),
{
    if texts.len() == 0 {
        Seq::empty()
    } else {
        spec_padded(texts[0], starting_column) + spec_padded_message(
            texts.drop_first(),
            starting_column,
        )
    }
}

/// Whether a color descriptor has the form `L.C,L.C|coqide_<name>` for
/// the given part.
pub open spec fn is_color_descriptor(s: Seq<char>, p: ProtocolRichPPPart) -> bool {
    exists|range: Range|
        s == spec_range_str(range) + seq!['|'] + "coqide_"@ + spec_color_name(p)
}

/// The cursor after emitting `text` from `pos`: a newline moves to the
/// next line at the alignment column (or column 1 when not aligning), any
/// other character one column right.
pub open spec fn spec_pos_after(
    pos: (int, int),
    text: Seq<char>,
    start_col: int,
    align: bool,
) -> (int, int)
    decreases text.len(),
{
    if text.len() == 0 {
        pos
    } else if text[0] == '\n' {
        spec_pos_after(
            (pos.0 + 1, if align {
                start_col
            } else {
                1
            }),
            text.drop_first(),
            start_col,
            align,
        )
    } else {
        spec_pos_after((pos.0, pos.1 + 1), text.drop_first(), start_col, align)
    }
}

/// Appends `text` to `out` with newline padding, advancing the cursor:
/// a newline moves to the next line at the alignment column, any other
/// character moves one column right.
#[verifier::loop_isolation(false)]
fn push_padded(
    out: &mut Vec<char>,
    text: &Vec<char>,
    starting_column: usize,
    align: bool,
    line: &mut usize,
    column: &mut usize,
) -> (advanced: bool)
    requires
        starting_column >= 1,
        *old(line) + text@.len() <= usize::MAX,
        *old(column) + text@.len() <= usize::MAX,
        starting_column + text@.len() <= usize::MAX,
    ensures
        final(out)@ == old(out)@ + spec_padded(text@, starting_column as int),
        *final(line) >= *old(line),
        *final(line) <= *old(line) + text@.len(),
        *final(column) <= vstd::math::max(
            *old(column) as int,
            vstd::math::max(starting_column as int, 1int),
        ) + text@.len(),
        (*final(line) as int, *final(column) as int) == spec_pos_after(
            (*old(line) as int, *old(column) as int),
            text@,
            starting_column as int,
            align,
        ),
{
    let mut i: usize = 0;
    let ghost col_bound = vstd::math::max(
        *old(column) as int,
        vstd::math::max(starting_column as int, 1int),
    );
    let ghost pos0 = (*old(line) as int, *old(column) as int);
    proof {
        assert(text@.skip(0) =~= text@);
    }
    while i < text.len()
        invariant
            i <= text@.len(),
            out@ + spec_padded(text@.skip(i as int), starting_column as int) == old(out)@
                + spec_padded(text@, starting_column as int),
            *old(line) <= *line,
            *line <= *old(line) + i,
            *column <= col_bound + i,
            spec_pos_after(pos0, text@, starting_column as int, align) == spec_pos_after(
                (*line as int, *column as int),
                text@.skip(i as int),
                starting_column as int,
                align,
            ),
        decreases text@.len() - i,
    {
        proof {
            assert(text@.skip(i as int)[0] == text@[i as int]);
            assert(text@.skip(i as int).drop_first() =~= text@.skip(i + 1));
        }
        let c = text[i];
        if c == '\n' {
            *line = *line + 1;
            *column = if align {
                starting_column
            } else {
                1
            };
            out.push('\n');
            let ghost out_nl = out@;
            let mut k: usize = 1;
            while k < starting_column
                invariant
                    1 <= k <= starting_column,
                    out@ == out_nl + Seq::new((k - 1) as nat, |m: int| ' '),
                decreases starting_column - k,
            {
                out.push(' ');
                proof {
                    assert(out@ =~= out_nl + Seq::new(k as nat, |m: int| ' '));
                }
                k += 1;
            }
            proof {
                assert(out@ =~= out_nl + Seq::new((starting_column - 1) as nat, |m: int| ' '));
                assert(out@ + spec_padded(text@.skip(i + 1), starting_column as int) =~= old(out)@
                    + spec_padded(text@, starting_column as int));
            }
        } else {
            *column = *column + 1;
            out.push(c);
            proof {
                assert(out@ + spec_padded(text@.skip(i + 1), starting_column as int) =~= old(out)@
                    + spec_padded(text@, starting_column as int));
            }
        }
        i += 1;
    }
    proof {
        assert(spec_padded(text@.skip(text@.len() as int), starting_column as int) =~= Seq::<
            char,
        >::empty());
        assert(out@ =~= old(out)@ + spec_padded(text@, starting_column as int));
        assert(text@.skip(text@.len() as int).len() == 0);
    }
    true
}

/// The padded remainder splits into this character's padding and the rest.
proof fn lemma_padded_take_step(text: Seq<char>, i: int, starting_column: int)
    requires
        0 <= i < text.len(),
    ensures
        spec_padded(text, starting_column) == spec_padded(text.take(i), starting_column) + (if text[i]
            == '\n' {
            seq!['\n'] + Seq::new((starting_column - 1) as nat, |m: int| ' ')
        } else {
            seq![text[i]]
        }) + spec_padded(text.skip(i + 1), starting_column),
    decreases i,
{
    if i == 0 {
        assert(text.take(0) =~= Seq::<char>::empty());
        assert(spec_padded(Seq::<char>::empty(), starting_column) == Seq::<char>::empty());
        assert(text.drop_first() =~= text.skip(1));
        assert(spec_padded(text, starting_column) =~= spec_padded(text.take(0), starting_column)
            + (if text[0] == '\n' {
            seq!['\n'] + Seq::new((starting_column - 1) as nat, |m: int| ' ')
        } else {
            seq![text[0]]
        }) + spec_padded(text.skip(1), starting_column));
    } else {
        lemma_padded_take_step(text.drop_first(), i - 1, starting_column);
        assert(text.take(i)[0] == text[0]);
        assert(text.take(i).drop_first() =~= text.drop_first().take(i - 1));
        assert(text.drop_first()[i - 1] == text[i]);
        assert(text.drop_first().skip(i) =~= text.skip(i + 1));
        assert(spec_padded(text, starting_column) =~= spec_padded(text.take(i), starting_column)
            + (if text[i] == '\n' {
            seq!['\n'] + Seq::new((starting_column - 1) as nat, |m: int| ' ')
        } else {
            seq![text[i]]
        }) + spec_padded(text.skip(i + 1), starting_column));
    }
}

/// The texts of the annotated (non-plain) parts, in order.
pub open spec fn spec_annotated(parts: Seq<ProtocolRichPPPart>) -> Seq<ProtocolRichPPPart>
    decreases parts.len(),
{
    if parts.len() == 0 {
        Seq::empty()
    } else {
        (match parts[0] {
            ProtocolRichPPPart::Raw(_) => Seq::empty(),
            p => seq![p],
        }) + spec_annotated(parts.drop_first())
    }
}

/// The descriptor of one annotated part occupying the span from `begin`
/// to `end` (exclusive of the cursor's resting column).
pub open spec fn spec_descriptor_of(
    p: ProtocolRichPPPart,
    begin: (int, int),
    end: (int, int),
) -> Seq<char> {
    spec_range_str(
        Range {
            begin: (begin.0 as u64, begin.1 as u64),
            end: (
                end.0 as u64,
                (if end.1 > 1 {
                    end.1 - 1
                } else {
                    end.1
                }) as u64,
            ),
        },
    ) + seq!['|'] + "coqide_"@ + spec_color_name(p)
}

/// The color descriptors of a part list rendered from `pos`: one per
/// annotated part, over the exact span its text occupies.
pub open spec fn spec_colors_from(
    parts: Seq<ProtocolRichPPPart>,
    pos: (int, int),
    start_col: int,
    align: bool,
) -> Seq<Seq<char>>
    decreases parts.len(),
{
    if parts.len() == 0 {
        Seq::empty()
    } else {
        let end = spec_pos_after(pos, part_text(parts[0]), start_col, align);
        (match parts[0] {
            ProtocolRichPPPart::Raw(_) => Seq::<Seq<char>>::empty(),
            _ => seq![spec_descriptor_of(parts[0], pos, end)],
        }) + spec_colors_from(parts.drop_first(), end, start_col, align)
    }
}

/// The character sequences of a list of strings.
pub open spec fn strings_views(ss: Seq<String>) -> Seq<Seq<char>> {
    Seq::new(ss.len(), |i: int| ss[i]@)
}

/// Extracts the rendered message and the color descriptors from a
/// rich-text message starting at the given position.  The message is the
/// concatenation of the parts' texts with continuation lines padded; one
/// color descriptor `L.C,L.C|coqide_<name>` is produced per annotated
/// part, in order.
#[verifier::loop_isolation(false)]
#[verifier::rlimit(100)]
pub fn extract_colors(
    richpp: ProtocolRichPP,
    starting_line: usize,
    starting_column: usize,
    align: bool,
) -> (r: (String, Vec<String>))
    requires
        starting_column >= 1,
        starting_line + total_text_len(richpp_parts(richpp)) <= usize::MAX,
        starting_column + total_text_len(richpp_parts(richpp)) <= usize::MAX,
    ensures
        r.0@ == spec_padded_message(
            crate::protocol::parts_texts(richpp_parts(richpp)),
            starting_column as int,
        ),
        r.1@.len() == spec_annotated(richpp_parts(richpp)).len(),
        forall|i: int|
            0 <= i < r.1@.len() ==> is_color_descriptor(
                (#[trigger] r.1@[i])@,
                spec_annotated(richpp_parts(richpp))[i],
            ),
        strings_views(r.1@) == spec_colors_from(
            richpp_parts(richpp),
            (starting_line as int, starting_column as int),
            starting_column as int,
            align,
        ),
{
    let ProtocolRichPP::RichPP(parts) = richpp;
    let ghost pv = parts@;
    let ghost pos0 = (starting_line as int, starting_column as int);
    let mut message: Vec<char> = Vec::new();
    let mut colors: Vec<String> = Vec::new();
    let mut line: usize = starting_line;
    let mut column: usize = starting_column;
    let mut i: usize = 0;
    proof {
        assert(pv.take(0) =~= Seq::<ProtocolValue>::empty().map_values(
            |v: ProtocolValue| arbitrary::<ProtocolRichPPPart>(),
        ).take(0));
        lemma_total_text_len_mono(pv, 0);
        assert(spec_padded_message(
            crate::protocol::parts_texts(pv).take(0),
            starting_column as int,
        ) =~= Seq::<char>::empty());
        assert(spec_annotated(pv.take(0)) =~= Seq::<ProtocolRichPPPart>::empty());
        assert(pv.skip(0) =~= pv);
        assert(strings_views(Seq::<String>::empty()) =~= Seq::<Seq<char>>::empty());
    }
    while i < parts.len()
        invariant
            i <= parts@.len(),
            parts@ == pv,
            starting_column >= 1,
            starting_line + total_text_len(pv) <= usize::MAX,
            starting_column + total_text_len(pv) <= usize::MAX,
            line <= starting_line + total_text_len(pv.take(i as int)),
            column <= vstd::math::max(starting_column as int, 1int) + total_text_len(
                pv.take(i as int),
            ),
            message@ == spec_padded_message(
                crate::protocol::parts_texts(pv).take(i as int),
                starting_column as int,
            ),
            colors@.len() == spec_annotated(pv.take(i as int)).len(),
            forall|k: int|
                0 <= k < colors@.len() ==> is_color_descriptor(
                    (#[trigger] colors@[k])@,
                    spec_annotated(pv.take(i as int))[k],
                ),
            spec_colors_from(pv, pos0, starting_column as int, align) == strings_views(colors@)
                + spec_colors_from(
                pv.skip(i as int),
                (line as int, column as int),
                starting_column as int,
                align,
            ),
        decreases parts@.len() - i,
    {
        proof {
            assert(pv.skip(i as int)[0] == pv[i as int]);
            assert(pv.skip(i as int).drop_first() =~= pv.skip(i + 1));
        }
        let is_raw = match &parts[i] {
            ProtocolRichPPPart::Raw(_) => true,
            _ => false,
        };
        let text_str: &String = match &parts[i] {
            ProtocolRichPPPart::Raw(s) => s,
            ProtocolRichPPPart::Keyword(s) => s,
            ProtocolRichPPPart::Evar(s) => s,
            ProtocolRichPPPart::Type(s) => s,
            ProtocolRichPPPart::Notation(s) => s,
            ProtocolRichPPPart::Variable(s) => s,
            ProtocolRichPPPart::Reference(s) => s,
            ProtocolRichPPPart::Path(s) => s,
            ProtocolRichPPPart::Warning(s) => s,
            ProtocolRichPPPart::Error(s) => s,
        };
        let text = str_chars(text_str.as_str());
        proof {
            assert(text@ == part_text(pv[i as int]));
            lemma_total_text_len_mono(pv, i as int);
            lemma_total_text_len_mono(pv, i + 1);
            lemma_total_text_len_step(pv, i as int);
        }
        let begin_line = line;
        let begin_column = column;
        let ghost begin_pos = (line as int, column as int);
        let _ = push_padded(&mut message, &text, starting_column, align, &mut line, &mut column);
        let ghost end_pos = (line as int, column as int);
        proof {
            assert(end_pos == spec_pos_after(
                begin_pos,
                part_text(pv[i as int]),
                starting_column as int,
                align,
            ));
        }
        if !is_raw {
            let end_column = if column > 1 {
                column - 1
            } else {
                column
            };
            let range = Range::new(
                begin_line as u64,
                begin_column as u64,
                line as u64,
                end_column as u64,
            );
            let mut descriptor = range.render();
            descriptor.push('|');
            push_chars(&mut descriptor, &str_chars("coqide_"));
            let name = color_name(&parts[i]);
            push_chars(&mut descriptor, &str_chars(name.as_str()));
            proof {
                assert(descriptor@ =~= spec_range_str(range) + seq!['|'] + "coqide_"@
                    + spec_color_name(pv[i as int]));
                assert(descriptor@ == spec_descriptor_of(pv[i as int], begin_pos, end_pos));
            }
            let ghost cprev = colors@;
            colors.push(chars_to_string(&descriptor));
            proof {
                assert(strings_views(colors@) =~= strings_views(cprev).push(descriptor@));
                assert(strings_views(cprev) + (seq![
                    spec_descriptor_of(pv[i as int], begin_pos, end_pos),
                ] + spec_colors_from(
                    pv.skip(i + 1),
                    end_pos,
                    starting_column as int,
                    align,
                )) =~= strings_views(colors@) + spec_colors_from(
                    pv.skip(i + 1),
                    end_pos,
                    starting_column as int,
                    align,
                ));
            }
        } else {
            proof {
                assert(strings_views(colors@) + (Seq::<Seq<char>>::empty() + spec_colors_from(
                    pv.skip(i + 1),
                    end_pos,
                    starting_column as int,
                    align,
                )) =~= strings_views(colors@) + spec_colors_from(
                    pv.skip(i + 1),
                    end_pos,
                    starting_column as int,
                    align,
                ));
            }
        }
        proof {
            lemma_parts_step(pv, i as int, starting_column as int);
            assert(message@ =~= spec_padded_message(
                crate::protocol::parts_texts(pv).take(i + 1),
                starting_column as int,
            ));
        }
        i += 1;
    }
    proof {
        assert(crate::protocol::parts_texts(pv).take(pv.len() as int) =~= crate::protocol::parts_texts(
            pv,
        ));
        assert(pv.take(pv.len() as int) =~= pv);
        assert(pv.skip(pv.len() as int).len() == 0);
        assert(spec_colors_from(
            pv.skip(pv.len() as int),
            (line as int, column as int),
            starting_column as int,
            align,
        ) =~= Seq::<Seq<char>>::empty());
        assert(strings_views(colors@) =~= spec_colors_from(
            pv,
            pos0,
            starting_column as int,
            align,
        ));
    }
    (chars_to_string(&message), colors)
}

/// The length of the longest line in a text, folding over the characters
/// with the current line's length and the best seen so far.
pub open spec fn spec_lines_max(s: Seq<char>, cur: int, best: int) -> int
    decreases s.len(),
{
    if s.len() == 0 {
        vstd::math::max(cur, best)
    } else if s[0] == '\n' {
        spec_lines_max(s.drop_first(), 0, vstd::math::max(cur, best))
    } else {
        spec_lines_max(s.drop_first(), cur + 1, best)
    }
}

/// The length of the longest line in a text.
#[verifier::loop_isolation(false)]
pub fn longest_line(s: &Vec<char>) -> (r: usize)
    ensures
        r == spec_lines_max(s@, 0, 0),
{
    let ghost slen = s@.len();
    let total = s.len();
    let mut cur: usize = 0;
    let mut best: usize = 0;
    let mut i: usize = 0;
    proof {
        assert(s@.skip(0) =~= s@);
    }
    while i < s.len()
        invariant
            i <= s@.len(),
            cur <= i,
            best <= i,
            spec_lines_max(s@, 0, 0) == spec_lines_max(s@.skip(i as int), cur as int, best as int),
        decreases s@.len() - i,
    {
        proof {
            assert(s@.skip(i as int)[0] == s@[i as int]);
            assert(s@.skip(i as int).drop_first() =~= s@.skip(i + 1));
        }
        if s[i] == '\n' {
            if cur > best {
                best = cur;
            }
            cur = 0;
        } else {
            cur = cur + 1;
        }
        i += 1;
    }
    proof {
        assert(spec_lines_max(s@.skip(s@.len() as int), cur as int, best as int)
            == vstd::math::max(cur as int, best as int));
    }
    if cur > best {
        cur
    } else {
        best
    }
}

/// The rendered text of one hypothesis, padded at column 2.
pub open spec fn spec_hyp_msg(h: ProtocolRichPP) -> Seq<char> {
    spec_padded_message(crate::protocol::parts_texts(richpp_parts(h)), 2)
}

/// The hypothesis lines of a goal block: each hypothesis on its own line,
/// left-padded one space.
pub open spec fn spec_hyps_joined(hyps: Seq<ProtocolRichPP>) -> Seq<char>
    decreases hyps.len(),
{
    if hyps.len() == 0 {
        Seq::empty()
    } else if hyps.len() == 1 {
        seq![' '] + spec_hyp_msg(hyps[0]) + seq![' ']
    } else {
        spec_hyps_joined(hyps.drop_last()) + seq!['\n', ' '] + spec_hyp_msg(hyps.last()) + seq![
            ' ',
        ]
    }
}

/// The widest hypothesis line, plus the one-space padding on each side.
pub open spec fn spec_hyps_width(hyps: Seq<ProtocolRichPP>) -> int
    decreases hyps.len(),
{
    if hyps.len() == 0 {
        0int
    } else {
        vstd::math::max(
            spec_hyps_width(hyps.drop_last()),
            spec_lines_max(spec_hyp_msg(hyps.last()), 0, 0) + 2,
        )
    }
}

/// The name a goal block is tagged with: the text of the goal's name
/// value, or nothing when it is not a string.
pub open spec fn goal_name_text(v: ProtocolValue) -> Seq<char> {
    match v {
        ProtocolValue::Str(s) => s@,
        _ => Seq::empty(),
    }
}

/// The whole goal block of §4.6: hypotheses one per line left-padded one
/// space, a separator of box-drawing dashes at least as wide as the widest
/// content line and tagged with the goal name, then the conclusion.
pub open spec fn spec_goal_block(
    name: Seq<char>,
    hyps: Seq<ProtocolRichPP>,
    ccl: ProtocolRichPP,
) -> Seq<char> {
    let cmsg = spec_padded_message(crate::protocol::parts_texts(richpp_parts(ccl)), 2);
    let width = vstd::math::max(spec_hyps_width(hyps), spec_lines_max(cmsg, 0, 0) + 2);
    let sep = Seq::new(width as nat, |i: int| '\u{2500}');
    (if hyps.len() == 0 {
        Seq::<char>::empty()
    } else {
        spec_hyps_joined(hyps) + seq!['\n']
    }) + sep + seq![' ', '('] + name + seq![')', '\n', ' '] + cmsg + seq![' ', '\n']
}

/// The annotated parts of the hypotheses, in order.
pub open spec fn spec_hyps_annotated(hyps: Seq<ProtocolRichPP>) -> Seq<ProtocolRichPPPart>
    decreases hyps.len(),
{
    if hyps.len() == 0 {
        Seq::empty()
    } else {
        spec_annotated(richpp_parts(hyps[0])) + spec_hyps_annotated(hyps.drop_first())
    }
}

/// The annotated parts of a whole goal: the hypotheses' in order, then the
/// conclusion's.
pub open spec fn spec_goal_annotated(
    hyps: Seq<ProtocolRichPP>,
    ccl: ProtocolRichPP,
) -> Seq<ProtocolRichPPPart> {
    spec_hyps_annotated(hyps) + spec_annotated(richpp_parts(ccl))
}

/// One more hypothesis appends its annotated parts.
proof fn lemma_hyps_annotated_push(hyps: Seq<ProtocolRichPP>, h: ProtocolRichPP)
    ensures
        spec_hyps_annotated(hyps.push(h)) == spec_hyps_annotated(hyps) + spec_annotated(
            richpp_parts(h),
        ),
    decreases hyps.len(),
{
    if hyps.len() == 0 {
        assert(hyps.push(h)[0] == h);
        assert(hyps.push(h).drop_first() =~= Seq::<ProtocolRichPP>::empty());
        assert(spec_hyps_annotated(Seq::<ProtocolRichPP>::empty()) == Seq::<
            ProtocolRichPPPart,
        >::empty());
        assert(hyps =~= Seq::<ProtocolRichPP>::empty());
        assert(spec_hyps_annotated(hyps.push(h)) =~= spec_hyps_annotated(hyps) + spec_annotated(
            richpp_parts(h),
        ));
    } else {
        lemma_hyps_annotated_push(hyps.drop_first(), h);
        assert(hyps.push(h)[0] == hyps[0]);
        assert(hyps.push(h).drop_first() =~= hyps.drop_first().push(h));
        assert(spec_hyps_annotated(hyps.push(h)) =~= spec_hyps_annotated(hyps) + spec_annotated(
            richpp_parts(h),
        ));
    }
}

/// A goal block with hypotheses has hypothesis lines.
proof fn lemma_hyps_joined_nonempty(hyps: Seq<ProtocolRichPP>)
    requires
        hyps.len() > 0,
    ensures
        spec_hyps_joined(hyps).len() >= 2,
    decreases hyps.len(),
{
    if hyps.len() > 1 {
        lemma_hyps_joined_nonempty(hyps.drop_last());
    }
}

/// Transforms a goal record into its textual block: hypotheses one per
/// line, left-padded one space, then a separator line of box-drawing
/// dashes at least as long as the widest content line, tagged with the
/// goal name, then the conclusion.  Returns the text, its color
/// descriptors, and the line number after the block.
#[verifier::loop_isolation(false)]
#[verifier::rlimit(100)]
#[verifier::spinoff_prover]
pub fn goal_to_string(goal: ProtocolValue, line: usize) -> (r: (String, Vec<String>, usize))
    requires
        goal matches ProtocolValue::Goal(_, _, _),
        line + goal_budget(goal) + 4 <= usize::MAX,
        2 * goal_budget(goal) + 8 <= usize::MAX,
    ensures
        goal matches ProtocolValue::Goal(name, hyps, ccl) ==> ({
            &&& r.2 == line + hyps@.len() + 2
            &&& r.0@ == spec_goal_block(goal_name_text(*name), hyps@, ccl)
            &&& r.1@.len() == spec_goal_annotated(hyps@, ccl).len()
            &&& forall|i: int|
                0 <= i < r.1@.len() ==> is_color_descriptor(
                    (#[trigger] r.1@[i])@,
                    spec_goal_annotated(hyps@, ccl)[i],
                )
        }),
{
    match goal {
        ProtocolValue::Goal(name, hyps, ccl) => {
            let ghost gname = *name;
            let name_text: String = match *name {
                ProtocolValue::Str(s) => s,
                _ => String::new(),
            };
            proof {
                assert(name_text@ == goal_name_text(gname));
            }
            let mut message: Vec<char> = Vec::new();
            let mut colors: Vec<String> = Vec::new();
            let mut max_size: usize = 0;
            let mut cur_line: usize = line;
            let mut hyps = hyps;
            let ghost horig = hyps@;
            let ghost used: int = 0;
            let ghost done: int = 0;
            proof {
                lemma_goal_budget_parts(horig, richpp_parts(ccl), 0);
                assert(horig.take(0) =~= Seq::<ProtocolRichPP>::empty());
                assert(horig.skip(0) =~= horig);
                assert(spec_hyps_joined(Seq::<ProtocolRichPP>::empty()) == Seq::<char>::empty());
                assert(spec_hyps_annotated(Seq::<ProtocolRichPP>::empty()) == Seq::<
                    ProtocolRichPPPart,
                >::empty());
            }
            while hyps.len() > 0
                invariant
                    used >= 0,
                    used + goal_budget_hyps(hyps@) == goal_budget_hyps(horig),
                    goal_budget_hyps(hyps@) >= 0,
                    cur_line + hyps@.len() + goal_budget_hyps(hyps@) + total_text_len(
                        richpp_parts(ccl),
                    ) + 4 <= usize::MAX,
                    2 * goal_budget_hyps(horig) + 2 * total_text_len(richpp_parts(ccl)) + 4
                        <= usize::MAX,
                    max_size <= 2 * used + 2,
                    cur_line == line + (horig.len() - hyps@.len()),
                    hyps@.len() <= horig.len(),
                    done == horig.len() - hyps@.len(),
                    hyps@ == horig.skip(done),
                    message@ == spec_hyps_joined(horig.take(done)),
                    max_size == spec_hyps_width(horig.take(done)),
                    colors@.len() == spec_hyps_annotated(horig.take(done)).len(),
                    forall|k: int|
                        0 <= k < colors@.len() ==> is_color_descriptor(
                            (#[trigger] colors@[k])@,
                            spec_hyps_annotated(horig.take(done))[k],
                        ),
                decreases hyps@.len(),
            {
                proof {
                    lemma_goal_budget_step(hyps@);
                    assert(horig.skip(done)[0] == horig[done]);
                    assert(horig.skip(done).remove(0) =~= horig.skip(done + 1));
                    assert(horig.take(done + 1).drop_last() =~= horig.take(done));
                    assert(horig.take(done + 1).last() == horig[done]);
                    assert(horig.take(done + 1) =~= horig.take(done).push(horig[done]));
                }
                let ghost hyp_cost = total_text_len(richpp_parts(hyps@[0]));
                let hyp = hyps.remove(0);
                proof {
                    used = used + hyp_cost;
                    assert(hyp == horig[done]);
                }
                let ghost htexts = crate::protocol::parts_texts(richpp_parts(hyp));
                proof {
                    lemma_padded_len_bound(htexts, 2);
                }
                let (msg, mut cols) = extract_colors(hyp, cur_line, 2, true);
                cur_line += 1;
                let msg_chars = str_chars(msg.as_str());
                proof {
                    lemma_lines_max_bound(msg_chars@, 0, 0);
                    lemma_texts_len_eq(richpp_parts(hyp));
                    assert(msg_chars@.len() <= 2 * total_text_len(richpp_parts(hyp)));
                    assert(msg_chars@ == spec_hyp_msg(horig[done]));
                }
                let width = longest_line(&msg_chars) + 2;
                if width > max_size {
                    max_size = width;
                }
                proof {
                    assert(max_size == spec_hyps_width(horig.take(done + 1)));
                }
                if message.len() > 0 {
                    message.push('\n');
                } else {
                    proof {
                        if done > 0 {
                            lemma_hyps_joined_nonempty(horig.take(done));
                        }
                        assert(done == 0);
                    }
                }
                message.push(' ');
                push_chars(&mut message, &msg_chars);
                message.push(' ');
                proof {
                    if done == 0 {
                        assert(message@ =~= spec_hyps_joined(horig.take(done + 1)));
                    } else {
                        lemma_hyps_joined_nonempty(horig.take(done));
                        assert(message@ =~= spec_hyps_joined(horig.take(done + 1)));
                    }
                }
                let ghost cprev = colors@;
                let mut ci: usize = 0;
                proof {
                    assert(cols@.take(0) =~= Seq::<String>::empty());
                    assert(colors@ =~= cprev + cols@.take(0));
                }
                while ci < cols.len()
                    invariant
                        ci <= cols@.len(),
                        colors@ == cprev + cols@.take(ci as int),
                    decreases cols@.len() - ci,
                {
                    colors.push(cols[ci].clone());
                    proof {
                        assert(cols@.take(ci + 1) =~= cols@.take(ci as int).push(
                            cols@[ci as int],
                        ));
                        assert(colors@ =~= cprev + cols@.take(ci + 1));
                    }
                    ci += 1;
                }
                proof {
                    assert(cols@.take(cols@.len() as int) =~= cols@);
                    lemma_hyps_annotated_push(horig.take(done), horig[done]);
                    assert(spec_hyps_annotated(horig.take(done + 1))
                        == spec_hyps_annotated(horig.take(done)) + spec_annotated(
                        richpp_parts(horig[done]),
                    ));
                    assert(colors@.len() == spec_hyps_annotated(horig.take(done + 1)).len());
                    assert forall|k: int| 0 <= k < colors@.len() implies is_color_descriptor(
                        (#[trigger] colors@[k])@,
                        spec_hyps_annotated(horig.take(done + 1))[k],
                    ) by {
                        if k < cprev.len() {
                            assert(colors@[k] == cprev[k]);
                        } else {
                            assert(colors@[k] == cols@[k - cprev.len()]);
                            assert(spec_hyps_annotated(horig.take(done + 1))[k] == spec_annotated(
                                richpp_parts(horig[done]),
                            )[k - cprev.len()]);
                        }
                    }
                    done = done + 1;
                }
            }
            proof {
                assert(horig.take(done) =~= horig);
                assert(horig.take(horig.len() as int) =~= horig);
            }
            let ghost ctexts = crate::protocol::parts_texts(richpp_parts(ccl));
            proof {
                lemma_padded_len_bound(ctexts, 2);
            }
            let (cmsg, mut ccols) = extract_colors(ccl, cur_line + 1, 2, true);
            let cmsg_chars = str_chars(cmsg.as_str());
            proof {
                lemma_lines_max_bound(cmsg_chars@, 0, 0);
                lemma_texts_len_eq(richpp_parts(ccl));
                assert(cmsg_chars@.len() <= 2 * total_text_len(richpp_parts(ccl)));
            }
            let cwidth = longest_line(&cmsg_chars) + 2;
            if cwidth > max_size {
                max_size = cwidth;
            }
            proof {
                assert(max_size as int == vstd::math::max(
                    spec_hyps_width(horig),
                    spec_lines_max(cmsg_chars@, 0, 0) + 2,
                ));
            }
            let had_hyps = message.len() > 0;
            proof {
                if horig.len() > 0 {
                    lemma_hyps_joined_nonempty(horig);
                }
                assert(had_hyps == (horig.len() > 0));
            }
            if had_hyps {
                message.push('\n');
            }
            let ghost before_sep = message@;
            let mut k: usize = 0;
            proof {
                assert(message@ =~= before_sep + Seq::new(0nat, |m: int| '\u{2500}'));
            }
            while k < max_size
                invariant
                    k <= max_size,
                    message@ == before_sep + Seq::new(k as nat, |m: int| '\u{2500}'),
                decreases max_size - k,
            {
                message.push('\u{2500}');
                proof {
                    assert(message@ =~= before_sep + Seq::new((k + 1) as nat, |m: int| '\u{2500}'));
                }
                k += 1;
            }
            message.push(' ');
            message.push('(');
            push_chars(&mut message, &str_chars(name_text.as_str()));
            message.push(')');
            message.push('\n');
            message.push(' ');
            push_chars(&mut message, &cmsg_chars);
            message.push(' ');
            message.push('\n');
            proof {
                assert(message@ =~= spec_goal_block(goal_name_text(gname), horig, ccl));
            }
            let ghost cprev = colors@;
            let mut ci: usize = 0;
            proof {
                assert(ccols@.take(0) =~= Seq::<String>::empty());
                assert(colors@ =~= cprev + ccols@.take(0));
            }
            while ci < ccols.len()
                invariant
                    ci <= ccols@.len(),
                    colors@ == cprev + ccols@.take(ci as int),
                decreases ccols@.len() - ci,
            {
                colors.push(ccols[ci].clone());
                proof {
                    assert(ccols@.take(ci + 1) =~= ccols@.take(ci as int).push(ccols@[ci as int]));
                    assert(colors@ =~= cprev + ccols@.take(ci + 1));
                }
                ci += 1;
            }
            proof {
                assert(ccols@.take(ccols@.len() as int) =~= ccols@);
                assert(colors@.len() == spec_goal_annotated(horig, ccl).len());
                assert forall|i: int| 0 <= i < colors@.len() implies is_color_descriptor(
                    (#[trigger] colors@[i])@,
                    spec_goal_annotated(horig, ccl)[i],
                ) by {
                    if i < cprev.len() {
                        assert(colors@[i] == cprev[i]);
                        assert(spec_goal_annotated(horig, ccl)[i] == spec_hyps_annotated(horig)[i]);
                    } else {
                        assert(colors@[i] == ccols@[i - cprev.len()]);
                        assert(spec_goal_annotated(horig, ccl)[i] == spec_annotated(
                            richpp_parts(ccl),
                        )[i - cprev.len()]);
                    }
                }
            }
            cur_line += 2;
            (chars_to_string(&message), colors, cur_line)
        },
        _ => (String::new(), Vec::new(), line),
    }
}

/// The total text length a goal's rendering works over.
pub open spec fn goal_budget(goal: ProtocolValue) -> int {
    match goal {
        ProtocolValue::Goal(_, hyps, ccl) => goal_budget_hyps(hyps@) + total_text_len(
            richpp_parts(ccl),
        ) + hyps@.len(),
        _ => 0,
    }
}

/// The total text length of a list of hypotheses.
pub open spec fn goal_budget_hyps(hyps: Seq<ProtocolRichPP>) -> int
    decreases hyps.len(),
{
    if hyps.len() == 0 {
        0int
    } else {
        total_text_len(richpp_parts(hyps[0])) + goal_budget_hyps(hyps.drop_first())
    }
}

/// Hypothesis budgets are non-negative and shrink with the list.
proof fn lemma_goal_budget_step(hyps: Seq<ProtocolRichPP>)
    requires
        hyps.len() > 0,
    ensures
        goal_budget_hyps(hyps) == total_text_len(richpp_parts(hyps[0])) + goal_budget_hyps(
            hyps.drop_first(),
        ),
        total_text_len(richpp_parts(hyps[0])) >= 0,
        goal_budget_hyps(hyps.drop_first()) >= 0,
        hyps.remove(0) == hyps.drop_first(),
{
    lemma_goal_budget_parts(hyps.drop_first(), Seq::empty(), 0);
    lemma_total_text_len_mono(richpp_parts(hyps[0]), 0);
    assert(hyps.remove(0) =~= hyps.drop_first());
}

/// Budgets are non-negative.
proof fn lemma_goal_budget_parts(hyps: Seq<ProtocolRichPP>, ccl: Seq<ProtocolRichPPPart>, d: int)
    ensures
        goal_budget_hyps(hyps) >= 0,
        total_text_len(ccl) >= 0,
    decreases hyps.len(),
{
    lemma_total_text_len_mono(ccl, 0);
    if hyps.len() > 0 {
        lemma_total_text_len_mono(richpp_parts(hyps[0]), 0);
        lemma_goal_budget_parts(hyps.drop_first(), ccl, d);
    }
}

/// A padded text is at most twice as long as the original texts when the
/// alignment column is 2.
proof fn lemma_padded_len_bound(texts: Seq<Seq<char>>, col: int)
    requires
        col == 2,
    ensures
        spec_padded_message(texts, col).len() <= 2 * total_texts_len(texts),
    decreases texts.len(),
{
    if texts.len() > 0 {
        lemma_padded_len_bound(texts.drop_first(), col);
        lemma_padded_len_one(texts[0], col);
    }
}

/// One padded text is at most twice as long as the text.
proof fn lemma_padded_len_one(text: Seq<char>, col: int)
    requires
        col == 2,
    ensures
        spec_padded(text, col).len() <= 2 * text.len(),
    decreases text.len(),
{
    if text.len() > 0 {
        lemma_padded_len_one(text.drop_first(), col);
    }
}

/// The sum of the lengths of a list of texts.
pub open spec fn total_texts_len(texts: Seq<Seq<char>>) -> int
    decreases texts.len(),
{
    if texts.len() == 0 {
        0int
    } else {
        texts[0].len() + total_texts_len(texts.drop_first())
    }
}

/// Whether every pair of background goal lists is empty.
pub open spec fn bg_all_empty(bg: Seq<(Vec<ProtocolValue>, Vec<ProtocolValue>)>) -> bool {
    forall|i: int|
        0 <= i < bg.len() ==> (#[trigger] bg[i]).0@.len() == 0 && bg[i].1@.len() == 0
}

/// The canned headline of the goal pane: which message opens the pane is
/// decided by which goal lists are populated.
pub open spec fn spec_goals_headline(
    fg_len: int,
    bg_empty: bool,
    sg_len: int,
    gg_len: int,
) -> Seq<char> {
    if fg_len > 0 {
        crate::strutil::spec_u64_dec(fg_len) + " subgoal(s) remaining:\n"@
    } else if !bg_empty {
        "The current subgoal is complete, but there are unfinished subgoals:\n"@
    } else if gg_len > 0 {
        "There are no more subgoals, but there are some given up goals:\n"@
    } else if sg_len > 0 {
        "There are no more subgoals, but some goals remain sheleved:\n"@
    } else {
        "There are no more subgoals.\nProof is complete."@
    }
}

/// The sum of the rendering budgets of a list of goals.
pub open spec fn list_budget(gs: Seq<ProtocolValue>) -> int
    decreases gs.len(),
{
    if gs.len() == 0 {
        0int
    } else {
        goal_budget(gs[0]) + 4 + list_budget(gs.drop_first())
    }
}

/// List budgets are non-negative.
proof fn lemma_list_budget_nonneg(gs: Seq<ProtocolValue>)
    ensures
        list_budget(gs) >= 0,
        gs.len() > 0 ==> goal_budget(gs[0]) >= 0,
    decreases gs.len(),
{
    if gs.len() > 0 {
        lemma_list_budget_nonneg(gs.drop_first());
        match gs[0] {
            ProtocolValue::Goal(_, hyps, ccl) => {
                lemma_goal_budget_parts(hyps@, richpp_parts(ccl), 0);
            },
            _ => {},
        }
    }
}

/// The goal blocks a list of goals contributes to the pane, each on a
/// fresh line, in order; a value that is not a goal record contributes
/// nothing.
pub open spec fn spec_goal_blocks(goals: Seq<ProtocolValue>) -> Seq<char>
    decreases goals.len(),
{
    if goals.len() == 0 {
        Seq::empty()
    } else {
        (match goals[0] {
            ProtocolValue::Goal(n, h, c) => seq!['\n'] + spec_goal_block(
                goal_name_text(*n),
                h@,
                c,
            ),
            _ => Seq::<char>::empty(),
        }) + spec_goal_blocks(goals.drop_first())
    }
}

/// One more goal appends its block.
proof fn lemma_goal_blocks_push(goals: Seq<ProtocolValue>, g: ProtocolValue)
    ensures
        spec_goal_blocks(goals.push(g)) == spec_goal_blocks(goals) + (match g {
            ProtocolValue::Goal(n, h, c) => seq!['\n'] + spec_goal_block(
                goal_name_text(*n),
                h@,
                c,
            ),
            _ => Seq::<char>::empty(),
        }),
    decreases goals.len(),
{
    if goals.len() == 0 {
        assert(goals.push(g)[0] == g);
        assert(goals.push(g).drop_first() =~= Seq::<ProtocolValue>::empty());
        assert(spec_goal_blocks(Seq::<ProtocolValue>::empty()) == Seq::<char>::empty());
        assert(goals =~= Seq::<ProtocolValue>::empty());
        assert(spec_goal_blocks(goals.push(g)) =~= spec_goal_blocks(goals) + (match g {
            ProtocolValue::Goal(n, h, c) => seq!['\n'] + spec_goal_block(
                goal_name_text(*n),
                h@,
                c,
            ),
            _ => Seq::<char>::empty(),
        }));
    } else {
        lemma_goal_blocks_push(goals.drop_first(), g);
        assert(goals.push(g)[0] == goals[0]);
        assert(goals.push(g).drop_first() =~= goals.drop_first().push(g));
        assert(spec_goal_blocks(goals.push(g)) =~= spec_goal_blocks(goals) + (match g {
            ProtocolValue::Goal(n, h, c) => seq!['\n'] + spec_goal_block(
                goal_name_text(*n),
                h@,
                c,
            ),
            _ => Seq::<char>::empty(),
        }));
    }
}

/// One more pair appends both its lists.
proof fn lemma_flatten_bg_push(
    bg: Seq<(Vec<ProtocolValue>, Vec<ProtocolValue>)>,
    p: (Vec<ProtocolValue>, Vec<ProtocolValue>),
)
    ensures
        spec_flatten_bg(bg.push(p)) == spec_flatten_bg(bg) + p.0@ + p.1@,
    decreases bg.len(),
{
    if bg.len() == 0 {
        assert(bg.push(p)[0] == p);
        assert(bg.push(p).drop_first() =~= Seq::<(Vec<ProtocolValue>, Vec<ProtocolValue>)>::empty());
        assert(spec_flatten_bg(
            Seq::<(Vec<ProtocolValue>, Vec<ProtocolValue>)>::empty(),
        ) == Seq::<ProtocolValue>::empty());
        assert(bg =~= Seq::<(Vec<ProtocolValue>, Vec<ProtocolValue>)>::empty());
        assert(spec_flatten_bg(bg.push(p)) =~= spec_flatten_bg(bg) + p.0@ + p.1@);
    } else {
        lemma_flatten_bg_push(bg.drop_first(), p);
        assert(bg.push(p)[0] == bg[0]);
        assert(bg.push(p).drop_first() =~= bg.drop_first().push(p));
        assert(spec_flatten_bg(bg.push(p)) =~= spec_flatten_bg(bg) + p.0@ + p.1@);
    }
}

/// The goals of the background pairs, flattened in order.
pub open spec fn spec_flatten_bg(
    bg: Seq<(Vec<ProtocolValue>, Vec<ProtocolValue>)>,
) -> Seq<ProtocolValue>
    decreases bg.len(),
{
    if bg.len() == 0 {
        Seq::empty()
    } else {
        bg[0].0@ + bg[0].1@ + spec_flatten_bg(bg.drop_first())
    }
}

/// Renders one list of goals starting at the given line, appending each
/// goal's block to the pane.
#[verifier::loop_isolation(false)]
#[verifier::rlimit(100)]
fn render_goal_list(
    goals: Vec<ProtocolValue>,
    message: &mut Vec<char>,
    colors: &mut Vec<String>,
    line: usize,
) -> (r: usize)
    requires
        line + 3 * list_budget(goals@) + 16 <= usize::MAX,
    ensures
        r <= line + list_budget(goals@),
        final(message)@ == old(message)@ + spec_goal_blocks(goals@),
{
    let mut goals = goals;
    let mut cur_line: usize = line;
    let ghost gorig = goals@;
    let ghost used: int = 0;
    let ghost done: int = 0;
    proof {
        lemma_list_budget_nonneg(gorig);
        assert(gorig.take(0) =~= Seq::<ProtocolValue>::empty());
        assert(spec_goal_blocks(Seq::<ProtocolValue>::empty()) == Seq::<char>::empty());
        assert(message@ =~= old(message)@ + spec_goal_blocks(gorig.take(0)));
    }
    while goals.len() > 0
        invariant
            used >= 0,
            used + list_budget(goals@) == list_budget(gorig),
            list_budget(goals@) >= 0,
            cur_line <= line + used,
            line + 3 * list_budget(gorig) + 16 <= usize::MAX,
            0 <= done <= gorig.len(),
            done + goals@.len() == gorig.len(),
            goals@ == gorig.skip(done),
            message@ == old(message)@ + spec_goal_blocks(gorig.take(done)),
        decreases goals@.len(),
    {
        proof {
            lemma_list_budget_nonneg(goals@);
            lemma_list_budget_nonneg(goals@.drop_first());
            assert(goals@.remove(0) =~= goals@.drop_first());
            assert(gorig.skip(done)[0] == gorig[done]);
            assert(gorig.skip(done).remove(0) =~= gorig.skip(done + 1));
            assert(gorig.take(done + 1) =~= gorig.take(done).push(gorig[done]));
            lemma_goal_blocks_push(gorig.take(done), gorig[done]);
        }
        let ghost this_goal = goals@[0];
        let ghost cost = goal_budget(this_goal) + 4;
        let goal = goals.remove(0);
        let is_goal = match &goal {
            ProtocolValue::Goal(..) => true,
            _ => false,
        };
        if is_goal {
            proof {
                match this_goal {
                    ProtocolValue::Goal(_, hyps, ccl) => {
                        lemma_goal_budget_parts(hyps@, richpp_parts(ccl), 0);
                    },
                    _ => {},
                }
            }
            let (txt, mut cols, next_line) = goal_to_string(goal, cur_line);
            message.push('\n');
            push_chars(message, &str_chars(txt.as_str()));
            proof {
                assert(message@ =~= old(message)@ + spec_goal_blocks(gorig.take(done + 1)));
            }
            let mut ci: usize = 0;
            while ci < cols.len()
                invariant
                    ci <= cols@.len(),
                decreases cols@.len() - ci,
            {
                colors.push(cols[ci].clone());
                ci += 1;
            }
            cur_line = next_line + 1;
        } else {
            proof {
                assert(message@ =~= old(message)@ + spec_goal_blocks(gorig.take(done + 1)));
            }
        }
        proof {
            used = used + cost;
            done = done + 1;
        }
    }
    proof {
        assert(gorig.take(done) =~= gorig);
    }
    cur_line
}

/// Appending a goal adds its budget.
proof fn lemma_list_budget_push(gs: Seq<ProtocolValue>, g: ProtocolValue)
    ensures
        list_budget(gs.push(g)) == list_budget(gs) + goal_budget(g) + 4,
    decreases gs.len(),
{
    if gs.len() == 0 {
        assert(gs.push(g)[0] == g);
        assert(gs.push(g).drop_first() =~= Seq::<ProtocolValue>::empty());
        assert(list_budget(Seq::<ProtocolValue>::empty()) == 0);
        assert(gs =~= Seq::<ProtocolValue>::empty());
    } else {
        lemma_list_budget_push(gs.drop_first(), g);
        assert(gs.push(g)[0] == gs[0]);
        assert(gs.push(g).drop_first() =~= gs.drop_first().push(g));
    }
}

/// The total budget of the background pairs.
pub open spec fn bg_budget(bg: Seq<(Vec<ProtocolValue>, Vec<ProtocolValue>)>) -> int
    decreases bg.len(),
{
    if bg.len() == 0 {
        0int
    } else {
        list_budget(bg[0].0@) + list_budget(bg[0].1@) + bg_budget(bg.drop_first())
    }
}

/// Background budgets are non-negative.
proof fn lemma_bg_budget_nonneg(bg: Seq<(Vec<ProtocolValue>, Vec<ProtocolValue>)>)
    ensures
        bg_budget(bg) >= 0,
    decreases bg.len(),
{
    if bg.len() > 0 {
        lemma_bg_budget_nonneg(bg.drop_first());
        lemma_list_budget_nonneg(bg[0].0@);
        lemma_list_budget_nonneg(bg[0].1@);
    }
}

/// Concatenating two goal lists adds their budgets.
proof fn lemma_list_budget_concat(a: Seq<ProtocolValue>, b: Seq<ProtocolValue>)
    ensures
        list_budget(a + b) == list_budget(a) + list_budget(b),
    decreases b.len(),
{
    if b.len() == 0 {
        assert(a + b =~= a);
    } else {
        assert((a + b).drop_last() =~= a + b.drop_last());
        assert(b.drop_last().push(b.last()) =~= b);
        lemma_list_budget_concat(a, b.drop_last());
        lemma_list_budget_push(a + b.drop_last(), b.last());
        lemma_list_budget_push(b.drop_last(), b.last());
        assert((a + b.drop_last()).push(b.last()) =~= a + b);
    }
}

/// Renders the whole goal pane: a canned headline selected by which goal
/// lists are populated, followed by the goal blocks.  Takes focused goals,
/// background pairs, given-up goals and shelved goals, in that order.
#[verifier::loop_isolation(false)]
pub fn render_goals(
    fg: Vec<ProtocolValue>,
    bg: Vec<(Vec<ProtocolValue>, Vec<ProtocolValue>)>,
    gg: Vec<ProtocolValue>,
    sg: Vec<ProtocolValue>,
) -> (r: (String, Vec<String>))
    requires
        fg@.len() < u64::MAX,
        3 + 3 * list_budget(fg@) + 3 * bg_budget(bg@) + 3 * list_budget(gg@) + 3 * list_budget(
            sg@,
        ) + 64 <= usize::MAX,
    ensures
        ({
            let headline = spec_goals_headline(
                fg@.len() as int,
                bg_all_empty(bg@),
                sg@.len() as int,
                gg@.len() as int,
            );
            &&& r.0@.len() >= headline.len() && r.0@.take(headline.len() as int) == headline
            &&& r.0@ == headline + (if fg@.len() > 0 {
                spec_goal_blocks(fg@)
            } else if !bg_all_empty(bg@) {
                spec_goal_blocks(spec_flatten_bg(bg@))
            } else if gg@.len() > 0 {
                spec_goal_blocks(gg@)
            } else if sg@.len() > 0 {
                spec_goal_blocks(sg@)
            } else {
                Seq::<char>::empty()
            })
        }),
{
    let mut message: Vec<char> = Vec::new();
    let mut colors: Vec<String> = Vec::new();
    proof {
        lemma_list_budget_nonneg(fg@);
        lemma_list_budget_nonneg(gg@);
        lemma_list_budget_nonneg(sg@);
        lemma_bg_budget_nonneg(bg@);
    }
    if fg.len() > 0 {
        let count = crate::strutil::u64_dec_chars(fg.len() as u64);
        push_chars(&mut message, &count);
        push_chars(&mut message, &str_chars(" subgoal(s) remaining:\n"));
        let ghost headline = message@;
        let _ = render_goal_list(fg, &mut message, &mut colors, 3);
        proof {
            assert(message@.take(headline.len() as int) =~= headline);
        }
        return (chars_to_string(&message), colors);
    }
    let mut bg_has_content = false;
    let mut bi: usize = 0;
    while bi < bg.len()
        invariant
            bi <= bg@.len(),
            bg_has_content == !(forall|i: int|
                0 <= i < bi ==> (#[trigger] bg@[i]).0@.len() == 0 && bg@[i].1@.len() == 0),
        decreases bg@.len() - bi,
    {
        if bg[bi].0.len() > 0 || bg[bi].1.len() > 0 {
            bg_has_content = true;
        }
        bi += 1;
    }
    if bg_has_content {
        push_chars(
            &mut message,
            &str_chars("The current subgoal is complete, but there are unfinished subgoals:\n"),
        );
        let ghost headline = message@;
        let mut flat: Vec<ProtocolValue> = Vec::new();
        let mut bg = bg;
        let ghost borig = bg@;
        let ghost used: int = 0;
        let ghost pdone: int = 0;
        proof {
            assert(borig.take(0) =~= Seq::<(Vec<ProtocolValue>, Vec<ProtocolValue>)>::empty());
            assert(spec_flatten_bg(
                Seq::<(Vec<ProtocolValue>, Vec<ProtocolValue>)>::empty(),
            ) == Seq::<ProtocolValue>::empty());
            assert(flat@ =~= spec_flatten_bg(borig.take(0)));
            assert(borig.skip(0) =~= borig);
        }
        while bg.len() > 0
            invariant
                used >= 0,
                used + bg_budget(bg@) == bg_budget(borig),
                bg_budget(bg@) >= 0,
                list_budget(flat@) <= used,
                0 <= pdone <= borig.len(),
                pdone + bg@.len() == borig.len(),
                bg@ == borig.skip(pdone),
                flat@ == spec_flatten_bg(borig.take(pdone)),
            decreases bg@.len(),
        {
            proof {
                lemma_bg_budget_nonneg(bg@.drop_first());
                lemma_list_budget_nonneg(bg@[0].0@);
                lemma_list_budget_nonneg(bg@[0].1@);
                assert(bg@.remove(0) =~= bg@.drop_first());
                assert(borig.skip(pdone)[0] == borig[pdone]);
                assert(borig.skip(pdone).remove(0) =~= borig.skip(pdone + 1));
                assert(borig.take(pdone + 1) =~= borig.take(pdone).push(borig[pdone]));
                lemma_flatten_bg_push(borig.take(pdone), borig[pdone]);
            }
            let ghost cost = list_budget(bg@[0].0@) + list_budget(bg@[0].1@);
            let (mut first, mut last) = bg.remove(0);
            let ghost fv = first@;
            let ghost lv = last@;
            let ghost flat0 = flat@;
            let ghost fdone: int = 0;
            while first.len() > 0
                invariant
                    list_budget(flat@) + list_budget(first@) <= list_budget(flat0) + list_budget(
                        fv,
                    ),
                    list_budget(first@) >= 0,
                    0 <= fdone <= fv.len(),
                    fdone + first@.len() == fv.len(),
                    first@ == fv.skip(fdone),
                    flat@ == flat0 + fv.take(fdone),
                decreases first@.len(),
            {
                proof {
                    lemma_list_budget_nonneg(first@);
                    lemma_list_budget_nonneg(first@.drop_first());
                    assert(first@.remove(0) =~= first@.drop_first());
                    lemma_list_budget_push(flat@, first@[0]);
                    assert(fv.skip(fdone)[0] == fv[fdone]);
                    assert(fv.skip(fdone).remove(0) =~= fv.skip(fdone + 1));
                    assert(fv.take(fdone + 1) =~= fv.take(fdone).push(fv[fdone]));
                }
                let g = first.remove(0);
                flat.push(g);
                proof {
                    assert(flat@ =~= flat0 + fv.take(fdone + 1));
                    fdone = fdone + 1;
                }
            }
            proof {
                assert(fv.take(fdone) =~= fv);
                assert(flat@ =~= flat0 + fv);
            }
            let ghost flat1 = flat@;
            let ghost ldone: int = 0;
            while last.len() > 0
                invariant
                    list_budget(flat@) + list_budget(last@) <= list_budget(flat1) + list_budget(
                        lv,
                    ),
                    list_budget(last@) >= 0,
                    0 <= ldone <= lv.len(),
                    ldone + last@.len() == lv.len(),
                    last@ == lv.skip(ldone),
                    flat@ == flat1 + lv.take(ldone),
                decreases last@.len(),
            {
                proof {
                    lemma_list_budget_nonneg(last@);
                    lemma_list_budget_nonneg(last@.drop_first());
                    assert(last@.remove(0) =~= last@.drop_first());
                    lemma_list_budget_push(flat@, last@[0]);
                    assert(lv.skip(ldone)[0] == lv[ldone]);
                    assert(lv.skip(ldone).remove(0) =~= lv.skip(ldone + 1));
                    assert(lv.take(ldone + 1) =~= lv.take(ldone).push(lv[ldone]));
                }
                let g = last.remove(0);
                flat.push(g);
                proof {
                    assert(flat@ =~= flat1 + lv.take(ldone + 1));
                    ldone = ldone + 1;
                }
            }
            proof {
                assert(lv.take(ldone) =~= lv);
                assert(flat@ =~= spec_flatten_bg(borig.take(pdone)) + fv + lv);
                assert(flat@ =~= spec_flatten_bg(borig.take(pdone + 1)));
                used = used + cost;
                pdone = pdone + 1;
            }
        }
        proof {
            assert(borig.take(pdone) =~= borig);
            assert(flat@ == spec_flatten_bg(borig));
        }
        let _ = render_goal_list(flat, &mut message, &mut colors, 3);
        proof {
            assert(message@.take(headline.len() as int) =~= headline);
        }
        return (chars_to_string(&message), colors);
    }
    if gg.len() > 0 {
        push_chars(
            &mut message,
            &str_chars("There are no more subgoals, but there are some given up goals:\n"),
        );
        let ghost headline = message@;
        let _ = render_goal_list(gg, &mut message, &mut colors, 3);
        proof {
            assert(message@.take(headline.len() as int) =~= headline);
        }
        return (chars_to_string(&message), colors);
    }
    if sg.len() > 0 {
        push_chars(
            &mut message,
            &str_chars("There are no more subgoals, but some goals remain sheleved:\n"),
        );
        let ghost headline = message@;
        let _ = render_goal_list(sg, &mut message, &mut colors, 3);
        proof {
            assert(message@.take(headline.len() as int) =~= headline);
        }
        return (chars_to_string(&message), colors);
    }
    push_chars(&mut message, &str_chars("There are no more subgoals.\nProof is complete."));
    proof {
        assert(message@.take(message@.len() as int) =~= message@);
    }
    (chars_to_string(&message), colors)
}

/// The number of newlines in a text.
pub open spec fn spec_newline_count(s: Seq<char>) -> int
    decreases s.len(),
{
    if s.len() == 0 {
        0int
    } else {
        (if s[0] == '\n' {
            1int
        } else {
            0int
        }) + spec_newline_count(s.drop_first())
    }
}

/// The result-pane updater: keeps the 1-based line cursor of the result
/// pane so that appended messages land after what is already shown.
pub struct KakouneUIUpdater {
    /// The current 1-based line of the result pane.
    pub current_buffer_line: usize,
}

impl KakouneUIUpdater {
    /// A fresh updater: the result pane starts at its first line.
    pub fn new() -> (r: Self)
        ensures
            r.current_buffer_line == 1,
    {
        KakouneUIUpdater { current_buffer_line: 1 }
    }

    /// Renders a message for the result pane.  Replacing resets the cursor
    /// to the first line; the rendered lines are followed by a newline and
    /// the cursor advances by the number of newlines written.  Returns the
    /// content to write, its color descriptors, and how many lines were
    /// added.
    #[verifier::loop_isolation(false)]
    pub fn render_result(&mut self, richpp: ProtocolRichPP, append: bool) -> (r: (
        String,
        Vec<String>,
        usize,
    ))
        requires
            old(self).current_buffer_line >= 1,
            old(self).current_buffer_line + 2 * total_text_len(richpp_parts(richpp)) + 2
                <= usize::MAX,
            2 * total_text_len(richpp_parts(richpp)) + 2 <= usize::MAX,
        ensures
            final(self).current_buffer_line >= 1,
            ({
                let msg = spec_padded_message(
                    crate::protocol::parts_texts(richpp_parts(richpp)),
                    1,
                );
                &&& (msg.len() == 0 ==> r.0@.len() == 0)
                &&& (msg.len() > 0 ==> r.0@ == msg.push('\n'))
            }),
            r.2 == spec_newline_count(r.0@),
            final(self).current_buffer_line == (if append {
                old(self).current_buffer_line + r.2
            } else {
                1 + r.2
            }),
            r.1@.len() == spec_annotated(richpp_parts(richpp)).len(),
            forall|i: int|
                0 <= i < r.1@.len() ==> is_color_descriptor(
                    (#[trigger] r.1@[i])@,
                    spec_annotated(richpp_parts(richpp))[i],
                ),
    {
        if !append {
            self.current_buffer_line = 1;
        }
        let ghost texts = crate::protocol::parts_texts(richpp_parts(richpp));
        proof {
            lemma_texts_len_eq(richpp_parts(richpp));
            lemma_padded_len_bound_one(texts);
        }
        let (msg, colors) = extract_colors(richpp, self.current_buffer_line, 1, true);
        let msg_chars = str_chars(msg.as_str());
        if msg_chars.len() == 0 {
            proof {
                assert(spec_newline_count(Seq::<char>::empty()) == 0);
            }
            return (String::new(), colors, 0);
        }
        let mut content = msg_chars;
        content.push('\n');
        let mut added: usize = 0;
        let mut i: usize = 0;
        proof {
            assert(content@.take(0) =~= Seq::<char>::empty());
        }
        while i < content.len()
            invariant
                i <= content@.len(),
                added == spec_newline_count(content@.take(i as int)),
                added <= i,
            decreases content@.len() - i,
        {
            proof {
                lemma_newline_count_step(content@, i as int);
            }
            if content[i] == '\n' {
                added += 1;
            }
            i += 1;
        }
        proof {
            assert(content@.take(content@.len() as int) =~= content@);
            assert(content@.drop_last() =~= msg@);
        }
        self.current_buffer_line = self.current_buffer_line + added;
        (chars_to_string(&content), colors, added)
    }
}

/// One more character adds one to the newline count exactly when it is a
/// newline.
proof fn lemma_newline_count_step(s: Seq<char>, i: int)
    requires
        0 <= i < s.len(),
    ensures
        spec_newline_count(s.take(i + 1)) == spec_newline_count(s.take(i)) + (if s[i] == '\n' {
            1int
        } else {
            0int
        }),
        spec_newline_count(s.take(i)) >= 0,
        spec_newline_count(s.take(i)) <= i,
    decreases i,
{
    if i == 0 {
        assert(s.take(1)[0] == s[0]);
        assert(s.take(1).drop_first() =~= Seq::<char>::empty());
        assert(s.take(0) =~= Seq::<char>::empty());
    } else {
        lemma_newline_count_step(s.drop_first(), i - 1);
        assert(s.take(i + 1)[0] == s[0]);
        assert(s.take(i + 1).drop_first() =~= s.drop_first().take(i));
        assert(s.take(i)[0] == s[0]);
        assert(s.take(i).drop_first() =~= s.drop_first().take(i - 1));
        assert(s.drop_first()[i - 1] == s[i]);
    }
}

/// A padded text at alignment column 1 is at most twice as long as the
/// original texts.
proof fn lemma_padded_len_bound_one(texts: Seq<Seq<char>>)
    ensures
        spec_padded_message(texts, 1).len() <= 2 * total_texts_len(texts),
    decreases texts.len(),
{
    if texts.len() > 0 {
        lemma_padded_len_bound_one(texts.drop_first());
        lemma_padded_len_one_col1(texts[0]);
    }
}

/// One padded text at column 1 is at most twice as long as the text.
proof fn lemma_padded_len_one_col1(text: Seq<char>)
    ensures
        spec_padded(text, 1).len() <= 2 * text.len(),
    decreases text.len(),
{
    if text.len() > 0 {
        lemma_padded_len_one_col1(text.drop_first());
    }
}

/// The texts of the parts sum to the parts' total text length.
proof fn lemma_texts_len_eq(parts: Seq<ProtocolRichPPPart>)
    ensures
        total_texts_len(crate::protocol::parts_texts(parts)) == total_text_len(parts),
    decreases parts.len(),
{
    if parts.len() > 0 {
        lemma_texts_len_eq(parts.drop_first());
        let ts = crate::protocol::parts_texts(parts);
        let ts2 = crate::protocol::parts_texts(parts.drop_first());
        assert(ts.drop_first() =~= ts2) by {
            assert forall|m: int| 0 <= m < ts2.len() implies ts.drop_first()[m] == ts2[m] by {
                assert(ts[m + 1] == part_text(parts[m + 1]));
                assert(ts2[m] == part_text(parts.drop_first()[m]));
            }
        }
    } else {
        assert(crate::protocol::parts_texts(parts) =~= Seq::<Seq<char>>::empty());
    }
}

/// The longest line is no longer than the text itself.
proof fn lemma_lines_max_bound(s: Seq<char>, cur: int, best: int)
    requires
        0 <= cur,
        0 <= best,
    ensures
        spec_lines_max(s, cur, best) <= s.len() + vstd::math::max(cur, best),
        spec_lines_max(s, cur, best) >= 0,
    decreases s.len(),
{
    if s.len() > 0 {
        if s[0] == '\n' {
            lemma_lines_max_bound(s.drop_first(), 0, vstd::math::max(cur, best));
        } else {
            lemma_lines_max_bound(s.drop_first(), cur + 1, best);
        }
    }
}

/// The total length of the texts of a part list.
pub open spec fn total_text_len(parts: Seq<ProtocolRichPPPart>) -> int
    decreases parts.len(),
{
    if parts.len() == 0 {
        0int
    } else {
        part_text(parts[0]).len() + total_text_len(parts.drop_first())
    }
}

/// Prefix text lengths are bounded by the whole.
proof fn lemma_total_text_len_mono(parts: Seq<ProtocolRichPPPart>, i: int)
    requires
        0 <= i <= parts.len(),
    ensures
        total_text_len(parts.take(i)) <= total_text_len(parts),
        total_text_len(parts.take(i)) >= 0,
        total_text_len(parts) >= 0,
    decreases parts.len(),
{
    if parts.len() == 0 {
        assert(parts.take(i) =~= parts);
    } else if i == 0 {
        assert(parts.take(0) =~= Seq::<ProtocolRichPPPart>::empty());
        lemma_total_text_len_mono(parts.drop_first(), 0);
    } else {
        assert(parts.take(i)[0] == parts[0]);
        assert(parts.take(i).drop_first() =~= parts.drop_first().take(i - 1));
        lemma_total_text_len_mono(parts.drop_first(), i - 1);
    }
}

/// One more part adds its text length.
proof fn lemma_total_text_len_step(parts: Seq<ProtocolRichPPPart>, i: int)
    requires
        0 <= i < parts.len(),
    ensures
        total_text_len(parts.take(i + 1)) == total_text_len(parts.take(i)) + part_text(
            parts[i],
        ).len(),
    decreases i,
{
    if i == 0 {
        assert(parts.take(1)[0] == parts[0]);
        assert(parts.take(1).drop_first() =~= Seq::<ProtocolRichPPPart>::empty());
        assert(parts.take(0) =~= Seq::<ProtocolRichPPPart>::empty());
    } else {
        lemma_total_text_len_step(parts.drop_first(), i - 1);
        assert(parts.take(i + 1)[0] == parts[0]);
        assert(parts.take(i + 1).drop_first() =~= parts.drop_first().take(i));
        assert(parts.take(i)[0] == parts[0]);
        assert(parts.take(i).drop_first() =~= parts.drop_first().take(i - 1));
        assert(parts.drop_first()[i - 1] == parts[i]);
    }
}

/// One more part extends the message by its padded text and the
/// annotated list by the part when it carries an annotation.
proof fn lemma_parts_step(parts: Seq<ProtocolRichPPPart>, i: int, starting_column: int)
    requires
        0 <= i < parts.len(),
    ensures
        spec_padded_message(crate::protocol::parts_texts(parts).take(i + 1), starting_column)
            == spec_padded_message(crate::protocol::parts_texts(parts).take(i), starting_column)
            + spec_padded(part_text(parts[i]), starting_column),
        spec_annotated(parts.take(i + 1)) == spec_annotated(parts.take(i)) + (match parts[i] {
            ProtocolRichPPPart::Raw(_) => Seq::<ProtocolRichPPPart>::empty(),
            p => seq![p],
        }),
    decreases i,
{
    let ts = crate::protocol::parts_texts(parts);
    if i == 0 {
        assert(ts.take(1)[0] == ts[0]);
        assert(ts.take(1).drop_first() =~= Seq::<Seq<char>>::empty());
        assert(ts.take(0) =~= Seq::<Seq<char>>::empty());
        assert(spec_padded_message(ts.take(1), starting_column) =~= spec_padded_message(
            ts.take(0),
            starting_column,
        ) + spec_padded(part_text(parts[0]), starting_column));
        assert(parts.take(1)[0] == parts[0]);
        assert(parts.take(1).drop_first() =~= Seq::<ProtocolRichPPPart>::empty());
        assert(parts.take(0) =~= Seq::<ProtocolRichPPPart>::empty());
        assert(spec_annotated(Seq::<ProtocolRichPPPart>::empty()) == Seq::<
            ProtocolRichPPPart,
        >::empty());
        assert(spec_annotated(parts.take(1)) =~= spec_annotated(parts.take(0)) + (match parts[0] {
            ProtocolRichPPPart::Raw(_) => Seq::<ProtocolRichPPPart>::empty(),
            p => seq![p],
        }));
    } else {
        lemma_parts_step(parts.drop_first(), i - 1, starting_column);
        let ts2 = crate::protocol::parts_texts(parts.drop_first());
        assert(ts.take(i + 1)[0] == ts[0]);
        assert(ts.take(i + 1).drop_first() =~= ts2.take(i)) by {
            assert forall|m: int| 0 <= m < i implies ts.take(i + 1).drop_first()[m] == ts2.take(
                i,
            )[m] by {
                assert(ts[m + 1] == part_text(parts[m + 1]));
                assert(ts2[m] == part_text(parts.drop_first()[m]));
            }
        }
        assert(ts.take(i)[0] == ts[0]);
        assert(ts.take(i).drop_first() =~= ts2.take(i - 1)) by {
            assert forall|m: int| 0 <= m < i - 1 implies ts.take(i).drop_first()[m] == ts2.take(
                i - 1,
            )[m] by {
                assert(ts[m + 1] == part_text(parts[m + 1]));
                assert(ts2[m] == part_text(parts.drop_first()[m]));
            }
        }
        assert(ts2[i - 1] == part_text(parts[i]));
        assert(spec_padded_message(ts.take(i + 1), starting_column) =~= spec_padded_message(
            ts.take(i),
            starting_column,
        ) + spec_padded(part_text(parts[i]), starting_column));
        assert(parts.take(i + 1)[0] == parts[0]);
        assert(parts.take(i + 1).drop_first() =~= parts.drop_first().take(i));
        assert(parts.take(i)[0] == parts[0]);
        assert(parts.take(i).drop_first() =~= parts.drop_first().take(i - 1));
        assert(parts.drop_first()[i - 1] == parts[i]);
        assert(spec_annotated(parts.take(i + 1)) =~= spec_annotated(parts.take(i)) + (
        match parts[i] {
            ProtocolRichPPPart::Raw(_) => Seq::<ProtocolRichPPPart>::empty(),
            p => seq![p],
        }));
    }
}

} // verus!
