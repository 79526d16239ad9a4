//! The text wrapper: fills generated free text to a 72-column width,
//! line by line, preserving simple list-item indentation.

use vstd::prelude::*;

use crate::chars::append_chars;
use crate::chars::chars_to_string;
use crate::chars::has_prefix;
use crate::chars::is_wsp;
use crate::chars::lemma_trim_start_at;
use crate::chars::slice_chars;
use crate::chars::spec_trim_start;
use crate::chars::starts_with;
use crate::chars::str_to_chars;
use crate::chars::views;
use crate::chars::wsp;
use crate::parse::spec_split_from;
use crate::parse::split_on;

verus! {

/// The first index at or after `i` holding a non-whitespace character, or
/// `s.len()` if there is none.
pub open spec fn skip_wsp(s: Seq<char>, i: int) -> int
    decreases s.len() - i,
{
    if i < 0 || i >= s.len() {
        s.len() as int
    } else if is_wsp(s[i]) {
        skip_wsp(s, i + 1)
    } else {
        i
    }
}

/// The first index at or after `i` holding whitespace, or `s.len()`.
pub open spec fn end_word(s: Seq<char>, i: int) -> int
    decreases s.len() - i,
{
    if i < 0 || i >= s.len() {
        s.len() as int
    } else if !is_wsp(s[i]) {
        end_word(s, i + 1)
    } else {
        i
    }
}

pub proof fn lemma_skip_wsp_bounds(s: Seq<char>, i: int)
    requires
        0 <= i <= s.len(),
    ensures
        i <= skip_wsp(s, i) <= s.len(),
        skip_wsp(s, i) < s.len() ==> !is_wsp(s[skip_wsp(s, i)]),
        forall|j: int| i <= j < skip_wsp(s, i) ==> is_wsp(s[j]),
    decreases s.len() - i,
{
    if i < s.len() && is_wsp(s[i]) {
        lemma_skip_wsp_bounds(s, i + 1);
    }
}

pub proof fn lemma_end_word_bounds(s: Seq<char>, i: int)
    requires
        0 <= i <= s.len(),
    ensures
        i <= end_word(s, i) <= s.len(),
        end_word(s, i) < s.len() ==> is_wsp(s[end_word(s, i)]),
    decreases s.len() - i,
{
    if i < s.len() && !is_wsp(s[i]) {
        lemma_end_word_bounds(s, i + 1);
    }
}

/// The whitespace-delimited words of `s` from `i` on.
pub open spec fn spec_words_from(s: Seq<char>, i: int) -> Seq<Seq<char>>
    decreases s.len() - i + 1
        when 0 <= i <= s.len()
        via spec_words_from_decreases
{
    let j = skip_wsp(s, i);
    if j >= s.len() {
        Seq::<Seq<char>>::empty()
    } else {
        seq![s.subrange(j, end_word(s, j))] + spec_words_from(s, end_word(s, j))
    }
}

#[via_fn]
proof fn spec_words_from_decreases(s: Seq<char>, i: int) {
    lemma_skip_wsp_bounds(s, i);
    if skip_wsp(s, i) < s.len() {
        lemma_end_word_bounds(s, skip_wsp(s, i));
    }
}

/// `n` spaces.
pub open spec fn spec_spaces(n: int) -> Seq<char>
    decreases n,
{
    if n <= 0 {
        Seq::<char>::empty()
    } else {
        spec_spaces(n - 1).push(' ')
    }
}

/// Greedily pack the words from `idx` on onto the output: when adding the
/// next word would exceed 72 columns measured from the last line break,
/// break and indent by `indent` spaces; each word is followed by a single
/// space, and the line ends with a newline.
pub open spec fn spec_fill_words(
    ws: Seq<Seq<char>>,
    idx: int,
    wrapped: Seq<char>,
    offset: int,
    indent: int,
) -> Seq<char>
    decreases ws.len() - idx,
{
    if idx < 0 || idx >= ws.len() {
        wrapped.push('\n')
    } else {
        let w = ws[idx];
        if wrapped.len() + w.len() - offset > 72 {
            let w1 = wrapped.push('\n');
            spec_fill_words(
                ws,
                idx + 1,
                w1 + spec_spaces(indent) + w + seq![' '],
                w1.len() as int,
                indent,
            )
        } else {
            spec_fill_words(ws, idx + 1, wrapped + w + seq![' '], offset, indent)
        }
    }
}

/// The wrap indentation of a line: its natural leading-whitespace width,
/// plus two columns when the line is a bullet item introduced by "* ".
pub open spec fn spec_line_indent(line: Seq<char>) -> int {
    let lead = line.len() - spec_trim_start(line).len();
    if starts_with(spec_trim_start(line), "* "@) {
        lead + 2
    } else {
        lead
    }
}

/// One input line filled to 72 columns.
pub open spec fn spec_wrap_line(line: Seq<char>) -> Seq<char> {
    spec_fill_words(spec_words_from(line, 0), 0, Seq::<char>::empty(), 0, spec_line_indent(line))
}

/// The lines of a text: pieces split on newline, a trailing empty piece
/// dropped.
pub open spec fn spec_text_lines(t: Seq<char>) -> Seq<Seq<char>> {
    let ps = spec_split_from(t, '\n', 0);
    if ps.len() > 0 && ps[ps.len() - 1].len() == 0 {
        ps.drop_last()
    } else {
        ps
    }
}

/// The wrapped lines from `i` on, concatenated.
pub open spec fn spec_wrap_lines(ls: Seq<Seq<char>>, i: int) -> Seq<char>
    decreases ls.len() - i,
{
    if i < 0 || i >= ls.len() {
        Seq::<char>::empty()
    } else {
        spec_wrap_line(ls[i]) + spec_wrap_lines(ls, i + 1)
    }
}

/// A whole generated answer, wrapped line by line.
pub open spec fn spec_wrap_answer(t: Seq<char>) -> Seq<char> {
    spec_wrap_lines(spec_text_lines(t), 0)
}

/// First non-whitespace index at or after `start`.
fn skip_wsp_chars(v: &Vec<char>, start: usize) -> (r: usize)
    requires
        start <= v@.len(),
    ensures
        r as int == skip_wsp(v@, start as int),
{
    let mut i = start;
    while i < v.len() && wsp(v[i])
        invariant
            start <= i <= v@.len(),
            skip_wsp(v@, start as int) == skip_wsp(v@, i as int),
        decreases v@.len() - i,
    {
        i = i + 1;
    }
    i
}

/// First whitespace index at or after `start`.
fn end_word_chars(v: &Vec<char>, start: usize) -> (r: usize)
    requires
        start <= v@.len(),
    ensures
        r as int == end_word(v@, start as int),
{
    let mut i = start;
    while i < v.len() && !wsp(v[i])
        invariant
            start <= i <= v@.len(),
            end_word(v@, start as int) == end_word(v@, i as int),
        decreases v@.len() - i,
    {
        i = i + 1;
    }
    i
}

/// Append the words of `v[i..]` to `out`.
fn push_words_from(v: &Vec<char>, i: usize, out: &mut Vec<Vec<char>>)
    requires
        i <= v@.len(),
    ensures
        views(final(out)@) == views(old(out)@) + spec_words_from(v@, i as int),
    decreases v@.len() - i,
{
    let j = skip_wsp_chars(v, i);
    proof {
        lemma_skip_wsp_bounds(v@, i as int);
    }
    if j < v.len() {
        let k = end_word_chars(v, j);
        proof {
            lemma_end_word_bounds(v@, j as int);
        }
        let word = slice_chars(v, j, k);
        let ghost out0 = out@;
        out.push(word);
        proof {
            crate::chars::lemma_views_push(out0, out@[out@.len() - 1]);
        }
        push_words_from(v, k, out);
        proof {
            assert(views(out@) =~= views(old(out)@) + spec_words_from(v@, i as int));
        }
    } else {
        proof {
            assert(views(out@) =~= views(old(out)@) + spec_words_from(v@, i as int));
        }
    }
}

/// `n` spaces, as characters.
fn spaces(n: usize) -> (r: Vec<char>)
    ensures
        r@ == spec_spaces(n as int),
{
    let mut out: Vec<char> = Vec::new();
    let mut i: usize = 0;
    while i < n
        invariant
            i <= n,
            out@ == spec_spaces(i as int),
        decreases n - i,
    {
        out.push(' ');
        i = i + 1;
    }
    out
}

/// The wrap indentation of a line.
fn line_indent(line: &Vec<char>) -> (r: usize)
    requires
        line@.len() + 2 <= usize::MAX,
    ensures
        r as int == spec_line_indent(line@),
{
    let lead = skip_wsp_chars(line, 0);
    proof {
        lemma_skip_wsp_bounds(line@, 0);
        lemma_trim_start_at(line@, lead as int);
    }
    let trimmed = slice_chars(line, lead, line.len());
    proof {
        assert(trimmed@ =~= line@.skip(lead as int));
    }
    if has_prefix(&trimmed, "* ") {
        lead + 2
    } else {
        lead
    }
}

/// Fill one line's characters to 72 columns.
pub fn wrap_line_chars(line: &Vec<char>) -> (r: Vec<char>)
    requires
        line@.len() + 2 <= usize::MAX,
    ensures
        r@ == spec_wrap_line(line@),
{
    let indent = line_indent(line);
    let mut ws: Vec<Vec<char>> = Vec::new();
    push_words_from(line, 0, &mut ws);
    proof {
        assert(views(Seq::<Vec<char>>::empty()) + spec_words_from(line@, 0) =~= spec_words_from(
            line@,
            0,
        ));
    }
    let pad = spaces(indent);
    let mut wrapped: Vec<char> = Vec::new();
    let mut offset: usize = 0;
    let mut idx: usize = 0;
    while idx < ws.len()
        invariant
            idx <= ws@.len(),
            offset <= wrapped@.len(),
            pad@ == spec_spaces(indent as int),
            spec_fill_words(views(ws@), idx as int, wrapped@, offset as int, indent as int)
                == spec_fill_words(views(ws@), 0, Seq::<char>::empty(), 0, indent as int),
        decreases ws@.len() - idx,
    {
        proof {
            assert(views(ws@)[idx as int] == ws@[idx as int]@);
        }
        let ghost ws_v = views(ws@);
        let ghost wr0 = wrapped@;
        let ghost off0 = offset as int;
        let w = &ws[idx];
        let col = wrapped.len() - offset;
        let brk = if col > 72 {
            true
        } else {
            w.len() > 72 - col
        };
        proof {
            assert(brk == (wr0.len() + w@.len() - off0 > 72));
        }
        if brk {
            wrapped.push('\n');
            offset = wrapped.len();
            append_chars(&mut wrapped, &pad);
        }
        append_chars(&mut wrapped, w);
        wrapped.push(' ');
        proof {
            if brk {
                let w1 = wr0.push('\n');
                assert(wrapped@ =~= w1 + spec_spaces(indent as int) + ws_v[idx as int] + seq![' ']);
                assert(offset as int == w1.len() as int);
            } else {
                assert(wrapped@ =~= wr0 + ws_v[idx as int] + seq![' ']);
            }
        }
        idx = idx + 1;
    }
    wrapped.push('\n');
    wrapped
}

/// Fill one line of generated text to 72 columns, breaking between words and
/// indenting continuation lines by the line's wrap indentation.
pub fn wrap_line(line: &str) -> (r: String)
    requires
        line@.len() + 2 <= usize::MAX,
    ensures
        r@ == spec_wrap_line(line@),
{
    chars_to_string(&wrap_line_chars(&str_to_chars(line)))
}

/// Wrap a whole generated answer line by line; every input line produces at
/// least one newline-terminated output line.
pub fn wrap_answer(answer: &str) -> (r: String)
    requires
        answer@.len() + 2 <= usize::MAX,
    ensures
        r@ == spec_wrap_answer(answer@),
{
    let t = str_to_chars(answer);
    let mut ls = split_on(&t, '\n');
    proof {
        crate::parse::lemma_split_pieces_len(t@, '\n', 0);
        assert(forall|j: int|
            0 <= j < ls@.len() ==> (#[trigger] ls@[j])@ == views(ls@)[j]);
    }
    if ls.len() > 0 && ls[ls.len() - 1].len() == 0 {
        let ghost ls0 = ls@;
        let _ = ls.pop();
        proof {
            assert(views(ls@) =~= views(ls0).drop_last());
        }
    }
    let mut out: Vec<char> = Vec::new();
    let mut i: usize = 0;
    while i < ls.len()
        invariant
            i <= ls@.len(),
            forall|j: int| 0 <= j < ls@.len() ==> (#[trigger] ls@[j])@.len() + 2 <= usize::MAX,
            out@ + spec_wrap_lines(views(ls@), i as int) == spec_wrap_lines(views(ls@), 0),
        decreases ls@.len() - i,
    {
        proof {
            assert(views(ls@)[i as int] == ls@[i as int]@);
        }
        let wl = wrap_line_chars(&ls[i]);
        append_chars(&mut out, &wl);
        i = i + 1;
    }
    proof {
        assert(out@ + Seq::<char>::empty() =~= out@);
        assert(views(ls@) == spec_text_lines(answer@));
    }
    chars_to_string(&out)
}

proof fn lemma_spaces_len(n: int)
    ensures
        spec_spaces(n).len() == (if n <= 0 {
            0int
        } else {
            n
        }),
    decreases n,
{
    if n > 0 {
        lemma_spaces_len(n - 1);
    }
}

/// The output of the fill extends what was already wrapped.
proof fn lemma_fill_words_prefix(
    ws: Seq<Seq<char>>,
    idx: int,
    wrapped: Seq<char>,
    offset: int,
    indent: int,
)
    ensures
        spec_fill_words(ws, idx, wrapped, offset, indent).len() >= wrapped.len(),
        forall|i: int|
            0 <= i < wrapped.len() ==> spec_fill_words(ws, idx, wrapped, offset, indent)[i]
                == wrapped[i],
    decreases ws.len() - idx,
{
    let out = spec_fill_words(ws, idx, wrapped, offset, indent);
    if 0 <= idx && idx < ws.len() {
        let w = ws[idx];
        if wrapped.len() + w.len() - offset > 72 {
            let w1 = wrapped.push('\n');
            let nw = w1 + spec_spaces(indent) + w + seq![' '];
            lemma_fill_words_prefix(ws, idx + 1, nw, w1.len() as int, indent);
            assert(out == spec_fill_words(ws, idx + 1, nw, w1.len() as int, indent));
            assert forall|i: int| 0 <= i < wrapped.len() implies out[i] == wrapped[i] by {
                assert(out[i] == nw[i]);
                assert(nw[i] == w1[i]);
            }
        } else {
            let nw = wrapped + w + seq![' '];
            lemma_fill_words_prefix(ws, idx + 1, nw, offset, indent);
            assert(out == spec_fill_words(ws, idx + 1, nw, offset, indent));
            assert forall|i: int| 0 <= i < wrapped.len() implies out[i] == wrapped[i] by {
                assert(out[i] == nw[i]);
                assert(nw[i] == (wrapped + w)[i]);
            }
        }
    } else {
        assert(out == wrapped.push('\n'));
    }
}

/// A word longer than 72 columns is emitted on a line of its own: a break
/// and the indent come before it, and a break follows its trailing space.
proof fn lemma_fill_words_long_word(
    ws: Seq<Seq<char>>,
    p: int,
    idx: int,
    wrapped: Seq<char>,
    offset: int,
    indent: int,
)
    requires
        0 <= idx <= p < ws.len(),
        0 <= offset <= wrapped.len(),
        indent >= 0,
        ws[p].len() > 72,
    ensures
        ({
            let out = spec_fill_words(ws, idx, wrapped, offset, indent);
            let pat = seq!['\n'] + spec_spaces(indent) + ws[p] + seq![' ', '\n'];
            exists|j: int|
                0 <= j && j + pat.len() <= out.len() && #[trigger] out.subrange(
                    j,
                    j + pat.len() as int,
                ) == pat
        }),
    decreases p - idx,
{
    lemma_spaces_len(indent);
    let out = spec_fill_words(ws, idx, wrapped, offset, indent);
    let pat = seq!['\n'] + spec_spaces(indent) + ws[p] + seq![' ', '\n'];
    let w = ws[idx];
    if idx < p {
        if wrapped.len() + w.len() - offset > 72 {
            let w1 = wrapped.push('\n');
            lemma_fill_words_long_word(
                ws,
                p,
                idx + 1,
                w1 + spec_spaces(indent) + w + seq![' '],
                w1.len() as int,
                indent,
            );
        } else {
            lemma_fill_words_long_word(ws, p, idx + 1, wrapped + w + seq![' '], offset, indent);
        }
    } else {
        let w1 = wrapped.push('\n');
        let after = w1 + spec_spaces(indent) + w + seq![' '];
        let j = wrapped.len() as int;
        assert(wrapped.len() + w.len() - offset > 72);
        assert(out == spec_fill_words(ws, p + 1, after, w1.len() as int, indent));
        if p == ws.len() - 1 {
            assert(spec_fill_words(ws, p + 1, after, w1.len() as int, indent) == after.push('\n'));
            assert(after.push('\n') =~= wrapped + pat);
            assert(out.subrange(j, j + pat.len() as int) =~= pat);
        } else {
            let w2 = ws[p + 1];
            assert(after.len() + w2.len() - (w1.len() as int) > 72);
            let after1 = after.push('\n');
            let after2 = after1 + spec_spaces(indent) + w2 + seq![' '];
            assert(spec_fill_words(ws, p + 1, after, w1.len() as int, indent) == spec_fill_words(
                ws,
                p + 2,
                after2,
                after1.len() as int,
                indent,
            ));
            lemma_fill_words_prefix(ws, p + 2, after2, after1.len() as int, indent);
            assert(after1 =~= wrapped + pat);
            assert(forall|i: int| 0 <= i < after1.len() ==> after2[i] == after1[i]);
            assert(out.len() >= after2.len());
            assert forall|m: int| 0 <= m < pat.len() implies out[j + m] == pat[m] by {
                assert(j + m < after1.len());
                assert(out[j + m] == after2[j + m]);
                assert(after2[j + m] == after1[j + m]);
                assert(after1[j + m] == (wrapped + pat)[j + m]);
            }
            assert(out.subrange(j, j + pat.len() as int) =~= pat);
        }
    }
}

/// A word longer than 72 columns anywhere in a line is emitted on an output
/// line of its own, unbroken and never truncated: a break and the line's
/// indent precede it, and a break follows its trailing space.
pub proof fn lemma_wrap_line_long_word(line: Seq<char>, p: int)
    requires
        0 <= p < spec_words_from(line, 0).len(),
        spec_words_from(line, 0)[p].len() > 72,
    ensures
        ({
            let out = spec_wrap_line(line);
            let pat = seq!['\n'] + spec_spaces(spec_line_indent(line)) + spec_words_from(line, 0)[p]
                + seq![' ', '\n'];
            exists|j: int|
                0 <= j && j + pat.len() <= out.len() && #[trigger] out.subrange(
                    j,
                    j + pat.len() as int,
                ) == pat
        }),
{
    crate::chars::lemma_trim_start_len(line);
    let ws = spec_words_from(line, 0);
    let ind = spec_line_indent(line);
    lemma_fill_words_long_word(ws, p, 0, Seq::<char>::empty(), 0, ind);
    let fill = spec_fill_words(ws, 0, Seq::<char>::empty(), 0, ind);
    let pat = seq!['\n'] + spec_spaces(ind) + ws[p] + seq![' ', '\n'];
    let j = choose|j: int|
        0 <= j && j + pat.len() <= fill.len() && #[trigger] fill.subrange(j, j + pat.len() as int)
            == pat;
    assert(spec_wrap_line(line) == fill);
    assert(spec_wrap_line(line).subrange(j, j + pat.len() as int) == pat);
}

/// A single word longer than 72 columns is emitted on a line of its own,
/// unbroken and never truncated.
pub proof fn lemma_wrap_single_long_word(w: Seq<char>)
    requires
        w.len() > 72,
        forall|j: int| 0 <= j < w.len() ==> !is_wsp(w[j]),
    ensures
        spec_wrap_line(w) == seq!['\n'] + w + seq![' ', '\n'],
{
    reveal_strlit("* ");
    lemma_end_word_all(w, 0);
    assert(skip_wsp(w, 0) == 0);
    assert(w.subrange(0, w.len() as int) =~= w);
    assert(spec_words_from(w, w.len() as int) =~= Seq::<Seq<char>>::empty());
    let ws = spec_words_from(w, 0);
    assert(ws =~= seq![w]);
    assert(spec_trim_start(w) == w);
    assert(!starts_with(w, "* "@)) by {
        if starts_with(w, "* "@) {
            assert(w.take(2)[1] == w[1]);
            assert(w[1] == ' ');
        }
    }
    assert(spec_line_indent(w) == 0);
    let w1 = Seq::<char>::empty().push('\n');
    let next = w1 + spec_spaces(0) + w + seq![' '];
    assert(spec_fill_words(ws, 0, Seq::<char>::empty(), 0, 0) == spec_fill_words(
        ws,
        1,
        next,
        w1.len() as int,
        0,
    ));
    assert(spec_fill_words(ws, 1, next, w1.len() as int, 0) == next.push('\n'));
    assert(next.push('\n') =~= seq!['\n'] + w + seq![' ', '\n']);
}

proof fn lemma_end_word_all(s: Seq<char>, i: int)
    requires
        0 <= i <= s.len(),
        forall|j: int| i <= j < s.len() ==> !is_wsp(s[j]),
    ensures
        end_word(s, i) == s.len(),
    decreases s.len() - i,
{
    if i < s.len() {
        lemma_end_word_all(s, i + 1);
    }
}

} // verus!
