//! The message parser: splits a raw message into header block and body,
//! folds continuation lines, and decodes the block into an ordered sequence
//! of recognized headers.

use vstd::prelude::*;

use crate::chars::find_char;
use crate::chars::find_from;
use crate::chars::lemma_find_from_bounds;
use crate::chars::lemma_views_push;
use crate::chars::slice_chars;
use crate::chars::str_to_chars;
use crate::chars::views;
use crate::header::first_with_kind;
use crate::header::hviews;
use crate::header::lemma_hviews_push;
use crate::header::spec_parse_line;
use crate::header::Header;
use crate::header::HeaderKind;
use crate::header::HeaderView;

verus! {

/// Index of the first occurrence of the two-character pattern `a b` in `s` at
/// or after `i`, or `-1` if there is none.
pub open spec fn find2_from(s: Seq<char>, a: char, b: char, i: int) -> int
    decreases s.len() - i,
{
    if i < 0 || i + 1 >= s.len() {
        -1
    } else if s[i] == a && s[i + 1] == b {
        i
    } else {
        find2_from(s, a, b, i + 1)
    }
}

pub proof fn lemma_find2_from_bounds(s: Seq<char>, a: char, b: char, i: int)
    requires
        0 <= i,
    ensures
        find2_from(s, a, b, i) == -1 || (i <= find2_from(s, a, b, i) && find2_from(s, a, b, i) + 1
            < s.len() && s[find2_from(s, a, b, i)] == a && s[find2_from(s, a, b, i) + 1] == b),
    decreases s.len() - i,
{
    if i + 1 < s.len() && !(s[i] == a && s[i + 1] == b) {
        lemma_find2_from_bounds(s, a, b, i + 1);
    }
}

/// Split a message at the first blank-line boundary into header block and
/// body; a message with no blank line has an empty block and an empty body.
pub open spec fn spec_split_message(m: Seq<char>) -> (Seq<char>, Seq<char>) {
    let k = find2_from(m, '\n', '\n', 0);
    if k < 0 {
        (Seq::<char>::empty(), Seq::<char>::empty())
    } else {
        (m.take(k), m.skip(k + 2))
    }
}

/// First index at or after `start` where the pattern `a b` occurs.
pub fn find_pair(v: &Vec<char>, a: char, b: char, start: usize) -> (r: Option<usize>)
    requires
        start <= v@.len(),
    ensures
        r matches Some(j) ==> find2_from(v@, a, b, start as int) == j as int,
        r is None ==> find2_from(v@, a, b, start as int) == -1,
{
    let mut i = start;
    while i < v.len() && i + 1 < v.len()
        invariant
            start <= i,
            i <= v@.len(),
            find2_from(v@, a, b, start as int) == find2_from(v@, a, b, i as int),
        decreases v@.len() - i,
    {
        if v[i] == a && v[i + 1] == b {
            return Some(i);
        }
        i = i + 1;
    }
    None
}

/// Split a raw message into its header block and its body.
pub fn split_message(m: &Vec<char>) -> (r: (Vec<char>, Vec<char>))
    ensures
        r.0@ == spec_split_message(m@).0,
        r.1@ == spec_split_message(m@).1,
{
    match find_pair(m, '\n', '\n', 0) {
        Some(k) => {
            let n = m.len();
            proof {
                lemma_find2_from_bounds(m@, '\n', '\n', 0);
                assert(k + 2 <= n);
            }
            let block = slice_chars(m, 0, k);
            let body = slice_chars(m, k + 2, n);
            proof {
                assert(m@.subrange(0, k as int) =~= m@.take(k as int));
                assert(m@.subrange(k + 2, m@.len() as int) =~= m@.skip(k + 2));
            }
            (block, body)
        },
        None => (Vec::new(), Vec::new()),
    }
}

/// The pieces of `s` from `i` on, split on the character `c`.
pub open spec fn spec_split_from(s: Seq<char>, c: char, i: int) -> Seq<Seq<char>>
    decreases s.len() - i + 1
        when 0 <= i <= s.len()
        via spec_split_from_decreases
{
    let j = find_from(s, c, i);
    if j >= s.len() {
        seq![s.subrange(i, s.len() as int)]
    } else {
        seq![s.subrange(i, j)] + spec_split_from(s, c, j + 1)
    }
}

#[via_fn]
proof fn spec_split_from_decreases(s: Seq<char>, c: char, i: int) {
    lemma_find_from_bounds(s, c, i);
}

/// Every piece of a split is no longer than the string it came from.
pub proof fn lemma_split_pieces_len(s: Seq<char>, c: char, i: int)
    requires
        0 <= i <= s.len(),
    ensures
        forall|j: int|
            0 <= j < spec_split_from(s, c, i).len() ==> (#[trigger] spec_split_from(s, c, i)[j]).len()
                <= s.len(),
    decreases s.len() - i,
{
    lemma_find_from_bounds(s, c, i);
    let j = find_from(s, c, i);
    let ps = spec_split_from(s, c, i);
    if j < s.len() {
        lemma_split_pieces_len(s, c, j + 1);
        let rest = spec_split_from(s, c, j + 1);
        assert(ps == seq![s.subrange(i, j)] + rest);
        assert forall|m: int| 0 <= m < ps.len() implies (#[trigger] ps[m]).len() <= s.len() by {
            if m > 0 {
                assert(ps[m] == rest[m - 1]);
            }
        }
    } else {
        assert(ps == seq![s.subrange(i, s.len() as int)]);
    }
}

/// Append the pieces of `v` from `i` on, split on `c`, to `out`.
fn push_split_from(v: &Vec<char>, c: char, i: usize, out: &mut Vec<Vec<char>>)
    requires
        i <= v@.len(),
    ensures
        views(final(out)@) == views(old(out)@) + spec_split_from(v@, c, i as int),
    decreases v@.len() - i,
{
    let j = find_char(v, c, i);
    proof {
        lemma_find_from_bounds(v@, c, i as int);
    }
    let piece = slice_chars(v, i, j);
    let ghost out0 = out@;
    out.push(piece);
    proof {
        lemma_views_push(out0, piece);
    }
    if j < v.len() {
        push_split_from(v, c, j + 1, out);
        proof {
            assert(views(out@) =~= views(old(out)@) + spec_split_from(v@, c, i as int));
        }
    } else {
        proof {
            assert(views(out@) =~= views(old(out)@) + spec_split_from(v@, c, i as int));
        }
    }
}

/// The pieces of `v` split on the character `c`.
pub fn split_on(v: &Vec<char>, c: char) -> (r: Vec<Vec<char>>)
    ensures
        views(r@) == spec_split_from(v@, c, 0),
{
    let mut out: Vec<Vec<char>> = Vec::new();
    push_split_from(v, c, 0, &mut out);
    proof {
        assert(views(Seq::<Vec<char>>::empty()) + spec_split_from(v@, c, 0) =~= spec_split_from(
            v@,
            c,
            0,
        ));
    }
    out
}

/// The physical lines of `v`: its pieces split on newline.
pub fn split_lines(v: &Vec<char>) -> (r: Vec<Vec<char>>)
    ensures
        views(r@) == spec_split_from(v@, '\n', 0),
{
    split_on(v, '\n')
}

/// A physical line that continues the previous logical header line.
pub open spec fn spec_is_continuation(line: Seq<char>) -> bool {
    line.len() > 0 && (line[0] == ' ' || line[0] == '\t')
}

/// The logical header lines of the physical lines from `i` on, with `cur`
/// accumulated so far: continuation lines are concatenated onto the
/// accumulator, any other line flushes a non-empty accumulator and starts
/// anew, and a final non-empty accumulator is flushed.
pub open spec fn spec_logical_lines(lines: Seq<Seq<char>>, i: int, cur: Seq<char>) -> Seq<
    Seq<char>,
>
    decreases lines.len() - i,
{
    if i < 0 || i >= lines.len() {
        if cur.len() == 0 {
            Seq::<Seq<char>>::empty()
        } else {
            seq![cur]
        }
    } else if spec_is_continuation(lines[i]) {
        spec_logical_lines(lines, i + 1, cur + lines[i])
    } else if cur.len() == 0 {
        spec_logical_lines(lines, i + 1, lines[i])
    } else {
        seq![cur] + spec_logical_lines(lines, i + 1, lines[i])
    }
}

/// Whether this physical line begins with whitespace.
fn is_continuation(line: &Vec<char>) -> (r: bool)
    ensures
        r == spec_is_continuation(line@),
{
    line.len() > 0 && (line[0] == ' ' || line[0] == '\t')
}

/// Append the logical lines of `lines[i..]`, with accumulator `cur`, to `out`.
fn push_logical_lines(lines: &Vec<Vec<char>>, i: usize, cur: Vec<char>, out: &mut Vec<Vec<char>>)
    requires
        i <= lines@.len(),
    ensures
        views(final(out)@) == views(old(out)@) + spec_logical_lines(
            views(lines@),
            i as int,
            cur@,
        ),
    decreases lines@.len() - i,
{
    if i == lines.len() {
        if cur.len() > 0 {
            let ghost out0 = out@;
            let ghost curv = cur@;
            out.push(cur);
            proof {
                lemma_views_push(out0, out@[out@.len() - 1]);
                assert(views(out@) =~= views(old(out)@) + seq![curv]);
            }
        } else {
            proof {
                assert(views(out@) =~= views(old(out)@) + Seq::<Seq<char>>::empty());
            }
        }
    } else {
        let line = &lines[i];
        if is_continuation(line) {
            let mut cur2 = cur;
            crate::chars::append_chars(&mut cur2, line);
            push_logical_lines(lines, i + 1, cur2, out);
        } else if cur.len() == 0 {
            let line2 = slice_chars(line, 0, line.len());
            proof {
                assert(line2@ =~= line@);
                assert(cur@ =~= Seq::<char>::empty());
            }
            push_logical_lines(lines, i + 1, line2, out);
        } else {
            let ghost out0 = out@;
            let ghost curv = cur@;
            out.push(cur);
            proof {
                lemma_views_push(out0, out@[out@.len() - 1]);
            }
            let line2 = slice_chars(line, 0, line.len());
            proof {
                assert(line2@ =~= line@);
            }
            push_logical_lines(lines, i + 1, line2, out);
            proof {
                assert(views(out@) =~= views(old(out)@) + (seq![curv] + spec_logical_lines(
                    views(lines@),
                    i + 1,
                    line@,
                )));
            }
        }
    }
}

/// The headers parsed from the logical lines from `i` on; unrecognized lines
/// are dropped.
pub open spec fn spec_parse_lines(lls: Seq<Seq<char>>, i: int) -> Seq<HeaderView>
    decreases lls.len() - i,
{
    if i < 0 || i >= lls.len() {
        Seq::<HeaderView>::empty()
    } else {
        match spec_parse_line(lls[i]) {
            Some(h) => seq![h] + spec_parse_lines(lls, i + 1),
            None => spec_parse_lines(lls, i + 1),
        }
    }
}

/// Append the headers parsed from the logical lines `lls[i..]` to `out`.
fn push_parsed(lls: &Vec<Vec<char>>, i: usize, out: &mut Vec<Header>)
    requires
        i <= lls@.len(),
    ensures
        hviews(final(out)@) == hviews(old(out)@) + spec_parse_lines(views(lls@), i as int),
    decreases lls@.len() - i,
{
    if i < lls.len() {
        let ghost out0 = out@;
        match Header::parse_chars(&lls[i]) {
            Some(h) => {
                let ghost hv = h@;
                out.push(h);
                proof {
                    lemma_hviews_push(out0, out@[out@.len() - 1]);
                }
                push_parsed(lls, i + 1, out);
                proof {
                    assert(hviews(out@) =~= hviews(old(out)@) + (seq![hv] + spec_parse_lines(
                        views(lls@),
                        i + 1,
                    )));
                }
            },
            None => {
                push_parsed(lls, i + 1, out);
            },
        }
    } else {
        proof {
            assert(hviews(out@) =~= hviews(old(out)@) + Seq::<HeaderView>::empty());
        }
    }
}

/// The ordered headers decoded from a header block: physical lines split on
/// newline, folded into logical lines, each parsed, unrecognized ones dropped.
pub open spec fn spec_from_block(block: Seq<char>) -> Seq<HeaderView> {
    spec_parse_lines(
        spec_logical_lines(spec_split_from(block, '\n', 0), 0, Seq::<char>::empty()),
        0,
    )
}

/// The headers of a whole raw message: its header block, decoded.
pub open spec fn spec_headers_of(m: Seq<char>) -> Seq<HeaderView> {
    spec_from_block(spec_split_message(m).0)
}

impl Header {
    /// Decode a header block, held as characters, into its ordered headers.
    pub fn from_block_chars(block: &Vec<char>) -> (r: Vec<Header>)
        ensures
            hviews(r@) == spec_from_block(block@),
    {
        let lines = split_lines(block);
        let lls_in: Vec<Vec<char>> = lines;
        let mut lls: Vec<Vec<char>> = Vec::new();
        push_logical_lines(&lls_in, 0, Vec::new(), &mut lls);
        proof {
            assert(views(Seq::<Vec<char>>::empty()) + spec_logical_lines(
                views(lls_in@),
                0,
                Seq::<char>::empty(),
            ) =~= spec_logical_lines(views(lls_in@), 0, Seq::<char>::empty()));
        }
        let mut out: Vec<Header> = Vec::new();
        push_parsed(&lls, 0, &mut out);
        proof {
            assert(hviews(Seq::<Header>::empty()) + spec_parse_lines(views(lls@), 0)
                =~= spec_parse_lines(views(lls@), 0));
        }
        out
    }

    /// Decode a header block into its ordered headers, duplicates retained.
    pub fn from_block(block: &str) -> (r: Vec<Header>)
        ensures
            hviews(r@) == spec_from_block(block@),
    {
        Header::from_block_chars(&str_to_chars(block))
    }
}

/// The payload of the first header of kind `k` in `hs`, if any.
pub fn find_kind(hs: &Vec<Header>, k: HeaderKind) -> (r: Option<String>)
    ensures
        r matches Some(s) ==> first_with_kind(hviews(hs@), k, 0) == Some(s@),
        r is None ==> first_with_kind(hviews(hs@), k, 0) is None,
{
    let mut i: usize = 0;
    while i < hs.len()
        invariant
            i <= hs@.len(),
            first_with_kind(hviews(hs@), k, 0) == first_with_kind(hviews(hs@), k, i as int),
        decreases hs@.len() - i,
    {
        let h = &hs[i];
        if h.kind() == k {
            let p = h.payload();
            proof {
                assert(hviews(hs@)[i as int] == hs@[i as int]@);
            }
            return Some(p);
        }
        proof {
            assert(hviews(hs@)[i as int] == hs@[i as int]@);
        }
        i = i + 1;
    }
    None
}

/// Extract the first To header's payload from a raw message, if any.
pub fn extract_to(message: &str) -> (r: Option<String>)
    ensures
        r matches Some(s) ==> first_with_kind(spec_headers_of(message@), HeaderKind::To, 0) == Some(
            s@,
        ),
        r is None ==> first_with_kind(spec_headers_of(message@), HeaderKind::To, 0) is None,
{
    let m = str_to_chars(message);
    let (block, _body) = split_message(&m);
    let headers = Header::from_block_chars(&block);
    find_kind(&headers, HeaderKind::To)
}

} // verus!
