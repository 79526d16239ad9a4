//! The reply composer: given a sender identity, a parsed message, a date line
//! and a fresh message id, produces the fully formed, correctly threaded
//! reply message.

use vstd::prelude::*;
use vstd::string::StrSliceExecFns;
use vstd::string::StringExecFns;

use crate::chars::append_chars;
use crate::chars::append_str;
use crate::chars::chars_to_string;
use crate::chars::eq_chars;
use crate::chars::has_prefix;
use crate::chars::lemma_trim_len;
use crate::chars::lemma_views_push;
use crate::chars::slice_chars;
use crate::chars::spec_trim;
use crate::chars::starts_with;
use crate::chars::str_to_chars;
use crate::chars::trim_chars;
use crate::chars::views;
use crate::header::first_index_of_kind;
use crate::header::first_with_kind;
use crate::header::hviews;
use crate::header::lemma_hviews_push;
use crate::header::spec_kind;
use crate::header::spec_payload;
use crate::header::spec_render;
use crate::header::Header;
use crate::header::HeaderKind;
use crate::header::HeaderView;
use crate::parse::find2_from;
use crate::parse::find_kind;
use crate::parse::find_pair;
use crate::parse::lemma_find2_from_bounds;
use crate::parse::spec_headers_of;
use crate::parse::spec_split_from;
use crate::parse::spec_split_message;
use crate::parse::split_lines;
use crate::parse::split_message;

verus! {

/// Why a reply could not be composed: a reply cannot be threaded without the
/// original Date and From headers.
#[derive(Clone, Copy, Debug, PartialEq, Eq, Structural)]
pub enum ComposeError {
    MissingDate,
    MissingFrom,
}

impl ComposeError {
    /// The diagnostic line for this error.
    pub fn describe(&self) -> (r: String)
        ensures
            *self is MissingDate ==> r@ == "missing Date header"@,
            *self is MissingFrom ==> r@ == "missing From header"@,
    {
        match self {
            ComposeError::MissingDate => String::from_str("missing Date header"),
            ComposeError::MissingFrom => String::from_str("missing From header"),
        }
    }
}

/// Every Date header's payload replaced by the new date line.
pub open spec fn spec_rewrite_dates(hs: Seq<HeaderView>, date: Seq<char>) -> Seq<HeaderView> {
    hs.map_values(
        |h: HeaderView|
            match h {
                HeaderView::Date(_) => HeaderView::Date(date),
                _ => h,
            },
    )
}

/// Every To header converted into a Cc header, payload unchanged.
pub open spec fn spec_to_into_cc(hs: Seq<HeaderView>) -> Seq<HeaderView> {
    hs.map_values(
        |h: HeaderView|
            match h {
                HeaderView::To(x) => HeaderView::Cc(x),
                _ => h,
            },
    )
}

/// The payloads of the Cc headers from `i` on, in order.
pub open spec fn spec_cc_payloads(hs: Seq<HeaderView>, i: int) -> Seq<Seq<char>>
    decreases hs.len() - i,
{
    if i < 0 || i >= hs.len() {
        Seq::<Seq<char>>::empty()
    } else if hs[i] is Cc {
        seq![spec_payload(hs[i])] + spec_cc_payloads(hs, i + 1)
    } else {
        spec_cc_payloads(hs, i + 1)
    }
}

/// The headers from `i` on with every header of kind `k` removed.
pub open spec fn spec_drop_kind(hs: Seq<HeaderView>, k: HeaderKind, i: int) -> Seq<HeaderView>
    decreases hs.len() - i,
{
    if i < 0 || i >= hs.len() {
        Seq::<HeaderView>::empty()
    } else if spec_kind(hs[i]) == k {
        spec_drop_kind(hs, k, i + 1)
    } else {
        seq![hs[i]] + spec_drop_kind(hs, k, i + 1)
    }
}

/// The pieces from `i` on, joined by `sep`.
pub open spec fn spec_join(pieces: Seq<Seq<char>>, sep: Seq<char>, i: int) -> Seq<char>
    decreases pieces.len() - i,
{
    if i < 0 || i >= pieces.len() {
        Seq::<char>::empty()
    } else if i == pieces.len() - 1 {
        pieces[i]
    } else {
        pieces[i] + sep + spec_join(pieces, sep, i + 1)
    }
}

/// The pieces of `s` from `i` on, split on the two-character pattern `a b`.
pub open spec fn spec_split_pat2(s: Seq<char>, a: char, b: char, i: int) -> Seq<Seq<char>>
    decreases s.len() - i + 1
        when 0 <= i <= s.len()
        via spec_split_pat2_decreases
{
    let j = find2_from(s, a, b, i);
    if j < 0 || j < i {
        seq![s.subrange(i, s.len() as int)]
    } else {
        seq![s.subrange(i, j)] + spec_split_pat2(s, a, b, j + 2)
    }
}

#[via_fn]
proof fn spec_split_pat2_decreases(s: Seq<char>, a: char, b: char, i: int) {
    lemma_find2_from_bounds(s, a, b, i);
}

/// The pieces from `i` on that differ from `x`.
pub open spec fn spec_drop_eq(pieces: Seq<Seq<char>>, x: Seq<char>, i: int) -> Seq<Seq<char>>
    decreases pieces.len() - i,
{
    if i < 0 || i >= pieces.len() {
        Seq::<Seq<char>>::empty()
    } else if pieces[i] == x {
        spec_drop_eq(pieces, x, i + 1)
    } else {
        seq![pieces[i]] + spec_drop_eq(pieces, x, i + 1)
    }
}

/// The index of the last space strictly before `i`, or `-1` if there is none.
pub open spec fn rfind_space(s: Seq<char>, i: int) -> int
    decreases i,
{
    if i <= 0 || i > s.len() {
        -1
    } else if s[i - 1] == ' ' {
        i - 1
    } else {
        rfind_space(s, i - 1)
    }
}

pub proof fn lemma_rfind_space_bounds(s: Seq<char>, i: int)
    requires
        i <= s.len(),
    ensures
        rfind_space(s, i) == -1 || (0 <= rfind_space(s, i) < i && s[rfind_space(s, i)] == ' '),
    decreases i,
{
    if i > 0 && s[i - 1] != ' ' {
        lemma_rfind_space_bounds(s, i - 1);
    }
}

/// One pass of header-line wrapping: while more than 70 characters remain,
/// break at the last space within the first 70, emit the trimmed piece
/// (continuation lines indented by one space), and go on with the trimmed
/// remainder; an unbreakable remainder is emitted whole.
pub open spec fn spec_wrap_header_loop(s: Seq<char>, wrapped: Seq<char>) -> Seq<char>
    decreases s.len()
        via spec_wrap_header_loop_decreases
{
    if s.len() <= 70 {
        if s.len() == 0 {
            wrapped
        } else {
            wrapped + s
        }
    } else {
        let f = rfind_space(s, 70);
        let sa = if f >= 0 {
            f
        } else {
            s.len() as int
        };
        let this_line = spec_trim(s.take(sa));
        let w2 = if wrapped.len() == 0 {
            this_line
        } else {
            wrapped + "\n "@ + this_line
        };
        spec_wrap_header_loop(spec_trim(s.skip(sa)), w2)
    }
}

#[via_fn]
proof fn spec_wrap_header_loop_decreases(s: Seq<char>, wrapped: Seq<char>) {
    if s.len() > 70 {
        lemma_rfind_space_bounds(s, 70);
        let f = rfind_space(s, 70);
        let sa = if f >= 0 {
            f
        } else {
            s.len() as int
        };
        lemma_trim_len(s.skip(sa));
        if f == 0 {
            assert(s.skip(0) =~= s);
            assert(crate::chars::is_wsp(s.skip(0)[0]));
        }
    }
}

/// A long header payload wrapped over continuation lines.
pub open spec fn spec_wrap_header(s: Seq<char>) -> Seq<char> {
    spec_wrap_header_loop(s, Seq::<char>::empty())
}

/// The index of the last space of `v` strictly before `i`, if any.
fn rfind_space_chars(v: &Vec<char>, i: usize) -> (r: Option<usize>)
    requires
        i <= v@.len(),
    ensures
        r matches Some(j) ==> rfind_space(v@, i as int) == j as int,
        r is None ==> rfind_space(v@, i as int) == -1,
{
    let mut k = i;
    while k > 0
        invariant
            k <= i <= v@.len(),
            rfind_space(v@, i as int) == rfind_space(v@, k as int),
        decreases k,
    {
        if v[k - 1] == ' ' {
            return Some(k - 1);
        }
        k = k - 1;
    }
    None
}

/// Wrap a long header payload over continuation lines, held as characters.
pub fn wrap_header_chars(s: &Vec<char>) -> (r: Vec<char>)
    ensures
        r@ == spec_wrap_header(s@),
{
    let mut cur = slice_chars(s, 0, s.len());
    proof {
        assert(cur@ =~= s@);
    }
    let mut wrapped: Vec<char> = Vec::new();
    while cur.len() > 70
        invariant
            spec_wrap_header_loop(cur@, wrapped@) == spec_wrap_header(s@),
        decreases cur@.len(),
    {
        let ghost scur = cur@;
        let ghost w0 = wrapped@;
        let f = rfind_space_chars(&cur, 70);
        let split_at: usize = match f {
            Some(j) => j,
            None => cur.len(),
        };
        proof {
            lemma_rfind_space_bounds(scur, 70);
        }
        let this_line = trim_chars(&slice_chars(&cur, 0, split_at));
        proof {
            assert(scur.subrange(0, split_at as int) =~= scur.take(split_at as int));
        }
        if wrapped.len() == 0 {
            wrapped = this_line;
        } else {
            append_str(&mut wrapped, "\n ");
            append_chars(&mut wrapped, &this_line);
        }
        let rest = trim_chars(&slice_chars(&cur, split_at, cur.len()));
        proof {
            assert(scur.subrange(split_at as int, scur.len() as int) =~= scur.skip(
                split_at as int,
            ));
            lemma_trim_len(scur.skip(split_at as int));
            if split_at == 0 {
                assert(scur.skip(0) =~= scur);
                assert(crate::chars::is_wsp(scur.skip(0)[0]));
            }
            assert(wrapped@ == (if w0.len() == 0 {
                spec_trim(scur.take(split_at as int))
            } else {
                w0 + "\n "@ + spec_trim(scur.take(split_at as int))
            }));
            assert(spec_wrap_header_loop(rest@, wrapped@) == spec_wrap_header(s@));
        }
        cur = rest;
    }
    if cur.len() > 0 {
        append_chars(&mut wrapped, &cur);
    }
    wrapped
}

/// Wrap a long header payload (such as a coalesced Cc list) over
/// continuation lines indented by a single space.
pub fn wrap_header(s: &str) -> (r: String)
    ensures
        r@ == spec_wrap_header(s@),
{
    chars_to_string(&wrap_header_chars(&str_to_chars(s)))
}

/// A subject prefixed by "Re: " exactly once.
pub open spec fn spec_re_subject(subj: Seq<char>) -> Seq<char> {
    if starts_with(subj, "Re: "@) {
        subj
    } else {
        "Re: "@ + subj
    }
}

/// A composed subject always carries the "Re: " prefix.
pub proof fn lemma_re_subject_prefixed(subj: Seq<char>)
    ensures
        starts_with(spec_re_subject(subj), "Re: "@),
{
    reveal_strlit("Re: ");
    if !starts_with(subj, "Re: "@) {
        assert(("Re: "@ + subj).take("Re: "@.len() as int) =~= "Re: "@);
    }
}

/// Prefixing a subject with "Re: " is idempotent: composing a reply to a
/// reply never yields "Re: Re: ".
pub proof fn lemma_re_subject_idempotent(subj: Seq<char>)
    ensures
        spec_re_subject(spec_re_subject(subj)) == spec_re_subject(subj),
{
    lemma_re_subject_prefixed(subj);
}

/// The first Subject header's payload prefixed by "Re: " exactly once, or a
/// bare "Re: " subject appended when none exists.
pub open spec fn spec_subject_step(hs: Seq<HeaderView>) -> Seq<HeaderView> {
    let i = first_index_of_kind(hs, HeaderKind::Subject, 0);
    if i < hs.len() {
        hs.update(i, HeaderView::Subject(spec_re_subject(spec_payload(hs[i]))))
    } else {
        hs.push(HeaderView::Subject("Re: "@))
    }
}

/// The index of the first header of kind `k`, or `hs.len()` if none.
fn first_kind_index(hs: &Vec<Header>, k: HeaderKind) -> (r: usize)
    ensures
        r as int == first_index_of_kind(hviews(hs@), k, 0),
{
    let mut i: usize = 0;
    while i < hs.len()
        invariant
            i <= hs@.len(),
            first_index_of_kind(hviews(hs@), k, 0) == first_index_of_kind(hviews(hs@), k, i as int),
        decreases hs@.len() - i,
    {
        proof {
            assert(hviews(hs@)[i as int] == hs@[i as int]@);
        }
        if hs[i].kind() == k {
            return i;
        }
        i = i + 1;
    }
    i
}

/// Copy of `hs` with its first Subject prefixed by "Re: " exactly once, or
/// with a bare "Re: " subject appended when none exists.
fn subject_step(hs: &Vec<Header>) -> (r: Vec<Header>)
    ensures
        hviews(r@) == spec_subject_step(hviews(hs@)),
{
    let idx = first_kind_index(hs, HeaderKind::Subject);
    let mut out: Vec<Header> = Vec::new();
    if idx < hs.len() {
        let mut i: usize = 0;
        while i < hs.len()
            invariant
                i <= hs@.len(),
                idx < hs@.len(),
                idx as int == first_index_of_kind(hviews(hs@), HeaderKind::Subject, 0),
                out@.len() == i,
                forall|j: int|
                    0 <= j < i ==> out@[j]@ == spec_subject_step(hviews(hs@))[j],
            decreases hs@.len() - i,
        {
            proof {
                assert(hviews(hs@)[i as int] == hs@[i as int]@);
            }
            if i == idx {
                let p = str_to_chars(hs[i].payload().as_str());
                if has_prefix(&p, "Re: ") {
                    out.push(Header::Subject(chars_to_string(&p)));
                } else {
                    let mut q = str_to_chars("Re: ");
                    append_chars(&mut q, &p);
                    out.push(Header::Subject(chars_to_string(&q)));
                }
            } else {
                out.push(hs[i].duplicate());
            }
            i = i + 1;
        }
        proof {
            assert(hviews(out@) =~= spec_subject_step(hviews(hs@)));
        }
    } else {
        let mut i: usize = 0;
        while i < hs.len()
            invariant
                i <= hs@.len(),
                out@.len() == i,
                forall|j: int| 0 <= j < i ==> out@[j]@ == hviews(hs@)[j],
            decreases hs@.len() - i,
        {
            proof {
                assert(hviews(hs@)[i as int] == hs@[i as int]@);
            }
            out.push(hs[i].duplicate());
            i = i + 1;
        }
        out.push(Header::Subject(String::from_str("Re: ")));
        proof {
            assert(hviews(out@) =~= spec_subject_step(hviews(hs@)));
        }
    }
    out
}

/// The headers of `hs` from `i` on whose sort key (the index of the first
/// header of the same kind in `orig`, or `orig.len()` if none) equals `k`.
pub open spec fn spec_with_key(hs: Seq<HeaderView>, orig: Seq<HeaderView>, k: int, i: int) -> Seq<
    HeaderView,
>
    decreases hs.len() - i,
{
    if i < 0 || i >= hs.len() {
        Seq::<HeaderView>::empty()
    } else if first_index_of_kind(orig, spec_kind(hs[i]), 0) == k {
        seq![hs[i]] + spec_with_key(hs, orig, k, i + 1)
    } else {
        spec_with_key(hs, orig, k, i + 1)
    }
}

/// The headers of `hs` stably bucketed by ascending sort key from `k` on.
pub open spec fn spec_sort_buckets(hs: Seq<HeaderView>, orig: Seq<HeaderView>, k: int) -> Seq<
    HeaderView,
>
    decreases orig.len() + 1 - k,
{
    if k < 0 || k > orig.len() {
        Seq::<HeaderView>::empty()
    } else {
        spec_with_key(hs, orig, k, 0) + spec_sort_buckets(hs, orig, k + 1)
    }
}

/// The headers re-sorted into the relative order implied by `orig`: each
/// header's key is the index of the first original header of its kind,
/// headers of a kind not in `orig` sort last, and the sort is stable.
pub open spec fn spec_sort_headers(hs: Seq<HeaderView>, orig: Seq<HeaderView>) -> Seq<HeaderView> {
    spec_sort_buckets(hs, orig, 0)
}

/// Append the headers of `hs` whose sort key against `orig` equals `k`.
fn push_bucket(hs: &Vec<Header>, orig: &Vec<Header>, k: usize, out: &mut Vec<Header>)
    ensures
        hviews(final(out)@) == hviews(old(out)@) + spec_with_key(
            hviews(hs@),
            hviews(orig@),
            k as int,
            0,
        ),
{
    let mut i: usize = 0;
    while i < hs.len()
        invariant
            i <= hs@.len(),
            hviews(out@) + spec_with_key(hviews(hs@), hviews(orig@), k as int, i as int) == hviews(
                old(out)@,
            ) + spec_with_key(hviews(hs@), hviews(orig@), k as int, 0),
        decreases hs@.len() - i,
    {
        proof {
            assert(hviews(hs@)[i as int] == hs@[i as int]@);
        }
        let kd = hs[i].kind();
        let key = first_kind_index(orig, kd);
        if key == k {
            let ghost out0 = out@;
            out.push(hs[i].duplicate());
            proof {
                lemma_hviews_push(out0, out@[out@.len() - 1]);
                assert(hviews(out@) + spec_with_key(hviews(hs@), hviews(orig@), k as int, i + 1)
                    =~= hviews(out0) + (seq![hviews(hs@)[i as int]] + spec_with_key(
                    hviews(hs@),
                    hviews(orig@),
                    k as int,
                    i + 1,
                )));
            }
        }
        i = i + 1;
    }
    proof {
        assert(hviews(out@) + Seq::<HeaderView>::empty() =~= hviews(out@));
    }
}

/// The headers re-sorted into the relative order implied by `orig`.
pub fn sort_headers(hs: &Vec<Header>, orig: &Vec<Header>) -> (r: Vec<Header>)
    ensures
        hviews(r@) == spec_sort_headers(hviews(hs@), hviews(orig@)),
{
    let mut out: Vec<Header> = Vec::new();
    let mut k: usize = 0;
    while k < orig.len()
        invariant
            k <= orig@.len(),
            hviews(out@) + spec_sort_buckets(hviews(hs@), hviews(orig@), k as int)
                == spec_sort_buckets(hviews(hs@), hviews(orig@), 0),
        decreases orig@.len() - k,
    {
        push_bucket(hs, orig, k, &mut out);
        k = k + 1;
    }
    let ghost before = hviews(out@);
    push_bucket(hs, orig, orig.len(), &mut out);
    proof {
        let hv = hviews(hs@);
        let ov = hviews(orig@);
        let n = ov.len() as int;
        assert(spec_sort_buckets(hv, ov, n + 1) =~= Seq::<HeaderView>::empty());
        assert(spec_with_key(hv, ov, n, 0) + spec_sort_buckets(hv, ov, n + 1) =~= spec_with_key(
            hv,
            ov,
            n,
            0,
        ));
        assert(spec_sort_buckets(hv, ov, n) == spec_with_key(hv, ov, n, 0));
        assert(hviews(out@) == before + spec_with_key(hv, ov, n, 0));
        assert(hviews(out@) == spec_sort_buckets(hv, ov, 0));
    }
    out
}

/// The rendered lines of a sequence of headers.
pub open spec fn spec_rendered(hs: Seq<HeaderView>) -> Seq<Seq<char>> {
    hs.map_values(|h: HeaderView| spec_render(h))
}

/// The rendered lines of the headers, in order.
fn render_all(hs: &Vec<Header>) -> (r: Vec<Vec<char>>)
    ensures
        views(r@) == spec_rendered(hviews(hs@)),
{
    let mut out: Vec<Vec<char>> = Vec::new();
    let mut i: usize = 0;
    while i < hs.len()
        invariant
            i <= hs@.len(),
            out@.len() == i,
            forall|j: int| 0 <= j < i ==> out@[j]@ == spec_rendered(hviews(hs@))[j],
        decreases hs@.len() - i,
    {
        proof {
            assert(hviews(hs@)[i as int] == hs@[i as int]@);
        }
        out.push(hs[i].render_chars());
        i = i + 1;
    }
    proof {
        assert(views(out@) =~= spec_rendered(hviews(hs@)));
    }
    out
}

/// Each body line prefixed by the quote marker.
pub open spec fn spec_quote_pieces(ps: Seq<Seq<char>>) -> Seq<Seq<char>> {
    ps.map_values(|l: Seq<char>| "> "@ + l)
}

/// The quoted body of the reply: an attribution line, then every original
/// body line prefixed by the quote marker.
pub open spec fn spec_quoted_body(d: Seq<char>, f: Seq<char>, b: Seq<char>) -> Seq<char> {
    "On "@ + d + ", "@ + f + " wrote:\n"@ + spec_join(
        spec_quote_pieces(spec_split_from(b, '\n', 0)),
        "\n"@,
        0,
    )
}

/// The quoted body of the reply, built from the original date, sender and
/// body.
fn quoted_body(d: &Vec<char>, f: &Vec<char>, b: &Vec<char>) -> (r: Vec<char>)
    ensures
        r@ == spec_quoted_body(d@, f@, b@),
{
    let mut out: Vec<char> = Vec::new();
    append_str(&mut out, "On ");
    append_chars(&mut out, d);
    append_str(&mut out, ", ");
    append_chars(&mut out, f);
    append_str(&mut out, " wrote:\n");
    let pieces = split_lines(b);
    let mut quoted: Vec<Vec<char>> = Vec::new();
    let mut i: usize = 0;
    while i < pieces.len()
        invariant
            i <= pieces@.len(),
            quoted@.len() == i,
            forall|j: int|
                0 <= j < i ==> quoted@[j]@ == spec_quote_pieces(views(pieces@))[j],
        decreases pieces@.len() - i,
    {
        proof {
            assert(views(pieces@)[i as int] == pieces@[i as int]@);
        }
        let mut q = str_to_chars("> ");
        append_chars(&mut q, &pieces[i]);
        quoted.push(q);
        i = i + 1;
    }
    proof {
        assert(views(quoted@) =~= spec_quote_pieces(views(pieces@)));
    }
    let joined = join_pieces(&quoted, "\n");
    append_chars(&mut out, &joined);
    proof {
        assert(out@ =~= spec_quoted_body(d@, f@, b@));
    }
    out
}

/// Copy of `hs` with every Date payload replaced by `date`.
pub fn rewrite_dates(hs: &Vec<Header>, date: &Vec<char>) -> (r: Vec<Header>)
    ensures
        hviews(r@) == spec_rewrite_dates(hviews(hs@), date@),
{
    let mut out: Vec<Header> = Vec::new();
    let mut i: usize = 0;
    while i < hs.len()
        invariant
            i <= hs@.len(),
            out@.len() == i,
            forall|j: int| 0 <= j < i ==> out@[j]@ == spec_rewrite_dates(hviews(hs@), date@)[j],
        decreases hs@.len() - i,
    {
        let h = &hs[i];
        proof {
            assert(hviews(hs@)[i as int] == hs@[i as int]@);
        }
        match h {
            Header::Date(_) => out.push(Header::Date(chars_to_string(date))),
            _ => out.push(h.duplicate()),
        }
        i = i + 1;
    }
    proof {
        assert(hviews(out@) =~= spec_rewrite_dates(hviews(hs@), date@));
    }
    out
}

/// Copy of `hs` with every To header turned into a Cc header.
pub fn to_into_cc(hs: &Vec<Header>) -> (r: Vec<Header>)
    ensures
        hviews(r@) == spec_to_into_cc(hviews(hs@)),
{
    let mut out: Vec<Header> = Vec::new();
    let mut i: usize = 0;
    while i < hs.len()
        invariant
            i <= hs@.len(),
            out@.len() == i,
            forall|j: int| 0 <= j < i ==> out@[j]@ == spec_to_into_cc(hviews(hs@))[j],
        decreases hs@.len() - i,
    {
        let h = &hs[i];
        proof {
            assert(hviews(hs@)[i as int] == hs@[i as int]@);
        }
        match h {
            Header::To(x) => out.push(Header::Cc(x.clone())),
            _ => out.push(h.duplicate()),
        }
        i = i + 1;
    }
    proof {
        assert(hviews(out@) =~= spec_to_into_cc(hviews(hs@)));
    }
    out
}

/// The payloads of the Cc headers of `hs`, in order.
pub fn collect_cc(hs: &Vec<Header>) -> (r: Vec<Vec<char>>)
    ensures
        views(r@) == spec_cc_payloads(hviews(hs@), 0),
{
    let mut out: Vec<Vec<char>> = Vec::new();
    let mut i: usize = 0;
    while i < hs.len()
        invariant
            i <= hs@.len(),
            views(out@) + spec_cc_payloads(hviews(hs@), i as int) == spec_cc_payloads(
                hviews(hs@),
                0,
            ),
        decreases hs@.len() - i,
    {
        let h = &hs[i];
        proof {
            assert(hviews(hs@)[i as int] == hs@[i as int]@);
        }
        match h {
            Header::Cc(x) => {
                let p = str_to_chars(x.as_str());
                let ghost out0 = out@;
                out.push(p);
                proof {
                    lemma_views_push(out0, out@[out@.len() - 1]);
                    assert(views(out@) + spec_cc_payloads(hviews(hs@), i + 1) =~= views(out0) + (
                    seq![spec_payload(hviews(hs@)[i as int])] + spec_cc_payloads(
                        hviews(hs@),
                        i + 1,
                    )));
                }
            },
            _ => {},
        }
        i = i + 1;
    }
    proof {
        assert(views(out@) + spec_cc_payloads(hviews(hs@), hs@.len() as int) =~= views(out@));
    }
    out
}

/// Copy of `hs` with every header of kind `k` removed.
pub fn drop_kind(hs: &Vec<Header>, k: HeaderKind) -> (r: Vec<Header>)
    ensures
        hviews(r@) == spec_drop_kind(hviews(hs@), k, 0),
{
    let mut out: Vec<Header> = Vec::new();
    let mut i: usize = 0;
    while i < hs.len()
        invariant
            i <= hs@.len(),
            hviews(out@) + spec_drop_kind(hviews(hs@), k, i as int) == spec_drop_kind(
                hviews(hs@),
                k,
                0,
            ),
        decreases hs@.len() - i,
    {
        let h = &hs[i];
        proof {
            assert(hviews(hs@)[i as int] == hs@[i as int]@);
        }
        if !(h.kind() == k) {
            let ghost out0 = out@;
            out.push(h.duplicate());
            proof {
                lemma_hviews_push(out0, out@[out@.len() - 1]);
                assert(hviews(out@) + spec_drop_kind(hviews(hs@), k, i + 1) =~= hviews(out0) + (
                seq![hviews(hs@)[i as int]] + spec_drop_kind(hviews(hs@), k, i + 1)));
            }
        }
        i = i + 1;
    }
    proof {
        assert(hviews(out@) + spec_drop_kind(hviews(hs@), k, hs@.len() as int) =~= hviews(out@));
    }
    out
}

/// The pieces joined by the separator `sep`.
pub fn join_pieces(pieces: &Vec<Vec<char>>, sep: &str) -> (r: Vec<char>)
    ensures
        r@ == spec_join(views(pieces@), sep@, 0),
{
    let mut out: Vec<char> = Vec::new();
    let mut i: usize = 0;
    while i < pieces.len()
        invariant
            i <= pieces@.len(),
            out@ + spec_join(views(pieces@), sep@, i as int) == spec_join(
                views(pieces@),
                sep@,
                0,
            ),
        decreases pieces@.len() - i,
    {
        let ghost out0 = out@;
        proof {
            assert(views(pieces@)[i as int] == pieces@[i as int]@);
        }
        append_chars(&mut out, &pieces[i]);
        if i + 1 < pieces.len() {
            append_str(&mut out, sep);
        }
        proof {
            assert(out@ + spec_join(views(pieces@), sep@, i + 1) =~= out0 + spec_join(
                views(pieces@),
                sep@,
                i as int,
            ));
        }
        i = i + 1;
    }
    proof {
        assert(out@ + Seq::<char>::empty() =~= out@);
    }
    out
}

/// The pieces of `v` split on the two-character pattern `a b`.
fn push_split_pat2(v: &Vec<char>, a: char, b: char, i: usize, out: &mut Vec<Vec<char>>)
    requires
        i <= v@.len(),
    ensures
        views(final(out)@) == views(old(out)@) + spec_split_pat2(v@, a, b, i as int),
    decreases v@.len() - i,
{
    match find_pair(v, a, b, i) {
        Some(j) => {
            let n = v.len();
            proof {
                lemma_find2_from_bounds(v@, a, b, i as int);
                assert(j + 2 <= n);
            }
            let piece = slice_chars(v, i, j);
            let ghost out0 = out@;
            out.push(piece);
            proof {
                lemma_views_push(out0, out@[out@.len() - 1]);
            }
            push_split_pat2(v, a, b, j + 2, out);
            proof {
                assert(views(out@) =~= views(old(out)@) + spec_split_pat2(v@, a, b, i as int));
            }
        },
        None => {
            let piece = slice_chars(v, i, v.len());
            let ghost out0 = out@;
            out.push(piece);
            proof {
                lemma_views_push(out0, out@[out@.len() - 1]);
                assert(views(out@) =~= views(old(out)@) + spec_split_pat2(v@, a, b, i as int));
            }
        },
    }
}

/// The pieces of `v` split on the two-character pattern `a b`.
pub fn split_pat2(v: &Vec<char>, a: char, b: char) -> (r: Vec<Vec<char>>)
    ensures
        views(r@) == spec_split_pat2(v@, a, b, 0),
{
    let mut out: Vec<Vec<char>> = Vec::new();
    push_split_pat2(v, a, b, 0, &mut out);
    proof {
        assert(views(Seq::<Vec<char>>::empty()) + spec_split_pat2(v@, a, b, 0) =~= spec_split_pat2(
            v@,
            a,
            b,
            0,
        ));
    }
    out
}

/// The pieces that differ from `x`, in order.
pub fn drop_eq(pieces: &Vec<Vec<char>>, x: &Vec<char>) -> (r: Vec<Vec<char>>)
    ensures
        views(r@) == spec_drop_eq(views(pieces@), x@, 0),
{
    let mut out: Vec<Vec<char>> = Vec::new();
    let mut i: usize = 0;
    while i < pieces.len()
        invariant
            i <= pieces@.len(),
            views(out@) + spec_drop_eq(views(pieces@), x@, i as int) == spec_drop_eq(
                views(pieces@),
                x@,
                0,
            ),
        decreases pieces@.len() - i,
    {
        proof {
            assert(views(pieces@)[i as int] == pieces@[i as int]@);
        }
        if !eq_chars(&pieces[i], x) {
            let piece = slice_chars(&pieces[i], 0, pieces[i].len());
            proof {
                assert(piece@ =~= pieces@[i as int]@);
            }
            let ghost out0 = out@;
            out.push(piece);
            proof {
                lemma_views_push(out0, out@[out@.len() - 1]);
                assert(views(out@) + spec_drop_eq(views(pieces@), x@, i + 1) =~= views(out0) + (
                seq![views(pieces@)[i as int]] + spec_drop_eq(views(pieces@), x@, i + 1)));
            }
        }
        i = i + 1;
    }
    proof {
        assert(views(out@) + Seq::<Seq<char>>::empty() =~= views(out@));
    }
    out
}

/// The decimal digit character for `d`.
pub open spec fn spec_digit(d: int) -> char {
    if d == 0 {
        '0'
    } else if d == 1 {
        '1'
    } else if d == 2 {
        '2'
    } else if d == 3 {
        '3'
    } else if d == 4 {
        '4'
    } else if d == 5 {
        '5'
    } else if d == 6 {
        '6'
    } else if d == 7 {
        '7'
    } else if d == 8 {
        '8'
    } else {
        '9'
    }
}

/// The decimal digits of a positive number, most significant first; empty
/// for zero and below.
pub open spec fn spec_dec_digits(n: int) -> Seq<char>
    decreases n,
{
    if n <= 0 {
        Seq::<char>::empty()
    } else {
        spec_dec_digits(n / 10).push(spec_digit(n % 10))
    }
}

/// The decimal rendering of a non-negative number.
pub open spec fn spec_u64_string(n: int) -> Seq<char> {
    if n == 0 {
        seq!['0']
    } else {
        spec_dec_digits(n)
    }
}

/// The decimal rendering of a signed number.
pub open spec fn spec_i64_string(n: int) -> Seq<char> {
    if n < 0 {
        seq!['-'] + spec_u64_string(-n)
    } else {
        spec_u64_string(n)
    }
}

/// A fresh message id: the timestamp and host in angle brackets.
pub open spec fn spec_message_id(ts: int, host: Seq<char>) -> Seq<char> {
    "<"@ + spec_i64_string(ts) + "@"@ + host + ">"@
}

/// The character of one decimal digit.
fn digit_char(d: u64) -> (c: char)
    requires
        d < 10,
    ensures
        c == spec_digit(d as int),
{
    if d == 0 {
        '0'
    } else if d == 1 {
        '1'
    } else if d == 2 {
        '2'
    } else if d == 3 {
        '3'
    } else if d == 4 {
        '4'
    } else if d == 5 {
        '5'
    } else if d == 6 {
        '6'
    } else if d == 7 {
        '7'
    } else if d == 8 {
        '8'
    } else {
        '9'
    }
}

/// Append the decimal digits of `m`, most significant first.
pub(crate) fn push_dec_digits(out: &mut Vec<char>, m: u64)
    ensures
        final(out)@ == old(out)@ + spec_dec_digits(m as int),
    decreases m,
{
    if m > 0 {
        push_dec_digits(out, m / 10);
        out.push(digit_char(m % 10));
        proof {
            assert(out@ =~= old(out)@ + spec_dec_digits(m as int));
        }
    } else {
        proof {
            assert(out@ =~= old(out)@ + spec_dec_digits(m as int));
        }
    }
}

/// Append the decimal rendering of `m`.
pub(crate) fn push_u64(out: &mut Vec<char>, m: u64)
    ensures
        final(out)@ == old(out)@ + spec_u64_string(m as int),
{
    if m == 0 {
        out.push('0');
        proof {
            assert(out@ =~= old(out)@ + seq!['0']);
        }
    } else {
        push_dec_digits(out, m);
    }
}

/// Generate a message id for the given whole-second timestamp and host.
pub fn generate_message_id(timestamp: i64, hostname: &str) -> (r: String)
    ensures
        r@ == spec_message_id(timestamp as int, hostname@),
{
    let mut out: Vec<char> = Vec::new();
    append_str(&mut out, "<");
    if timestamp < 0 {
        out.push('-');
        let mag: u64 = ((-(timestamp + 1)) as u64) + 1;
        proof {
            assert(mag as int == -(timestamp as int));
        }
        push_u64(&mut out, mag);
    } else {
        push_u64(&mut out, timestamp as u64);
    }
    append_str(&mut out, "@");
    append_str(&mut out, hostname);
    append_str(&mut out, ">");
    proof {
        assert(out@ =~= spec_message_id(timestamp as int, hostname@));
    }
    chars_to_string(&out)
}

/// Relies on chrono's `Utc::now().to_rfc2822()`: the current time rendered
/// in the fixed RFC-2822 calendar format.  The clock decides the result, so
/// nothing is promised of it.
#[verifier::external_body]
fn now_rfc2822() -> String {
    chrono::Utc::now().to_rfc2822()
}

/// Relies on chrono's `Utc::now().timestamp()`: the current whole seconds
/// since the Unix epoch.  The clock decides the result, so nothing is
/// promised of it.
#[verifier::external_body]
fn now_timestamp() -> i64 {
    chrono::Utc::now().timestamp()
}

/// The message has at least one Date header.
pub open spec fn spec_has_date(m: Seq<char>) -> bool {
    first_with_kind(spec_headers_of(m), HeaderKind::Date, 0) is Some
}

/// The message has at least one From header.
pub open spec fn spec_has_from(m: Seq<char>) -> bool {
    first_with_kind(spec_headers_of(m), HeaderKind::From, 0) is Some
}

/// The headers of the reply, before rendering: dates rewritten, To turned
/// into Cc, Cc coalesced with the sender removed, To set to the original
/// sender, From replaced, threading headers re-anchored, a fresh message id,
/// the subject prefixed once, and the whole re-sorted by the original order.
pub open spec fn spec_reply_headers(
    from: Seq<char>,
    hs0: Seq<HeaderView>,
    date: Seq<char>,
    msg_id: Seq<char>,
) -> Seq<HeaderView> {
    let hs2 = spec_to_into_cc(spec_rewrite_dates(hs0, date));
    let ccs = spec_cc_payloads(hs2, 0);
    let hs3 = spec_drop_kind(hs2, HeaderKind::Cc, 0);
    let kept = spec_drop_eq(spec_split_pat2(spec_join(ccs, ", "@, 0), ',', ' ', 0), from, 0);
    let hs4 = if ccs.len() > 0 && kept.len() > 0 {
        hs3.push(HeaderView::Cc(spec_wrap_header(spec_join(kept, ","@, 0))))
    } else {
        hs3
    };
    let orig_from = match first_with_kind(hs0, HeaderKind::From, 0) {
        Some(x) => x,
        None => Seq::<char>::empty(),
    };
    let hs6 = spec_drop_kind(hs4.push(HeaderView::To(orig_from)), HeaderKind::From, 0).push(
        HeaderView::From(from),
    );
    let hs7 = spec_drop_kind(
        spec_drop_kind(hs6, HeaderKind::InReplyTo, 0),
        HeaderKind::References,
        0,
    );
    let hs8 = match first_with_kind(hs0, HeaderKind::MessageID, 0) {
        Some(mid) => hs7.push(HeaderView::InReplyTo(mid)).push(HeaderView::References(mid)),
        None => hs7,
    };
    let hs9 = spec_drop_kind(hs8, HeaderKind::MessageID, 0).push(HeaderView::MessageID(msg_id));
    spec_sort_headers(spec_subject_step(hs9), hs0)
}

pub proof fn lemma_first_index_of_kind_bounds(hs: Seq<HeaderView>, k: HeaderKind, i: int)
    requires
        0 <= i <= hs.len(),
    ensures
        i <= first_index_of_kind(hs, k, i) <= hs.len(),
        first_index_of_kind(hs, k, i) < hs.len() ==> spec_kind(
            hs[first_index_of_kind(hs, k, i)],
        ) == k,
    decreases hs.len() - i,
{
    if i < hs.len() && spec_kind(hs[i]) != k {
        lemma_first_index_of_kind_bounds(hs, k, i + 1);
    }
}

/// Dropping one kind keeps every header of any other kind.
proof fn lemma_drop_kind_contains(hs: Seq<HeaderView>, k: HeaderKind, i: int, j: int)
    requires
        0 <= i <= j < hs.len(),
        spec_kind(hs[j]) != k,
    ensures
        spec_drop_kind(hs, k, i).contains(hs[j]),
    decreases j - i,
{
    if i == j {
        assert((seq![hs[i]] + spec_drop_kind(hs, k, i + 1))[0] == hs[j]);
    } else {
        lemma_drop_kind_contains(hs, k, i + 1, j);
        if spec_kind(hs[i]) != k {
            let rest = spec_drop_kind(hs, k, i + 1);
            let idx = choose|idx: int| 0 <= idx < rest.len() && rest[idx] == hs[j];
            assert((seq![hs[i]] + rest)[idx + 1] == hs[j]);
        }
    }
}

/// The subject step keeps every header that is not a Subject.
proof fn lemma_subject_step_contains(hs: Seq<HeaderView>, h: HeaderView)
    requires
        hs.contains(h),
        spec_kind(h) != HeaderKind::Subject,
    ensures
        spec_subject_step(hs).contains(h),
{
    let idx = choose|idx: int| 0 <= idx < hs.len() && hs[idx] == h;
    let i = first_index_of_kind(hs, HeaderKind::Subject, 0);
    lemma_first_index_of_kind_bounds(hs, HeaderKind::Subject, 0);
    if i < hs.len() {
        assert(idx != i);
        assert(spec_subject_step(hs)[idx] == h);
    } else {
        assert(spec_subject_step(hs)[idx] == h);
    }
}

/// A header of `hs` stands in the bucket of its own sort key.
proof fn lemma_with_key_contains(hs: Seq<HeaderView>, orig: Seq<HeaderView>, i: int, j: int)
    requires
        0 <= i <= j < hs.len(),
    ensures
        spec_with_key(hs, orig, first_index_of_kind(orig, spec_kind(hs[j]), 0), i).contains(hs[j]),
    decreases j - i,
{
    let k = first_index_of_kind(orig, spec_kind(hs[j]), 0);
    if i == j {
        assert((seq![hs[i]] + spec_with_key(hs, orig, k, i + 1))[0] == hs[j]);
    } else {
        lemma_with_key_contains(hs, orig, i + 1, j);
        if first_index_of_kind(orig, spec_kind(hs[i]), 0) == k {
            let rest = spec_with_key(hs, orig, k, i + 1);
            let idx = choose|idx: int| 0 <= idx < rest.len() && rest[idx] == hs[j];
            assert((seq![hs[i]] + rest)[idx + 1] == hs[j]);
        }
    }
}

/// A header in a bucket stands in the bucket concatenation from `b` on.
proof fn lemma_buckets_contains(
    hs: Seq<HeaderView>,
    orig: Seq<HeaderView>,
    b: int,
    k: int,
    h: HeaderView,
)
    requires
        0 <= b <= k <= orig.len(),
        spec_with_key(hs, orig, k, 0).contains(h),
    ensures
        spec_sort_buckets(hs, orig, b).contains(h),
    decreases k - b,
{
    if b == k {
        let part = spec_with_key(hs, orig, k, 0);
        let idx = choose|idx: int| 0 <= idx < part.len() && part[idx] == h;
        assert((part + spec_sort_buckets(hs, orig, b + 1))[idx] == h);
    } else {
        lemma_buckets_contains(hs, orig, b + 1, k, h);
        let rest = spec_sort_buckets(hs, orig, b + 1);
        let part = spec_with_key(hs, orig, b, 0);
        let idx = choose|idx: int| 0 <= idx < rest.len() && rest[idx] == h;
        assert((part + rest)[part.len() + idx] == h);
    }
}

/// Re-sorting loses no header.
pub proof fn lemma_sort_headers_contains(hs: Seq<HeaderView>, orig: Seq<HeaderView>, h: HeaderView)
    requires
        hs.contains(h),
    ensures
        spec_sort_headers(hs, orig).contains(h),
{
    let j = choose|j: int| 0 <= j < hs.len() && hs[j] == h;
    let k = first_index_of_kind(orig, spec_kind(h), 0);
    lemma_first_index_of_kind_bounds(orig, spec_kind(h), 0);
    lemma_with_key_contains(hs, orig, 0, j);
    lemma_buckets_contains(hs, orig, 0, k, h);
}

/// The number of headers of kind `k` from `i` on.
pub open spec fn count_kind(hs: Seq<HeaderView>, k: HeaderKind, i: int) -> int
    decreases hs.len() - i,
{
    if i < 0 || i >= hs.len() {
        0
    } else if spec_kind(hs[i]) == k {
        1 + count_kind(hs, k, i + 1)
    } else {
        count_kind(hs, k, i + 1)
    }
}

proof fn lemma_count_tail(a: Seq<HeaderView>, b: Seq<HeaderView>, k: HeaderKind, m: int)
    requires
        0 <= m <= b.len(),
    ensures
        count_kind(a + b, k, a.len() + m) == count_kind(b, k, m),
    decreases b.len() - m,
{
    if m < b.len() {
        assert((a + b)[a.len() + m] == b[m]);
        lemma_count_tail(a, b, k, m + 1);
    }
}

proof fn lemma_count_concat(a: Seq<HeaderView>, b: Seq<HeaderView>, k: HeaderKind, i: int)
    requires
        0 <= i <= a.len(),
    ensures
        count_kind(a + b, k, i) == count_kind(a, k, i) + count_kind(b, k, 0),
    decreases a.len() - i,
{
    if i < a.len() {
        assert((a + b)[i] == a[i]);
        lemma_count_concat(a, b, k, i + 1);
    } else {
        lemma_count_tail(a, b, k, 0);
    }
}

proof fn lemma_count_one(x: HeaderView, b: Seq<HeaderView>, k: HeaderKind)
    ensures
        count_kind(seq![x] + b, k, 0) == count_kind(b, k, 0) + (if spec_kind(x) == k {
            1int
        } else {
            0int
        }),
{
    assert(count_kind(seq![x], k, 1) == 0);
    lemma_count_concat(seq![x], b, k, 0);
}

proof fn lemma_count_push(hs: Seq<HeaderView>, x: HeaderView, k: HeaderKind)
    ensures
        count_kind(hs.push(x), k, 0) == count_kind(hs, k, 0) + (if spec_kind(x) == k {
            1int
        } else {
            0int
        }),
{
    assert(hs.push(x) =~= hs + seq![x]);
    assert(count_kind(seq![x], k, 1) == 0);
    lemma_count_concat(hs, seq![x], k, 0);
}

/// Dropping kind `k` leaves no header of kind `k`.
proof fn lemma_drop_kind_count_self(hs: Seq<HeaderView>, k: HeaderKind, i: int)
    requires
        0 <= i <= hs.len(),
    ensures
        count_kind(spec_drop_kind(hs, k, i), k, 0) == 0,
    decreases hs.len() - i,
{
    if i < hs.len() {
        lemma_drop_kind_count_self(hs, k, i + 1);
        if spec_kind(hs[i]) != k {
            lemma_count_one(hs[i], spec_drop_kind(hs, k, i + 1), k);
        }
    }
}

/// Dropping one kind does not change the count of another.
proof fn lemma_drop_kind_count_other(hs: Seq<HeaderView>, k: HeaderKind, k2: HeaderKind, i: int)
    requires
        0 <= i <= hs.len(),
        k != k2,
    ensures
        count_kind(spec_drop_kind(hs, k2, i), k, 0) == count_kind(hs, k, i),
    decreases hs.len() - i,
{
    if i < hs.len() {
        lemma_drop_kind_count_other(hs, k, k2, i + 1);
        if spec_kind(hs[i]) != k2 {
            lemma_count_one(hs[i], spec_drop_kind(hs, k2, i + 1), k);
        }
    }
}

proof fn lemma_count_update(hs: Seq<HeaderView>, i: int, y: HeaderView, k: HeaderKind, m: int)
    requires
        0 <= m <= hs.len(),
        0 <= i < hs.len(),
        spec_kind(y) != k,
        spec_kind(hs[i]) != k,
    ensures
        count_kind(hs.update(i, y), k, m) == count_kind(hs, k, m),
    decreases hs.len() - m,
{
    if m < hs.len() {
        assert(hs.update(i, y)[m] == (if m == i {
            y
        } else {
            hs[m]
        }));
        lemma_count_update(hs, i, y, k, m + 1);
    }
}

/// The subject step does not change the count of any other kind.
proof fn lemma_subject_step_count(hs: Seq<HeaderView>, k: HeaderKind)
    requires
        k != HeaderKind::Subject,
    ensures
        count_kind(spec_subject_step(hs), k, 0) == count_kind(hs, k, 0),
{
    let i = first_index_of_kind(hs, HeaderKind::Subject, 0);
    lemma_first_index_of_kind_bounds(hs, HeaderKind::Subject, 0);
    if i < hs.len() {
        lemma_count_update(hs, i, HeaderView::Subject(spec_re_subject(spec_payload(hs[i]))), k, 0);
    } else {
        lemma_count_push(hs, HeaderView::Subject("Re: "@), k);
    }
}

/// A bucket holds every header of kind `k` when it is the kind's own bucket,
/// and none otherwise.
proof fn lemma_with_key_count(
    hs: Seq<HeaderView>,
    orig: Seq<HeaderView>,
    b: int,
    i: int,
    k: HeaderKind,
)
    requires
        0 <= i <= hs.len(),
    ensures
        count_kind(spec_with_key(hs, orig, b, i), k, 0) == (if b == first_index_of_kind(
            orig,
            k,
            0,
        ) {
            count_kind(hs, k, i)
        } else {
            0int
        }),
    decreases hs.len() - i,
{
    if i < hs.len() {
        lemma_with_key_count(hs, orig, b, i + 1, k);
        if first_index_of_kind(orig, spec_kind(hs[i]), 0) == b {
            lemma_count_one(hs[i], spec_with_key(hs, orig, b, i + 1), k);
        }
    }
}

proof fn lemma_buckets_count(hs: Seq<HeaderView>, orig: Seq<HeaderView>, b: int, k: HeaderKind)
    requires
        0 <= b <= orig.len() + 1,
    ensures
        count_kind(spec_sort_buckets(hs, orig, b), k, 0) == (if b <= first_index_of_kind(
            orig,
            k,
            0,
        ) {
            count_kind(hs, k, 0)
        } else {
            0int
        }),
    decreases orig.len() + 1 - b,
{
    lemma_first_index_of_kind_bounds(orig, k, 0);
    if b <= orig.len() {
        lemma_buckets_count(hs, orig, b + 1, k);
        lemma_with_key_count(hs, orig, b, 0, k);
        lemma_count_concat(spec_with_key(hs, orig, b, 0), spec_sort_buckets(hs, orig, b + 1), k, 0);
    }
}

/// Re-sorting changes no kind's count.
pub proof fn lemma_sort_headers_count(hs: Seq<HeaderView>, orig: Seq<HeaderView>, k: HeaderKind)
    ensures
        count_kind(spec_sort_headers(hs, orig), k, 0) == count_kind(hs, k, 0),
{
    lemma_first_index_of_kind_bounds(orig, k, 0);
    lemma_buckets_count(hs, orig, 0, k);
}

proof fn lemma_count_nonneg(s: Seq<HeaderView>, k: HeaderKind, i: int)
    requires
        0 <= i <= s.len(),
    ensures
        count_kind(s, k, i) >= 0,
    decreases s.len() - i,
{
    if i < s.len() {
        lemma_count_nonneg(s, k, i + 1);
    }
}

proof fn lemma_count_zero_first_none(s: Seq<HeaderView>, k: HeaderKind, i: int)
    requires
        0 <= i <= s.len(),
        count_kind(s, k, i) == 0,
    ensures
        first_with_kind(s, k, i) is None,
    decreases s.len() - i,
{
    if i < s.len() {
        lemma_count_nonneg(s, k, i + 1);
        lemma_count_zero_first_none(s, k, i + 1);
    }
}

proof fn lemma_first_with_kind_tail(a: Seq<HeaderView>, b: Seq<HeaderView>, k: HeaderKind, m: int)
    requires
        0 <= m <= b.len(),
    ensures
        first_with_kind(a + b, k, a.len() + m) == first_with_kind(b, k, m),
    decreases b.len() - m,
{
    if m < b.len() {
        assert((a + b)[a.len() + m] == b[m]);
        lemma_first_with_kind_tail(a, b, k, m + 1);
    }
}

proof fn lemma_first_with_kind_concat(a: Seq<HeaderView>, b: Seq<HeaderView>, k: HeaderKind, i: int)
    requires
        0 <= i <= a.len(),
    ensures
        first_with_kind(a + b, k, i) == (match first_with_kind(a, k, i) {
            Some(p) => Some(p),
            None => first_with_kind(b, k, 0),
        }),
    decreases a.len() - i,
{
    if i < a.len() {
        assert((a + b)[i] == a[i]);
        lemma_first_with_kind_concat(a, b, k, i + 1);
    } else {
        lemma_first_with_kind_tail(a, b, k, 0);
    }
}

proof fn lemma_first_with_kind_one(x: HeaderView, b: Seq<HeaderView>, k: HeaderKind)
    ensures
        first_with_kind(seq![x] + b, k, 0) == (if spec_kind(x) == k {
            Some(spec_payload(x))
        } else {
            first_with_kind(b, k, 0)
        }),
{
    lemma_first_with_kind_tail(seq![x], b, k, 0);
}

/// A push of another kind does not change the first header of kind `k`.
proof fn lemma_first_with_kind_push_other(hs: Seq<HeaderView>, x: HeaderView, k: HeaderKind, i: int)
    requires
        0 <= i <= hs.len(),
        spec_kind(x) != k,
    ensures
        first_with_kind(hs.push(x), k, i) == first_with_kind(hs, k, i),
    decreases hs.len() - i,
{
    if i < hs.len() {
        assert(hs.push(x)[i] == hs[i]);
        lemma_first_with_kind_push_other(hs, x, k, i + 1);
    } else {
        assert(hs.push(x)[i] == x);
        assert(first_with_kind(hs.push(x), k, i + 1) is None);
    }
}

/// Dropping one kind does not change the first header of another.
proof fn lemma_drop_kind_first_other(hs: Seq<HeaderView>, k: HeaderKind, k2: HeaderKind, i: int)
    requires
        0 <= i <= hs.len(),
        k != k2,
    ensures
        first_with_kind(spec_drop_kind(hs, k2, i), k, 0) == first_with_kind(hs, k, i),
    decreases hs.len() - i,
{
    if i < hs.len() {
        lemma_drop_kind_first_other(hs, k, k2, i + 1);
        if spec_kind(hs[i]) != k2 {
            lemma_first_with_kind_one(hs[i], spec_drop_kind(hs, k2, i + 1), k);
        }
    }
}

/// Rewriting dates does not change the first Subject.
proof fn lemma_rewrite_dates_first_subject(hs: Seq<HeaderView>, date: Seq<char>, i: int)
    requires
        0 <= i <= hs.len(),
    ensures
        first_with_kind(spec_rewrite_dates(hs, date), HeaderKind::Subject, i) == first_with_kind(
            hs,
            HeaderKind::Subject,
            i,
        ),
    decreases hs.len() - i,
{
    if i < hs.len() {
        lemma_rewrite_dates_first_subject(hs, date, i + 1);
    }
}

/// Turning To into Cc does not change the first Subject.
proof fn lemma_to_into_cc_first_subject(hs: Seq<HeaderView>, i: int)
    requires
        0 <= i <= hs.len(),
    ensures
        first_with_kind(spec_to_into_cc(hs), HeaderKind::Subject, i) == first_with_kind(
            hs,
            HeaderKind::Subject,
            i,
        ),
    decreases hs.len() - i,
{
    if i < hs.len() {
        lemma_to_into_cc_first_subject(hs, i + 1);
    }
}

/// An update at an index whose first `k`-positions all come later: the first
/// header of kind `k` of the updated sequence is the written element.
proof fn lemma_first_with_kind_update_at(hs: Seq<HeaderView>, i: int, y: HeaderView, k: HeaderKind, m: int)
    requires
        0 <= m <= i < hs.len(),
        spec_kind(y) == k,
        forall|j: int| m <= j < i ==> spec_kind(hs[j]) != k,
    ensures
        first_with_kind(hs.update(i, y), k, m) == Some(spec_payload(y)),
    decreases i - m,
{
    if m < i {
        assert(hs.update(i, y)[m] == hs[m]);
        lemma_first_with_kind_update_at(hs, i, y, k, m + 1);
    } else {
        assert(hs.update(i, y)[i] == y);
    }
}

proof fn lemma_first_with_kind_push_at(hs: Seq<HeaderView>, x: HeaderView, k: HeaderKind, m: int)
    requires
        0 <= m <= hs.len(),
        spec_kind(x) == k,
        forall|j: int| m <= j < hs.len() ==> spec_kind(hs[j]) != k,
    ensures
        first_with_kind(hs.push(x), k, m) == Some(spec_payload(x)),
    decreases hs.len() - m,
{
    if m < hs.len() {
        assert(hs.push(x)[m] == hs[m]);
        lemma_first_with_kind_push_at(hs, x, k, m + 1);
    } else {
        assert(hs.push(x)[m] == x);
    }
}

proof fn lemma_first_index_of_kind_minimal(hs: Seq<HeaderView>, k: HeaderKind, i: int)
    requires
        0 <= i <= hs.len(),
    ensures
        forall|j: int| i <= j < first_index_of_kind(hs, k, i) ==> spec_kind(hs[j]) != k,
    decreases hs.len() - i,
{
    lemma_first_index_of_kind_bounds(hs, k, i);
    if i < hs.len() && spec_kind(hs[i]) != k {
        lemma_first_index_of_kind_minimal(hs, k, i + 1);
    }
}

proof fn lemma_first_with_kind_payload(hs: Seq<HeaderView>, k: HeaderKind, i: int)
    requires
        0 <= i <= hs.len(),
    ensures
        first_index_of_kind(hs, k, i) < hs.len() ==> first_with_kind(hs, k, i) == Some(
            spec_payload(hs[first_index_of_kind(hs, k, i)]),
        ),
        first_index_of_kind(hs, k, i) == hs.len() ==> first_with_kind(hs, k, i) is None,
    decreases hs.len() - i,
{
    if i < hs.len() && spec_kind(hs[i]) != k {
        lemma_first_with_kind_payload(hs, k, i + 1);
    }
}

/// The subject step makes the first Subject of the result the old first
/// Subject prefixed by "Re: " exactly once, or a bare "Re: " subject.
proof fn lemma_subject_step_first(hs: Seq<HeaderView>)
    ensures
        first_with_kind(spec_subject_step(hs), HeaderKind::Subject, 0) == Some(
            match first_with_kind(hs, HeaderKind::Subject, 0) {
                Some(s) => spec_re_subject(s),
                None => "Re: "@,
            },
        ),
{
    let k = HeaderKind::Subject;
    let i = first_index_of_kind(hs, k, 0);
    lemma_first_index_of_kind_bounds(hs, k, 0);
    lemma_first_index_of_kind_minimal(hs, k, 0);
    lemma_first_with_kind_payload(hs, k, 0);
    if i < hs.len() {
        lemma_first_with_kind_update_at(
            hs,
            i,
            HeaderView::Subject(spec_re_subject(spec_payload(hs[i]))),
            k,
            0,
        );
    } else {
        lemma_first_with_kind_push_at(hs, HeaderView::Subject("Re: "@), k, 0);
    }
}

/// Within the bucket of `k`'s own sort key, the first header of kind `k` is
/// the first of kind `k` in the input.
proof fn lemma_with_key_first(hs: Seq<HeaderView>, orig: Seq<HeaderView>, i: int, k: HeaderKind)
    requires
        0 <= i <= hs.len(),
    ensures
        first_with_kind(spec_with_key(hs, orig, first_index_of_kind(orig, k, 0), i), k, 0)
            == first_with_kind(hs, k, i),
    decreases hs.len() - i,
{
    let b = first_index_of_kind(orig, k, 0);
    if i < hs.len() {
        lemma_with_key_first(hs, orig, i + 1, k);
        if first_index_of_kind(orig, spec_kind(hs[i]), 0) == b {
            lemma_first_with_kind_one(hs[i], spec_with_key(hs, orig, b, i + 1), k);
        }
    }
}

proof fn lemma_buckets_first(hs: Seq<HeaderView>, orig: Seq<HeaderView>, b: int, k: HeaderKind)
    requires
        0 <= b <= first_index_of_kind(orig, k, 0),
    ensures
        first_with_kind(spec_sort_buckets(hs, orig, b), k, 0) == first_with_kind(hs, k, 0),
    decreases orig.len() + 1 - b,
{
    let kk = first_index_of_kind(orig, k, 0);
    lemma_first_index_of_kind_bounds(orig, k, 0);
    let part = spec_with_key(hs, orig, b, 0);
    let rest = spec_sort_buckets(hs, orig, b + 1);
    lemma_first_with_kind_concat(part, rest, k, 0);
    if b == kk {
        lemma_with_key_first(hs, orig, 0, k);
        if first_with_kind(hs, k, 0) is None {
            lemma_buckets_count(hs, orig, b + 1, k);
            lemma_count_zero_first_none(rest, k, 0);
        }
    } else {
        lemma_with_key_count(hs, orig, b, 0, k);
        lemma_count_zero_first_none(part, k, 0);
        lemma_buckets_first(hs, orig, b + 1, k);
    }
}

/// Re-sorting does not change the first header of any kind.
pub proof fn lemma_sort_headers_first(hs: Seq<HeaderView>, orig: Seq<HeaderView>, k: HeaderKind)
    ensures
        first_with_kind(spec_sort_headers(hs, orig), k, 0) == first_with_kind(hs, k, 0),
{
    lemma_first_index_of_kind_bounds(orig, k, 0);
    lemma_buckets_first(hs, orig, 0, k);
}

/// The first Message-ID payload of the original headers, where one exists.
pub open spec fn spec_orig_message_id(hs0: Seq<HeaderView>) -> Seq<char> {
    match first_with_kind(hs0, HeaderKind::MessageID, 0) {
        Some(m) => m,
        None => Seq::<char>::empty(),
    }
}

/// The reply's headers carry exactly one Message-ID: every original one is
/// removed and exactly the freshly generated one stands.
pub proof fn lemma_reply_message_id_count(
    from: Seq<char>,
    hs0: Seq<HeaderView>,
    date: Seq<char>,
    msg_id: Seq<char>,
)
    ensures
        count_kind(spec_reply_headers(from, hs0, date, msg_id), HeaderKind::MessageID, 0) == 1,
{
    let hs2 = spec_to_into_cc(spec_rewrite_dates(hs0, date));
    let ccs = spec_cc_payloads(hs2, 0);
    let hs3 = spec_drop_kind(hs2, HeaderKind::Cc, 0);
    let kept = spec_drop_eq(spec_split_pat2(spec_join(ccs, ", "@, 0), ',', ' ', 0), from, 0);
    let hs4 = if ccs.len() > 0 && kept.len() > 0 {
        hs3.push(HeaderView::Cc(spec_wrap_header(spec_join(kept, ","@, 0))))
    } else {
        hs3
    };
    let orig_from = match first_with_kind(hs0, HeaderKind::From, 0) {
        Some(x) => x,
        None => Seq::<char>::empty(),
    };
    let hs6 = spec_drop_kind(hs4.push(HeaderView::To(orig_from)), HeaderKind::From, 0).push(
        HeaderView::From(from),
    );
    let hs7 = spec_drop_kind(
        spec_drop_kind(hs6, HeaderKind::InReplyTo, 0),
        HeaderKind::References,
        0,
    );
    let hs8 = match first_with_kind(hs0, HeaderKind::MessageID, 0) {
        Some(mid) => hs7.push(HeaderView::InReplyTo(mid)).push(HeaderView::References(mid)),
        None => hs7,
    };
    let dropped = spec_drop_kind(hs8, HeaderKind::MessageID, 0);
    let hs9 = dropped.push(HeaderView::MessageID(msg_id));
    lemma_drop_kind_count_self(hs8, HeaderKind::MessageID, 0);
    lemma_count_push(dropped, HeaderView::MessageID(msg_id), HeaderKind::MessageID);
    lemma_subject_step_count(hs9, HeaderKind::MessageID);
    lemma_sort_headers_count(spec_subject_step(hs9), hs0, HeaderKind::MessageID);
}

/// Header coalescing: the reply's headers carry at most one Cc — every
/// original To and Cc header is removed, and at most one coalesced Cc is
/// added back.
pub proof fn lemma_reply_single_cc(
    from: Seq<char>,
    hs0: Seq<HeaderView>,
    date: Seq<char>,
    msg_id: Seq<char>,
)
    ensures
        0 <= count_kind(spec_reply_headers(from, hs0, date, msg_id), HeaderKind::Cc, 0) <= 1,
{
    let cc = HeaderKind::Cc;
    let hs2 = spec_to_into_cc(spec_rewrite_dates(hs0, date));
    let ccs = spec_cc_payloads(hs2, 0);
    let hs3 = spec_drop_kind(hs2, cc, 0);
    let kept = spec_drop_eq(spec_split_pat2(spec_join(ccs, ", "@, 0), ',', ' ', 0), from, 0);
    let hs4 = if ccs.len() > 0 && kept.len() > 0 {
        hs3.push(HeaderView::Cc(spec_wrap_header(spec_join(kept, ","@, 0))))
    } else {
        hs3
    };
    lemma_drop_kind_count_self(hs2, cc, 0);
    if ccs.len() > 0 && kept.len() > 0 {
        lemma_count_push(hs3, HeaderView::Cc(spec_wrap_header(spec_join(kept, ","@, 0))), cc);
    }
    let orig_from = match first_with_kind(hs0, HeaderKind::From, 0) {
        Some(x) => x,
        None => Seq::<char>::empty(),
    };
    let hs5 = hs4.push(HeaderView::To(orig_from));
    lemma_count_push(hs4, HeaderView::To(orig_from), cc);
    let hs6a = spec_drop_kind(hs5, HeaderKind::From, 0);
    lemma_drop_kind_count_other(hs5, cc, HeaderKind::From, 0);
    let hs6 = hs6a.push(HeaderView::From(from));
    lemma_count_push(hs6a, HeaderView::From(from), cc);
    let hs7a = spec_drop_kind(hs6, HeaderKind::InReplyTo, 0);
    lemma_drop_kind_count_other(hs6, cc, HeaderKind::InReplyTo, 0);
    let hs7 = spec_drop_kind(hs7a, HeaderKind::References, 0);
    lemma_drop_kind_count_other(hs7a, cc, HeaderKind::References, 0);
    let hs8 = match first_with_kind(hs0, HeaderKind::MessageID, 0) {
        Some(mid) => hs7.push(HeaderView::InReplyTo(mid)).push(HeaderView::References(mid)),
        None => hs7,
    };
    match first_with_kind(hs0, HeaderKind::MessageID, 0) {
        Some(mid) => {
            lemma_count_push(hs7, HeaderView::InReplyTo(mid), cc);
            lemma_count_push(
                hs7.push(HeaderView::InReplyTo(mid)),
                HeaderView::References(mid),
                cc,
            );
        },
        None => {},
    }
    let dropped = spec_drop_kind(hs8, HeaderKind::MessageID, 0);
    lemma_drop_kind_count_other(hs8, cc, HeaderKind::MessageID, 0);
    let hs9 = dropped.push(HeaderView::MessageID(msg_id));
    lemma_count_push(dropped, HeaderView::MessageID(msg_id), cc);
    lemma_subject_step_count(hs9, cc);
    lemma_sort_headers_count(spec_subject_step(hs9), hs0, cc);
}

/// The subject the reply carries: the original's first Subject payload
/// prefixed by "Re: " exactly once, or a bare "Re: " when the original had
/// no Subject.
pub open spec fn spec_reply_subject(hs0: Seq<HeaderView>) -> Seq<char> {
    match first_with_kind(hs0, HeaderKind::Subject, 0) {
        Some(s) => spec_re_subject(s),
        None => "Re: "@,
    }
}

/// Idempotent subject prefixing, end to end: the first Subject of the
/// reply's headers is exactly the reply subject, and prefixing that subject
/// again changes nothing — so composing a reply to a reply never yields
/// "Re: Re: ".
pub proof fn lemma_reply_subject(
    from: Seq<char>,
    hs0: Seq<HeaderView>,
    date: Seq<char>,
    msg_id: Seq<char>,
)
    ensures
        first_with_kind(spec_reply_headers(from, hs0, date, msg_id), HeaderKind::Subject, 0)
            == Some(spec_reply_subject(hs0)),
        spec_re_subject(spec_reply_subject(hs0)) == spec_reply_subject(hs0),
{
    let sub = HeaderKind::Subject;
    let hs1 = spec_rewrite_dates(hs0, date);
    lemma_rewrite_dates_first_subject(hs0, date, 0);
    let hs2 = spec_to_into_cc(hs1);
    lemma_to_into_cc_first_subject(hs1, 0);
    let ccs = spec_cc_payloads(hs2, 0);
    let hs3 = spec_drop_kind(hs2, HeaderKind::Cc, 0);
    lemma_drop_kind_first_other(hs2, sub, HeaderKind::Cc, 0);
    let kept = spec_drop_eq(spec_split_pat2(spec_join(ccs, ", "@, 0), ',', ' ', 0), from, 0);
    let hs4 = if ccs.len() > 0 && kept.len() > 0 {
        hs3.push(HeaderView::Cc(spec_wrap_header(spec_join(kept, ","@, 0))))
    } else {
        hs3
    };
    if ccs.len() > 0 && kept.len() > 0 {
        lemma_first_with_kind_push_other(
            hs3,
            HeaderView::Cc(spec_wrap_header(spec_join(kept, ","@, 0))),
            sub,
            0,
        );
    }
    let orig_from = match first_with_kind(hs0, HeaderKind::From, 0) {
        Some(x) => x,
        None => Seq::<char>::empty(),
    };
    let hs5 = hs4.push(HeaderView::To(orig_from));
    lemma_first_with_kind_push_other(hs4, HeaderView::To(orig_from), sub, 0);
    let hs6a = spec_drop_kind(hs5, HeaderKind::From, 0);
    lemma_drop_kind_first_other(hs5, sub, HeaderKind::From, 0);
    let hs6 = hs6a.push(HeaderView::From(from));
    lemma_first_with_kind_push_other(hs6a, HeaderView::From(from), sub, 0);
    let hs7a = spec_drop_kind(hs6, HeaderKind::InReplyTo, 0);
    lemma_drop_kind_first_other(hs6, sub, HeaderKind::InReplyTo, 0);
    let hs7 = spec_drop_kind(hs7a, HeaderKind::References, 0);
    lemma_drop_kind_first_other(hs7a, sub, HeaderKind::References, 0);
    let hs8 = match first_with_kind(hs0, HeaderKind::MessageID, 0) {
        Some(mid) => hs7.push(HeaderView::InReplyTo(mid)).push(HeaderView::References(mid)),
        None => hs7,
    };
    match first_with_kind(hs0, HeaderKind::MessageID, 0) {
        Some(mid) => {
            lemma_first_with_kind_push_other(hs7, HeaderView::InReplyTo(mid), sub, 0);
            lemma_first_with_kind_push_other(
                hs7.push(HeaderView::InReplyTo(mid)),
                HeaderView::References(mid),
                sub,
                0,
            );
        },
        None => {},
    }
    let dropped = spec_drop_kind(hs8, HeaderKind::MessageID, 0);
    lemma_drop_kind_first_other(hs8, sub, HeaderKind::MessageID, 0);
    let hs9 = dropped.push(HeaderView::MessageID(msg_id));
    lemma_first_with_kind_push_other(dropped, HeaderView::MessageID(msg_id), sub, 0);
    lemma_subject_step_first(hs9);
    lemma_sort_headers_first(spec_subject_step(hs9), hs0, sub);
    match first_with_kind(hs0, sub, 0) {
        Some(s) => {
            lemma_re_subject_idempotent(s);
        },
        None => {
            reveal_strlit("Re: ");
            assert("Re: "@.take("Re: "@.len() as int) =~= "Re: "@);
        },
    }
}

/// Threading: the reply's headers always carry a Message-ID holding the
/// fresh id, and, when the original headers carry a Message-ID, also an
/// In-Reply-To and a References anchored to its payload.
pub proof fn lemma_reply_is_threaded(
    from: Seq<char>,
    hs0: Seq<HeaderView>,
    date: Seq<char>,
    msg_id: Seq<char>,
)
    ensures
        spec_reply_headers(from, hs0, date, msg_id).contains(HeaderView::MessageID(msg_id)),
        first_with_kind(hs0, HeaderKind::MessageID, 0) is Some ==> spec_reply_headers(
            from,
            hs0,
            date,
            msg_id,
        ).contains(HeaderView::InReplyTo(spec_orig_message_id(hs0))),
        first_with_kind(hs0, HeaderKind::MessageID, 0) is Some ==> spec_reply_headers(
            from,
            hs0,
            date,
            msg_id,
        ).contains(HeaderView::References(spec_orig_message_id(hs0))),
{
    let hs2 = spec_to_into_cc(spec_rewrite_dates(hs0, date));
    let ccs = spec_cc_payloads(hs2, 0);
    let hs3 = spec_drop_kind(hs2, HeaderKind::Cc, 0);
    let kept = spec_drop_eq(spec_split_pat2(spec_join(ccs, ", "@, 0), ',', ' ', 0), from, 0);
    let hs4 = if ccs.len() > 0 && kept.len() > 0 {
        hs3.push(HeaderView::Cc(spec_wrap_header(spec_join(kept, ","@, 0))))
    } else {
        hs3
    };
    let orig_from = match first_with_kind(hs0, HeaderKind::From, 0) {
        Some(x) => x,
        None => Seq::<char>::empty(),
    };
    let hs6 = spec_drop_kind(hs4.push(HeaderView::To(orig_from)), HeaderKind::From, 0).push(
        HeaderView::From(from),
    );
    let hs7 = spec_drop_kind(
        spec_drop_kind(hs6, HeaderKind::InReplyTo, 0),
        HeaderKind::References,
        0,
    );
    let hs8 = match first_with_kind(hs0, HeaderKind::MessageID, 0) {
        Some(mid) => hs7.push(HeaderView::InReplyTo(mid)).push(HeaderView::References(mid)),
        None => hs7,
    };
    let hs9 = spec_drop_kind(hs8, HeaderKind::MessageID, 0).push(HeaderView::MessageID(msg_id));
    let hs10 = spec_subject_step(hs9);
    assert(hs9[hs9.len() - 1] == HeaderView::MessageID(msg_id));
    assert(hs9.contains(HeaderView::MessageID(msg_id)));
    lemma_subject_step_contains(hs9, HeaderView::MessageID(msg_id));
    lemma_sort_headers_contains(hs10, hs0, HeaderView::MessageID(msg_id));
    if first_with_kind(hs0, HeaderKind::MessageID, 0) is Some {
        let m = spec_orig_message_id(hs0);
        let irt = HeaderView::InReplyTo(m);
        let rf = HeaderView::References(m);
        assert(hs8[hs8.len() - 2] == irt);
        assert(hs8[hs8.len() - 1] == rf);
        lemma_drop_kind_contains(hs8, HeaderKind::MessageID, 0, hs8.len() - 2);
        lemma_drop_kind_contains(hs8, HeaderKind::MessageID, 0, hs8.len() - 1);
        let dropped = spec_drop_kind(hs8, HeaderKind::MessageID, 0);
        let i1 = choose|i: int| 0 <= i < dropped.len() && dropped[i] == irt;
        assert(hs9[i1] == irt);
        let i2 = choose|i: int| 0 <= i < dropped.len() && dropped[i] == rf;
        assert(hs9[i2] == rf);
        lemma_subject_step_contains(hs9, irt);
        lemma_subject_step_contains(hs9, rf);
        lemma_sort_headers_contains(hs10, hs0, irt);
        lemma_sort_headers_contains(hs10, hs0, rf);
    }
}

/// The full text of the reply: rendered header lines joined by newline, a
/// blank line, then the quoted body.
pub open spec fn spec_reply_text(
    from: Seq<char>,
    m: Seq<char>,
    date: Seq<char>,
    msg_id: Seq<char>,
) -> Seq<char> {
    let body = spec_split_message(m).1;
    let hs0 = spec_headers_of(m);
    let orig_date = match first_with_kind(hs0, HeaderKind::Date, 0) {
        Some(x) => x,
        None => Seq::<char>::empty(),
    };
    let orig_from = match first_with_kind(hs0, HeaderKind::From, 0) {
        Some(x) => x,
        None => Seq::<char>::empty(),
    };
    spec_join(spec_rendered(spec_reply_headers(from, hs0, date, msg_id)), "\n"@, 0) + "\n\n"@
        + spec_quoted_body(orig_date, orig_from, body)
}

/// What composing a reply returns: the reply text, or the error naming the
/// missing header, Date being checked first.
pub open spec fn spec_format_reply(
    from: Seq<char>,
    m: Seq<char>,
    date: Seq<char>,
    msg_id: Seq<char>,
) -> Result<Seq<char>, ComposeError> {
    if !spec_has_date(m) {
        Err(ComposeError::MissingDate)
    } else if !spec_has_from(m) {
        Err(ComposeError::MissingFrom)
    } else {
        Ok(spec_reply_text(from, m, date, msg_id))
    }
}

/// Compose the reply over character vectors.
fn format_reply_chars(
    from: &Vec<char>,
    message: &Vec<char>,
    date: &Vec<char>,
    msg_id: &Vec<char>,
) -> (r: Result<Vec<char>, ComposeError>)
    ensures
        spec_has_date(message@) && spec_has_from(message@) ==> (r matches Ok(v) && v@
            == spec_reply_text(from@, message@, date@, msg_id@)),
        !spec_has_date(message@) ==> r == Err::<Vec<char>, ComposeError>(ComposeError::MissingDate),
        spec_has_date(message@) && !spec_has_from(message@) ==> r == Err::<
            Vec<char>,
            ComposeError,
        >(ComposeError::MissingFrom),
{
    let (block, body) = split_message(message);
    let hs0 = Header::from_block_chars(&block);
    let ghost hv0 = hviews(hs0@);
    proof {
        assert(hv0 == spec_headers_of(message@));
    }
    let orig_date = match find_kind(&hs0, HeaderKind::Date) {
        Some(s) => str_to_chars(s.as_str()),
        None => {
            return Err(ComposeError::MissingDate);
        },
    };
    let orig_from = match find_kind(&hs0, HeaderKind::From) {
        Some(s) => str_to_chars(s.as_str()),
        None => {
            return Err(ComposeError::MissingFrom);
        },
    };
    let hs1 = rewrite_dates(&hs0, date);
    let hs2 = to_into_cc(&hs1);
    let ccs = collect_cc(&hs2);
    let mut hs4 = drop_kind(&hs2, HeaderKind::Cc);
    if ccs.len() > 0 {
        let joined = join_pieces(&ccs, ", ");
        let pieces = split_pat2(&joined, ',', ' ');
        let kept = drop_eq(&pieces, from);
        if kept.len() > 0 {
            let payload = wrap_header_chars(&join_pieces(&kept, ","));
            let ghost hs4v = hs4@;
            hs4.push(Header::Cc(chars_to_string(&payload)));
            proof {
                lemma_hviews_push(hs4v, hs4@[hs4@.len() - 1]);
            }
        }
    }
    let ghost hv4 = hs4@;
    hs4.push(Header::To(chars_to_string(&orig_from)));
    proof {
        lemma_hviews_push(hv4, hs4@[hs4@.len() - 1]);
    }
    let mut hs6 = drop_kind(&hs4, HeaderKind::From);
    let ghost hv6a = hs6@;
    hs6.push(Header::From(chars_to_string(from)));
    proof {
        lemma_hviews_push(hv6a, hs6@[hs6@.len() - 1]);
    }
    let hs7a = drop_kind(&hs6, HeaderKind::InReplyTo);
    let mut hs7 = drop_kind(&hs7a, HeaderKind::References);
    match find_kind(&hs0, HeaderKind::MessageID) {
        Some(mid) => {
            let ghost hv7a = hs7@;
            hs7.push(Header::InReplyTo(mid.clone()));
            proof {
                lemma_hviews_push(hv7a, hs7@[hs7@.len() - 1]);
            }
            let ghost hv7b = hs7@;
            hs7.push(Header::References(mid));
            proof {
                lemma_hviews_push(hv7b, hs7@[hs7@.len() - 1]);
            }
        },
        None => {},
    }
    let mut hs9 = drop_kind(&hs7, HeaderKind::MessageID);
    let ghost hv9a = hs9@;
    hs9.push(Header::MessageID(chars_to_string(msg_id)));
    proof {
        lemma_hviews_push(hv9a, hs9@[hs9@.len() - 1]);
    }
    let hs10 = subject_step(&hs9);
    let hs11 = sort_headers(&hs10, &hs0);
    proof {
        assert(hviews(hs11@) == spec_reply_headers(from@, hv0, date@, msg_id@));
    }
    let rendered = render_all(&hs11);
    let mut out = join_pieces(&rendered, "\n");
    append_str(&mut out, "\n\n");
    let qb = quoted_body(&orig_date, &orig_from, &body);
    append_chars(&mut out, &qb);
    proof {
        assert(out@ =~= spec_reply_text(from@, message@, date@, msg_id@));
    }
    Ok(out)
}

/// Compose a reply to `message` as if it comes from `from`, with the given
/// date line and fresh message id.
pub fn format_reply_with(from: &str, message: &str, date: &str, message_id: &str) -> (r: Result<
    String,
    ComposeError,
>)
    ensures
        r matches Ok(s) ==> spec_format_reply(from@, message@, date@, message_id@) == Ok::<
            Seq<char>,
            ComposeError,
        >(s@),
        r matches Err(e) ==> spec_format_reply(from@, message@, date@, message_id@) == Err::<
            Seq<char>,
            ComposeError,
        >(e),
{
    match format_reply_chars(
        &str_to_chars(from),
        &str_to_chars(message),
        &str_to_chars(date),
        &str_to_chars(message_id),
    ) {
        Ok(v) => Ok(chars_to_string(&v)),
        Err(e) => Err(e),
    }
}

/// Compose a reply to `message` as if it comes from `from`, dated now, with
/// a fresh message id naming `hostname`.  The clock decides the date and the
/// id, so the text is pinned only up to them; whether composition succeeds,
/// and with which error it fails, depends on the message alone.
pub fn format_reply(from: &str, message: &str, hostname: &str) -> (r: Result<String, ComposeError>)
    ensures
        r is Ok <==> spec_has_date(message@) && spec_has_from(message@),
        r == Err::<String, ComposeError>(ComposeError::MissingDate) <==> !spec_has_date(message@),
        r == Err::<String, ComposeError>(ComposeError::MissingFrom) <==> (spec_has_date(message@)
            && !spec_has_from(message@)),
        r matches Ok(s) ==> exists|d: Seq<char>, ts: i64|
            spec_format_reply(from@, message@, d, spec_message_id(ts as int, hostname@)) == Ok::<
                Seq<char>,
                ComposeError,
            >(s@),
{
    let date = now_rfc2822();
    let ts = now_timestamp();
    let mid = generate_message_id(ts, hostname);
    let r = format_reply_with(from, message, date.as_str(), mid.as_str());
    proof {
        if r is Ok {
            let s = r->Ok_0;
            assert(spec_format_reply(from@, message@, date@, spec_message_id(ts as int, hostname@))
                == Ok::<Seq<char>, ComposeError>(s@));
            assert(exists|d: Seq<char>, t: i64|
                spec_format_reply(from@, message@, d, spec_message_id(t as int, hostname@)) == Ok::<
                    Seq<char>,
                    ComposeError,
                >(s@));
        }
    }
    r
}

} // verus!
