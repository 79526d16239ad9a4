//! The header model: the closed set of header lines this system understands,
//! with exact parse and render definitions and equality-by-kind.

use vstd::prelude::*;

use crate::chars::append_chars;
use crate::chars::append_str;
use crate::chars::chars_to_string;
use crate::chars::drop_chars;
use crate::chars::equals_str;
use crate::chars::has_prefix;
use crate::chars::starts_with;
use crate::chars::str_to_chars;

verus! {

/// A header line likely to be produced by the mail client.
#[derive(Clone, Debug)]
pub enum Header {
    From(String),
    To(String),
    Cc(String),
    Subject(String),
    Date(String),
    MessageID(String),
    MimeVersion,
    ContentType,
    References(String),
    ContentDisposition,
    InReplyTo(String),
}

/// The mathematical shadow of [`Header`]: payloads as character sequences.
pub enum HeaderView {
    From(Seq<char>),
    To(Seq<char>),
    Cc(Seq<char>),
    Subject(Seq<char>),
    Date(Seq<char>),
    MessageID(Seq<char>),
    MimeVersion,
    ContentType,
    References(Seq<char>),
    ContentDisposition,
    InReplyTo(Seq<char>),
}

impl View for Header {
    type V = HeaderView;

    open spec fn view(&self) -> HeaderView {
        match self {
            Header::From(x) => HeaderView::From(x@),
            Header::To(x) => HeaderView::To(x@),
            Header::Cc(x) => HeaderView::Cc(x@),
            Header::Subject(x) => HeaderView::Subject(x@),
            Header::Date(x) => HeaderView::Date(x@),
            Header::MessageID(x) => HeaderView::MessageID(x@),
            Header::MimeVersion => HeaderView::MimeVersion,
            Header::ContentType => HeaderView::ContentType,
            Header::References(x) => HeaderView::References(x@),
            Header::ContentDisposition => HeaderView::ContentDisposition,
            Header::InReplyTo(x) => HeaderView::InReplyTo(x@),
        }
    }
}

/// The rendered line of a header.  Marker headers render as their fixed line;
/// rendering is the exact inverse of parsing.
pub open spec fn spec_render(h: HeaderView) -> Seq<char> {
    match h {
        HeaderView::From(x) => "From: "@ + x,
        HeaderView::To(x) => "To: "@ + x,
        HeaderView::Cc(x) => "Cc: "@ + x,
        HeaderView::Subject(x) => "Subject: "@ + x,
        HeaderView::Date(x) => "Date: "@ + x,
        HeaderView::MessageID(x) => "Message-ID: "@ + x,
        HeaderView::MimeVersion => "MIME-Version: 1.0"@,
        HeaderView::ContentType => "Content-Type: text/plain; charset=us-ascii"@,
        HeaderView::References(x) => "References: "@ + x,
        HeaderView::ContentDisposition => "Content-Disposition: inline"@,
        HeaderView::InReplyTo(x) => "In-Reply-To: "@ + x,
    }
}

/// The header a logical line parses to, or `None` for an unrecognized line.
/// A fixed-prefix match against the closed set of recognized header names,
/// case- and spacing-exact.
pub open spec fn spec_parse_line(line: Seq<char>) -> Option<HeaderView> {
    if starts_with(line, "From: "@) {
        Some(HeaderView::From(line.skip("From: "@.len() as int)))
    } else if starts_with(line, "To: "@) {
        Some(HeaderView::To(line.skip("To: "@.len() as int)))
    } else if starts_with(line, "Cc: "@) {
        Some(HeaderView::Cc(line.skip("Cc: "@.len() as int)))
    } else if starts_with(line, "Subject: "@) {
        Some(HeaderView::Subject(line.skip("Subject: "@.len() as int)))
    } else if starts_with(line, "Date: "@) {
        Some(HeaderView::Date(line.skip("Date: "@.len() as int)))
    } else if starts_with(line, "Message-ID: "@) {
        Some(HeaderView::MessageID(line.skip("Message-ID: "@.len() as int)))
    } else if line == "MIME-Version: 1.0"@ {
        Some(HeaderView::MimeVersion)
    } else if line == "Content-Type: text/plain; charset=us-ascii"@ {
        Some(HeaderView::ContentType)
    } else if starts_with(line, "References: "@) {
        Some(HeaderView::References(line.skip("References: "@.len() as int)))
    } else if line == "Content-Disposition: inline"@ {
        Some(HeaderView::ContentDisposition)
    } else if starts_with(line, "In-Reply-To: "@) {
        Some(HeaderView::InReplyTo(line.skip("In-Reply-To: "@.len() as int)))
    } else {
        None
    }
}

/// The kind of a header: its variant tag, payload forgotten.
#[derive(Clone, Copy, Debug, PartialEq, Eq, Structural)]
pub enum HeaderKind {
    From,
    To,
    Cc,
    Subject,
    Date,
    MessageID,
    MimeVersion,
    ContentType,
    References,
    ContentDisposition,
    InReplyTo,
}

/// The kind of a header view.
pub open spec fn spec_kind(h: HeaderView) -> HeaderKind {
    match h {
        HeaderView::From(_) => HeaderKind::From,
        HeaderView::To(_) => HeaderKind::To,
        HeaderView::Cc(_) => HeaderKind::Cc,
        HeaderView::Subject(_) => HeaderKind::Subject,
        HeaderView::Date(_) => HeaderKind::Date,
        HeaderView::MessageID(_) => HeaderKind::MessageID,
        HeaderView::MimeVersion => HeaderKind::MimeVersion,
        HeaderView::ContentType => HeaderKind::ContentType,
        HeaderView::References(_) => HeaderKind::References,
        HeaderView::ContentDisposition => HeaderKind::ContentDisposition,
        HeaderView::InReplyTo(_) => HeaderKind::InReplyTo,
    }
}

/// The payload of a header view; marker headers carry the empty payload.
pub open spec fn spec_payload(h: HeaderView) -> Seq<char> {
    match h {
        HeaderView::From(x) => x,
        HeaderView::To(x) => x,
        HeaderView::Cc(x) => x,
        HeaderView::Subject(x) => x,
        HeaderView::Date(x) => x,
        HeaderView::MessageID(x) => x,
        HeaderView::MimeVersion => Seq::empty(),
        HeaderView::ContentType => Seq::empty(),
        HeaderView::References(x) => x,
        HeaderView::ContentDisposition => Seq::empty(),
        HeaderView::InReplyTo(x) => x,
    }
}

/// Two headers are of the same kind iff their variant tags match, independent
/// of payload.
pub open spec fn spec_same_kind(a: HeaderView, b: HeaderView) -> bool {
    spec_kind(a) == spec_kind(b)
}

/// The views of a sequence of headers.
pub open spec fn hviews(hs: Seq<Header>) -> Seq<HeaderView> {
    hs.map_values(|h: Header| h@)
}

pub proof fn lemma_hviews_push(hs: Seq<Header>, h: Header)
    ensures
        hviews(hs.push(h)) == hviews(hs).push(h@),
{
    assert(hviews(hs.push(h)) =~= hviews(hs).push(h@));
}

/// The payload of the first header of kind `k` at or after `i`, if any.
pub open spec fn first_with_kind(hs: Seq<HeaderView>, k: HeaderKind, i: int) -> Option<Seq<char>>
    decreases hs.len() - i,
{
    if i < 0 || i >= hs.len() {
        None
    } else if spec_kind(hs[i]) == k {
        Some(spec_payload(hs[i]))
    } else {
        first_with_kind(hs, k, i + 1)
    }
}

/// The index of the first header of kind `k` at or after `i`, or `hs.len()`.
pub open spec fn first_index_of_kind(hs: Seq<HeaderView>, k: HeaderKind, i: int) -> int
    decreases hs.len() - i,
{
    if i < 0 || i >= hs.len() {
        hs.len() as int
    } else if spec_kind(hs[i]) == k {
        i
    } else {
        first_index_of_kind(hs, k, i + 1)
    }
}

/// Reveal every line literal of the recognized header set.
proof fn reveal_header_literals()
    ensures
        "From: "@.len() == 6,
        "To: "@.len() == 4,
        "Cc: "@.len() == 4,
        "Subject: "@.len() == 9,
        "Date: "@.len() == 6,
        "Message-ID: "@.len() == 12,
        "MIME-Version: 1.0"@.len() == 17,
        "Content-Type: text/plain; charset=us-ascii"@.len() == 42,
        "References: "@.len() == 12,
        "Content-Disposition: inline"@.len() == 27,
        "In-Reply-To: "@.len() == 13,
        "From: "@[0] == 'F',
        "To: "@[0] == 'T',
        "Cc: "@[0] == 'C',
        "Cc: "@[1] == 'c',
        "Subject: "@[0] == 'S',
        "Date: "@[0] == 'D',
        "Message-ID: "@[0] == 'M',
        "Message-ID: "@[1] == 'e',
        "MIME-Version: 1.0"@[0] == 'M',
        "MIME-Version: 1.0"@[1] == 'I',
        "Content-Type: text/plain; charset=us-ascii"@[0] == 'C',
        "Content-Type: text/plain; charset=us-ascii"@[1] == 'o',
        "References: "@[0] == 'R',
        "Content-Disposition: inline"@[0] == 'C',
        "Content-Disposition: inline"@[1] == 'o',
        "In-Reply-To: "@[0] == 'I',
{
    reveal_strlit("From: ");
    reveal_strlit("To: ");
    reveal_strlit("Cc: ");
    reveal_strlit("Subject: ");
    reveal_strlit("Date: ");
    reveal_strlit("Message-ID: ");
    reveal_strlit("MIME-Version: 1.0");
    reveal_strlit("Content-Type: text/plain; charset=us-ascii");
    reveal_strlit("References: ");
    reveal_strlit("Content-Disposition: inline");
    reveal_strlit("In-Reply-To: ");
}

/// If a prefix literal's first character differs from the line's first
/// character, the line does not start with that prefix.
proof fn lemma_no_prefix_by_first(l: Seq<char>, p: Seq<char>)
    requires
        l.len() > 0,
        p.len() > 0,
        l[0] != p[0],
    ensures
        !starts_with(l, p),
{
    if starts_with(l, p) {
        assert(l.take(p.len() as int)[0] == l[0]);
    }
}

/// Round trip: every recognized header parses back from its rendered line to
/// itself; rendering is the exact inverse of parsing.
pub proof fn lemma_render_parse_round_trip(h: HeaderView)
    ensures
        spec_parse_line(spec_render(h)) == Some(h),
{
    reveal_header_literals();
    let l = spec_render(h);
    match h {
        HeaderView::From(x) => {
            assert(l.take("From: "@.len() as int) =~= "From: "@);
            assert(l.skip("From: "@.len() as int) =~= x);
        },
        HeaderView::To(x) => {
            assert(l[0] == 'T');
            lemma_no_prefix_by_first(l, "From: "@);
            assert(l.take("To: "@.len() as int) =~= "To: "@);
            assert(l.skip("To: "@.len() as int) =~= x);
        },
        HeaderView::Cc(x) => {
            assert(l[0] == 'C');
            lemma_no_prefix_by_first(l, "From: "@);
            lemma_no_prefix_by_first(l, "To: "@);
            assert(l.take("Cc: "@.len() as int) =~= "Cc: "@);
            assert(l.skip("Cc: "@.len() as int) =~= x);
        },
        HeaderView::Subject(x) => {
            assert(l[0] == 'S');
            lemma_no_prefix_by_first(l, "From: "@);
            lemma_no_prefix_by_first(l, "To: "@);
            lemma_no_prefix_by_first(l, "Cc: "@);
            assert(l.take("Subject: "@.len() as int) =~= "Subject: "@);
            assert(l.skip("Subject: "@.len() as int) =~= x);
        },
        HeaderView::Date(x) => {
            assert(l[0] == 'D');
            lemma_no_prefix_by_first(l, "From: "@);
            lemma_no_prefix_by_first(l, "To: "@);
            lemma_no_prefix_by_first(l, "Cc: "@);
            lemma_no_prefix_by_first(l, "Subject: "@);
            assert(l.take("Date: "@.len() as int) =~= "Date: "@);
            assert(l.skip("Date: "@.len() as int) =~= x);
        },
        HeaderView::MessageID(x) => {
            assert(l[0] == 'M');
            lemma_no_prefix_by_first(l, "From: "@);
            lemma_no_prefix_by_first(l, "To: "@);
            lemma_no_prefix_by_first(l, "Cc: "@);
            lemma_no_prefix_by_first(l, "Subject: "@);
            lemma_no_prefix_by_first(l, "Date: "@);
            assert(l.take("Message-ID: "@.len() as int) =~= "Message-ID: "@);
            assert(l.skip("Message-ID: "@.len() as int) =~= x);
        },
        HeaderView::MimeVersion => {
            assert(l == "MIME-Version: 1.0"@);
            assert(l[0] == 'M');
            assert(l[1] == 'I');
            lemma_no_prefix_by_first(l, "From: "@);
            lemma_no_prefix_by_first(l, "To: "@);
            lemma_no_prefix_by_first(l, "Cc: "@);
            lemma_no_prefix_by_first(l, "Subject: "@);
            lemma_no_prefix_by_first(l, "Date: "@);
            assert(!starts_with(l, "Message-ID: "@)) by {
                if starts_with(l, "Message-ID: "@) {
                    assert(l.take("Message-ID: "@.len() as int)[1] == l[1]);
                }
            }
        },
        HeaderView::ContentType => {
            assert(l == "Content-Type: text/plain; charset=us-ascii"@);
            assert(l[0] == 'C');
            assert(l[1] == 'o');
            lemma_no_prefix_by_first(l, "From: "@);
            lemma_no_prefix_by_first(l, "To: "@);
            lemma_no_prefix_by_first(l, "Subject: "@);
            lemma_no_prefix_by_first(l, "Date: "@);
            lemma_no_prefix_by_first(l, "Message-ID: "@);
            assert(!starts_with(l, "Cc: "@)) by {
                if starts_with(l, "Cc: "@) {
                    assert(l.take("Cc: "@.len() as int)[1] == l[1]);
                }
            }
            assert(l != "MIME-Version: 1.0"@);
        },
        HeaderView::References(x) => {
            assert(l[0] == 'R');
            lemma_no_prefix_by_first(l, "From: "@);
            lemma_no_prefix_by_first(l, "To: "@);
            lemma_no_prefix_by_first(l, "Cc: "@);
            lemma_no_prefix_by_first(l, "Subject: "@);
            lemma_no_prefix_by_first(l, "Date: "@);
            lemma_no_prefix_by_first(l, "Message-ID: "@);
            assert(l != "MIME-Version: 1.0"@);
            assert(l != "Content-Type: text/plain; charset=us-ascii"@);
            assert(l.take("References: "@.len() as int) =~= "References: "@);
            assert(l.skip("References: "@.len() as int) =~= x);
        },
        HeaderView::ContentDisposition => {
            assert(l == "Content-Disposition: inline"@);
            assert(l[0] == 'C');
            lemma_no_prefix_by_first(l, "From: "@);
            lemma_no_prefix_by_first(l, "To: "@);
            lemma_no_prefix_by_first(l, "Subject: "@);
            lemma_no_prefix_by_first(l, "Date: "@);
            lemma_no_prefix_by_first(l, "Message-ID: "@);
            lemma_no_prefix_by_first(l, "References: "@);
            assert(!starts_with(l, "Cc: "@)) by {
                if starts_with(l, "Cc: "@) {
                    assert(l.take("Cc: "@.len() as int)[1] == l[1]);
                }
            }
            assert(l != "MIME-Version: 1.0"@);
            assert(l != "Content-Type: text/plain; charset=us-ascii"@);
        },
        HeaderView::InReplyTo(x) => {
            assert(l[0] == 'I');
            lemma_no_prefix_by_first(l, "From: "@);
            lemma_no_prefix_by_first(l, "To: "@);
            lemma_no_prefix_by_first(l, "Cc: "@);
            lemma_no_prefix_by_first(l, "Subject: "@);
            lemma_no_prefix_by_first(l, "Date: "@);
            lemma_no_prefix_by_first(l, "Message-ID: "@);
            lemma_no_prefix_by_first(l, "References: "@);
            assert(l != "MIME-Version: 1.0"@);
            assert(l != "Content-Type: text/plain; charset=us-ascii"@);
            assert(l != "Content-Disposition: inline"@);
            assert(l.take("In-Reply-To: "@.len() as int) =~= "In-Reply-To: "@);
            assert(l.skip("In-Reply-To: "@.len() as int) =~= x);
        },
    }
}

impl Header {
    /// Parse one logical header line held as characters.
    pub fn parse_chars(line: &Vec<char>) -> (r: Option<Header>)
        ensures
            r matches Some(h) ==> spec_parse_line(line@) == Some(h@),
            r is None ==> spec_parse_line(line@) is None,
    {
        if has_prefix(line, "From: ") {
            proof {
                reveal_strlit("From: ");
            }
            Some(Header::From(chars_to_string(&drop_chars(line, 6))))
        } else if has_prefix(line, "To: ") {
            proof {
                reveal_strlit("To: ");
            }
            Some(Header::To(chars_to_string(&drop_chars(line, 4))))
        } else if has_prefix(line, "Cc: ") {
            proof {
                reveal_strlit("Cc: ");
            }
            Some(Header::Cc(chars_to_string(&drop_chars(line, 4))))
        } else if has_prefix(line, "Subject: ") {
            proof {
                reveal_strlit("Subject: ");
            }
            Some(Header::Subject(chars_to_string(&drop_chars(line, 9))))
        } else if has_prefix(line, "Date: ") {
            proof {
                reveal_strlit("Date: ");
            }
            Some(Header::Date(chars_to_string(&drop_chars(line, 6))))
        } else if has_prefix(line, "Message-ID: ") {
            proof {
                reveal_strlit("Message-ID: ");
            }
            Some(Header::MessageID(chars_to_string(&drop_chars(line, 12))))
        } else if equals_str(line, "MIME-Version: 1.0") {
            Some(Header::MimeVersion)
        } else if equals_str(line, "Content-Type: text/plain; charset=us-ascii") {
            Some(Header::ContentType)
        } else if has_prefix(line, "References: ") {
            proof {
                reveal_strlit("References: ");
            }
            Some(Header::References(chars_to_string(&drop_chars(line, 12))))
        } else if equals_str(line, "Content-Disposition: inline") {
            Some(Header::ContentDisposition)
        } else if has_prefix(line, "In-Reply-To: ") {
            proof {
                reveal_strlit("In-Reply-To: ");
            }
            Some(Header::InReplyTo(chars_to_string(&drop_chars(line, 13))))
        } else {
            None
        }
    }

    /// Parse one logical header line; `None` reports an unrecognized line.
    pub fn parse_line(line: &str) -> (r: Option<Header>)
        ensures
            r matches Some(h) ==> spec_parse_line(line@) == Some(h@),
            r is None ==> spec_parse_line(line@) is None,
    {
        Header::parse_chars(&str_to_chars(line))
    }

    /// The rendered line of this header, as characters.
    pub fn render_chars(&self) -> (r: Vec<char>)
        ensures
            r@ == spec_render(self@),
    {
        let mut out: Vec<char> = Vec::new();
        match self {
            Header::From(x) => {
                append_str(&mut out, "From: ");
                append_chars(&mut out, &str_to_chars(x.as_str()));
            },
            Header::To(x) => {
                append_str(&mut out, "To: ");
                append_chars(&mut out, &str_to_chars(x.as_str()));
            },
            Header::Cc(x) => {
                append_str(&mut out, "Cc: ");
                append_chars(&mut out, &str_to_chars(x.as_str()));
            },
            Header::Subject(x) => {
                append_str(&mut out, "Subject: ");
                append_chars(&mut out, &str_to_chars(x.as_str()));
            },
            Header::Date(x) => {
                append_str(&mut out, "Date: ");
                append_chars(&mut out, &str_to_chars(x.as_str()));
            },
            Header::MessageID(x) => {
                append_str(&mut out, "Message-ID: ");
                append_chars(&mut out, &str_to_chars(x.as_str()));
            },
            Header::MimeVersion => {
                append_str(&mut out, "MIME-Version: 1.0");
            },
            Header::ContentType => {
                append_str(&mut out, "Content-Type: text/plain; charset=us-ascii");
            },
            Header::References(x) => {
                append_str(&mut out, "References: ");
                append_chars(&mut out, &str_to_chars(x.as_str()));
            },
            Header::ContentDisposition => {
                append_str(&mut out, "Content-Disposition: inline");
            },
            Header::InReplyTo(x) => {
                append_str(&mut out, "In-Reply-To: ");
                append_chars(&mut out, &str_to_chars(x.as_str()));
            },
        }
        proof {
            assert(out@ =~= spec_render(self@));
        }
        out
    }

    /// The rendered line of this header.
    pub fn render(&self) -> (r: String)
        ensures
            r@ == spec_render(self@),
    {
        chars_to_string(&self.render_chars())
    }

    /// The kind of this header.
    pub fn kind(&self) -> (k: HeaderKind)
        ensures
            k == spec_kind(self@),
    {
        match self {
            Header::From(_) => HeaderKind::From,
            Header::To(_) => HeaderKind::To,
            Header::Cc(_) => HeaderKind::Cc,
            Header::Subject(_) => HeaderKind::Subject,
            Header::Date(_) => HeaderKind::Date,
            Header::MessageID(_) => HeaderKind::MessageID,
            Header::MimeVersion => HeaderKind::MimeVersion,
            Header::ContentType => HeaderKind::ContentType,
            Header::References(_) => HeaderKind::References,
            Header::ContentDisposition => HeaderKind::ContentDisposition,
            Header::InReplyTo(_) => HeaderKind::InReplyTo,
        }
    }

    /// A copy of this header with the same view.
    pub fn duplicate(&self) -> (r: Header)
        ensures
            r@ == self@,
    {
        match self {
            Header::From(x) => Header::From(x.clone()),
            Header::To(x) => Header::To(x.clone()),
            Header::Cc(x) => Header::Cc(x.clone()),
            Header::Subject(x) => Header::Subject(x.clone()),
            Header::Date(x) => Header::Date(x.clone()),
            Header::MessageID(x) => Header::MessageID(x.clone()),
            Header::MimeVersion => Header::MimeVersion,
            Header::ContentType => Header::ContentType,
            Header::References(x) => Header::References(x.clone()),
            Header::ContentDisposition => Header::ContentDisposition,
            Header::InReplyTo(x) => Header::InReplyTo(x.clone()),
        }
    }

    /// A copy of this header's payload; marker headers carry the empty one.
    pub fn payload(&self) -> (r: String)
        ensures
            r@ == spec_payload(self@),
    {
        match self {
            Header::From(x) => x.clone(),
            Header::To(x) => x.clone(),
            Header::Cc(x) => x.clone(),
            Header::Subject(x) => x.clone(),
            Header::Date(x) => x.clone(),
            Header::MessageID(x) => x.clone(),
            Header::MimeVersion => String::new(),
            Header::ContentType => String::new(),
            Header::References(x) => x.clone(),
            Header::ContentDisposition => String::new(),
            Header::InReplyTo(x) => x.clone(),
        }
    }

    /// Whether two headers are of the same kind, independent of payload.
    pub fn of_same_type(a: &Self, b: &Self) -> (r: bool)
        ensures
            r == spec_same_kind(a@, b@),
    {
        a.kind() == b.kind()
    }
}

} // verus!
