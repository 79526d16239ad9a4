//! The pure decisions of the maintenance loop: recipient fan-out, backend
//! model selection, delivery filenames, and the per-recipient fallback
//! composition.  The loop itself — directory listing, network calls, file
//! renames — lives outside the library and hands these functions plain
//! values.

use vstd::prelude::*;
use vstd::string::StringExecFns;

use crate::chars::append_chars;
use crate::chars::append_str;
use crate::chars::chars_to_string;
use crate::chars::drop_chars;
use crate::chars::find_char;
use crate::chars::find_from;
use crate::chars::lemma_find_from_bounds;
use crate::chars::slice_chars;
use crate::chars::spec_trim;
use crate::chars::str_to_chars;
use crate::chars::trim_chars;
use crate::chars::views;
use crate::compose::format_reply;
use crate::compose::push_dec_digits;
use crate::compose::push_u64;
use crate::compose::spec_dec_digits;
use crate::compose::spec_format_reply;
use crate::compose::spec_has_date;
use crate::compose::spec_has_from;
use crate::compose::spec_message_id;
use crate::compose::spec_reply_text;
use crate::compose::spec_u64_string;
use crate::compose::ComposeError;
use crate::parse::spec_split_from;
use crate::parse::split_on;
use crate::wrap::spec_wrap_answer;
use crate::wrap::wrap_answer;

verus! {

/// The views of a sequence of strings.
pub open spec fn sviews(ss: Seq<String>) -> Seq<Seq<char>> {
    ss.map_values(|s: String| s@)
}

/// The recipients named by a To payload: its comma-separated pieces, each
/// trimmed of surrounding whitespace.
pub open spec fn spec_recipients(to: Seq<char>) -> Seq<Seq<char>> {
    spec_split_from(to, ',', 0).map_values(|p: Seq<char>| spec_trim(p))
}

/// Split a To payload into its recipients.
pub fn split_recipients(to: &str) -> (r: Vec<String>)
    ensures
        sviews(r@) == spec_recipients(to@),
{
    let t = str_to_chars(to);
    let pieces = split_on(&t, ',');
    let mut out: Vec<String> = Vec::new();
    let mut i: usize = 0;
    while i < pieces.len()
        invariant
            i <= pieces@.len(),
            out@.len() == i,
            views(pieces@) == spec_split_from(to@, ',', 0),
            forall|j: int| 0 <= j < i ==> out@[j]@ == spec_recipients(to@)[j],
        decreases pieces@.len() - i,
    {
        proof {
            assert(views(pieces@)[i as int] == pieces@[i as int]@);
        }
        out.push(chars_to_string(&trim_chars(&pieces[i])));
        i = i + 1;
    }
    proof {
        assert(sviews(out@) =~= spec_recipients(to@));
    }
    out
}

/// The backend model identifier for a recipient: the local part before the
/// first `@`, or the whole recipient when it has none.
pub open spec fn spec_model_for(to: Seq<char>) -> Seq<char> {
    to.take(find_from(to, '@', 0))
}

/// The backend model identifier derived from a recipient.
pub fn model_for_recipient(to: &str) -> (r: String)
    ensures
        r@ == spec_model_for(to@),
{
    let t = str_to_chars(to);
    let j = find_char(&t, '@', 0);
    proof {
        lemma_find_from_bounds(t@, '@', 0);
    }
    let p = slice_chars(&t, 0, j);
    proof {
        assert(p@ =~= t@.take(find_from(t@, '@', 0)));
    }
    chars_to_string(&p)
}

/// The delivery filename for a message: the whole seconds, a dot, exactly
/// five fractional digits, the fixed sequence token, the host, and the
/// trailing delivery-flag marker.
pub open spec fn spec_delivery_filename(secs: int, frac: int, host: Seq<char>) -> Seq<char> {
    spec_u64_string(secs) + "."@ + spec_dec_digits(100000 + frac).skip(1) + "_1."@ + host + ":2,"@
}

/// The filename a message is delivered under.  `frac` counts hundred
/// thousandths of a second.
pub fn delivery_filename(secs: u64, frac: u32, host: &str) -> (r: String)
    requires
        frac < 100000,
    ensures
        r@ == spec_delivery_filename(secs as int, frac as int, host@),
{
    let mut out: Vec<char> = Vec::new();
    push_u64(&mut out, secs);
    append_str(&mut out, ".");
    let mut t: Vec<char> = Vec::new();
    push_dec_digits(&mut t, 100000u64 + frac as u64);
    proof {
        assert(t@ =~= spec_dec_digits(100000 + frac as int));
        assert(t@.len() >= 1);
    }
    let fd = drop_chars(&t, 1);
    append_chars(&mut out, &fd);
    append_str(&mut out, "_1.");
    append_str(&mut out, host);
    append_str(&mut out, ":2,");
    proof {
        assert(out@ =~= spec_delivery_filename(secs as int, frac as int, host@));
    }
    chars_to_string(&out)
}

/// The best-effort message delivered when a recipient's generation call
/// fails: the composed reply with the error notice appended, or, when even
/// composition fails, a minimal error text naming the missing header.
pub fn compose_error_reply(from: &str, message: &str, hostname: &str, error_text: &str) -> (r:
    String)
    ensures
        spec_has_date(message@) && spec_has_from(message@) ==> exists|d: Seq<char>, ts: i64|
            r@ == spec_reply_text(from@, message@, d, spec_message_id(ts as int, hostname@))
                + "\n\n"@ + "error processing: "@ + error_text@,
        !spec_has_date(message@) ==> r@ == "error processing: "@ + "missing Date header"@ + "\n"@,
        spec_has_date(message@) && !spec_has_from(message@) ==> r@ == "error processing: "@
            + "missing From header"@ + "\n"@,
{
    match format_reply(from, message, hostname) {
        Ok(email) => {
            let ghost e0 = email@;
            let mut s = email;
            s.append("\n\n");
            s.append("error processing: ");
            s.append(error_text);
            proof {
                let (d, ts) = choose|d: Seq<char>, ts: i64|
                    spec_format_reply(from@, message@, d, spec_message_id(ts as int, hostname@))
                        == Ok::<Seq<char>, ComposeError>(e0);
                assert(s@ =~= spec_reply_text(
                    from@,
                    message@,
                    d,
                    spec_message_id(ts as int, hostname@),
                ) + "\n\n"@ + "error processing: "@ + error_text@);
            }
            s
        },
        Err(e) => {
            let mut s = String::from_str("error processing: ");
            let d = e.describe();
            s.append(d.as_str());
            s.append("\n");
            s
        },
    }
}

/// The reply delivered when a recipient's generation call succeeds: the
/// composed reply with the wrapped generated answer appended after a blank
/// line.
pub fn compose_reply_with_answer(from: &str, message: &str, hostname: &str, answer: &str) -> (r:
    Result<String, ComposeError>)
    requires
        answer@.len() + 2 <= usize::MAX,
    ensures
        r is Ok <==> spec_has_date(message@) && spec_has_from(message@),
        r == Err::<String, ComposeError>(ComposeError::MissingDate) <==> !spec_has_date(message@),
        r == Err::<String, ComposeError>(ComposeError::MissingFrom) <==> (spec_has_date(message@)
            && !spec_has_from(message@)),
        r matches Ok(s) ==> exists|d: Seq<char>, ts: i64|
            s@ == spec_reply_text(from@, message@, d, spec_message_id(ts as int, hostname@))
                + "\n\n"@ + spec_wrap_answer(answer@),
{
    match format_reply(from, message, hostname) {
        Ok(email) => {
            let ghost e0 = email@;
            let mut s = email;
            s.append("\n\n");
            let w = wrap_answer(answer);
            s.append(w.as_str());
            proof {
                let (d, ts) = choose|d: Seq<char>, ts: i64|
                    spec_format_reply(from@, message@, d, spec_message_id(ts as int, hostname@))
                        == Ok::<Seq<char>, ComposeError>(e0);
                assert(s@ =~= spec_reply_text(
                    from@,
                    message@,
                    d,
                    spec_message_id(ts as int, hostname@),
                ) + "\n\n"@ + spec_wrap_answer(answer@));
            }
            Ok(s)
        },
        Err(e) => Err(e),
    }
}

} // verus!
