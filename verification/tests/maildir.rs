use maildir_ai::compose::format_reply_with;
use maildir_ai::compose::ComposeError;
use maildir_ai::extract_to;
use maildir_ai::format_reply;
use maildir_ai::generate_message_id;
use maildir_ai::maintain::compose_error_reply;
use maildir_ai::maintain::compose_reply_with_answer;
use maildir_ai::maintain::delivery_filename;
use maildir_ai::maintain::model_for_recipient;
use maildir_ai::maintain::split_recipients;
use maildir_ai::wrap::wrap_answer;
use maildir_ai::wrap::wrap_line;
use maildir_ai::wrap_header;
use maildir_ai::Header;

#[test]
fn render_parse_round_trip() {
    let headers = vec![
        Header::From("alice@x".to_string()),
        Header::To("bob@y".to_string()),
        Header::Cc("carol@z".to_string()),
        Header::Subject("hello".to_string()),
        Header::Date("Mon, 1 Jan 2024 00:00:00 +0000".to_string()),
        Header::MessageID("<1@h>".to_string()),
        Header::MimeVersion,
        Header::ContentType,
        Header::References("<1@h>".to_string()),
        Header::ContentDisposition,
        Header::InReplyTo("<1@h>".to_string()),
    ];
    for h in &headers {
        let line = h.render();
        let back = Header::parse_line(&line).expect("recognized header must parse back");
        assert_eq!(back.render(), line);
    }
}

#[test]
fn content_type_round_trips() {
    assert_eq!(
        Header::ContentType.render(),
        "Content-Type: text/plain; charset=us-ascii"
    );
    let back = Header::parse_line(&Header::ContentType.render()).unwrap();
    assert_eq!(back.render(), Header::ContentType.render());
}

#[test]
fn parse_line_is_prefix_exact() {
    assert!(Header::parse_line("From: a@x").is_some());
    assert!(Header::parse_line("from: a@x").is_none());
    assert!(Header::parse_line("From:a@x").is_none());
    assert!(Header::parse_line("X-Unknown: nope").is_none());
}

#[test]
fn of_same_type_ignores_payload() {
    let a = Header::To("a@x".to_string());
    let b = Header::To("b@y".to_string());
    let c = Header::Cc("a@x".to_string());
    assert!(Header::of_same_type(&a, &b));
    assert!(!Header::of_same_type(&a, &c));
}

#[test]
fn from_block_folds_continuations() {
    let block = "To: a@x,\n b@y\nX-Junk: dropped\nSubject: hi";
    let hs = Header::from_block(block);
    assert_eq!(hs.len(), 2);
    assert_eq!(hs[0].render(), "To: a@x, b@y");
    assert_eq!(hs[1].render(), "Subject: hi");
}

#[test]
fn extract_to_finds_first_to() {
    let msg = "From: f@x\nTo: a@x\nTo: b@y\n\nbody";
    assert_eq!(extract_to(msg), Some("a@x".to_string()));
    assert_eq!(extract_to("From: f@x\n\nbody"), None);
    // No blank line: header block is treated as empty.
    assert_eq!(extract_to("To: a@x"), None);
}

#[test]
fn reply_is_threaded_and_sorted() {
    let msg = "From: alice@x\nTo: bob@y\nSubject: hi\nDate: old\nMessage-ID: <1@h>\n\nbody line";
    let out = format_reply_with("bob@y", msg, "NEWDATE", "<2@h>").unwrap();
    assert_eq!(
        out,
        "From: bob@y\nTo: alice@x\nSubject: Re: hi\nDate: NEWDATE\nMessage-ID: <2@h>\n\
         In-Reply-To: <1@h>\nReferences: <1@h>\n\nOn old, alice@x wrote:\n> body line"
    );
}

#[test]
fn cc_headers_coalesce_without_self() {
    let msg = "From: f@x\nTo: a@x\nCc: b@x\nCc: c@x\nDate: D\n\n";
    let out = format_reply_with("b@x", msg, "NEWDATE", "<9@h>").unwrap();
    assert_eq!(
        out,
        "From: b@x\nTo: f@x\nCc: a@x,c@x\nDate: NEWDATE\nMessage-ID: <9@h>\nSubject: Re: \n\n\
         On D, f@x wrote:\n> "
    );
}

#[test]
fn subject_prefix_is_idempotent() {
    let msg = "From: alice@x\nTo: bob@y\nSubject: hi\nDate: old\n\nbody";
    let first = format_reply_with("bob@y", msg, "D1", "<1@h>").unwrap();
    assert!(first.contains("Subject: Re: hi\n"));
    let second = format_reply_with("alice@x", &first, "D2", "<2@h>").unwrap();
    assert!(second.contains("Subject: Re: hi\n"));
    assert!(!second.contains("Re: Re: "));
}

#[test]
fn missing_date_fails() {
    let msg = "From: alice@x\nTo: bob@y\n\nbody";
    assert_eq!(
        format_reply_with("bob@y", msg, "D", "<1@h>"),
        Err(ComposeError::MissingDate)
    );
    assert_eq!(
        format_reply("bob@y", msg, "host"),
        Err(ComposeError::MissingDate)
    );
}

#[test]
fn missing_from_fails() {
    let msg = "To: bob@y\nDate: D\n\nbody";
    assert_eq!(
        format_reply_with("bob@y", msg, "D", "<1@h>"),
        Err(ComposeError::MissingFrom)
    );
    assert_eq!(
        format_reply("bob@y", msg, "host"),
        Err(ComposeError::MissingFrom)
    );
}

#[test]
fn error_describe_names_missing_header() {
    assert_eq!(ComposeError::MissingDate.describe(), "missing Date header");
    assert_eq!(ComposeError::MissingFrom.describe(), "missing From header");
}

#[test]
fn long_word_is_never_broken() {
    let word = "a".repeat(80);
    let wrapped = wrap_line(&word);
    assert_eq!(wrapped, format!("\n{} \n", word));
    assert!(wrapped.contains(&word));
}

#[test]
fn short_line_is_packed() {
    assert_eq!(wrap_line("hello world"), "hello world \n");
    assert_eq!(wrap_line(""), "\n");
}

#[test]
fn bullet_item_keeps_indent() {
    let long = "a".repeat(70);
    let line = format!("* {} bbb", long);
    assert_eq!(wrap_line(&line), format!("* {} \n  bbb \n", long));
    let indented = format!("  {} bbb", long);
    assert_eq!(wrap_line(&indented), format!("{} \n  bbb \n", long));
}

#[test]
fn long_word_mid_line_gets_its_own_line() {
    let b = "b".repeat(80);
    let line = format!("aaa {} ccc", b);
    assert_eq!(wrap_line(&line), format!("aaa \n{} \nccc \n", b));
}

#[test]
fn duplicate_ids_and_ccs_collapse() {
    let msg = "From: f@x\nMessage-ID: <1@h>\nMessage-ID: <2@h>\nCc: a@x\nCc: b@x\nDate: D\n\nbody";
    let out = format_reply_with("z@z", msg, "ND", "<9@h>").unwrap();
    let header_block = out.split("\n\n").next().unwrap();
    let mid_count = header_block
        .lines()
        .filter(|l| l.starts_with("Message-ID: "))
        .count();
    assert_eq!(mid_count, 1);
    let cc_count = header_block
        .lines()
        .filter(|l| l.starts_with("Cc: "))
        .count();
    assert_eq!(cc_count, 1);
    assert!(header_block.contains("Message-ID: <9@h>"));
    assert!(header_block.contains("In-Reply-To: <1@h>"));
    assert!(header_block.contains("Cc: a@x,b@x"));
}

#[test]
fn wrap_answer_wraps_each_line() {
    assert_eq!(wrap_answer("x\ny\n"), "x \ny \n");
    assert_eq!(wrap_answer("x\ny"), "x \ny \n");
    assert_eq!(wrap_answer(""), "");
}

#[test]
fn wrap_header_breaks_at_spaces() {
    assert_eq!(wrap_header("short"), "short");
    let a = "a".repeat(60);
    let b = "b".repeat(79);
    let s = format!("{} {}", a, b);
    assert_eq!(wrap_header(&s), format!("{}\n {}", a, b));
}

#[test]
fn wrap_header_leaves_unbreakable_token() {
    let long = "a".repeat(80);
    assert_eq!(wrap_header(&long), long);
}

#[test]
fn unrecognized_line_does_not_eat_the_next() {
    let hs = Header::from_block("X-Foo: bar\nTo: a@x");
    assert_eq!(hs.len(), 1);
    assert_eq!(hs[0].render(), "To: a@x");
}

#[test]
fn message_id_has_timestamp_and_host() {
    assert_eq!(generate_message_id(1234, "host"), "<1234@host>");
    assert_eq!(generate_message_id(0, "localhost"), "<0@localhost>");
    assert_eq!(generate_message_id(-5, "h"), "<-5@h>");
}

#[test]
fn delivery_filename_has_five_fraction_digits() {
    assert_eq!(delivery_filename(1728, 42, "host"), "1728.00042_1.host:2,");
    assert_eq!(delivery_filename(0, 0, "h"), "0.00000_1.h:2,");
    assert_eq!(
        delivery_filename(1728480000, 99999, "box"),
        "1728480000.99999_1.box:2,"
    );
}

#[test]
fn recipients_fan_out() {
    assert_eq!(split_recipients("a@x, b@y"), vec!["a@x", "b@y"]);
    assert_eq!(split_recipients("a@x"), vec!["a@x"]);
    assert_eq!(split_recipients(" a@x ,b@y "), vec!["a@x", "b@y"]);
}

#[test]
fn fanned_out_replies_get_distinct_ids() {
    let msg = "From: f@x\nTo: a@x, b@y\nDate: D\n\nbody";
    let to = extract_to(msg).unwrap();
    let recipients = split_recipients(&to);
    assert_eq!(recipients.len(), 2);
    let r1 = format_reply_with(&recipients[0], msg, "D1", "<10@h>").unwrap();
    let r2 = format_reply_with(&recipients[1], msg, "D1", "<11@h>").unwrap();
    assert!(r1.contains("Message-ID: <10@h>\n"));
    assert!(r2.contains("Message-ID: <11@h>\n"));
    assert_ne!(r1, r2);
}

#[test]
fn model_is_local_part() {
    assert_eq!(model_for_recipient("alice@x"), "alice");
    assert_eq!(model_for_recipient("noat"), "noat");
}

#[test]
fn error_reply_appends_notice() {
    let msg = "From: f@x\nTo: a@x\nDate: D\n\nbody";
    let out = compose_error_reply("a@x", msg, "host", "backend unreachable");
    assert!(out.ends_with("\n\nerror processing: backend unreachable"));
    assert!(out.contains("To: f@x\n"));
}

#[test]
fn error_reply_degrades_to_minimal_text() {
    let msg = "To: a@x\n\nbody";
    let out = compose_error_reply("a@x", msg, "host", "backend unreachable");
    assert_eq!(out, "error processing: missing Date header\n");
}

#[test]
fn reply_with_answer_appends_wrapped_text() {
    let msg = "From: f@x\nTo: a@x\nDate: D\n\nbody";
    let out = compose_reply_with_answer("a@x", msg, "host", "hello there\n").unwrap();
    assert!(out.ends_with("\n\nhello there \n"));
    let bad = compose_reply_with_answer("a@x", "To: a@x\n\n", "host", "hi");
    assert_eq!(bad, Err(ComposeError::MissingDate));
}

#[test]
fn format_reply_uses_clock_and_hostname() {
    let msg = "From: f@x\nTo: a@x\nDate: D\nMessage-ID: <1@h>\n\nbody";
    let out = format_reply("a@x", msg, "myhost").unwrap();
    assert!(out.contains("@myhost>\n"));
    assert!(out.contains("In-Reply-To: <1@h>\n"));
    assert!(out.contains("References: <1@h>\n"));
    assert!(!out.contains("Message-ID: <1@h>"));
}
