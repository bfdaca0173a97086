use aws_ses_relay::header::{
    extract_field_name, find_body_boundary, parse_header_fields, split_message,
};
use aws_ses_relay::rewrite::{
    build_prefixed_subject, build_reply_to, build_rewritten_from, detect_line_ending,
    rewrite_message, unfold_value, value_after_colon,
};

fn names(raw: &[u8]) -> Vec<String> {
    let (header, _, _) = split_message(raw);
    let fields = parse_header_fields(header);
    let whole: Vec<u8> = fields.iter().flat_map(|field| field.bytes.clone()).collect();
    assert_eq!(whole, header, "the fields make up the header block");
    fields.into_iter().map(|field| field.name_lower).collect()
}

#[test]
fn a_message_splits_at_its_first_blank_line() {
    let parts: (&[u8], &[u8], &[u8]) = (b"A: b\r\n", b"\r\n", b"c\n\nd");
    assert_eq!(split_message(b"A: b\r\n\r\nc\n\nd"), parts);
    assert_eq!(find_body_boundary(b"A: b\n\nc"), Some((5, 6)));
    assert_eq!(find_body_boundary(b"\nA: b"), Some((0, 1)));
    assert_eq!(find_body_boundary(b"A: b\n\rc\n"), None);
    assert_eq!(find_body_boundary(b""), None);
}

#[test]
fn folded_lines_belong_to_their_field() {
    assert_eq!(
        names(b"A: 1\r\n 2\r\n\t3\r\nB : x\r\nno colon\r\n: y\r\n\r\nC: z"),
        vec!["a", "b", "", ""]
    );
    // A block that starts with a blank byte still starts a field.
    assert_eq!(names(b" X: 1\nFrom: 2"), vec!["x", "from"]);
}

#[test]
fn a_name_stands_on_the_first_line() {
    assert_eq!(extract_field_name(b" Reply-To\t: x: y"), "reply-to");
    assert_eq!(extract_field_name(b"Subject\n : x"), "");
    assert_eq!(extract_field_name(b""), "");
}

#[test]
fn a_name_that_is_not_utf8_has_replacement_characters() {
    assert_eq!(extract_field_name(b"X\xff: 1"), "x\u{fffd}");
    assert_eq!(extract_field_name(b"\xc3(\xf0\x9f: 1"), "\u{fffd}(\u{fffd}");
    assert_eq!(extract_field_name("\u{c4}-Name: 1".as_bytes()), "\u{c4}-name");
}

#[test]
fn unfolding_leaves_one_line() {
    assert_eq!(unfold_value(b" a\r\n \t b\r\n"), b" a b".to_vec());
    assert_eq!(unfold_value(b"a\rb\nc\r\r\n\td\n"), b"abc d".to_vec());
    assert_eq!(unfold_value(b"\xff\r\n"), b"\xff".to_vec());
}

#[test]
fn a_value_follows_the_first_colon() {
    assert_eq!(value_after_colon(b"A: b:c\n"), b" b:c\n".to_vec());
    assert_eq!(value_after_colon(b"none"), b"none".to_vec());
}

#[test]
fn line_ending_is_that_of_the_first_line() {
    assert_eq!(detect_line_ending(b"A: b\r\nC: d\n"), b"\r\n".to_vec());
    assert_eq!(detect_line_ending(b"A: b\nC: d\r\n"), b"\n".to_vec());
    assert_eq!(detect_line_ending(b"A: b"), b"\n".to_vec());
    assert_eq!(detect_line_ending(b""), b"\n".to_vec());
}

#[test]
fn from_keeps_the_display_name() {
    let from = build_rewritten_from(b" \"A, B\"\r\n <a@b>\r\n", "relay@example.com", b"\r\n");
    assert_eq!(from, b"From: \"A, B\" <relay@example.com>\r\n".to_vec());
    // Its value has the same display name.
    let again = build_rewritten_from(&value_after_colon(&from), "relay@example.com", b"\r\n");
    assert_eq!(again, from);
    assert_eq!(
        build_rewritten_from(b" <a@b>\n", "r@e", b"\n"),
        b"From: r@e\n".to_vec()
    );
}

#[test]
fn reply_to_says_what_from_said() {
    let value = b" A\r\n\tB <a@b>\r\n";
    let reply_to = build_reply_to(value, b"\n");
    assert_eq!(reply_to, b"Reply-To: A B <a@b>\n".to_vec());
    assert_eq!(
        unfold_value(&value_after_colon(&reply_to)),
        unfold_value(value)
    );
}

#[test]
fn a_prefix_goes_in_front_of_the_text() {
    assert_eq!(
        build_prefixed_subject(b"Subject: \t a\r\n b\r\n", "[X] "),
        b"Subject: \t [X] a\r\n b\r\n".to_vec()
    );
    assert_eq!(build_prefixed_subject(b"Subject:", "X"), b"Subject:X".to_vec());
    assert_eq!(build_prefixed_subject(b"none", "X"), b"none".to_vec());
}

#[test]
fn the_rewritten_message_reads_back_field_by_field() {
    let raw = b"Received: x\r\n y\r\nFROM: A <a@b>\r\nfrom: c\r\nSender: s\r\nSubject: t\r\n\
                Return-Path: r\r\nMessage-Id: m\r\nDKIM-Signature: d\r\n e\r\nX: z\r\n\r\nb\r\n\r\nb";
    let out = rewrite_message(raw, "relay@example.com", Some("P ")).message;
    assert_eq!(names(&out), vec!["received", "from", "subject", "x", "reply-to"]);
    let (_, separator, body) = split_message(&out);
    assert_eq!(separator, b"\r\n");
    assert_eq!(body, b"b\r\n\r\nb");
}
