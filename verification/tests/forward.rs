use aws_ses_relay::forward::{
    effective_mailbox, evaluate_verdicts, first_matching_key, resolve_destinations,
    rewrite_message, verdict_is_concerning, verdict_matches, DropReason, ForwardError,
    GateDecision,
};
use aws_ses_relay::StringHashMap;

fn mapping(pairs: &[(&str, &[&str])]) -> StringHashMap<Vec<String>> {
    let mut map = StringHashMap::new();
    for (key, destinations) in pairs {
        let addresses = destinations.iter().map(|d| d.to_string()).collect();
        map.insert(key.to_string(), addresses);
    }
    map
}

fn recipients(addresses: &[&str]) -> Vec<String> {
    addresses
        .iter()
        .map(|address| address.to_string())
        .collect()
}

// --- resolve_destinations -------------------------------------------

#[test]
fn resolves_exact_address_match() {
    let map = mapping(&[("info@example.com", &["dest@example.net"])]);
    let resolved =
        resolve_destinations(&recipients(&["info@example.com"]), &map, true).unwrap();
    assert_eq!(resolved.destinations, vec!["dest@example.net"]);
}

#[test]
fn resolves_domain_match() {
    let map = mapping(&[("@example.com", &["dest@example.net"])]);
    let resolved =
        resolve_destinations(&recipients(&["anybody@example.com"]), &map, true).unwrap();
    assert_eq!(resolved.destinations, vec!["dest@example.net"]);
}

#[test]
fn resolves_bare_mailbox_match() {
    let map = mapping(&[("info", &["dest@example.net"])]);
    let resolved =
        resolve_destinations(&recipients(&["info@anything.example"]), &map, true).unwrap();
    assert_eq!(resolved.destinations, vec!["dest@example.net"]);
}

#[test]
fn resolves_catch_all_match() {
    let map = mapping(&[("@", &["dest@example.net"])]);
    let resolved =
        resolve_destinations(&recipients(&["whoever@example.com"]), &map, true).unwrap();
    assert_eq!(resolved.destinations, vec!["dest@example.net"]);
}

#[test]
fn precedence_prefers_exact_over_domain_over_mailbox_over_catch_all() {
    let map = mapping(&[
        ("info@example.com", &["exact@example.net"]),
        ("@example.com", &["domain@example.net"]),
        ("info", &["mailbox@example.net"]),
        ("@", &["catchall@example.net"]),
    ]);
    let resolved =
        resolve_destinations(&recipients(&["info@example.com"]), &map, true).unwrap();
    assert_eq!(resolved.destinations, vec!["exact@example.net"]);

    let map_without_exact = mapping(&[
        ("@example.com", &["domain@example.net"]),
        ("info", &["mailbox@example.net"]),
        ("@", &["catchall@example.net"]),
    ]);
    let resolved =
        resolve_destinations(&recipients(&["info@example.com"]), &map_without_exact, true)
            .unwrap();
    assert_eq!(resolved.destinations, vec!["domain@example.net"]);
}

#[test]
fn plus_tag_is_stripped_when_allowed() {
    let map = mapping(&[("info@example.com", &["dest@example.net"])]);
    let resolved =
        resolve_destinations(&recipients(&["info+sales@example.com"]), &map, true).unwrap();
    assert_eq!(resolved.destinations, vec!["dest@example.net"]);
}

#[test]
fn plus_tag_is_literal_when_disallowed() {
    let map = mapping(&[("info@example.com", &["dest@example.net"])]);
    let resolved =
        resolve_destinations(&recipients(&["info+sales@example.com"]), &map, false).unwrap();
    assert!(
        resolved.destinations.is_empty(),
        "with plus disabled, info+sales is not info"
    );
}

#[test]
fn recipient_is_lowercased_before_matching() {
    let map = mapping(&[("info@example.com", &["dest@example.net"])]);
    let resolved =
        resolve_destinations(&recipients(&["INFO@Example.COM"]), &map, true).unwrap();
    assert_eq!(resolved.destinations, vec!["dest@example.net"]);
}

#[test]
fn destinations_are_deduplicated_deterministically() {
    let map = mapping(&[
        ("a@example.com", &["shared@example.net", "one@example.net"]),
        ("b@example.com", &["shared@example.net", "two@example.net"]),
    ]);
    let resolved =
        resolve_destinations(&recipients(&["a@example.com", "b@example.com"]), &map, true)
            .unwrap();
    assert_eq!(
        resolved.destinations,
        vec!["shared@example.net", "one@example.net", "two@example.net"]
    );
}

#[test]
fn no_match_yields_empty_destinations() {
    let map = mapping(&[("info@example.com", &["dest@example.net"])]);
    let resolved =
        resolve_destinations(&recipients(&["nobody@example.com"]), &map, true).unwrap();
    assert!(resolved.destinations.is_empty());
    assert!(resolved.matched_recipients.is_empty());
}

#[test]
fn more_than_fifty_destinations_errors() {
    let many: Vec<String> = (0..51).map(|n| format!("dest{n}@example.net")).collect();
    let mut map = StringHashMap::new();
    map.insert("@".to_string(), many);
    let error =
        resolve_destinations(&recipients(&["whoever@example.com"]), &map, true).unwrap_err();
    assert_eq!(error, ForwardError::TooManyDestinations { count: 51 });
}

#[test]
fn matched_recipient_records_incoming_and_key() {
    let map = mapping(&[("@example.com", &["dest@example.net"])]);
    let resolved =
        resolve_destinations(&recipients(&["Someone@Example.com"]), &map, true).unwrap();
    assert_eq!(resolved.matched_recipients.len(), 1);
    assert_eq!(
        resolved.matched_recipients[0].incoming,
        "someone@example.com"
    );
    assert_eq!(resolved.matched_recipients[0].matched_key, "@example.com");
}

// --- evaluate_verdicts ----------------------------------------------

#[test]
fn virus_fail_always_drops() {
    assert_eq!(
        evaluate_verdicts(Some("PASS"), Some("FAIL"), false, false),
        GateDecision::Drop(DropReason::Virus)
    );
    assert_eq!(
        evaluate_verdicts(Some("PASS"), Some("FAIL"), true, true),
        GateDecision::Drop(DropReason::Virus)
    );
}

#[test]
fn spam_fail_drops_only_when_drop_spam_set() {
    assert_eq!(
        evaluate_verdicts(Some("FAIL"), Some("PASS"), false, false),
        GateDecision::Forward
    );
    assert_eq!(
        evaluate_verdicts(Some("FAIL"), Some("PASS"), true, false),
        GateDecision::Drop(DropReason::Spam)
    );
}

#[test]
fn unscanned_virus_drops_only_when_drop_unscanned_set() {
    // PROCESSING_FAILED means the scanner could not render a verdict.
    assert_eq!(
        evaluate_verdicts(Some("PASS"), Some("PROCESSING_FAILED"), false, false),
        GateDecision::Forward,
        "fail open by default"
    );
    assert_eq!(
        evaluate_verdicts(Some("PASS"), Some("PROCESSING_FAILED"), false, true),
        GateDecision::Drop(DropReason::UnscannedVirus),
        "fail closed with DROP_UNSCANNED"
    );
}

#[test]
fn non_fail_statuses_all_forward_by_default() {
    for status in ["PASS", "GRAY", "PROCESSING_FAILED", "DISABLED"] {
        assert_eq!(
            evaluate_verdicts(Some(status), Some(status), false, false),
            GateDecision::Forward,
            "status = {status}"
        );
    }
}

#[test]
fn absent_verdicts_forward() {
    assert_eq!(
        evaluate_verdicts(None, None, true, true),
        GateDecision::Forward
    );
}

#[test]
fn concerning_verdict_flags_bypasses_but_not_clean_or_disabled() {
    assert!(verdict_is_concerning(Some("FAIL")));
    assert!(verdict_is_concerning(Some("GRAY")));
    assert!(verdict_is_concerning(Some("PROCESSING_FAILED")));
    assert!(!verdict_is_concerning(Some("PASS")));
    assert!(!verdict_is_concerning(Some("DISABLED")));
    assert!(!verdict_is_concerning(None));
}

// --- rewrite_message ------------------------------------------------

#[test]
fn rewrites_from_preserving_display_name_and_adds_reply_to() {
    let raw = b"From: Alice Sender <alice@example.net>\r\n\
                To: info@example.com\r\n\
                Subject: Hello\r\n\
                \r\n\
                Body text here.\r\n";
    let output = rewrite_message(raw, "relay@example.com", None).message;
    let text = String::from_utf8(output).unwrap();

    assert!(text.contains("From: Alice Sender <relay@example.com>\r\n"));
    assert!(text.contains("Reply-To: Alice Sender <alice@example.net>\r\n"));
    assert!(text.contains("To: info@example.com\r\n"));
    assert!(text.contains("Subject: Hello\r\n"));
    assert!(text.ends_with("\r\nBody text here.\r\n"));
    // The original sender address survives only in Reply-To, not in From.
    assert!(!text.contains("From: Alice Sender <alice@example.net>"));
}

#[test]
fn rewrites_bare_address_from_without_display_name() {
    let raw = b"From: alice@example.net\r\nTo: info@example.com\r\n\r\nbody";
    let output = rewrite_message(raw, "relay@example.com", None).message;
    let text = String::from_utf8(output).unwrap();
    assert!(text.contains("From: relay@example.com\r\n"));
    assert!(text.contains("Reply-To: alice@example.net\r\n"));
}

#[test]
fn removes_return_path_sender_message_id_and_all_dkim_signatures() {
    let raw = b"Return-Path: <bounce@example.net>\r\n\
                Sender: agent@example.net\r\n\
                Message-ID: <abc@example.net>\r\n\
                DKIM-Signature: v=1; a=rsa-sha256;\r\n\
                \tbh=abc; b=def\r\n\
                DKIM-Signature: v=1; a=ed25519-sha256; b=xyz\r\n\
                From: Alice <alice@example.net>\r\n\
                Subject: Hi\r\n\
                \r\n\
                body";
    let output = rewrite_message(raw, "relay@example.com", None).message;
    let text = String::from_utf8(output).unwrap();
    assert!(!text.contains("Return-Path"));
    assert!(!text.contains("Sender:"));
    assert!(!text.contains("Message-ID"));
    assert!(!text.contains("DKIM-Signature"));
    // The folded DKIM continuation line must be gone too.
    assert!(!text.contains("bh=abc"));
    assert!(text.contains("From: Alice <relay@example.com>\r\n"));
}

#[test]
fn byte_for_byte_identical_when_nothing_changes() {
    // No From, no removable headers, no subject prefix, and a body that
    // itself contains a blank line.
    let raw = b"To: info@example.com\r\n\
                Subject: Keep me\r\n\
                \r\n\
                First paragraph.\r\n\
                \r\n\
                Second paragraph after a blank line.\r\n";
    let output = rewrite_message(raw, "relay@example.com", None).message;
    assert_eq!(
        output,
        raw.to_vec(),
        "unchanged message must round-trip exactly"
    );
}

#[test]
fn folded_from_across_continuation_lines_is_captured_for_reply_to() {
    let raw = b"From: Alice\r\n <alice@example.net>\r\nTo: info@example.com\r\n\r\nbody";
    let output = rewrite_message(raw, "relay@example.com", None).message;
    let text = String::from_utf8(output).unwrap();
    // Reply-To preserves the original address, unfolded onto one line.
    assert!(text.contains("Reply-To: Alice <alice@example.net>\r\n"));
    // The rewritten From is unfolded onto one line with the display name.
    assert!(text.contains("From: Alice <relay@example.com>\r\n"));
}

#[test]
fn bare_cr_in_from_cannot_inject_a_header_via_reply_to() {
    // A bare CR (not part of a CRLF) inside the From value must not survive
    // into Reply-To where a lenient parser could treat it as a line break.
    let raw = b"From: Alice\rBcc: attacker@evil.example <alice@example.net>\r\nTo: info@example.com\r\n\r\nbody";
    let output = rewrite_message(raw, "relay@example.com", None).message;
    // No CR may appear inside the synthesized Reply-To line, and there is no
    // standalone Bcc header.
    let text = String::from_utf8_lossy(&output);
    assert!(!text.contains("\rBcc:"), "bare CR must be stripped");
    assert!(!text.contains("\nBcc:"), "no injected Bcc header");
}

#[test]
fn existing_reply_to_is_not_duplicated() {
    let raw = b"From: Alice <alice@example.net>\r\n\
                Reply-To: preferred@example.net\r\n\
                To: info@example.com\r\n\
                \r\n\
                body";
    let output = rewrite_message(raw, "relay@example.com", None).message;
    let text = String::from_utf8(output).unwrap();
    let reply_to_count = text.matches("Reply-To:").count();
    assert_eq!(reply_to_count, 1, "must not add a second Reply-To");
    assert!(text.contains("Reply-To: preferred@example.net\r\n"));
}

#[test]
fn multiple_from_headers_collapse_to_one_without_injection() {
    let raw = b"From: Alice <alice@example.net>\r\n\
                From: Mallory <mallory@example.net>\r\n\
                To: info@example.com\r\n\
                \r\n\
                body";
    let output = rewrite_message(raw, "relay@example.com", None).message;
    let text = String::from_utf8(output).unwrap();
    let from_count = text.matches("From:").count();
    assert_eq!(from_count, 1, "exactly one From in the output");
    assert!(text.contains("From: Alice <relay@example.com>\r\n"));
    assert!(!text.contains("mallory@example.net"));
}

#[test]
fn eight_bit_body_bytes_survive_byte_for_byte() {
    let mut raw: Vec<u8> =
        b"From: Alice <alice@example.net>\r\nTo: info@example.com\r\n\r\n".to_vec();
    let body: Vec<u8> = (0u16..=255).map(|byte| byte as u8).collect();
    raw.extend_from_slice(&body);
    let output = rewrite_message(&raw, "relay@example.com", None).message;

    // The output must end with the exact 0x00..=0xFF body bytes.
    assert!(
        output.ends_with(&body),
        "8-bit body bytes must be preserved exactly"
    );
}

#[test]
fn lf_only_line_endings_are_handled() {
    let raw = b"From: Alice <alice@example.net>\nTo: info@example.com\n\nbody";
    let output = rewrite_message(raw, "relay@example.com", None).message;
    let text = String::from_utf8(output).unwrap();
    assert!(text.contains("From: Alice <relay@example.com>\n"));
    assert!(text.contains("Reply-To: Alice <alice@example.net>\n"));
    assert!(text.ends_with("\nbody"));
}

#[test]
fn header_only_message_with_no_blank_line_round_trips_when_unchanged() {
    let raw = b"To: info@example.com\r\nSubject: no body\r\n";
    let output = rewrite_message(raw, "relay@example.com", None).message;
    assert_eq!(output, raw.to_vec());
}

#[test]
fn subject_prefix_is_prepended_preserving_the_rest() {
    let raw = b"From: Alice <alice@example.net>\r\nSubject: Hello\r\n\r\nbody";
    let output = rewrite_message(raw, "relay@example.com", Some("[EXT] ")).message;
    let text = String::from_utf8(output).unwrap();
    assert!(text.contains("Subject: [EXT] Hello\r\n"));
}

#[test]
fn subject_prefix_without_existing_subject_adds_nothing() {
    let raw = b"From: Alice <alice@example.net>\r\nTo: info@example.com\r\n\r\nbody";
    let output = rewrite_message(raw, "relay@example.com", Some("[EXT] ")).message;
    let text = String::from_utf8(output).unwrap();
    assert!(!text.contains("[EXT]"), "no Subject to prefix");
}

#[test]
fn redos_guard_pathological_message_processes_quickly() {
    // Thousands of blank/whitespace-fold lines. A linear scan handles this
    // in well under a second; a backtracking regex would not.
    let mut raw: Vec<u8> = b"From: Alice <alice@example.net>\r\n".to_vec();
    for _ in 0..200_000 {
        raw.extend_from_slice(b" \t \t\r\n");
    }
    raw.extend_from_slice(b"To: info@example.com\r\n\r\nbody");

    let start = std::time::Instant::now();
    let output = rewrite_message(&raw, "relay@example.com", None).message;
    let elapsed = start.elapsed();

    assert!(!output.is_empty());
    assert!(
        elapsed < std::time::Duration::from_secs(1),
        "rewrite took {elapsed:?}, expected < 1s"
    );
}

#[test]
fn from_rewritten_is_true_when_a_from_header_exists() {
    let raw = b"From: Bob <bob@example.net>\r\nTo: info@example.com\r\n\r\nbody";
    let outcome = rewrite_message(raw, "relay@example.com", None);
    assert!(outcome.from_rewritten);
}

#[test]
fn no_from_header_reports_from_not_rewritten_and_adds_no_reply_to() {
    // A message that begins with a blank line has an empty header block, so
    // there is no From to rewrite and no Reply-To should be synthesized.
    let raw = b"\r\nFrom: attacker@evil.example\r\nTo: info@example.com\r\n\r\nbody";
    let outcome = rewrite_message(raw, "relay@example.com", None);
    assert!(!outcome.from_rewritten, "no header From existed to rewrite");
    let text = String::from_utf8(outcome.message).unwrap();
    assert!(!text.contains("Reply-To:"), "no Reply-To without a From");
}

#[test]
fn empty_from_value_does_not_emit_an_empty_reply_to() {
    let raw = b"From:\r\nTo: info@example.com\r\n\r\nbody";
    let outcome = rewrite_message(raw, "relay@example.com", None);
    assert!(
        outcome.from_rewritten,
        "the From field existed and was rewritten"
    );
    let text = String::from_utf8(outcome.message).unwrap();
    assert!(text.contains("From: relay@example.com\r\n"));
    assert!(
        !text.contains("Reply-To:"),
        "blank original From -> no Reply-To"
    );
}

#[test]
fn header_field_name_matching_is_case_insensitive() {
    // Unusual casing on the field names must still be matched and rewritten.
    let raw = b"FROM: Alice <alice@example.net>\r\n\
                DKIM-signature: v=1; b=abc\r\n\
                Message-id: <x@example.net>\r\n\
                To: info@example.com\r\n\
                \r\n\
                body";
    let outcome = rewrite_message(raw, "relay@example.com", None);
    assert!(outcome.from_rewritten);
    let text = String::from_utf8(outcome.message).unwrap();
    assert!(text.contains("From: Alice <relay@example.com>\r\n"));
    assert!(!text.to_ascii_lowercase().contains("dkim-signature"));
    assert!(!text.to_ascii_lowercase().contains("message-id"));
}

// --- further resolution ------------------------------------------------

#[test]
fn white_space_around_a_recipient_is_ignored() {
    let map = mapping(&[("info@example.com", &["dest@example.net"])]);
    let resolved =
        resolve_destinations(&recipients(&["\t Info@Example.com\n"]), &map, true).unwrap();
    assert_eq!(resolved.destinations, vec!["dest@example.net"]);
    assert_eq!(resolved.matched_recipients[0].incoming, "info@example.com");
}

#[test]
fn blank_recipients_match_nothing() {
    let map = mapping(&[("@", &["dest@example.net"])]);
    let resolved = resolve_destinations(&recipients(&["", "  "]), &map, true).unwrap();
    assert!(resolved.destinations.is_empty());
}

#[test]
fn catch_all_takes_an_address_without_a_domain() {
    let map = mapping(&[("@", &["dest@example.net"])]);
    for recipient in ["info", "info@", "+tag@example.com"] {
        let resolved = resolve_destinations(&recipients(&[recipient]), &map, true).unwrap();
        assert_eq!(resolved.destinations, vec!["dest@example.net"]);
    }
}

#[test]
fn mailbox_key_comes_before_catch_all() {
    let map = mapping(&[
        ("info", &["mailbox@example.net"]),
        ("@", &["catchall@example.net"]),
    ]);
    assert_eq!(
        first_matching_key("info+x@example.com", &map, true),
        Some("info".to_string())
    );
    assert_eq!(
        first_matching_key("info+x@example.com", &map, false),
        Some("@".to_string())
    );
    assert_eq!(first_matching_key("info", &map, true), Some("info".to_string()));
}

#[test]
fn the_last_at_sign_starts_the_domain() {
    let map = mapping(&[("@example.com", &["dest@example.net"])]);
    assert_eq!(
        first_matching_key("\"a@b\"@example.com", &map, true),
        Some("@example.com".to_string())
    );
    assert_eq!(first_matching_key("a@example.com@b", &map, true), None);
}

#[test]
fn tags_make_no_difference_to_the_destinations() {
    let map = mapping(&[
        ("info@example.com", &["a@example.net"]),
        ("info+x@example.com", &["never@example.net"]),
        ("sales", &["b@example.net"]),
    ]);
    let plain = recipients(&["info@example.com", "sales@example.org"]);
    let tagged = recipients(&[" INFO+x@Example.com", "sales+@example.org "]);
    let resolve = |list: &[String]| resolve_destinations(list, &map, true).unwrap().destinations;
    assert_eq!(resolve(&tagged), resolve(&plain));
    assert_eq!(resolve(&plain), vec!["a@example.net", "b@example.net"]);
}

#[test]
fn tags_start_at_the_first_plus_sign() {
    assert_eq!(effective_mailbox("info+a+b", true), "info");
    assert_eq!(effective_mailbox("info+a+b", false), "info+a+b");
    assert_eq!(effective_mailbox("+a", true), "");
    assert_eq!(effective_mailbox("info", true), "info");
}

#[test]
fn fifty_destinations_are_accepted() {
    let many: Vec<String> = (0..50).map(|n| format!("dest{n}@example.net")).collect();
    let mut map = StringHashMap::new();
    map.insert("@".to_string(), many.clone());
    let resolved =
        resolve_destinations(&recipients(&["a@example.com", "b@example.com"]), &map, true).unwrap();
    assert_eq!(resolved.destinations, many);
    assert_eq!(resolved.matched_recipients.len(), 2);
}

#[test]
fn too_many_destinations_are_counted_in_words() {
    assert_eq!(
        ForwardError::TooManyDestinations { count: 1234 }.message(),
        "resolved 1234 destinations, exceeding the SES cap of 50 recipients (ToAddresses) per send"
    );
}

#[test]
fn verdicts_are_compared_in_any_case() {
    assert!(verdict_matches(Some("Fail"), "FAIL"));
    assert!(!verdict_matches(Some("FAILED"), "FAIL"));
    assert!(!verdict_matches(None, "FAIL"));
    assert_eq!(
        evaluate_verdicts(Some("fail"), Some("processing_failed"), true, true),
        GateDecision::Drop(DropReason::UnscannedVirus)
    );
}

// --- further rewriting --------------------------------------------------

fn rewritten(raw: &[u8], prefix: Option<&str>) -> Vec<u8> {
    rewrite_message(raw, "relay@example.com", prefix).message
}

#[test]
fn reply_to_takes_the_unfolded_from_value() {
    assert_eq!(
        rewritten(
            b"From: \"Doe,\r\n\t Jane\" <jane@example.net>\r\nTo: x\r\n\r\nb",
            None
        ),
        b"From: \"Doe, Jane\" <relay@example.com>\r\nTo: x\r\n\
          Reply-To: \"Doe, Jane\" <jane@example.net>\r\n\r\nb"
            .to_vec()
    );
}

#[test]
fn only_the_first_subject_gets_the_prefix() {
    assert_eq!(
        rewritten(
            b"Subject:one\nsubject: \n two\nFrom: a@b\nReply-To: c\n\n",
            Some("[X] ")
        ),
        b"Subject:[X] one\nsubject: \n two\nFrom: relay@example.com\nReply-To: c\n\n".to_vec()
    );
}

#[test]
fn reply_to_gets_a_line_of_its_own() {
    // Neither a blank line nor a final newline.
    let raw = b"From: a@x.example\r\nTo: b@y.example";
    let out = rewrite_message(raw, "r@z.example", None);
    assert!(out.from_rewritten);
    assert_eq!(
        out.message,
        b"From: r@z.example\r\nTo: b@y.example\r\nReply-To: a@x.example\r\n".to_vec()
    );
    // A subject that takes a prefix keeps its line as well.
    assert_eq!(
        rewritten(b"From: a@b\nSubject: s", Some("P ")),
        b"From: relay@example.com\nSubject: P s\nReply-To: a@b\n".to_vec()
    );
}

#[test]
fn reply_to_never_stands_behind_a_blank_line() {
    // A lone carriage return is no blank line, and is not made one.
    assert_eq!(
        rewritten(b"From: a@b\n\r", None),
        b"From: relay@example.com\n\r\r\nReply-To: a@b\n".to_vec()
    );
    assert_eq!(
        rewritten(b"From: a@b\nTo: c\r", None),
        b"From: relay@example.com\nTo: c\r\nReply-To: a@b\n".to_vec()
    );
}

#[test]
fn rewriting_again_changes_nothing() {
    for raw in [
        &b"From: A <a@b>\r\nSender: s\r\nTo: c\r\n\r\nbody\r\n"[..],
        b"Received: x\n y\nFrom: a@b\nFrom: c@d\n\nbody",
        b"From: a@b",
        b"To: c\r\n\r\nno sender",
        b"From:\nReply-To: c\n\nblank sender",
        b"",
    ] {
        let once = rewritten(raw, None);
        assert_eq!(rewritten(&once, None), once);
    }
}

#[test]
fn a_name_that_is_not_utf8_is_left_alone() {
    let raw = b"Fr\xffom: a\r\nFrom\xff: b\r\nSender: c\r\n\r\nbody";
    let outcome = rewrite_message(raw, "relay@example.com", None);
    assert!(!outcome.from_rewritten);
    assert_eq!(
        outcome.message,
        b"Fr\xffom: a\r\nFrom\xff: b\r\n\r\nbody".to_vec()
    );
}

#[test]
fn a_colon_on_a_continuation_line_names_nothing() {
    let raw = b"from\r\n : x\r\nTo: y\r\n\r\nbody";
    let outcome = rewrite_message(raw, "relay@example.com", None);
    assert!(!outcome.from_rewritten);
    assert_eq!(outcome.message, raw.to_vec());
}

#[test]
fn a_header_without_an_ending_keeps_its_last_line_open() {
    // Without a Reply-To to add, an unfinished last line does no harm.
    assert_eq!(
        rewritten(b"From: a@b\nReply-To: c", None),
        b"From: relay@example.com\nReply-To: c".to_vec()
    );
    // The From that is rewritten always ends its line.
    assert_eq!(
        rewritten(b"To: c\nFrom: a@b", None),
        b"To: c\nFrom: relay@example.com\nReply-To: a@b\n".to_vec()
    );
}

#[test]
fn the_body_is_kept_even_where_it_looks_like_headers() {
    let raw = b"From: a@b\n\nFrom: x\nSender: y\n\n\xff\x00";
    let out = rewritten(raw, Some("P"));
    assert!(out.ends_with(b"\n\nFrom: x\nSender: y\n\n\xff\x00"));
}
