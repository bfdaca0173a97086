use aws_ses_relay::config::Config;
use aws_ses_relay::json::{parse_document, JsonDocument, JsonEntry, JsonItem};
use aws_ses_relay::StringHashMap;

/// Build a variable map from `(name, value)` pairs.
fn vars(pairs: &[(&str, &str)]) -> StringHashMap<String> {
    let mut map = StringHashMap::new();
    for (name, value) in pairs {
        map.insert(name.to_string(), value.to_string());
    }
    map
}

/// A complete, valid environment used as the baseline for most tests.
fn valid_vars() -> StringHashMap<String> {
    vars(&[
        ("FROM_EMAIL", "relay@example.com"),
        ("EMAIL_BUCKET", "inbound-mail-example"),
        (
            "FORWARD_MAPPING",
            r#"{"info@example.com":["dest@example.net"],"@":["catchall@example.net"]}"#,
        ),
    ])
}

#[test]
fn all_present_succeeds_with_defaults() {
    let config = Config::from_env(&valid_vars()).expect("config should be valid");
    assert_eq!(config.from_email, "relay@example.com");
    assert_eq!(config.email_bucket, "inbound-mail-example");
    assert_eq!(config.subject_prefix, None);
    assert!(config.allow_plus_sign, "ALLOW_PLUS_SIGN defaults to true");
    assert!(!config.drop_spam, "DROP_SPAM defaults to false");
    assert_eq!(
        config.forward_mapping.get("info@example.com"),
        Some(&vec!["dest@example.net".to_string()])
    );
}

#[test]
fn missing_from_email_errors() {
    let mut environment = valid_vars();
    environment.remove("FROM_EMAIL");
    let error = Config::from_env(&environment).err().expect("missing FROM_EMAIL");
    assert!(error.problems.iter().any(|p| p.contains("FROM_EMAIL")));
}

#[test]
fn missing_email_bucket_errors() {
    let mut environment = valid_vars();
    environment.remove("EMAIL_BUCKET");
    let error = Config::from_env(&environment).err().expect("missing EMAIL_BUCKET");
    assert!(error.problems.iter().any(|p| p.contains("EMAIL_BUCKET")));
}

#[test]
fn missing_forward_mapping_errors() {
    let mut environment = valid_vars();
    environment.remove("FORWARD_MAPPING");
    let error = Config::from_env(&environment).err().expect("missing FORWARD_MAPPING");
    assert!(error.problems.iter().any(|p| p.contains("FORWARD_MAPPING")));
}

#[test]
fn all_missing_required_surfaces_every_problem_at_once() {
    let environment = StringHashMap::new();
    let error = Config::from_env(&environment).err().expect("empty environment");
    assert!(error.problems.iter().any(|p| p.contains("FROM_EMAIL")));
    assert!(error.problems.iter().any(|p| p.contains("EMAIL_BUCKET")));
    assert!(error.problems.iter().any(|p| p.contains("FORWARD_MAPPING")));
    assert_eq!(
        error.problems.len(),
        3,
        "exactly three required vars missing"
    );
}

#[test]
fn invalid_forward_mapping_json_errors() {
    let mut environment = valid_vars();
    environment.insert("FORWARD_MAPPING".to_string(), "{not json".to_string());
    let error = Config::from_env(&environment).err().expect("invalid JSON");
    assert!(error.problems.iter().any(|p| p.contains("not valid JSON")));
}

#[test]
fn non_object_forward_mapping_errors() {
    let mut environment = valid_vars();
    environment.insert(
        "FORWARD_MAPPING".to_string(),
        r#"["dest@example.net"]"#.to_string(),
    );
    let error = Config::from_env(&environment).err().expect("array is not an object");
    assert!(error
        .problems
        .iter()
        .any(|p| p.contains("must be a JSON object")));
}

#[test]
fn empty_array_value_errors() {
    let mut environment = valid_vars();
    environment.insert(
        "FORWARD_MAPPING".to_string(),
        r#"{"info@example.com":[]}"#.to_string(),
    );
    let error = Config::from_env(&environment).err().expect("empty destination array");
    assert!(error.problems.iter().any(|p| p.contains("empty array")));
}

#[test]
fn non_string_value_errors() {
    let mut environment = valid_vars();
    environment.insert(
        "FORWARD_MAPPING".to_string(),
        r#"{"info@example.com":[42]}"#.to_string(),
    );
    let error = Config::from_env(&environment).err().expect("non-string destination");
    assert!(error
        .problems
        .iter()
        .any(|p| p.contains("non-string destination")));
}

#[test]
fn empty_string_destination_errors() {
    let mut environment = valid_vars();
    environment.insert(
        "FORWARD_MAPPING".to_string(),
        r#"{"info@example.com":["  "]}"#.to_string(),
    );
    let error = Config::from_env(&environment).err().expect("blank destination");
    assert!(error
        .problems
        .iter()
        .any(|p| p.contains("empty destination")));
}

#[test]
fn keys_are_lowercased() {
    let mut environment = valid_vars();
    environment.insert(
        "FORWARD_MAPPING".to_string(),
        r#"{"Info@Example.COM":["dest@example.net"]}"#.to_string(),
    );
    let config = Config::from_env(&environment).expect("config should be valid");
    assert!(config.forward_mapping.contains_key("info@example.com"));
    assert!(!config.forward_mapping.contains_key("Info@Example.COM"));
}

#[test]
fn duplicate_key_after_lowercasing_errors() {
    let mut environment = valid_vars();
    environment.insert(
        "FORWARD_MAPPING".to_string(),
        r#"{"Info":["a@example.net"],"info":["b@example.net"]}"#.to_string(),
    );
    let error = Config::from_env(&environment).err().expect("case-colliding keys");
    assert!(error.problems.iter().any(|p| p.contains("duplicate key")));
}

#[test]
fn allow_plus_sign_accepts_true_false_case_insensitively() {
    for (raw, expected) in [
        ("true", true),
        ("TRUE", true),
        ("False", false),
        ("FALSE", false),
    ] {
        let mut environment = valid_vars();
        environment.insert("ALLOW_PLUS_SIGN".to_string(), raw.to_string());
        let config = Config::from_env(&environment).expect("valid boolean");
        assert_eq!(config.allow_plus_sign, expected, "raw = {raw}");
    }
}

#[test]
fn allow_plus_sign_rejects_non_boolean_tokens() {
    for raw in ["1", "0", "yes", "no", "on", "off"] {
        let mut environment = valid_vars();
        environment.insert("ALLOW_PLUS_SIGN".to_string(), raw.to_string());
        let error = Config::from_env(&environment).err().expect("non-boolean token");
        assert!(
            error.problems.iter().any(|p| p.contains("ALLOW_PLUS_SIGN")),
            "raw = {raw}"
        );
    }
}

#[test]
fn drop_spam_rejects_non_boolean_tokens() {
    let mut environment = valid_vars();
    environment.insert("DROP_SPAM".to_string(), "yes".to_string());
    let error = Config::from_env(&environment).err().expect("non-boolean token");
    assert!(error.problems.iter().any(|p| p.contains("DROP_SPAM")));
}

#[test]
fn drop_spam_true_is_parsed() {
    let mut environment = valid_vars();
    environment.insert("DROP_SPAM".to_string(), "true".to_string());
    let config = Config::from_env(&environment).expect("valid boolean");
    assert!(config.drop_spam);
}

#[test]
fn subject_prefix_empty_is_none_nonempty_is_some() {
    let mut environment = valid_vars();
    environment.insert("SUBJECT_PREFIX".to_string(), String::new());
    let config = Config::from_env(&environment).expect("empty prefix is valid");
    assert_eq!(config.subject_prefix, None);

    // A trailing space in the prefix is meaningful and must be preserved.
    environment.insert("SUBJECT_PREFIX".to_string(), "[EXT] ".to_string());
    let config = Config::from_env(&environment).expect("prefix is valid");
    assert_eq!(config.subject_prefix, Some("[EXT] ".to_string()));
}

#[test]
fn blank_from_email_is_reported_as_empty() {
    let mut environment = valid_vars();
    environment.insert("FROM_EMAIL".to_string(), "   ".to_string());
    let error = Config::from_env(&environment).err().expect("blank FROM_EMAIL");
    assert!(error
        .problems
        .iter()
        .any(|p| p.contains("FROM_EMAIL is set but empty")));
}

#[test]
fn malformed_from_email_is_rejected() {
    let mut environment = valid_vars();
    environment.insert("FROM_EMAIL".to_string(), "not-an-email".to_string());
    let error = Config::from_env(&environment).err().expect("malformed FROM_EMAIL");
    assert!(error
        .problems
        .iter()
        .any(|p| p.contains("valid email address")));
}

// --- further variables ----------------------------------------------

#[test]
fn drop_unscanned_defaults_to_false_and_is_parsed() {
    let config = Config::from_env(&valid_vars()).expect("config should be valid");
    assert!(!config.drop_unscanned);

    let mut environment = valid_vars();
    environment.insert("DROP_UNSCANNED".to_string(), "True".to_string());
    let config = Config::from_env(&environment).expect("valid boolean");
    assert!(config.drop_unscanned);

    environment.insert("DROP_UNSCANNED".to_string(), "on".to_string());
    assert_eq!(
        problems(&environment),
        vec!["DROP_UNSCANNED must be `true` or `false` (case-insensitive); got `on`"]
    );
}

#[test]
fn idempotency_bucket_is_optional_and_trimmed() {
    let config = Config::from_env(&valid_vars()).expect("config should be valid");
    assert_eq!(config.idempotency_bucket, None);

    let mut environment = valid_vars();
    environment.insert("IDEMPOTENCY_BUCKET".to_string(), " markers ".to_string());
    let config = Config::from_env(&environment).expect("config should be valid");
    assert_eq!(config.idempotency_bucket, Some("markers".to_string()));

    environment.insert("IDEMPOTENCY_BUCKET".to_string(), "  ".to_string());
    let config = Config::from_env(&environment).expect("config should be valid");
    assert_eq!(config.idempotency_bucket, None);
}

#[test]
fn from_email_with_white_space_or_control_characters_is_rejected() {
    for raw in ["relay @example.com", "relay\u{7f}@example.com", "a\r\nb@example.com"] {
        let mut environment = valid_vars();
        environment.insert("FROM_EMAIL".to_string(), raw.to_string());
        assert_eq!(
            problems(&environment),
            vec!["FROM_EMAIL must not contain whitespace or control characters"],
            "raw = {raw:?}"
        );
    }
}

#[test]
fn from_email_is_trimmed() {
    let mut environment = valid_vars();
    environment.insert("FROM_EMAIL".to_string(), " relay@example.com\n".to_string());
    let config = Config::from_env(&environment).expect("config should be valid");
    assert_eq!(config.from_email, "relay@example.com");
}

#[test]
fn from_email_needs_one_at_sign_with_both_sides() {
    for raw in ["@example.com", "relay@", "a@b@c", "@"] {
        let mut environment = valid_vars();
        environment.insert("FROM_EMAIL".to_string(), raw.to_string());
        assert_eq!(
            problems(&environment),
            vec![format!(
                "FROM_EMAIL must be a valid email address (local@domain); got `{raw}`"
            )]
        );
    }
}

#[test]
fn subject_prefix_with_control_characters_is_rejected() {
    let mut environment = valid_vars();
    environment.insert("SUBJECT_PREFIX".to_string(), "[EXT]\r\nBcc: x".to_string());
    assert_eq!(
        problems(&environment),
        vec!["SUBJECT_PREFIX must not contain control characters"]
    );
}

#[test]
fn a_key_may_have_fifty_destinations_and_no_more() {
    let list = |n: usize| -> String {
        let addresses: Vec<String> = (0..n).map(|i| format!("\"d{i}@example.net\"")).collect();
        format!("{{\"@\":[{}]}}", addresses.join(","))
    };
    let mut environment = valid_vars();
    environment.insert("FORWARD_MAPPING".to_string(), list(50));
    let config = Config::from_env(&environment).expect("fifty are accepted");
    assert_eq!(config.forward_mapping.get("@").map(|d| d.len()), Some(50));

    environment.insert("FORWARD_MAPPING".to_string(), list(51));
    assert_eq!(
        problems(&environment),
        vec![
            "FORWARD_MAPPING key `@` maps to 51 destinations; a single key may map to at most \
             50 (the SES per-send cap)"
        ]
    );
}

#[test]
fn destinations_are_trimmed() {
    let mut environment = valid_vars();
    environment.insert(
        "FORWARD_MAPPING".to_string(),
        r#"{"@":[" a@example.net ","b@example.net"]}"#.to_string(),
    );
    let config = Config::from_env(&environment).expect("config should be valid");
    assert_eq!(
        config.forward_mapping.get("@"),
        Some(&vec!["a@example.net".to_string(), "b@example.net".to_string()])
    );
}

#[test]
fn every_problem_of_a_mapping_is_reported_in_order() {
    let mut environment = valid_vars();
    environment.insert(
        "FORWARD_MAPPING".to_string(),
        r#"{"a":"x","b":[],"c":[" ",7,"ok@example.net"],"d":["ok@example.net"],"D":["x@example.net"]}"#
            .to_string(),
    );
    assert_eq!(
        problems(&environment),
        vec![
            "FORWARD_MAPPING key `a` must map to a non-empty array of addresses",
            "FORWARD_MAPPING key `b` maps to an empty array; provide at least one destination",
            "FORWARD_MAPPING key `c` contains an empty destination address",
            "FORWARD_MAPPING key `c` contains a non-string destination",
            "FORWARD_MAPPING has duplicate key `d` after lowercasing; keys must be unique",
        ]
    );
}

#[test]
fn empty_mapping_is_rejected() {
    let mut environment = valid_vars();
    environment.insert("FORWARD_MAPPING".to_string(), "{}".to_string());
    assert_eq!(
        problems(&environment),
        vec!["FORWARD_MAPPING must contain at least one mapping"]
    );
}

#[test]
fn invalid_json_carries_the_message_of_the_parser() {
    let mut environment = valid_vars();
    environment.insert("FORWARD_MAPPING".to_string(), "{not json".to_string());
    let cause = serde_json::from_str::<serde_json::Value>("{not json")
        .unwrap_err()
        .to_string();
    assert_eq!(
        problems(&environment),
        vec![format!("FORWARD_MAPPING is not valid JSON: {cause}")]
    );
}

#[test]
fn problems_of_all_variables_come_together() {
    let environment = vars(&[
        ("FROM_EMAIL", "nobody"),
        ("EMAIL_BUCKET", " "),
        ("FORWARD_MAPPING", "[]"),
        ("SUBJECT_PREFIX", "\u{1}"),
        ("ALLOW_PLUS_SIGN", "1"),
        ("DROP_SPAM", "2"),
        ("DROP_UNSCANNED", "3"),
    ]);
    let error = Config::from_env(&environment).err().expect("all invalid");
    assert_eq!(
        error.problems,
        vec![
            "FROM_EMAIL must be a valid email address (local@domain); got `nobody`",
            "EMAIL_BUCKET is set but empty",
            "FORWARD_MAPPING must be a JSON object mapping match keys to arrays of destination \
             addresses",
            "SUBJECT_PREFIX must not contain control characters",
            "ALLOW_PLUS_SIGN must be `true` or `false` (case-insensitive); got `1`",
            "DROP_SPAM must be `true` or `false` (case-insensitive); got `2`",
            "DROP_UNSCANNED must be `true` or `false` (case-insensitive); got `3`",
        ]
    );
    let message = error.message();
    assert!(message.starts_with(
        "invalid configuration (7 problem(s)):\n  - FROM_EMAIL must be a valid email address"
    ));
    assert!(message.ends_with("got `3`\n"));
    assert_eq!(message.lines().count(), 8);
}

#[test]
fn a_parsed_document_is_read_without_the_parser() {
    let document = JsonDocument::Object(vec![(
        "INFO".to_string(),
        JsonEntry::Array(vec![JsonItem::Text(" a@example.net".to_string())]),
    )]);
    let config =
        Config::from_parsed(&valid_vars(), Some(Ok(document))).expect("config should be valid");
    assert_eq!(
        config.forward_mapping.get("info"),
        Some(&vec!["a@example.net".to_string()])
    );
}

#[test]
fn parsing_keeps_what_a_mapping_is_read_from() {
    let parsed = parse_document(r#"{"b":["x",1,null],"a":{"n":[]},"c":true}"#);
    assert_eq!(
        parsed,
        Ok(JsonDocument::Object(vec![
            ("a".to_string(), JsonEntry::Other),
            (
                "b".to_string(),
                JsonEntry::Array(vec![
                    JsonItem::Text("x".to_string()),
                    JsonItem::Other,
                    JsonItem::Other,
                ])
            ),
            ("c".to_string(), JsonEntry::Other),
        ]))
    );
    assert_eq!(parse_document("3"), Ok(JsonDocument::Other));
}

/// The problems of an environment that does not load.
fn problems(environment: &StringHashMap<String>) -> Vec<String> {
    let error = Config::from_env(environment)
        .err()
        .expect("invalid environment");
    error.problems
}
