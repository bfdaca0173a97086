use aws_ses_relay::config::Config;
use aws_ses_relay::event::{
    SesAction, SesEvent, SesMail, SesPayload, SesReceipt, SesRecord, SesVerdict,
};
use aws_ses_relay::forward::{DropReason, ForwardError};
use aws_ses_relay::handler::{
    begin, bounded_message, drop_reason, error_cause_chain, is_safe_object_key,
    is_valid_message_id, oversize, resolve_s3_location, Completion, DropCause, FetchResult,
    HandlerError, Opening, SendRawEmailRequest, Step, MAX_RAW_MESSAGE_BYTES,
};
use aws_ses_relay::idempotency::ClaimOutcome;
use aws_ses_relay::StringHashMap;
use std::sync::Mutex;

/// Take the steps of an event one after the other, each call answered by a fake.
fn handle_event(
    event: SesEvent,
    config: &Config,
    store: &FakeStore,
    sender: &FakeSender,
    idempotency: &FakeIdempotency,
) -> Result<(), HandlerError<String>> {
    let mut step = begin(&event, config).step;
    loop {
        step = match step {
            Step::Claim(state) => {
                let reply = idempotency.claim(&state.message_id);
                state.claimed(reply, config)
            }
            Step::Fetch(state) => {
                let reply =
                    store.fetch_raw_message(&state.bucket, &state.key, MAX_RAW_MESSAGE_BYTES);
                state.fetched(reply, config)
            }
            Step::Send(state, request) => state.sent(sender.send_raw_email(request)),
            Step::Release(state) => {
                let _ = idempotency.release(&state.message_id);
                state.released()
            }
            Step::Done(result) => return result.map(|_| ()),
        };
    }
}

// --- fakes ----------------------------------------------------------

struct FakeStore {
    body: Vec<u8>,
    fail: bool,
    calls: Mutex<Vec<(String, String)>>,
}

impl FakeStore {
    fn returning(body: &[u8]) -> Self {
        Self {
            body: body.to_vec(),
            fail: false,
            calls: Mutex::new(Vec::new()),
        }
    }
    fn failing() -> Self {
        Self {
            body: Vec::new(),
            fail: true,
            calls: Mutex::new(Vec::new()),
        }
    }
    fn call_count(&self) -> usize {
        self.calls.lock().unwrap().len()
    }
    fn last_call(&self) -> (String, String) {
        self.calls.lock().unwrap().last().cloned().unwrap()
    }
}

impl FakeStore {
    fn fetch_raw_message(
        &self,
        bucket: &str,
        key: &str,
        max_bytes: usize,
    ) -> Result<FetchResult, String> {
        self.calls
            .lock()
            .unwrap()
            .push((bucket.to_string(), key.to_string()));
        if self.fail {
            return Err("simulated S3 failure".into());
        }
        if self.body.len() > max_bytes {
            return Ok(FetchResult::TooLarge {
                size: self.body.len() as u64,
            });
        }
        Ok(FetchResult::Message(self.body.clone()))
    }
}

struct FakeSender {
    fail: bool,
    requests: Mutex<Vec<SendRawEmailRequest>>,
}

impl FakeSender {
    fn new() -> Self {
        Self {
            fail: false,
            requests: Mutex::new(Vec::new()),
        }
    }
    fn failing() -> Self {
        Self {
            fail: true,
            requests: Mutex::new(Vec::new()),
        }
    }
    fn call_count(&self) -> usize {
        self.requests.lock().unwrap().len()
    }
    fn last_request(&self) -> SendRawEmailRequest {
        self.requests.lock().unwrap().last().cloned().unwrap()
    }
}

impl FakeSender {
    fn send_raw_email(&self, request: SendRawEmailRequest) -> Result<(), String> {
        self.requests.lock().unwrap().push(request);
        if self.fail {
            return Err("simulated SES failure".into());
        }
        Ok(())
    }
}

struct FakeIdempotency {
    outcome: ClaimOutcome,
    fail_claim: bool,
    releases: Mutex<Vec<String>>,
}

impl FakeIdempotency {
    fn new() -> Self {
        Self {
            outcome: ClaimOutcome::New,
            fail_claim: false,
            releases: Mutex::new(Vec::new()),
        }
    }
    fn duplicate() -> Self {
        Self {
            outcome: ClaimOutcome::AlreadyProcessed,
            fail_claim: false,
            releases: Mutex::new(Vec::new()),
        }
    }
    fn failing_claim() -> Self {
        Self {
            outcome: ClaimOutcome::New,
            fail_claim: true,
            releases: Mutex::new(Vec::new()),
        }
    }
    fn release_count(&self) -> usize {
        self.releases.lock().unwrap().len()
    }
}

impl FakeIdempotency {
    fn claim(&self, _message_id: &str) -> Result<ClaimOutcome, String> {
        if self.fail_claim {
            return Err("simulated idempotency failure".into());
        }
        Ok(self.outcome)
    }
    fn release(&self, message_id: &str) -> Result<(), String> {
        self.releases.lock().unwrap().push(message_id.to_string());
        Ok(())
    }
}

// --- fixtures -------------------------------------------------------

fn test_config() -> Config {
    let mut forward_mapping = StringHashMap::new();
    forward_mapping.insert(
        "info@example.com".to_string(),
        vec!["dest@example.net".to_string()],
    );
    Config {
        from_email: "relay@example.com".to_string(),
        email_bucket: "inbound-bucket-example".to_string(),
        forward_mapping,
        subject_prefix: None,
        allow_plus_sign: true,
        drop_spam: false,
        drop_unscanned: false,
        idempotency_bucket: None,
    }
}

fn lambda_action() -> SesAction {
    SesAction::default()
}

fn s3_action(bucket: &str, key: &str) -> SesAction {
    SesAction {
        bucket_name: Some(bucket.to_string()),
        object_key: Some(key.to_string()),
    }
}

/// Build an SES event.
fn event(
    recipients: &[&str],
    spam: &str,
    virus: &str,
    message_id: &str,
    action: SesAction,
) -> SesEvent {
    event_with_source("aws:ses", recipients, spam, virus, message_id, action)
}

fn event_with_source(
    source: &str,
    recipients: &[&str],
    spam: &str,
    virus: &str,
    message_id: &str,
    action: SesAction,
) -> SesEvent {
    let receipt = SesReceipt {
        recipients: recipients.iter().map(|r| r.to_string()).collect(),
        spam_verdict: SesVerdict {
            status: Some(spam.to_string()),
        },
        virus_verdict: SesVerdict {
            status: Some(virus.to_string()),
        },
        action,
    };
    let mail = SesMail {
        message_id: Some(message_id.to_string()),
    };
    SesEvent {
        records: vec![SesRecord {
            event_source: Some(source.to_string()),
            ses: SesPayload { mail, receipt },
        }],
    }
}

// --- tests ----------------------------------------------------------

#[test]
fn happy_path_fetches_then_sends_with_exact_input() {
    let config = test_config();
    let input =
        b"From: Bob <bob@example.net>\r\nTo: info@example.com\r\nSubject: Hi\r\n\r\nBody.\r\n";
    let store = FakeStore::returning(input);
    let sender = FakeSender::new();
    let idempotency = FakeIdempotency::new();
    let event = event(
        &["info@example.com"],
        "PASS",
        "PASS",
        "msg-123",
        lambda_action(),
    );

    handle_event(event, &config, &store, &sender, &idempotency)
        .expect("happy path succeeds");

    assert_eq!(store.call_count(), 1);
    assert_eq!(
        store.last_call(),
        ("inbound-bucket-example".to_string(), "msg-123".to_string())
    );

    assert_eq!(sender.call_count(), 1);
    let request = sender.last_request();
    assert_eq!(request.from_email_address, "relay@example.com");
    assert_eq!(request.to_addresses, vec!["dest@example.net"]);
    let expected_raw = b"From: Bob <relay@example.com>\r\nTo: info@example.com\r\nSubject: Hi\r\nReply-To: Bob <bob@example.net>\r\n\r\nBody.\r\n";
    assert_eq!(request.raw_message, expected_raw.to_vec());
}

#[test]
fn no_match_makes_zero_s3_and_ses_calls() {
    let config = test_config();
    let store = FakeStore::returning(b"unused");
    let sender = FakeSender::new();
    let idempotency = FakeIdempotency::new();
    let event = event(
        &["nobody@example.com"],
        "PASS",
        "PASS",
        "msg-1",
        lambda_action(),
    );

    handle_event(event, &config, &store, &sender, &idempotency)
        .expect("no match is a drop, not an error");

    assert_eq!(store.call_count(), 0, "no S3 fetch on no-match");
    assert_eq!(sender.call_count(), 0, "no SES send on no-match");
}

#[test]
fn virus_fail_drops_with_zero_calls() {
    let config = test_config();
    let store = FakeStore::returning(b"unused");
    let sender = FakeSender::new();
    let idempotency = FakeIdempotency::new();
    let event = event(
        &["info@example.com"],
        "PASS",
        "FAIL",
        "msg-1",
        lambda_action(),
    );

    handle_event(event, &config, &store, &sender, &idempotency)
        .expect("virus FAIL is a drop, not an error");

    assert_eq!(store.call_count(), 0);
    assert_eq!(sender.call_count(), 0);
}

#[test]
fn spam_fail_with_drop_spam_drops_with_zero_calls() {
    let mut config = test_config();
    config.drop_spam = true;
    let store = FakeStore::returning(b"unused");
    let sender = FakeSender::new();
    let idempotency = FakeIdempotency::new();
    let event = event(
        &["info@example.com"],
        "FAIL",
        "PASS",
        "msg-1",
        lambda_action(),
    );

    handle_event(event, &config, &store, &sender, &idempotency)
        .expect("spam FAIL with DROP_SPAM is a drop");

    assert_eq!(store.call_count(), 0);
    assert_eq!(sender.call_count(), 0);
}

#[test]
fn drop_unscanned_drops_processing_failed_virus_with_zero_calls() {
    let mut config = test_config();
    config.drop_unscanned = true;
    let store = FakeStore::returning(b"unused");
    let sender = FakeSender::new();
    let idempotency = FakeIdempotency::new();
    let event = event(
        &["info@example.com"],
        "PASS",
        "PROCESSING_FAILED",
        "msg-1",
        lambda_action(),
    );

    handle_event(event, &config, &store, &sender, &idempotency)
        .expect("unscanned drop is not an error");

    assert_eq!(store.call_count(), 0);
    assert_eq!(sender.call_count(), 0);
}

#[test]
fn processing_failed_virus_still_forwards_by_default() {
    let config = test_config();
    let store = FakeStore::returning(
        b"From: Bob <bob@example.net>\r\nTo: info@example.com\r\n\r\nbody",
    );
    let sender = FakeSender::new();
    let idempotency = FakeIdempotency::new();
    let event = event(
        &["info@example.com"],
        "PASS",
        "PROCESSING_FAILED",
        "msg-1",
        lambda_action(),
    );

    handle_event(event, &config, &store, &sender, &idempotency)
        .expect("fail-open by default");

    assert_eq!(
        sender.call_count(),
        1,
        "forwarded despite the unscannable verdict"
    );
}

#[test]
fn foreign_event_source_errors() {
    let config = test_config();
    let store = FakeStore::returning(b"unused");
    let sender = FakeSender::new();
    let idempotency = FakeIdempotency::new();
    let event = event_with_source(
        "aws:sns",
        &["info@example.com"],
        "PASS",
        "PASS",
        "m1",
        lambda_action(),
    );

    let error = handle_event(event, &config, &store, &sender, &idempotency)
        .expect_err("non-ses source must error");
    assert!(matches!(error, HandlerError::SourceMismatch { .. }));
    assert_eq!(store.call_count(), 0);
}

#[test]
fn bucket_mismatch_errors_with_no_calls() {
    let config = test_config();
    let store = FakeStore::returning(b"unused");
    let sender = FakeSender::new();
    let idempotency = FakeIdempotency::new();
    let action = s3_action("someone-elses-bucket", "some-key");
    let event = event(&["info@example.com"], "PASS", "PASS", "msg-1", action);

    let error = handle_event(event, &config, &store, &sender, &idempotency)
        .expect_err("bucket mismatch must error");
    assert!(matches!(error, HandlerError::BucketMismatch { .. }));
    assert_eq!(
        store.call_count(),
        0,
        "must not read from an unlisted bucket"
    );
    assert_eq!(sender.call_count(), 0);
}

#[test]
fn s3_action_event_uses_event_bucket_and_key() {
    let config = test_config();
    let store = FakeStore::returning(
        b"From: Bob <bob@example.net>\r\nTo: info@example.com\r\n\r\nbody",
    );
    let sender = FakeSender::new();
    let idempotency = FakeIdempotency::new();
    let action = s3_action("inbound-bucket-example", "prefix/custom-key");
    let event = event(&["info@example.com"], "PASS", "PASS", "msg-1", action);

    handle_event(event, &config, &store, &sender, &idempotency)
        .expect("matching S3-action event succeeds");

    assert_eq!(
        store.last_call(),
        (
            "inbound-bucket-example".to_string(),
            "prefix/custom-key".to_string()
        ),
        "uses the event's bucket and object key when provided"
    );
}

#[test]
fn hostile_s3_action_object_key_is_rejected() {
    let config = test_config();
    let store = FakeStore::returning(b"unused");
    let sender = FakeSender::new();
    let idempotency = FakeIdempotency::new();
    // Correct bucket, but a traversal-shaped object key.
    let action = s3_action("inbound-bucket-example", "../secrets/private");
    let event = event(&["info@example.com"], "PASS", "PASS", "msg-1", action);

    let error = handle_event(event, &config, &store, &sender, &idempotency)
        .expect_err("unsafe object key must be rejected");
    assert!(matches!(error, HandlerError::InvalidObjectKey { .. }));
    assert_eq!(store.call_count(), 0, "never fetch with an unsafe key");
}

#[test]
fn absent_event_source_errors() {
    let config = test_config();
    let store = FakeStore::returning(b"unused");
    let sender = FakeSender::new();
    let idempotency = FakeIdempotency::new();
    // A single record with no eventSource field must fail closed.
    let mut event = event(&["info@example.com"], "PASS", "PASS", "m1", lambda_action());
    event.records[0].event_source = None;

    let error = handle_event(event, &config, &store, &sender, &idempotency)
        .expect_err("absent eventSource must fail closed");
    assert!(matches!(error, HandlerError::SourceMismatch { .. }));
    assert_eq!(store.call_count(), 0);
}

#[test]
fn partial_s3_action_errors() {
    let config = test_config();
    let store = FakeStore::returning(b"unused");
    let sender = FakeSender::new();
    let idempotency = FakeIdempotency::new();
    // Only bucketName, no objectKey.
    let action = SesAction {
        bucket_name: Some("inbound-bucket-example".to_string()),
        object_key: None,
    };
    let event = event(&["info@example.com"], "PASS", "PASS", "msg-1", action);

    let error = handle_event(event, &config, &store, &sender, &idempotency)
        .expect_err("half-populated S3 action must error");
    assert!(matches!(error, HandlerError::PartialS3Action));
    assert_eq!(store.call_count(), 0);
}

#[test]
fn oversize_object_errors_before_send() {
    let config = test_config();
    let oversize = vec![b'x'; MAX_RAW_MESSAGE_BYTES + 1];
    let store = FakeStore::returning(&oversize);
    let sender = FakeSender::new();
    let idempotency = FakeIdempotency::new();
    let event = event(
        &["info@example.com"],
        "PASS",
        "PASS",
        "msg-1",
        lambda_action(),
    );

    let error = handle_event(event, &config, &store, &sender, &idempotency)
        .expect_err("oversize must error");
    assert!(matches!(error, HandlerError::MessageTooLarge { .. }));
    assert_eq!(sender.call_count(), 0, "no send for an oversize message");
}

#[test]
fn empty_object_errors_before_send() {
    let config = test_config();
    let store = FakeStore::returning(b"");
    let sender = FakeSender::new();
    let idempotency = FakeIdempotency::new();
    let event = event(
        &["info@example.com"],
        "PASS",
        "PASS",
        "msg-1",
        lambda_action(),
    );

    let error = handle_event(event, &config, &store, &sender, &idempotency)
        .expect_err("empty object must error");
    assert!(matches!(error, HandlerError::EmptyMessage { .. }));
    assert_eq!(sender.call_count(), 0);
}

#[test]
fn message_with_no_from_header_errors_before_send() {
    let config = test_config();
    // Leading blank line -> the whole message is body, no header From.
    let store = FakeStore::returning(b"\r\nFrom: attacker@evil.example\r\n\r\nbody");
    let sender = FakeSender::new();
    let idempotency = FakeIdempotency::new();
    let event = event(
        &["info@example.com"],
        "PASS",
        "PASS",
        "msg-1",
        lambda_action(),
    );

    let error = handle_event(event, &config, &store, &sender, &idempotency)
        .expect_err("no From to rewrite must error");
    assert!(matches!(error, HandlerError::NoFromHeader { .. }));
    assert_eq!(sender.call_count(), 0, "never forward an un-rewritten From");
}

#[test]
fn empty_message_id_errors() {
    let config = test_config();
    let store = FakeStore::returning(b"unused");
    let sender = FakeSender::new();
    let idempotency = FakeIdempotency::new();
    let event = event(&["info@example.com"], "PASS", "PASS", "", lambda_action());

    let error = handle_event(event, &config, &store, &sender, &idempotency)
        .expect_err("empty messageId must error");
    assert!(matches!(error, HandlerError::MissingField(_)));
    assert_eq!(store.call_count(), 0);
}

#[test]
fn hostile_message_id_is_rejected() {
    let config = test_config();
    let store = FakeStore::returning(b"unused");
    let sender = FakeSender::new();
    let idempotency = FakeIdempotency::new();
    // A slash would otherwise become an arbitrary object key within the bucket.
    let event = event(
        &["info@example.com"],
        "PASS",
        "PASS",
        "secrets/private-object",
        lambda_action(),
    );

    let error = handle_event(event, &config, &store, &sender, &idempotency)
        .expect_err("slash in messageId must be rejected");
    assert!(matches!(error, HandlerError::InvalidMessageId { .. }));
    assert_eq!(store.call_count(), 0, "never fetch with a hostile key");
}

#[test]
fn no_records_errors() {
    let config = test_config();
    let store = FakeStore::returning(b"unused");
    let sender = FakeSender::new();
    let idempotency = FakeIdempotency::new();
    let event = SesEvent { records: vec![] };

    let error = handle_event(event, &config, &store, &sender, &idempotency)
        .expect_err("zero records must error");
    assert!(matches!(error, HandlerError::NoRecords));
}

#[test]
fn too_many_records_errors() {
    let config = test_config();
    let store = FakeStore::returning(b"unused");
    let sender = FakeSender::new();
    let idempotency = FakeIdempotency::new();
    let event = SesEvent {
        records: vec![SesRecord::default(), SesRecord::default()],
    };

    let error = handle_event(event, &config, &store, &sender, &idempotency)
        .expect_err("two records must error");
    assert!(matches!(error, HandlerError::TooManyRecords(2)));
}

#[test]
fn duplicate_delivery_is_dropped_with_zero_calls() {
    let config = test_config();
    let store = FakeStore::returning(b"unused");
    let sender = FakeSender::new();
    let idempotency = FakeIdempotency::duplicate();
    let event = event(
        &["info@example.com"],
        "PASS",
        "PASS",
        "msg-1",
        lambda_action(),
    );

    handle_event(event, &config, &store, &sender, &idempotency)
        .expect("a duplicate is a drop, not an error");

    assert_eq!(store.call_count(), 0, "no fetch for a duplicate");
    assert_eq!(sender.call_count(), 0, "no send for a duplicate");
}

#[test]
fn claim_is_released_when_send_fails() {
    let config = test_config();
    let store = FakeStore::returning(
        b"From: Bob <bob@example.net>\r\nTo: info@example.com\r\n\r\nbody",
    );
    let sender = FakeSender::failing();
    let idempotency = FakeIdempotency::new();
    let event = event(
        &["info@example.com"],
        "PASS",
        "PASS",
        "msg-1",
        lambda_action(),
    );

    let error = handle_event(event, &config, &store, &sender, &idempotency)
        .expect_err("send failure propagates");
    assert!(matches!(error, HandlerError::Ses { .. }));
    assert_eq!(
        idempotency.release_count(),
        1,
        "the claim must be released so a retry can re-process"
    );
}

#[test]
fn idempotency_claim_failure_errors_before_fetch() {
    let config = test_config();
    let store = FakeStore::returning(b"unused");
    let sender = FakeSender::new();
    let idempotency = FakeIdempotency::failing_claim();
    let event = event(
        &["info@example.com"],
        "PASS",
        "PASS",
        "msg-1",
        lambda_action(),
    );

    let error = handle_event(event, &config, &store, &sender, &idempotency)
        .expect_err("claim failure must error");
    assert!(matches!(error, HandlerError::Idempotency { .. }));
    assert_eq!(store.call_count(), 0);
    assert_eq!(sender.call_count(), 0);
}

#[test]
fn s3_failure_propagates_as_error() {
    let config = test_config();
    let store = FakeStore::failing();
    let sender = FakeSender::new();
    let idempotency = FakeIdempotency::new();
    let event = event(
        &["info@example.com"],
        "PASS",
        "PASS",
        "msg-1",
        lambda_action(),
    );

    let error = handle_event(event, &config, &store, &sender, &idempotency)
        .expect_err("S3 failure must propagate");
    assert!(matches!(error, HandlerError::S3 { .. }));
    assert_eq!(sender.call_count(), 0);
}

#[test]
fn ses_failure_propagates_as_error() {
    let config = test_config();
    let store = FakeStore::returning(
        b"From: Bob <bob@example.net>\r\nTo: info@example.com\r\n\r\nbody",
    );
    let sender = FakeSender::failing();
    let idempotency = FakeIdempotency::new();
    let event = event(
        &["info@example.com"],
        "PASS",
        "PASS",
        "msg-1",
        lambda_action(),
    );

    let error = handle_event(event, &config, &store, &sender, &idempotency)
        .expect_err("SES failure must propagate");
    assert!(matches!(error, HandlerError::Ses { .. }));
}

#[test]
fn end_to_end_multipart_produces_exact_outgoing_message() {
    let mut config = test_config();
    config.subject_prefix = Some("[EXT] ".to_string());

    let input = [
        "Return-Path: <bounce@example.net>\r\n",
        "Received: from mx.example.net (mx.example.net [203.0.113.7])\r\n",
        "\tby inbound-smtp.us-east-1.amazonaws.com with SMTP id abc123\r\n",
        "DKIM-Signature: v=1; a=rsa-sha256; d=example.net; s=sel;\r\n",
        "\tbh=abcdef; b=signaturedata\r\n",
        "From: Alice Example <alice@example.net>\r\n",
        "To: info@example.com\r\n",
        "Subject: Quarterly report\r\n",
        "Message-ID: <orig-123@example.net>\r\n",
        "MIME-Version: 1.0\r\n",
        "Content-Type: multipart/alternative; boundary=\"b1\"\r\n",
        "\r\n",
        "--b1\r\n",
        "Content-Type: text/plain; charset=UTF-8\r\n",
        "\r\n",
        "Hello, this is the plain text part.\r\n",
        "--b1\r\n",
        "Content-Type: text/html; charset=UTF-8\r\n",
        "\r\n",
        "<p>Hello, this is the HTML part.</p>\r\n",
        "--b1--\r\n",
    ]
    .concat();

    let expected = [
        "Received: from mx.example.net (mx.example.net [203.0.113.7])\r\n",
        "\tby inbound-smtp.us-east-1.amazonaws.com with SMTP id abc123\r\n",
        "From: Alice Example <relay@example.com>\r\n",
        "To: info@example.com\r\n",
        "Subject: [EXT] Quarterly report\r\n",
        "MIME-Version: 1.0\r\n",
        "Content-Type: multipart/alternative; boundary=\"b1\"\r\n",
        "Reply-To: Alice Example <alice@example.net>\r\n",
        "\r\n",
        "--b1\r\n",
        "Content-Type: text/plain; charset=UTF-8\r\n",
        "\r\n",
        "Hello, this is the plain text part.\r\n",
        "--b1\r\n",
        "Content-Type: text/html; charset=UTF-8\r\n",
        "\r\n",
        "<p>Hello, this is the HTML part.</p>\r\n",
        "--b1--\r\n",
    ]
    .concat();

    let store = FakeStore::returning(input.as_bytes());
    let sender = FakeSender::new();
    let idempotency = FakeIdempotency::new();
    let event = event(
        &["info@example.com"],
        "PASS",
        "PASS",
        "msg-e2e",
        lambda_action(),
    );

    handle_event(event, &config, &store, &sender, &idempotency)
        .expect("end-to-end succeeds");

    let request = sender.last_request();
    assert_eq!(request.from_email_address, "relay@example.com");
    assert_eq!(request.to_addresses, vec!["dest@example.net"]);
    assert_eq!(
        String::from_utf8(request.raw_message).unwrap(),
        expected,
        "outgoing raw message must match byte-for-byte"
    );
}

// --- steps, one by one ----------------------------------------------

const MESSAGE: &[u8] = b"From: Bob <bob@example.net>\r\nTo: info@example.com\r\n\r\nbody";

fn clean_event() -> SesEvent {
    event(&["info@example.com"], "PASS", "PASS", "msg-1", lambda_action())
}

fn completion_of(event: SesEvent, config: &Config) -> Completion {
    let opening: Opening<String> = begin(&event, config);
    match opening.step {
        Step::Done(Ok(completion)) => completion,
        _ => panic!("expected the event to be handled without a call"),
    }
}

fn failure_of(event: SesEvent, config: &Config) -> HandlerError<String> {
    let store = FakeStore::returning(MESSAGE);
    let sender = FakeSender::new();
    let idempotency = FakeIdempotency::new();
    match handle_event(event, config, &store, &sender, &idempotency) {
        Ok(()) => panic!("expected an error"),
        Err(error) => {
            assert_eq!(sender.call_count(), 0);
            error
        }
    }
}

#[test]
fn drops_say_why() {
    let config = test_config();
    assert_eq!(
        completion_of(
            event(&["info@example.com"], "PASS", "fail", "msg-1", lambda_action()),
            &config
        ),
        Completion::Dropped(DropCause::Verdict(DropReason::Virus))
    );
    assert_eq!(
        completion_of(
            event(&["nobody@example.com"], "PASS", "PASS", "", lambda_action()),
            &config
        ),
        Completion::Dropped(DropCause::NoMatch)
    );
    let mut strict = test_config();
    strict.drop_spam = true;
    strict.drop_unscanned = true;
    assert_eq!(
        completion_of(
            event(&["info@example.com"], "FAIL", "PASS", "msg-1", lambda_action()),
            &strict
        ),
        Completion::Dropped(DropCause::Verdict(DropReason::Spam))
    );
    assert_eq!(
        completion_of(
            event(
                &["info@example.com"],
                "FAIL",
                "PROCESSING_FAILED",
                "msg-1",
                lambda_action()
            ),
            &strict
        ),
        Completion::Dropped(DropCause::Verdict(DropReason::UnscannedVirus))
    );
}

#[test]
fn drop_reasons_are_named() {
    assert_eq!(drop_reason(DropReason::Virus), "virus verdict FAIL");
    assert_eq!(
        drop_reason(DropReason::Spam),
        "spam verdict FAIL with DROP_SPAM enabled"
    );
    assert_eq!(
        drop_reason(DropReason::UnscannedVirus),
        "virus verdict PROCESSING_FAILED with DROP_UNSCANNED enabled"
    );
}

#[test]
fn event_source_is_matched_in_any_case() {
    let config = test_config();
    let upper = event_with_source(
        "AWS:SES",
        &["nobody@example.com"],
        "PASS",
        "PASS",
        "msg-1",
        lambda_action(),
    );
    assert_eq!(
        completion_of(upper, &config),
        Completion::Dropped(DropCause::NoMatch)
    );
}

#[test]
fn a_forward_despite_a_verdict_is_flagged() {
    let config = test_config();
    let flags = |spam: &str, virus: &str| {
        let opening: Opening<String> = begin(
            &event(&["info@example.com"], spam, virus, "msg-1", lambda_action()),
            &config,
        );
        (opening.no_verdicts, opening.fail_open)
    };
    assert_eq!(flags("PASS", "PASS"), (false, false));
    assert_eq!(flags("DISABLED", "disabled"), (false, false));
    assert_eq!(flags("FAIL", "PASS"), (false, true));
    assert_eq!(flags("PASS", "GRAY"), (false, true));
    // A drop is no forward.
    assert_eq!(flags("GRAY", "FAIL"), (false, false));

    let unmatched: Opening<String> = begin(
        &event(&["nobody@example.com"], "GRAY", "GRAY", "msg-1", lambda_action()),
        &config,
    );
    assert!(!unmatched.fail_open);
}

#[test]
fn a_receipt_without_verdicts_is_flagged() {
    let config = test_config();
    let mut bare = clean_event();
    bare.records[0].ses.receipt.spam_verdict.status = None;
    bare.records[0].ses.receipt.virus_verdict.status = None;
    let opening: Opening<String> = begin(&bare, &config);
    assert!(opening.no_verdicts);
    assert!(!opening.fail_open);
    assert!(matches!(opening.step, Step::Claim(_)));

    bare.records[0].ses.receipt.recipients.clear();
    let opening: Opening<String> = begin(&bare, &config);
    assert!(!opening.no_verdicts);
}

#[test]
fn a_forwarded_message_counts_its_destinations() {
    let mut config = test_config();
    config.forward_mapping.insert(
        "info@example.com".to_string(),
        vec!["a@example.net".to_string(), "b@example.net".to_string()],
    );
    let opening: Opening<String> = begin(&clean_event(), &config);
    let Step::Claim(claiming) = opening.step else {
        panic!("expected a claim");
    };
    assert_eq!(claiming.message_id, "msg-1");
    let Step::Fetch(fetching) = claiming.claimed::<String>(Ok(ClaimOutcome::New), &config) else {
        panic!("expected a fetch");
    };
    assert_eq!(fetching.bucket, "inbound-bucket-example");
    assert_eq!(fetching.key, "msg-1");
    let Step::Send(sending, request) =
        fetching.fetched::<String>(Ok(FetchResult::Message(MESSAGE.to_vec())), &config)
    else {
        panic!("expected a send");
    };
    assert_eq!(request.to_addresses, vec!["a@example.net", "b@example.net"]);
    assert_eq!(sending.matched_recipients, vec!["info@example.com"]);
    let Step::Done(Ok(completion)) = sending.sent::<String>(Ok(())) else {
        panic!("expected success");
    };
    assert_eq!(completion, Completion::Forwarded { recipient_count: 2 });
}

#[test]
fn every_failure_after_a_new_claim_releases_it() {
    let config = test_config();
    let bad_bucket = s3_action("elsewhere", "key");
    for (body, action) in [
        (MESSAGE, bad_bucket),
        (&b""[..], lambda_action()),
        (&b"To: info@example.com\r\n\r\nbody"[..], lambda_action()),
    ] {
        let store = FakeStore::returning(body);
        let sender = FakeSender::new();
        let idempotency = FakeIdempotency::new();
        let event = event(&["info@example.com"], "PASS", "PASS", "msg-1", action);
        assert!(handle_event(event, &config, &store, &sender, &idempotency).is_err());
        assert_eq!(idempotency.release_count(), 1);
        assert_eq!(sender.call_count(), 0);
    }
    let store = FakeStore::returning(MESSAGE);
    let sender = FakeSender::new();
    let idempotency = FakeIdempotency::new();
    assert!(handle_event(clean_event(), &config, &store, &sender, &idempotency).is_ok());
    assert_eq!(idempotency.release_count(), 0, "a success keeps its claim");
}

#[test]
fn a_claim_that_fails_or_is_a_duplicate_is_not_released() {
    let config = test_config();
    for idempotency in [FakeIdempotency::duplicate(), FakeIdempotency::failing_claim()] {
        let store = FakeStore::returning(MESSAGE);
        let sender = FakeSender::new();
        let _ = handle_event(clean_event(), &config, &store, &sender, &idempotency);
        assert_eq!(idempotency.release_count(), 0);
        assert_eq!(store.call_count(), 0);
    }
}

// --- errors ----------------------------------------------------------

#[test]
fn too_many_destinations_is_an_error_before_any_call() {
    let mut config = test_config();
    config.forward_mapping.insert(
        "@".to_string(),
        (0..30).map(|i| format!("a{i}@example.net")).collect(),
    );
    config.forward_mapping.insert(
        "info@example.com".to_string(),
        (0..21).map(|i| format!("b{i}@example.net")).collect(),
    );
    let event = event(
        &["info@example.com", "other@example.org"],
        "PASS",
        "PASS",
        "msg-1",
        lambda_action(),
    );
    let error = failure_of(event, &config);
    assert!(matches!(
        error,
        HandlerError::Resolve(ForwardError::TooManyDestinations { count: 51 })
    ));
    assert_eq!(
        error.message(),
        "resolved 51 destinations, exceeding the SES cap of 50 recipients (ToAddresses) per send"
    );
}

#[test]
fn errors_say_what_went_wrong() {
    let config = test_config();
    let message = |event: SesEvent| failure_of(event, &config).message();
    assert_eq!(
        message(SesEvent { records: vec![] }),
        "event contained no records; expected exactly one aws:ses record"
    );
    assert_eq!(
        message(SesEvent {
            records: vec![SesRecord::default(), SesRecord::default(), SesRecord::default()],
        }),
        "event contained 3 records; expected exactly one aws:ses record"
    );
    assert_eq!(
        message(SesEvent {
            records: vec![SesRecord::default()],
        }),
        "event source `<absent>` is not `aws:ses`"
    );
    assert_eq!(
        message(event(&["info@example.com"], "PASS", "PASS", "", lambda_action())),
        "event was missing a required field: mail.messageId"
    );
    assert_eq!(
        message(event(&["info@example.com"], "PASS", "PASS", "a/b", lambda_action())),
        "messageId `a/b` is not a valid object-key token (allowed: letters, digits, '.', '_', '-')"
    );
    assert_eq!(
        message(event(
            &["info@example.com"],
            "PASS",
            "PASS",
            "m",
            SesAction {
                bucket_name: None,
                object_key: Some("k".to_string()),
            }
        )),
        "receipt.action provides only one of bucketName/objectKey; an S3 action must carry both \
         or neither"
    );
    assert_eq!(
        message(event(
            &["info@example.com"],
            "PASS",
            "PASS",
            "m",
            s3_action("inbound-bucket-example", "/k")
        )),
        "event objectKey `/k` is not a safe object key (empty, leading '/', a '..' segment, or \
         control characters)"
    );
    assert_eq!(
        message(event(
            &["info@example.com"],
            "PASS",
            "PASS",
            "m",
            s3_action("elsewhere", "k")
        )),
        "event S3 bucket `elsewhere` does not match configured EMAIL_BUCKET \
         `inbound-bucket-example`; refusing to read from an unlisted bucket"
    );
}

#[test]
fn errors_of_calls_say_what_was_asked() {
    let empty: HandlerError<String> = HandlerError::EmptyMessage {
        message_id: "m".to_string(),
    };
    assert_eq!(
        empty.message(),
        "stored message `m` is empty; refusing to send an empty message"
    );
    let from_less: HandlerError<String> = HandlerError::NoFromHeader {
        message_id: "m".to_string(),
    };
    assert_eq!(
        from_less.message(),
        "message `m` has no From header to rewrite; refusing to forward"
    );
    let large: HandlerError<String> = HandlerError::MessageTooLarge {
        size: 31_457_281,
        limit: MAX_RAW_MESSAGE_BYTES,
    };
    assert_eq!(
        large.message(),
        "stored message is 31457281 bytes, exceeding the 31457280-byte limit (SES 40 MB \
         post-base64 send cap; base64 inflates ~33%)"
    );
    let claim = HandlerError::Idempotency {
        message_id: "m".to_string(),
        source: "cause",
    };
    assert_eq!(
        claim.message(),
        "failed to claim idempotency marker for message `m`"
    );
    let fetch = HandlerError::S3 {
        bucket: "b".to_string(),
        key: "k".to_string(),
        source: "cause",
    };
    assert_eq!(
        fetch.message(),
        "failed to read message from S3 (bucket `b`, key `k`)"
    );
    let send = HandlerError::Ses {
        message_id: "m".to_string(),
        recipient_count: 12,
        source: "cause",
    };
    assert_eq!(
        send.message(),
        "failed to send message `m` to 12 recipient(s) via SES"
    );
}

#[test]
fn causes_are_joined_in_order() {
    assert_eq!(error_cause_chain("a", &[]), "a");
    assert_eq!(
        error_cause_chain("a", &["b".to_string(), "c".to_string()]),
        "a: b: c"
    );
}

// --- checks on the event ---------------------------------------------

#[test]
fn message_ids_are_short_plain_tokens() {
    for id in ["a", "A-1_2.z", "..", &"x".repeat(256)] {
        assert!(is_valid_message_id(id), "id = {id}");
    }
    for id in ["", "a b", "a/b", "\u{e4}", "a\n", &"x".repeat(257)] {
        assert!(!is_valid_message_id(id), "id = {id}");
    }
}

#[test]
fn object_keys_stay_inside_the_bucket() {
    for key in ["k", "a/b", "a..b", "...", "a/..b/c", "a/b../c", "\u{e4}", &"x".repeat(1024)] {
        assert!(is_safe_object_key(key), "key = {key}");
    }
    for key in [
        "",
        "/a",
        "..",
        "../a",
        "a/..",
        "a/../b",
        "a\u{7}",
        &"x".repeat(1025),
        // Two bytes a character: the bound is on bytes.
        &"\u{e4}".repeat(513),
    ] {
        assert!(!is_safe_object_key(key), "key = {key}");
    }
}

#[test]
fn location_falls_back_to_the_message_id() {
    let config = test_config();
    let location = resolve_s3_location::<String>(&lambda_action(), &config, "msg-9");
    assert_eq!(
        location.ok(),
        Some(("inbound-bucket-example".to_string(), "msg-9".to_string()))
    );
}

// --- the size bound ---------------------------------------------------

#[test]
fn a_known_length_over_the_bound_is_refused() {
    assert_eq!(oversize(None, 10), None);
    assert_eq!(oversize(Some(-1), 10), None);
    assert_eq!(oversize(Some(10), 10), None);
    assert_eq!(oversize(Some(11), 10), Some(11));
    assert_eq!(oversize(Some(i64::MAX), usize::MAX), None);
}

#[test]
fn a_body_over_the_bound_is_refused() {
    assert!(matches!(
        bounded_message(vec![1, 2, 3], 3),
        FetchResult::Message(bytes) if bytes == vec![1, 2, 3]
    ));
    assert!(matches!(
        bounded_message(vec![1, 2, 3], 2),
        FetchResult::TooLarge { size: 3 }
    ));
}

// --- two deliveries ----------------------------------------------------

/// Handle an event with a store of markers that answers as a conditional write
/// does. Says whether the message was sent.
fn deliver(event: SesEvent, markers: &mut Vec<String>, send_fails: bool) -> bool {
    let config = test_config();
    let mut sent = false;
    let opening: Opening<String> = begin(&event, &config);
    let mut step = opening.step;
    loop {
        step = match step {
            Step::Claim(state) => {
                let outcome = if markers.contains(&state.message_id) {
                    ClaimOutcome::AlreadyProcessed
                } else {
                    markers.push(state.message_id.clone());
                    ClaimOutcome::New
                };
                state.claimed(Ok(outcome), &config)
            }
            Step::Fetch(state) => {
                state.fetched(Ok(FetchResult::Message(MESSAGE.to_vec())), &config)
            }
            Step::Send(state, _) => {
                if send_fails {
                    state.sent(Err("down".to_string()))
                } else {
                    sent = true;
                    state.sent(Ok(()))
                }
            }
            Step::Release(state) => {
                markers.retain(|id| id != &state.message_id);
                state.released()
            }
            Step::Done(_) => return sent,
        };
    }
}

#[test]
fn a_second_delivery_is_not_sent() {
    let mut markers = vec!["other".to_string()];
    assert!(deliver(clean_event(), &mut markers, false));
    assert_eq!(markers, vec!["other", "msg-1"]);
    assert!(!deliver(clean_event(), &mut markers, false));
    assert_eq!(markers, vec!["other", "msg-1"]);
}

#[test]
fn a_failed_delivery_can_be_retried() {
    let mut markers = vec!["other".to_string()];
    assert!(!deliver(clean_event(), &mut markers, true));
    assert_eq!(markers, vec!["other"]);
    assert!(deliver(clean_event(), &mut markers, false));
}

// --- logging ------------------------------------------------------------

#[test]
fn the_log_form_of_a_request_has_the_length_of_the_message_alone() {
    let mut request = SendRawEmailRequest {
        from_email_address: "relay@example.com".to_string(),
        to_addresses: vec!["a@example.net".to_string(), "\"b\n\"@example.net".to_string()],
        raw_message: b"secret".to_vec(),
    };
    assert_eq!(
        request.redacted(),
        r#"SendRawEmailRequest { from_email_address: "relay@example.com", to_addresses: ["a@example.net", "\"b\n\"@example.net"], raw_message_len: 6 }"#
    );
    let before = request.redacted();
    request.raw_message = b"SECRET".to_vec();
    assert_eq!(request.redacted(), before);
    request.to_addresses.clear();
    assert!(request.redacted().contains("to_addresses: [], raw_message_len: 6 }"));
}
