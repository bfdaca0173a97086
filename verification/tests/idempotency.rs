use aws_ses_relay::idempotency::{
    claim_call, claim_outcome, is_precondition_failed, marker_key, release_call, release_outcome,
    ClaimOutcome, Marker, MarkerCall, PutFailure,
};

#[test]
fn disabled_store_treats_every_message_as_new() {
    // With no bucket configured neither a claim nor a release calls S3.
    assert_eq!(claim_call(None, "anything"), MarkerCall::Skip);
    assert_eq!(claim_outcome::<String>(None), Ok(ClaimOutcome::New));
    assert_eq!(claim_outcome::<String>(None), Ok(ClaimOutcome::New));
    assert_eq!(release_call(None, "anything"), MarkerCall::Skip);
    assert_eq!(release_outcome::<String>(None), Ok(()));
}

#[test]
fn marker_key_is_prefixed() {
    assert_eq!(marker_key("abc"), "idempotency/abc");
}

#[test]
fn precondition_failed_is_detected_by_status_or_code() {
    // 412 by HTTP status.
    assert!(is_precondition_failed(Some(412), None));
    // By modeled error code.
    assert!(is_precondition_failed(None, Some("PreconditionFailed")));
    // Either signal alone is enough.
    assert!(is_precondition_failed(Some(412), Some("Something")));
    // Any other failure is NOT a duplicate (fails safe -> real error).
    assert!(!is_precondition_failed(Some(500), Some("InternalError")));
    assert!(!is_precondition_failed(None, None));
    assert!(!is_precondition_failed(Some(403), Some("AccessDenied")));
}

#[test]
fn a_release_deletes_what_the_claim_creates() {
    let marker = Marker {
        bucket: "markers".to_string(),
        key: "idempotency/msg-1".to_string(),
    };
    assert_eq!(
        claim_call(Some("markers"), "msg-1"),
        MarkerCall::Create(marker.clone())
    );
    assert_eq!(
        release_call(Some("markers"), "msg-1"),
        MarkerCall::Delete(marker)
    );
}

#[test]
fn a_release_succeeds_when_its_deletion_does() {
    assert_eq!(release_outcome::<String>(Some(Ok(()))), Ok(()));
    assert_eq!(release_outcome(Some(Err("denied"))), Err("denied"));
}

#[test]
fn a_write_that_goes_through_is_a_new_claim() {
    assert_eq!(claim_outcome::<String>(Some(Ok(()))), Ok(ClaimOutcome::New));
}

#[test]
fn a_write_that_finds_a_marker_is_a_duplicate() {
    let failure = PutFailure {
        status: Some(412),
        code: Some("PreconditionFailed".to_string()),
        error: "marker exists",
    };
    assert_eq!(
        claim_outcome(Some(Err(failure))),
        Ok(ClaimOutcome::AlreadyProcessed)
    );
}

#[test]
fn any_other_failed_write_is_an_error() {
    let failure = PutFailure {
        status: Some(403),
        code: Some("AccessDenied".to_string()),
        error: "denied",
    };
    assert_eq!(claim_outcome(Some(Err(failure))), Err("denied"));
}
