//! Opt-in duplicate suppression.
//!
//! SES invokes Lambda at least once, so a lost response or a mid-flight
//! termination after a successful send can cause the same message to be
//! forwarded twice. When an idempotency bucket is configured, each message is
//! "claimed" by conditionally creating a small marker object keyed by its
//! `messageId`; a duplicate delivery finds the marker already present and is
//! skipped.
//!
//! When no bucket is configured the store is disabled and every message is
//! treated as new - preserving the plain at-least-once behavior.
//!
//! This module decides which object a claim creates and a release deletes, and
//! what the answers mean; the calls themselves are the caller's.
use crate::text;
use crate::text::{join, same_text};
use vstd::prelude::*;

verus! {

/// Object-key prefix under which idempotency markers are written.
pub const MARKER_PREFIX: &'static str = "idempotency/";

/// The status of a conditional write that found an object in its place.
pub const PRECONDITION_FAILED_STATUS: u16 = 412;

/// The result of attempting to claim a message id.
#[derive(Debug, Clone, Copy, PartialEq, Eq, Structural)]
pub enum ClaimOutcome {
    /// Newly claimed - proceed to process the message.
    New,
    /// Already claimed by a prior delivery - this is a duplicate; skip it.
    AlreadyProcessed,
}

/// A marker object.
#[derive(Debug, Clone, PartialEq, Eq)]
pub struct Marker {
    pub bucket: String,
    pub key: String,
}

/// The one call to S3 that a claim or a release makes, if any.
#[derive(Debug, Clone, PartialEq, Eq)]
pub enum MarkerCall {
    /// No call: the store is disabled.
    Skip,
    /// Create the object, only if there is none.
    Create(Marker),
    /// Delete the object.
    Delete(Marker),
}

/// The bucket and the key of an object.
pub type ObjectModel = (Seq<char>, Seq<char>);

/// A [`MarkerCall`] over the texts it holds.
pub enum CallModel {
    Skip,
    Create(ObjectModel),
    Delete(ObjectModel),
}

impl View for MarkerCall {
    type V = CallModel;

    open spec fn view(&self) -> CallModel {
        match self {
            MarkerCall::Skip => CallModel::Skip,
            MarkerCall::Create(marker) => CallModel::Create((marker.bucket@, marker.key@)),
            MarkerCall::Delete(marker) => CallModel::Delete((marker.bucket@, marker.key@)),
        }
    }
}

/// A conditional write that failed: what the service said, and the error.
#[derive(Debug)]
pub struct PutFailure<E> {
    /// The HTTP status, where there was a response.
    pub status: Option<u16>,
    /// The modeled error code, where there was one.
    pub code: Option<String>,
    pub error: E,
}

/// The object key of a message's marker.
pub open spec fn marker_key_text(message_id: Seq<char>) -> Seq<char> {
    MARKER_PREFIX@ + message_id
}

/// A failed conditional write found an object in its place.
pub open spec fn finds_marker(status: Option<u16>, code: Option<Seq<char>>) -> bool {
    status == Some(PRECONDITION_FAILED_STATUS) || code == Some("PreconditionFailed"@)
}

/// The object key of a message's marker.
pub fn marker_key(message_id: &str) -> (out: String)
    ensures
        out@ == marker_key_text(message_id@),
{
    join(MARKER_PREFIX, message_id)
}

/// The call that a claim of a message id makes: the conditional write of its
/// marker, or none where no bucket is configured.
pub open spec fn claim_call_model(bucket: Option<Seq<char>>, message_id: Seq<char>) -> CallModel {
    match bucket {
        Some(bucket) => CallModel::Create((bucket, marker_key_text(message_id))),
        None => CallModel::Skip,
    }
}

/// The call that a release of a message id makes: the deletion of its marker, or
/// none where no bucket is configured.
pub open spec fn release_call_model(bucket: Option<Seq<char>>, message_id: Seq<char>) -> CallModel {
    match bucket {
        Some(bucket) => CallModel::Delete((bucket, marker_key_text(message_id))),
        None => CallModel::Skip,
    }
}

/// The call to make to claim a message id. Its answer goes to [`claim_outcome`].
pub fn claim_call(bucket: Option<&str>, message_id: &str) -> (out: MarkerCall)
    ensures
        out@ == claim_call_model(text::opt_text(bucket), message_id@),
{
    match bucket {
        Some(bucket) => MarkerCall::Create(
            Marker { bucket: bucket.to_owned(), key: marker_key(message_id) },
        ),
        None => MarkerCall::Skip,
    }
}

/// The call to make to release a claim, so that a retry can re-process the
/// message. Its answer goes to [`release_outcome`].
pub fn release_call(bucket: Option<&str>, message_id: &str) -> (out: MarkerCall)
    ensures
        out@ == release_call_model(text::opt_text(bucket), message_id@),
{
    match bucket {
        Some(bucket) => MarkerCall::Delete(
            Marker { bucket: bucket.to_owned(), key: marker_key(message_id) },
        ),
        None => MarkerCall::Skip,
    }
}

/// Whether a failed conditional put signals an existing marker (a duplicate).
/// True when the HTTP status is `412` or the modeled error code is
/// `PreconditionFailed`. Any other failure is a genuine error, so a real
/// duplicate is never mistaken for success - the failure direction is safe.
pub fn is_precondition_failed(status: Option<u16>, code: Option<&str>) -> (out: bool)
    ensures
        out == finds_marker(status, text::opt_text(code)),
{
    let by_status = match status {
        Some(status) => status == PRECONDITION_FAILED_STATUS,
        None => false,
    };
    let by_code = match code {
        Some(code) => same_text(code, "PreconditionFailed"),
        None => false,
    };
    by_status || by_code
}

/// The outcome of a claim, given the answer to the conditional write where one
/// was made.
pub open spec fn claim_outcome_model<E>(written: Option<Result<(), PutFailure<E>>>) -> Result<
    ClaimOutcome,
    E,
> {
    match written {
        None => Ok(ClaimOutcome::New),
        Some(Ok(_)) => Ok(ClaimOutcome::New),
        Some(Err(failure)) => if finds_marker(failure.status, text::opt_owned(failure.code)) {
            Ok(ClaimOutcome::AlreadyProcessed)
        } else {
            Err(failure.error)
        },
    }
}

/// What the answer to the conditional write of a marker means: a write that
/// went through is a new claim, one that found a marker is a duplicate, and any
/// other failure is an error. Without a write every claim is new.
pub fn claim_outcome<E>(written: Option<Result<(), PutFailure<E>>>) -> (out: Result<
    ClaimOutcome,
    E,
>)
    ensures
        out == claim_outcome_model(written),
{
    match written {
        None => Ok(ClaimOutcome::New),
        Some(Ok(_)) => Ok(ClaimOutcome::New),
        Some(Err(failure)) => {
            let code = match &failure.code {
                Some(code) => Some(code.as_str()),
                None => None,
            };
            if is_precondition_failed(failure.status, code) {
                Ok(ClaimOutcome::AlreadyProcessed)
            } else {
                Err(failure.error)
            }
        },
    }
}

/// The outcome of a release, given the answer to the deletion where one was
/// made: it succeeds exactly when the deletion does, and does nothing without
/// one.
pub fn release_outcome<E>(deleted: Option<Result<(), E>>) -> (out: Result<(), E>)
    ensures
        out == match deleted {
            Some(result) => result,
            None => Ok::<(), E>(()),
        },
{
    match deleted {
        Some(result) => result,
        None => Ok(()),
    }
}

} // verus!
