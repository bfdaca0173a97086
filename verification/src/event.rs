//! Minimal, lenient view of the SES -> Lambda event.
//!
//! Only the fields this function actually uses are modeled, and every field is
//! optional with a default. That deliberate leniency means a schema change to a
//! field we never read - or a hand-authored replay event that omits fields we
//! do not need - cannot fail the whole invocation.
use vstd::prelude::*;

verus! {

/// Top-level SES event: a list of records (SES delivers exactly one).
#[derive(Debug, Clone, Default, PartialEq, Eq)]
pub struct SesEvent {
    pub records: Vec<SesRecord>,
}

/// One SES record.
#[derive(Debug, Clone, Default, PartialEq, Eq)]
pub struct SesRecord {
    /// Expected to be `"aws:ses"`.
    pub event_source: Option<String>,
    pub ses: SesPayload,
}

/// The `ses` payload: the mail metadata and the receipt.
#[derive(Debug, Clone, Default, PartialEq, Eq)]
pub struct SesPayload {
    pub mail: SesMail,
    pub receipt: SesReceipt,
}

/// Mail metadata; only the message id is used (as the S3 object key).
#[derive(Debug, Clone, Default, PartialEq, Eq)]
pub struct SesMail {
    pub message_id: Option<String>,
}

/// The receipt: recipients, verdicts, and the triggering action.
#[derive(Debug, Clone, Default, PartialEq, Eq)]
pub struct SesReceipt {
    pub recipients: Vec<String>,
    pub spam_verdict: SesVerdict,
    pub virus_verdict: SesVerdict,
    pub action: SesAction,
}

/// A single verdict, e.g. `{ "status": "PASS" }`.
#[derive(Debug, Clone, Default, PartialEq, Eq)]
pub struct SesVerdict {
    pub status: Option<String>,
}

/// The receipt action. `bucket_name`/`object_key` are present only for an
/// S3-type action; a Lambda-type action carries neither.
#[derive(Debug, Clone, Default, PartialEq, Eq)]
pub struct SesAction {
    pub bucket_name: Option<String>,
    pub object_key: Option<String>,
}

} // verus!
