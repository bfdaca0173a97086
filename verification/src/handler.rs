//! Orchestration: read the SES event, apply the verdict gate, resolve
//! destinations, claim the message for idempotency, fetch the raw message from
//! S3, rewrite it, and send it.
//!
//! The calls to S3, SES and the idempotency store are the caller's. Handling an
//! event is a sequence of steps: [`begin`] says what to do first, and each of
//! the states [`Claiming`], [`Fetching`], [`Sending`] and [`Releasing`] takes
//! the answer to a call and says what comes next, until a step is
//! [`Step::Done`].
//!
//! A **drop** (a message we deliberately do not forward: no match, a failed
//! verdict, or a duplicate delivery) is a success. Errors are reserved for
//! genuine failures (bad event, S3/SES failure, oversize/empty/From-less
//! message) so Lambda's retry / OnFailure machinery engages only for real
//! problems.
use crate::config::Config;
use crate::event::{SesAction, SesEvent, SesRecord};
use crate::forward;
use crate::forward::{
    evaluate_verdicts, resolve_destinations, rewrite_message, verdict_is_concerning, DropReason,
    ForwardError, GateDecision, MatchedRecipient,
};
use crate::idempotency::ClaimOutcome;
use crate::rewrite;
use crate::text;
use crate::text::{
    ascii_alphanumeric, chars_of, concat, control_char, decimal, eq_ignore_ascii_case, join,
    same_text,
};
use vstd::prelude::*;
use vstd::utf8;

verus! {

/// Largest raw message we will fetch and forward. SES caps a send at 40 MB
/// *after* base64 encoding, which inflates the raw size by roughly one third,
/// so ~30 MB of raw bytes is the safe ceiling.
pub const MAX_RAW_MESSAGE_BYTES: usize = 30 * 1024 * 1024;

/// The longest message id that is accepted.
pub const MAX_MESSAGE_ID_CHARS: usize = 256;

/// The longest object key that is accepted, in bytes.
pub const MAX_OBJECT_KEY_BYTES: usize = 1024;

// ---------------------------------------------------------------------------
// Requests, replies and errors
// ---------------------------------------------------------------------------

/// Exactly what we hand to SES, captured as a plain value so that the outgoing
/// request can be compared byte for byte. It has no `Debug`: a stray `{:?}` can
/// never dump message content into a log. [`SendRawEmailRequest::redacted`] is
/// its form for logs.
#[derive(Clone, PartialEq, Eq)]
pub struct SendRawEmailRequest {
    pub from_email_address: String,
    pub to_addresses: Vec<String>,
    pub raw_message: Vec<u8>,
}

/// The texts and bytes of a request.
pub struct RequestModel {
    pub from_email_address: Seq<char>,
    pub to_addresses: Seq<Seq<char>>,
    pub raw_message: Seq<u8>,
}

impl View for SendRawEmailRequest {
    type V = RequestModel;

    open spec fn view(&self) -> RequestModel {
        RequestModel {
            from_email_address: self.from_email_address@,
            to_addresses: text::texts(self.to_addresses@),
            raw_message: self.raw_message@,
        }
    }
}

/// What the `{:?}` form of a string is: its text in double quotes, with escapes.
pub uninterp spec fn quoted_text(s: Seq<char>) -> Seq<char>;

/// `format!` with `{:?}` on a string, which depends on its text alone;
/// `quoted_text` names it.
#[verifier::external_body]
fn quoted(s: &str) -> (out: String)
    ensures
        out@ == quoted_text(s@),
{
    format!("{:?}", s)
}

/// The quoted forms of texts, with commas between them.
pub open spec fn quoted_list(texts: Seq<Seq<char>>) -> Seq<char>
    decreases texts.len(),
{
    if texts.len() == 0 {
        Seq::empty()
    } else if texts.len() == 1 {
        quoted_text(texts[0])
    } else {
        quoted_list(texts.drop_last()) + ", "@ + quoted_text(texts.last())
    }
}

/// A request as it may be logged: its addresses, and of the raw message the
/// length alone.
pub open spec fn redacted_text(
    from_email_address: Seq<char>,
    to_addresses: Seq<Seq<char>>,
    raw_message_len: nat,
) -> Seq<char> {
    ("SendRawEmailRequest { from_email_address: "@ + quoted_text(from_email_address)
        + ", to_addresses: ["@) + quoted_list(to_addresses) + ("], raw_message_len: "@
        + text::decimal_text(raw_message_len) + " }"@)
}

impl SendRawEmailRequest {
    /// The request as it may be logged. It never holds the raw message, only its
    /// length.
    pub fn redacted(&self) -> (out: String)
        ensures
            out@ == redacted_text(
                self.from_email_address@,
                text::texts(self.to_addresses@),
                self.raw_message@.len(),
            ),
    {
        let ghost all = text::texts(self.to_addresses@);
        let mut list = String::new();
        let mut i: usize = 0;
        assert(all.take(0) =~= seq![]);
        while i < self.to_addresses.len()
            invariant
                i <= self.to_addresses@.len(),
                all == text::texts(self.to_addresses@),
                list@ == quoted_list(all.take(i as int)),
            decreases self.to_addresses@.len() - i,
        {
            assert(all.take(i + 1).drop_last() =~= all.take(i as int));
            assert(all.take(i + 1).last() == self.to_addresses@[i as int]@);
            let address = quoted(self.to_addresses[i].as_str());
            if i == 0 {
                list = address;
            } else {
                list = concat(list.as_str(), ", ", address.as_str());
            }
            i += 1;
        }
        assert(all.take(i as int) =~= all);
        let from = quoted(self.from_email_address.as_str());
        let head = concat(
            "SendRawEmailRequest { from_email_address: ",
            from.as_str(),
            ", to_addresses: [",
        );
        let length = decimal(self.raw_message.len() as u64);
        let tail = concat("], raw_message_len: ", length.as_str(), " }");
        concat(head.as_str(), list.as_str(), tail.as_str())
    }
}

/// The outcome of a size-bounded fetch.
pub enum FetchResult {
    /// The message was within the size limit.
    Message(Vec<u8>),
    /// The object exceeds the limit; its size is reported without buffering it.
    TooLarge { size: u64 },
}

/// Everything that can go genuinely wrong while handling an event. Drops are
/// *not* errors. `E` is the error of a call to S3, SES or the idempotency store.
#[derive(Debug)]
pub enum HandlerError<E> {
    NoRecords,
    TooManyRecords(usize),
    SourceMismatch { event_source: String },
    MissingField(&'static str),
    InvalidMessageId { message_id: String },
    PartialS3Action,
    InvalidObjectKey { object_key: String },
    BucketMismatch { event_bucket: String, configured_bucket: String },
    EmptyMessage { message_id: String },
    NoFromHeader { message_id: String },
    MessageTooLarge { size: u64, limit: usize },
    Resolve(ForwardError),
    Idempotency { message_id: String, source: E },
    S3 { bucket: String, key: String, source: E },
    Ses { message_id: String, recipient_count: usize, source: E },
}

/// A [`HandlerError`] over the texts it holds.
pub enum ErrorModel<E> {
    NoRecords,
    TooManyRecords(nat),
    SourceMismatch { event_source: Seq<char> },
    MissingField(Seq<char>),
    InvalidMessageId { message_id: Seq<char> },
    PartialS3Action,
    InvalidObjectKey { object_key: Seq<char> },
    BucketMismatch { event_bucket: Seq<char>, configured_bucket: Seq<char> },
    EmptyMessage { message_id: Seq<char> },
    NoFromHeader { message_id: Seq<char> },
    MessageTooLarge { size: nat, limit: nat },
    TooManyDestinations { count: nat },
    Idempotency { message_id: Seq<char>, source: E },
    S3 { bucket: Seq<char>, key: Seq<char>, source: E },
    Ses { message_id: Seq<char>, recipient_count: nat, source: E },
}

impl<E> View for HandlerError<E> {
    type V = ErrorModel<E>;

    open spec fn view(&self) -> ErrorModel<E> {
        match *self {
            HandlerError::NoRecords => ErrorModel::NoRecords,
            HandlerError::TooManyRecords(count) => ErrorModel::TooManyRecords(count as nat),
            HandlerError::SourceMismatch { event_source } => ErrorModel::SourceMismatch {
                event_source: event_source@,
            },
            HandlerError::MissingField(field) => ErrorModel::MissingField(field@),
            HandlerError::InvalidMessageId { message_id } => ErrorModel::InvalidMessageId {
                message_id: message_id@,
            },
            HandlerError::PartialS3Action => ErrorModel::PartialS3Action,
            HandlerError::InvalidObjectKey { object_key } => ErrorModel::InvalidObjectKey {
                object_key: object_key@,
            },
            HandlerError::BucketMismatch {
                event_bucket,
                configured_bucket,
            } => ErrorModel::BucketMismatch {
                event_bucket: event_bucket@,
                configured_bucket: configured_bucket@,
            },
            HandlerError::EmptyMessage { message_id } => ErrorModel::EmptyMessage {
                message_id: message_id@,
            },
            HandlerError::NoFromHeader { message_id } => ErrorModel::NoFromHeader {
                message_id: message_id@,
            },
            HandlerError::MessageTooLarge { size, limit } => ErrorModel::MessageTooLarge {
                size: size as nat,
                limit: limit as nat,
            },
            HandlerError::Resolve(ForwardError::TooManyDestinations { count }) => {
                ErrorModel::TooManyDestinations { count: count as nat }
            },
            HandlerError::Idempotency { message_id, source } => ErrorModel::Idempotency {
                message_id: message_id@,
                source,
            },
            HandlerError::S3 { bucket, key, source } => ErrorModel::S3 {
                bucket: bucket@,
                key: key@,
                source,
            },
            HandlerError::Ses { message_id, recipient_count, source } => ErrorModel::Ses {
                message_id: message_id@,
                recipient_count: recipient_count as nat,
                source,
            },
        }
    }
}

impl<E> HandlerError<E> {
    /// What [`HandlerError::message`] returns.
    pub open spec fn message_text(self) -> Seq<char> {
        match self {
            HandlerError::NoRecords => {
                "event contained no records; expected exactly one aws:ses record"@
            },
            HandlerError::TooManyRecords(count) => "event contained "@ + text::decimal_text(
                count as nat,
            ) + " records; expected exactly one aws:ses record"@,
            HandlerError::SourceMismatch { event_source } => "event source `"@ + event_source@
                + "` is not `aws:ses`"@,
            HandlerError::MissingField(field) => "event was missing a required field: "@ + field@,
            HandlerError::InvalidMessageId { message_id } => "messageId `"@ + message_id@
                + "` is not a valid object-key token (allowed: letters, digits, '.', '_', '-')"@,
            HandlerError::PartialS3Action => {
                "receipt.action provides only one of bucketName/objectKey; an S3 action must carry both or neither"@
            },
            HandlerError::InvalidObjectKey { object_key } => "event objectKey `"@ + object_key@
                + "` is not a safe object key (empty, leading '/', a '..' segment, or control characters)"@,
            HandlerError::BucketMismatch { event_bucket, configured_bucket } => (
            "event S3 bucket `"@ + event_bucket@
                + "` does not match configured EMAIL_BUCKET `"@) + configured_bucket@
                + "`; refusing to read from an unlisted bucket"@,
            HandlerError::EmptyMessage { message_id } => "stored message `"@ + message_id@
                + "` is empty; refusing to send an empty message"@,
            HandlerError::NoFromHeader { message_id } => "message `"@ + message_id@
                + "` has no From header to rewrite; refusing to forward"@,
            HandlerError::MessageTooLarge { size, limit } => ("stored message is "@
                + text::decimal_text(size as nat) + " bytes, exceeding the "@)
                + text::decimal_text(limit as nat)
                + "-byte limit (SES 40 MB post-base64 send cap; base64 inflates ~33%)"@,
            HandlerError::Resolve(error) => error.message_text(),
            HandlerError::Idempotency { message_id, .. } => {
                "failed to claim idempotency marker for message `"@ + message_id@ + "`"@
            },
            HandlerError::S3 { bucket, key, .. } => (
            "failed to read message from S3 (bucket `"@ + bucket@ + "`, key `"@) + key@ + "`)"@,
            HandlerError::Ses { message_id, recipient_count, .. } => ("failed to send message `"@
                + message_id@ + "` to "@) + text::decimal_text(recipient_count as nat)
                + " recipient(s) via SES"@,
        }
    }

    /// The error in words, without its cause.
    pub fn message(&self) -> (out: String)
        ensures
            out@ == self.message_text(),
    {
        match self {
            HandlerError::NoRecords => {
                "event contained no records; expected exactly one aws:ses record".to_owned()
            },
            HandlerError::TooManyRecords(count) => concat(
                "event contained ",
                decimal(*count as u64).as_str(),
                " records; expected exactly one aws:ses record",
            ),
            HandlerError::SourceMismatch { event_source } => concat(
                "event source `",
                event_source.as_str(),
                "` is not `aws:ses`",
            ),
            HandlerError::MissingField(field) => join(
                "event was missing a required field: ",
                field,
            ),
            HandlerError::InvalidMessageId { message_id } => concat(
                "messageId `",
                message_id.as_str(),
                "` is not a valid object-key token (allowed: letters, digits, '.', '_', '-')",
            ),
            HandlerError::PartialS3Action => {
                "receipt.action provides only one of bucketName/objectKey; an S3 action must carry both or neither".to_owned()
            },
            HandlerError::InvalidObjectKey { object_key } => concat(
                "event objectKey `",
                object_key.as_str(),
                "` is not a safe object key (empty, leading '/', a '..' segment, or control characters)",
            ),
            HandlerError::BucketMismatch { event_bucket, configured_bucket } => {
                let named = concat(
                    "event S3 bucket `",
                    event_bucket.as_str(),
                    "` does not match configured EMAIL_BUCKET `",
                );
                concat(
                    named.as_str(),
                    configured_bucket.as_str(),
                    "`; refusing to read from an unlisted bucket",
                )
            },
            HandlerError::EmptyMessage { message_id } => concat(
                "stored message `",
                message_id.as_str(),
                "` is empty; refusing to send an empty message",
            ),
            HandlerError::NoFromHeader { message_id } => concat(
                "message `",
                message_id.as_str(),
                "` has no From header to rewrite; refusing to forward",
            ),
            HandlerError::MessageTooLarge { size, limit } => {
                let sized = concat(
                    "stored message is ",
                    decimal(*size).as_str(),
                    " bytes, exceeding the ",
                );
                concat(
                    sized.as_str(),
                    decimal(*limit as u64).as_str(),
                    "-byte limit (SES 40 MB post-base64 send cap; base64 inflates ~33%)",
                )
            },
            HandlerError::Resolve(error) => error.message(),
            HandlerError::Idempotency { message_id, .. } => concat(
                "failed to claim idempotency marker for message `",
                message_id.as_str(),
                "`",
            ),
            HandlerError::S3 { bucket, key, .. } => {
                let named = concat(
                    "failed to read message from S3 (bucket `",
                    bucket.as_str(),
                    "`, key `",
                );
                concat(named.as_str(), key.as_str(), "`)")
            },
            HandlerError::Ses { message_id, recipient_count, .. } => {
                let named = concat("failed to send message `", message_id.as_str(), "` to ");
                concat(
                    named.as_str(),
                    decimal(*recipient_count as u64).as_str(),
                    " recipient(s) via SES",
                )
            },
        }
    }
}

// ---------------------------------------------------------------------------
// Checks on the event
// ---------------------------------------------------------------------------

/// A character of a message id: a letter, a digit, `.`, `_` or `-`.
pub open spec fn is_id_char(c: char) -> bool {
    text::is_ascii_alphanumeric(c) || c == '.' || c == '_' || c == '-'
}

/// A token that can be an object key.
pub open spec fn is_message_id(id: Seq<char>) -> bool {
    &&& 0 < id.len() <= MAX_MESSAGE_ID_CHARS
    &&& forall|i: int| 0 <= i < id.len() ==> is_id_char(#[trigger] id[i])
}

/// A `..` that is a whole segment between slashes starts at `i`.
pub open spec fn parent_segment_at(key: Seq<char>, i: int) -> bool {
    &&& 0 <= i
    &&& i + 2 <= key.len()
    &&& key[i] == '.'
    &&& key[i + 1] == '.'
    &&& i == 0 || key[i - 1] == '/'
    &&& i + 2 == key.len() || key[i + 2] == '/'
}

/// An object key that an event may name.
pub open spec fn is_safe_key(key: Seq<char>) -> bool {
    &&& key.len() > 0
    &&& utf8::encode_utf8(key).len() <= MAX_OBJECT_KEY_BYTES
    &&& key[0] != '/'
    &&& forall|i: int| 0 <= i < key.len() ==> !text::is_control_char(#[trigger] key[i])
    &&& forall|i: int| !parent_segment_at(key, i)
}

/// The single record of the event, or an error naming the shape problem.
pub open spec fn record_of<E>(event: SesEvent) -> Result<SesRecord, ErrorModel<E>> {
    if event.records@.len() == 0 {
        Err(ErrorModel::NoRecords)
    } else if event.records@.len() == 1 {
        Ok(event.records@[0])
    } else {
        Err(ErrorModel::TooManyRecords(event.records@.len()))
    }
}

/// Return the single SES record, or an error naming the shape problem.
pub fn single_record<E>(event: &SesEvent) -> (out: Result<&SesRecord, HandlerError<E>>)
    ensures
        match out {
            Ok(record) => record_of::<E>(*event) == Ok::<SesRecord, ErrorModel<E>>(*record),
            Err(error) => record_of::<E>(*event) == Err::<SesRecord, ErrorModel<E>>(error@),
        },
{
    let count = event.records.len();
    if count == 0 {
        Err(HandlerError::NoRecords)
    } else if count == 1 {
        Ok(&event.records[0])
    } else {
        Err(HandlerError::TooManyRecords(count))
    }
}

/// SES message ids are short alphanumeric tokens. Validating the shape stops a
/// hostile `messageId` from being used as an arbitrary S3 object key.
pub fn is_valid_message_id(message_id: &str) -> (out: bool)
    ensures
        out == is_message_id(message_id@),
{
    let chars = chars_of(message_id);
    if chars.len() == 0 || chars.len() > MAX_MESSAGE_ID_CHARS {
        return false;
    }
    let mut i: usize = 0;
    while i < chars.len()
        invariant
            chars@ == message_id@,
            i <= chars@.len(),
            forall|j: int| 0 <= j < i ==> is_id_char(#[trigger] chars@[j]),
        decreases chars@.len() - i,
    {
        let c = chars[i];
        if !(ascii_alphanumeric(c) || c == '.' || c == '_' || c == '-') {
            assert(!is_id_char(message_id@[i as int]));
            return false;
        }
        i += 1;
    }
    true
}

/// A defensively-safe S3 object key: non-empty, bounded, no control characters,
/// no leading `/`, and no `..` path segment.
pub fn is_safe_object_key(key: &str) -> (out: bool)
    ensures
        out == is_safe_key(key@),
{
    let chars = chars_of(key);
    let len = chars.len();
    if len == 0 || key.as_bytes().len() > MAX_OBJECT_KEY_BYTES || chars[0] == '/' {
        return false;
    }
    let mut i: usize = 0;
    while i < len
        invariant
            chars@ == key@,
            len == chars@.len(),
            i <= len,
            forall|j: int| 0 <= j < i ==> !text::is_control_char(#[trigger] chars@[j]),
            forall|j: int| j < i ==> !parent_segment_at(key@, j),
        decreases len - i,
    {
        if control_char(chars[i]) {
            return false;
        }
        if len - i >= 2 && chars[i] == '.' && chars[i + 1] == '.' && (i == 0 || chars[i - 1]
            == '/') && (len - i == 2 || chars[i + 2] == '/') {
            assert(parent_segment_at(key@, i as int));
            return false;
        }
        i += 1;
    }
    true
}

/// The texts of a receipt action.
pub struct ActionModel {
    pub bucket_name: Option<Seq<char>>,
    pub object_key: Option<Seq<char>>,
}

impl View for SesAction {
    type V = ActionModel;

    open spec fn view(&self) -> ActionModel {
        ActionModel {
            bucket_name: text::opt_owned(self.bucket_name),
            object_key: text::opt_owned(self.object_key),
        }
    }
}

/// Where the raw message of an action is stored.
pub open spec fn s3_location<E>(
    action: ActionModel,
    email_bucket: Seq<char>,
    message_id: Seq<char>,
) -> Result<(Seq<char>, Seq<char>), ErrorModel<E>> {
    match (action.bucket_name, action.object_key) {
        (Some(event_bucket), Some(object_key)) => if event_bucket != email_bucket {
            Err(ErrorModel::BucketMismatch { event_bucket, configured_bucket: email_bucket })
        } else if !is_safe_key(object_key) {
            Err(ErrorModel::InvalidObjectKey { object_key })
        } else {
            Ok((event_bucket, object_key))
        },
        (None, None) => Ok((email_bucket, message_id)),
        _ => Err(ErrorModel::PartialS3Action),
    }
}

/// Decide which S3 bucket and object key hold the raw message.
///
/// AWS's event schema carries `bucketName`/`objectKey` only for an
/// **S3-action** event; the direct SES->Lambda flow delivers a **Lambda-action**
/// event whose `receipt.action` has no S3 fields. So:
///
/// - When the event provides both S3 fields, use them - but enforce the
///   allowlist by refusing any bucket other than the configured `EMAIL_BUCKET`.
/// - When it provides neither, fall back to `EMAIL_BUCKET` and SES's documented
///   storage convention: the object key equals the `messageId` (this requires
///   the S3 receipt-rule action to use no key prefix).
/// - Exactly one of the two present is a malformed action and is rejected.
pub fn resolve_s3_location<E>(action: &SesAction, config: &Config, message_id: &str) -> (out:
    Result<(String, String), HandlerError<E>>)
    ensures
        match out {
            Ok((bucket, key)) => s3_location::<E>(action@, config.email_bucket@, message_id@) == Ok::<
                (Seq<char>, Seq<char>),
                ErrorModel<E>,
            >((bucket@, key@)),
            Err(error) => s3_location::<E>(action@, config.email_bucket@, message_id@) == Err::<
                (Seq<char>, Seq<char>),
                ErrorModel<E>,
            >(error@),
        },
{
    match (&action.bucket_name, &action.object_key) {
        (Some(event_bucket), Some(object_key)) => {
            if !same_text(event_bucket.as_str(), config.email_bucket.as_str()) {
                return Err(
                    HandlerError::BucketMismatch {
                        event_bucket: event_bucket.clone(),
                        configured_bucket: config.email_bucket.clone(),
                    },
                );
            }
            // The event-supplied key is checked as the message id is in the
            // other case: an invoker must not be able to point the fetch at an
            // arbitrary object via a crafted objectKey.
            if !is_safe_object_key(object_key.as_str()) {
                return Err(HandlerError::InvalidObjectKey { object_key: object_key.clone() });
            }
            Ok((event_bucket.clone(), object_key.clone()))
        },
        (None, None) => Ok((config.email_bucket.clone(), message_id.to_owned())),
        _ => Err(HandlerError::PartialS3Action),
    }
}

// ---------------------------------------------------------------------------
// The size bound on a fetch
// ---------------------------------------------------------------------------

/// The size of an object that is too large, where its length is already known
/// before its body is downloaded: this bounds memory rather than buffering an
/// oversized object first.
pub fn oversize(content_length: Option<i64>, max_bytes: usize) -> (out: Option<u64>)
    ensures
        match (content_length, out) {
            (Some(length), Some(size)) => length > max_bytes && size == length,
            (Some(length), None) => length <= max_bytes,
            (None, out) => out is None,
        },
{
    match content_length {
        Some(length) if length > 0 && length as u64 > max_bytes as u64 => Some(length as u64),
        _ => None,
    }
}

/// The outcome of a fetch whose body is there: the message, unless it is too
/// large after all.
pub fn bounded_message(bytes: Vec<u8>, max_bytes: usize) -> (out: FetchResult)
    ensures
        match out {
            FetchResult::Message(message) => bytes@.len() <= max_bytes && message@ == bytes@,
            FetchResult::TooLarge { size } => bytes@.len() > max_bytes && size == bytes@.len(),
        },
{
    if bytes.len() > max_bytes {
        FetchResult::TooLarge { size: bytes.len() as u64 }
    } else {
        FetchResult::Message(bytes)
    }
}

// ---------------------------------------------------------------------------
// Steps
// ---------------------------------------------------------------------------

/// How a message was handled without error.
#[derive(Debug, Clone, Copy, PartialEq, Eq, Structural)]
pub enum Completion {
    /// The message was sent on.
    Forwarded { recipient_count: usize },
    /// The message was dropped, and stays in S3.
    Dropped(DropCause),
}

/// Why a message is not forwarded.
#[derive(Debug, Clone, Copy, PartialEq, Eq, Structural)]
pub enum DropCause {
    /// The verdict gate says so.
    Verdict(DropReason),
    /// No destination matched any recipient.
    NoMatch,
    /// The message was processed before.
    Duplicate,
}

/// The reason of the verdict gate, as it is logged.
pub open spec fn drop_reason_text(reason: DropReason) -> Seq<char> {
    match reason {
        DropReason::Virus => "virus verdict FAIL"@,
        DropReason::Spam => "spam verdict FAIL with DROP_SPAM enabled"@,
        DropReason::UnscannedVirus => {
            "virus verdict PROCESSING_FAILED with DROP_UNSCANNED enabled"@
        },
    }
}

/// The reason of the verdict gate, as it is logged.
pub fn drop_reason(reason: DropReason) -> (out: &'static str)
    ensures
        out@ == drop_reason_text(reason),
{
    match reason {
        DropReason::Virus => "virus verdict FAIL",
        DropReason::Spam => "spam verdict FAIL with DROP_SPAM enabled",
        DropReason::UnscannedVirus => {
            "virus verdict PROCESSING_FAILED with DROP_UNSCANNED enabled"
        },
    }
}

/// Waiting for the answer of the idempotency store to a claim of `message_id`.
pub struct Claiming {
    pub message_id: String,
    pub action: SesAction,
    pub destinations: Vec<String>,
    pub matched_recipients: Vec<String>,
}

/// Waiting for the object `key` of `bucket`, no more than
/// [`MAX_RAW_MESSAGE_BYTES`] of it.
pub struct Fetching {
    pub message_id: String,
    pub bucket: String,
    pub key: String,
    pub destinations: Vec<String>,
    pub matched_recipients: Vec<String>,
}

/// Waiting for the answer of SES to a request to send.
pub struct Sending {
    pub message_id: String,
    pub recipient_count: usize,
    pub matched_recipients: Vec<String>,
}

/// Waiting for the claim of `message_id` to be given up, after a failure.
pub struct Releasing<E> {
    pub message_id: String,
    pub error: HandlerError<E>,
}

/// What is to be done next.
pub enum Step<E> {
    /// Claim the message id, then call [`Claiming::claimed`].
    Claim(Claiming),
    /// Fetch the object, then call [`Fetching::fetched`].
    Fetch(Fetching),
    /// Send the request, then call [`Sending::sent`].
    Send(Sending, SendRawEmailRequest),
    /// Give up the claim, then call [`Releasing::released`].
    Release(Releasing<E>),
    /// Nothing: the event is handled.
    Done(Result<Completion, HandlerError<E>>),
}

/// The first step of handling an event, and what is to be logged about its
/// verdicts.
pub struct Opening<E> {
    pub step: Step<E>,
    /// A real-looking receipt has no verdicts at all: scanning may be off, or
    /// the event schema may have changed.
    pub no_verdicts: bool,
    /// The message is going to be forwarded despite a verdict that is present
    /// but neither `PASS` nor `DISABLED`.
    pub fail_open: bool,
}

/// The texts of a [`Claiming`].
pub struct ClaimingModel {
    pub message_id: Seq<char>,
    pub action: ActionModel,
    pub destinations: Seq<Seq<char>>,
    pub matched_recipients: Seq<Seq<char>>,
}

/// The texts of a [`Fetching`].
pub struct FetchingModel {
    pub message_id: Seq<char>,
    pub bucket: Seq<char>,
    pub key: Seq<char>,
    pub destinations: Seq<Seq<char>>,
    pub matched_recipients: Seq<Seq<char>>,
}

/// The texts of a [`Sending`].
pub struct SendingModel {
    pub message_id: Seq<char>,
    pub recipient_count: usize,
    pub matched_recipients: Seq<Seq<char>>,
}

/// A [`Step`] over the texts and bytes it holds.
pub enum StepModel<E> {
    Claim(ClaimingModel),
    Fetch(FetchingModel),
    Send(SendingModel, RequestModel),
    Release { message_id: Seq<char>, error: ErrorModel<E> },
    Done(Result<Completion, ErrorModel<E>>),
}

impl View for Claiming {
    type V = ClaimingModel;

    open spec fn view(&self) -> ClaimingModel {
        ClaimingModel {
            message_id: self.message_id@,
            action: self.action@,
            destinations: text::texts(self.destinations@),
            matched_recipients: text::texts(self.matched_recipients@),
        }
    }
}

impl View for Fetching {
    type V = FetchingModel;

    open spec fn view(&self) -> FetchingModel {
        FetchingModel {
            message_id: self.message_id@,
            bucket: self.bucket@,
            key: self.key@,
            destinations: text::texts(self.destinations@),
            matched_recipients: text::texts(self.matched_recipients@),
        }
    }
}

impl View for Sending {
    type V = SendingModel;

    open spec fn view(&self) -> SendingModel {
        SendingModel {
            message_id: self.message_id@,
            recipient_count: self.recipient_count,
            matched_recipients: text::texts(self.matched_recipients@),
        }
    }
}

impl<E> View for Step<E> {
    type V = StepModel<E>;

    open spec fn view(&self) -> StepModel<E> {
        match *self {
            Step::Claim(state) => StepModel::Claim(state@),
            Step::Fetch(state) => StepModel::Fetch(state@),
            Step::Send(state, request) => StepModel::Send(state@, request@),
            Step::Release(state) => StepModel::Release {
                message_id: state.message_id@,
                error: state.error@,
            },
            Step::Done(Ok(completion)) => StepModel::Done(Ok(completion)),
            Step::Done(Err(error)) => StepModel::Done(Err(error@)),
        }
    }
}

/// The record comes from SES.
pub open spec fn is_from_ses(record: SesRecord) -> bool {
    match text::opt_owned(record.event_source) {
        Some(source) => text::same_ignoring_case(source, "aws:ses"@),
        None => false,
    }
}

/// What the verdict gate decides on a record.
pub open spec fn record_decision(record: SesRecord, config: Config) -> GateDecision {
    forward::gate_decision(
        text::opt_owned(record.ses.receipt.spam_verdict.status),
        text::opt_owned(record.ses.receipt.virus_verdict.status),
        config.drop_spam,
        config.drop_unscanned,
    )
}

/// The destinations that a record's recipients resolve to.
pub open spec fn record_destinations(record: SesRecord, config: Config) -> Seq<Seq<char>> {
    forward::destinations_of(
        text::texts(record.ses.receipt.recipients@),
        forward::mapping_model(config.forward_mapping@),
        config.allow_plus_sign,
    )
}

/// The recipients of a record that match, normalized.
pub open spec fn record_matches(record: SesRecord, config: Config) -> Seq<Seq<char>> {
    forward::matches_of(
        text::texts(record.ses.receipt.recipients@),
        forward::mapping_model(config.forward_mapping@),
        config.allow_plus_sign,
    ).map_values(|m: (Seq<char>, Seq<char>)| m.0)
}

/// The message id of a record; empty where it has none.
pub open spec fn record_message_id(record: SesRecord) -> Seq<char> {
    match text::opt_owned(record.ses.mail.message_id) {
        Some(id) => id,
        None => Seq::empty(),
    }
}

/// The first step for a record that comes from SES.
pub open spec fn first_record_step<E>(record: SesRecord, config: Config) -> StepModel<E> {
    let destinations = record_destinations(record, config);
    let message_id = record_message_id(record);
    match record_decision(record, config) {
        GateDecision::Drop(reason) => StepModel::Done(
            Ok(Completion::Dropped(DropCause::Verdict(reason))),
        ),
        GateDecision::Forward => if destinations.len() > forward::MAX_TO_ADDRESSES {
            StepModel::Done(
                Err(ErrorModel::TooManyDestinations { count: destinations.len() }),
            )
        } else if destinations.len() == 0 {
            StepModel::Done(Ok(Completion::Dropped(DropCause::NoMatch)))
        } else if message_id.len() == 0 {
            StepModel::Done(Err(ErrorModel::MissingField("mail.messageId"@)))
        } else if !is_message_id(message_id) {
            StepModel::Done(Err(ErrorModel::InvalidMessageId { message_id }))
        } else {
            StepModel::Claim(
                ClaimingModel {
                    message_id,
                    action: record.ses.receipt.action@,
                    destinations,
                    matched_recipients: record_matches(record, config),
                },
            )
        },
    }
}

/// The first step of handling an event.
pub open spec fn first_step<E>(event: SesEvent, config: Config) -> StepModel<E> {
    match record_of::<E>(event) {
        Err(error) => StepModel::Done(Err(error)),
        Ok(record) => if is_from_ses(record) {
            first_record_step(record, config)
        } else {
            StepModel::Done(
                Err(
                    ErrorModel::SourceMismatch {
                        event_source: match text::opt_owned(record.event_source) {
                            Some(source) => source,
                            None => "<absent>"@,
                        },
                    },
                ),
            )
        },
    }
}

/// The event is one from SES that has recipients but no verdict at all.
pub open spec fn lacks_verdicts(event: SesEvent) -> bool {
    &&& event.records@.len() == 1
    &&& is_from_ses(event.records@[0])
    &&& event.records@[0].ses.receipt.recipients@.len() > 0
    &&& event.records@[0].ses.receipt.spam_verdict.status is None
    &&& event.records@[0].ses.receipt.virus_verdict.status is None
}

/// The event is one from SES that passes the verdict gate and whose recipients
/// resolve to destinations, with a verdict that is worth surfacing.
pub open spec fn forwards_despite_verdict(event: SesEvent, config: Config) -> bool {
    let record = event.records@[0];
    &&& event.records@.len() == 1
    &&& is_from_ses(record)
    &&& record_decision(record, config) is Forward
    &&& 0 < record_destinations(record, config).len() <= forward::MAX_TO_ADDRESSES
    &&& {
        ||| forward::is_concerning(text::opt_owned(record.ses.receipt.virus_verdict.status))
        ||| forward::is_concerning(text::opt_owned(record.ses.receipt.spam_verdict.status))
    }
}

/// The step after a claim was answered.
pub open spec fn after_claim<E>(
    state: ClaimingModel,
    reply: Result<ClaimOutcome, E>,
    config: Config,
) -> StepModel<E> {
    let message_id = state.message_id;
    match reply {
        Err(source) => StepModel::Done(Err(ErrorModel::Idempotency { message_id, source })),
        Ok(ClaimOutcome::AlreadyProcessed) => StepModel::Done(
            Ok(Completion::Dropped(DropCause::Duplicate)),
        ),
        Ok(ClaimOutcome::New) => match s3_location::<E>(
            state.action,
            config.email_bucket@,
            message_id,
        ) {
            Err(error) => StepModel::Release { message_id, error },
            Ok((bucket, key)) => StepModel::Fetch(
                FetchingModel {
                    message_id,
                    bucket,
                    key,
                    destinations: state.destinations,
                    matched_recipients: state.matched_recipients,
                },
            ),
        },
    }
}

/// The step after a fetch was answered.
pub open spec fn after_fetch<E>(
    state: FetchingModel,
    reply: Result<FetchResult, E>,
    config: Config,
) -> StepModel<E> {
    let message_id = state.message_id;
    match reply {
        Err(source) => StepModel::Release {
            message_id,
            error: ErrorModel::S3 { bucket: state.bucket, key: state.key, source },
        },
        Ok(FetchResult::TooLarge { size }) => StepModel::Release {
            message_id,
            error: ErrorModel::MessageTooLarge {
                size: size as nat,
                limit: MAX_RAW_MESSAGE_BYTES as nat,
            },
        },
        Ok(FetchResult::Message(raw)) => if raw@.len() == 0 {
            StepModel::Release { message_id, error: ErrorModel::EmptyMessage { message_id } }
        } else if !rewrite::has_from(raw@) {
            StepModel::Release { message_id, error: ErrorModel::NoFromHeader { message_id } }
        } else {
            StepModel::Send(
                SendingModel {
                    message_id,
                    recipient_count: state.destinations.len() as usize,
                    matched_recipients: state.matched_recipients,
                },
                RequestModel {
                    from_email_address: config.from_email@,
                    to_addresses: state.destinations,
                    raw_message: rewrite::rewritten(
                        raw@,
                        config.from_email@,
                        text::opt_owned(config.subject_prefix),
                    ),
                },
            )
        },
    }
}

/// The step after a request to send was answered.
pub open spec fn after_send<E>(state: SendingModel, reply: Result<(), E>) -> StepModel<E> {
    match reply {
        Ok(_) => StepModel::Done(
            Ok(Completion::Forwarded { recipient_count: state.recipient_count }),
        ),
        Err(source) => StepModel::Release {
            message_id: state.message_id,
            error: ErrorModel::Ses {
                message_id: state.message_id,
                recipient_count: state.recipient_count as nat,
                source,
            },
        },
    }
}

/// A borrowed form of an optional text.
fn borrowed(s: &Option<String>) -> (out: Option<&str>)
    ensures
        text::opt_text(out) == text::opt_owned(*s),
{
    match s {
        Some(s) => Some(s.as_str()),
        None => None,
    }
}

/// A copy of an optional text.
fn copied(s: &Option<String>) -> (out: Option<String>)
    ensures
        text::opt_owned(out) == text::opt_owned(*s),
{
    match s {
        Some(s) => Some(s.clone()),
        None => None,
    }
}

/// The addresses of matched recipients.
fn incoming_addresses(matched: &Vec<MatchedRecipient>) -> (out: Vec<String>)
    ensures
        text::texts(out@) == forward::matched_model(matched@).map_values(
            |m: (Seq<char>, Seq<char>)| m.0,
        ),
{
    let mut out: Vec<String> = Vec::new();
    let mut i: usize = 0;
    while i < matched.len()
        invariant
            i <= matched@.len(),
            out@.len() == i,
            forall|j: int| 0 <= j < i ==> (#[trigger] out@[j])@ == matched@[j].incoming@,
        decreases matched@.len() - i,
    {
        out.push(matched[i].incoming.clone());
        i += 1;
    }
    assert(text::texts(out@) =~= forward::matched_model(matched@).map_values(
        |m: (Seq<char>, Seq<char>)| m.0,
    ));
    out
}

/// Start handling one SES invocation: everything up to the first call.
pub fn begin<E>(event: &SesEvent, config: &Config) -> (out: Opening<E>)
    ensures
        out.step@ == first_step::<E>(*event, *config),
        out.no_verdicts == lacks_verdicts(*event),
        out.fail_open == forwards_despite_verdict(*event, *config),
{
    // Exactly one record, from aws:ses. Absent/foreign source fails closed
    // (defense in depth behind the SES-scoped invoke policy).
    let record = match single_record(event) {
        Ok(record) => record,
        Err(error) => {
            return Opening { step: Step::Done(Err(error)), no_verdicts: false, fail_open: false };
        },
    };
    let source = match &record.event_source {
        Some(source) => source.as_str(),
        None => "<absent>",
    };
    if record.event_source.is_none() || !eq_ignore_ascii_case(source, "aws:ses") {
        let error = HandlerError::SourceMismatch { event_source: source.to_owned() };
        return Opening { step: Step::Done(Err(error)), no_verdicts: false, fail_open: false };
    }
    let receipt = &record.ses.receipt;
    let spam_verdict = borrowed(&receipt.spam_verdict.status);
    let virus_verdict = borrowed(&receipt.virus_verdict.status);
    let no_verdicts = receipt.recipients.len() > 0 && spam_verdict.is_none()
        && virus_verdict.is_none();
    if let GateDecision::Drop(reason) = evaluate_verdicts(
        spam_verdict,
        virus_verdict,
        config.drop_spam,
        config.drop_unscanned,
    ) {
        let completion = Completion::Dropped(DropCause::Verdict(reason));
        return Opening { step: Step::Done(Ok(completion)), no_verdicts, fail_open: false };
    }
    let resolved = match resolve_destinations(
        receipt.recipients.as_slice(),
        &config.forward_mapping,
        config.allow_plus_sign,
    ) {
        Ok(resolved) => resolved,
        Err(error) => {
            let error = HandlerError::Resolve(error);
            return Opening { step: Step::Done(Err(error)), no_verdicts, fail_open: false };
        },
    };
    // A no-match is a drop with zero downstream calls.
    if resolved.destinations.len() == 0 {
        let completion = Completion::Dropped(DropCause::NoMatch);
        return Opening { step: Step::Done(Ok(completion)), no_verdicts, fail_open: false };
    }
    // From here on the message is forwarded, unless something fails.
    let fail_open = verdict_is_concerning(virus_verdict) || verdict_is_concerning(spam_verdict);

    // A usable messageId is required: it keys both the S3 object of a
    // Lambda-action event and the idempotency marker.
    let message_id = match &record.ses.mail.message_id {
        Some(message_id) => message_id.clone(),
        None => String::new(),
    };
    if message_id.as_str().is_empty() {
        let error = HandlerError::MissingField("mail.messageId");
        return Opening { step: Step::Done(Err(error)), no_verdicts, fail_open };
    }
    if !is_valid_message_id(message_id.as_str()) {
        let error = HandlerError::InvalidMessageId { message_id };
        return Opening { step: Step::Done(Err(error)), no_verdicts, fail_open };
    }
    let matched_recipients = incoming_addresses(&resolved.matched_recipients);
    let action = SesAction {
        bucket_name: copied(&receipt.action.bucket_name),
        object_key: copied(&receipt.action.object_key),
    };
    let state = Claiming {
        message_id,
        action,
        destinations: resolved.destinations,
        matched_recipients,
    };
    Opening { step: Step::Claim(state), no_verdicts, fail_open }
}

impl Claiming {
    /// Go on with the answer of the idempotency store. A duplicate delivery is a
    /// drop; a fresh claim is released if the forward fails, so a retry can
    /// re-process the message.
    pub fn claimed<E>(self, reply: Result<ClaimOutcome, E>, config: &Config) -> (out: Step<E>)
        ensures
            out@ == after_claim(self@, reply, *config),
    {
        match reply {
            Err(source) => Step::Done(
                Err(HandlerError::Idempotency { message_id: self.message_id, source }),
            ),
            Ok(ClaimOutcome::AlreadyProcessed) => Step::Done(
                Ok(Completion::Dropped(DropCause::Duplicate)),
            ),
            Ok(ClaimOutcome::New) => match resolve_s3_location(
                &self.action,
                config,
                self.message_id.as_str(),
            ) {
                Err(error) => Step::Release(Releasing { message_id: self.message_id, error }),
                Ok((bucket, key)) => Step::Fetch(
                    Fetching {
                        message_id: self.message_id,
                        bucket,
                        key,
                        destinations: self.destinations,
                        matched_recipients: self.matched_recipients,
                    },
                ),
            },
        }
    }
}

impl Fetching {
    /// Go on with what the store has: rewrite the message and have it sent,
    /// unless it is too large, empty or without a `From` field.
    pub fn fetched<E>(self, reply: Result<FetchResult, E>, config: &Config) -> (out: Step<E>)
        ensures
            out@ == after_fetch(self@, reply, *config),
    {
        let raw = match reply {
            Err(source) => {
                let error = HandlerError::S3 { bucket: self.bucket, key: self.key, source };
                return Step::Release(Releasing { message_id: self.message_id, error });
            },
            Ok(FetchResult::TooLarge { size }) => {
                let error = HandlerError::MessageTooLarge { size, limit: MAX_RAW_MESSAGE_BYTES };
                return Step::Release(Releasing { message_id: self.message_id, error });
            },
            Ok(FetchResult::Message(raw)) => raw,
        };
        if raw.len() == 0 {
            let error = HandlerError::EmptyMessage { message_id: self.message_id.clone() };
            return Step::Release(Releasing { message_id: self.message_id, error });
        }
        let rewritten = rewrite_message(
            raw.as_slice(),
            config.from_email.as_str(),
            borrowed(&config.subject_prefix),
        );
        if !rewritten.from_rewritten {
            let error = HandlerError::NoFromHeader { message_id: self.message_id.clone() };
            return Step::Release(Releasing { message_id: self.message_id, error });
        }
        let state = Sending {
            message_id: self.message_id,
            recipient_count: self.destinations.len(),
            matched_recipients: self.matched_recipients,
        };
        let request = SendRawEmailRequest {
            from_email_address: config.from_email.clone(),
            to_addresses: self.destinations,
            raw_message: rewritten.message,
        };
        Step::Send(state, request)
    }
}

impl Sending {
    /// Go on with the answer of SES.
    pub fn sent<E>(self, reply: Result<(), E>) -> (out: Step<E>)
        ensures
            out@ == after_send(self@, reply),
    {
        match reply {
            Ok(_) => Step::Done(
                Ok(Completion::Forwarded { recipient_count: self.recipient_count }),
            ),
            Err(source) => {
                let error = HandlerError::Ses {
                    message_id: self.message_id.clone(),
                    recipient_count: self.recipient_count,
                    source,
                };
                Step::Release(Releasing { message_id: self.message_id, error })
            },
        }
    }
}

impl<E> Releasing<E> {
    /// End with the failure that the claim was given up for, whether or not
    /// giving it up went well.
    pub fn released(self) -> (out: Step<E>)
        ensures
            out@ == StepModel::<E>::Done(Err(self.error@)),
    {
        Step::Done(Err(self.error))
    }
}

// ---------------------------------------------------------------------------
// Causes
// ---------------------------------------------------------------------------

/// An error and its causes, each after `: `.
pub open spec fn chain_text(error: Seq<char>, causes: Seq<Seq<char>>) -> Seq<char>
    decreases causes.len(),
{
    if causes.len() == 0 {
        error
    } else {
        chain_text(error, causes.drop_last()) + ": "@ + causes.last()
    }
}

/// Join an error with the chain of its causes into a single `a: b: c` string.
pub fn error_cause_chain(error: &str, causes: &[String]) -> (out: String)
    ensures
        out@ == chain_text(error@, text::texts(causes@)),
{
    let mut chain = error.to_owned();
    let ghost all = text::texts(causes@);
    let mut i: usize = 0;
    while i < causes.len()
        invariant
            i <= causes@.len(),
            all == text::texts(causes@),
            chain@ == chain_text(error@, all.take(i as int)),
        decreases causes@.len() - i,
    {
        assert(all.take(i + 1).drop_last() =~= all.take(i as int));
        assert(all.take(i + 1).last() == causes@[i as int]@);
        chain = concat(chain.as_str(), ": ", causes[i].as_str());
        i += 1;
    }
    assert(all.take(i as int) =~= all);
    chain
}

} // verus!
