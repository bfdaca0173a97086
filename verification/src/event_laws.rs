//! Laws of handling an event, on the fields that the event, the configuration
//! and the replies are made of.
use crate::config::Config;
use crate::event::{SesAction, SesEvent, SesRecord};
use crate::forward;
use crate::forward::{DropReason, ForwardError, GateDecision};
use crate::handler;
use crate::handler::{
    Claiming, ClaimingModel, Completion, DropCause, ErrorModel, FetchResult, Fetching,
    FetchingModel, HandlerError, SendRawEmailRequest, Sending, SendingModel, Step,
    StepModel,
};
use crate::handler_laws;
use crate::handler_laws::Replies;
use crate::idempotency::ClaimOutcome;
use crate::resolution_laws;
use crate::rewrite;
use crate::text;
use crate::text_laws;
use vstd::prelude::*;
use vstd::utf8;

verus! {

// ---------------------------------------------------------------------------
// The event
// ---------------------------------------------------------------------------

/// The event is a single record whose source is `aws:ses`, in whatever case.
pub open spec fn is_one_ses_record(event: SesEvent) -> bool {
    &&& event.records@.len() == 1
    &&& event.records@[0].event_source is Some
    &&& text::ascii_lower(event.records@[0].event_source->0@) == "aws:ses"@
}

/// The verdict is there and is, in lower case, the given word.
pub open spec fn says(status: Option<String>, word: Seq<char>) -> bool {
    status is Some && text::ascii_lower(status->0@) == word
}

/// No verdict speaks against the message.
pub open spec fn verdicts_pass(record: SesRecord, config: Config) -> bool {
    let spam = record.ses.receipt.spam_verdict.status;
    let virus = record.ses.receipt.virus_verdict.status;
    &&& !says(virus, "fail"@)
    &&& !(config.drop_unscanned && says(virus, "processing_failed"@))
    &&& !(config.drop_spam && says(spam, "fail"@))
}

/// The destinations of the record's recipients, by the mapping of the
/// configuration and by whether it allows plus-sign addressing.
pub open spec fn goes_to(record: SesRecord, config: Config) -> Seq<Seq<char>> {
    forward::destinations_of(
        text::texts(record.ses.receipt.recipients@),
        forward::mapping_model(config.forward_mapping@),
        config.allow_plus_sign,
    )
}

/// One to 256 letters, digits, dots, underscores and hyphens.
pub open spec fn is_token(id: Seq<char>) -> bool {
    &&& 1 <= id.len() <= 256
    &&& forall|i: int|
        0 <= i < id.len() ==> {
            ||| 'a' <= #[trigger] id[i] <= 'z'
            ||| 'A' <= id[i] <= 'Z'
            ||| '0' <= id[i] <= '9'
            ||| id[i] == '.'
            ||| id[i] == '_'
            ||| id[i] == '-'
        }
}

/// The event is one that is to be forwarded: a single record from SES that no
/// verdict speaks against, to one to fifty destinations, with a message id.
pub open spec fn is_to_be_forwarded(event: SesEvent, config: Config) -> bool {
    let record = event.records@[0];
    &&& is_one_ses_record(event)
    &&& verdicts_pass(record, config)
    &&& 1 <= goes_to(record, config).len() <= 50
    &&& record.ses.mail.message_id is Some
    &&& is_token(record.ses.mail.message_id->0@)
}

/// A message id is valid exactly when it is one to 256 letters, digits, dots,
/// underscores and hyphens.
pub proof fn law_which_message_ids_are_valid(id: Seq<char>)
    ensures
        handler::is_message_id(id) <==> is_token(id),
{
    if handler::is_message_id(id) {
        assert forall|i: int| 0 <= i < id.len() implies {
            ||| 'a' <= #[trigger] id[i] <= 'z'
            ||| 'A' <= id[i] <= 'Z'
            ||| '0' <= id[i] <= '9'
            ||| id[i] == '.'
            ||| id[i] == '_'
            ||| id[i] == '-'
        } by {
            assert(handler::is_id_char(id[i]));
        }
    }
}

/// An event that is not a single record from SES is an error that says so.
pub proof fn law_events_that_are_refused<E>(event: SesEvent, config: Config)
    ensures
        ({
            let step = handler::first_step::<E>(event, config);
            let records = event.records@;
            &&& step == StepModel::<E>::Done(Err(ErrorModel::NoRecords)) <==> records.len() == 0
            &&& records.len() >= 2 ==> step == StepModel::<E>::Done(
                Err(ErrorModel::TooManyRecords(records.len())),
            )
            &&& records.len() == 1 && !is_one_ses_record(event) ==> step == StepModel::<E>::Done(
                Err(
                    ErrorModel::SourceMismatch {
                        event_source: if records[0].event_source is Some {
                            records[0].event_source->0@
                        } else {
                            "<absent>"@
                        },
                    },
                ),
            )
        }),
{
    lemma_source(event);
}

/// An event from SES is dropped by its verdicts exactly when one speaks against
/// it, and for the reason that it gives.
pub proof fn law_events_that_verdicts_drop<E>(event: SesEvent, config: Config)
    requires
        is_one_ses_record(event),
    ensures
        ({
            let step = handler::first_step::<E>(event, config);
            let receipt = event.records@[0].ses.receipt;
            let virus = receipt.virus_verdict.status;
            let dropped = |reason: DropReason|
                StepModel::<E>::Done(Ok(Completion::Dropped(DropCause::Verdict(reason))));
            &&& step == dropped(DropReason::Virus) <==> says(virus, "fail"@)
            &&& step == dropped(DropReason::UnscannedVirus) <==> config.drop_unscanned && says(
                virus,
                "processing_failed"@,
            )
            &&& step == dropped(DropReason::Spam) <==> config.drop_spam && says(
                receipt.spam_verdict.status,
                "fail"@,
            ) && !says(virus, "fail"@) && !(config.drop_unscanned && says(
                virus,
                "processing_failed"@,
            ))
        }),
{
    lemma_source(event);
    lemma_decision(event.records@[0], config);
}

/// An event from SES that its verdicts let pass is dropped as one without a match
/// exactly when its recipients have no destinations, and is an error exactly
/// when they have more than fifty, or else when it has no valid message id. In
/// every other case its message id is claimed.
pub proof fn law_events_that_pass<E>(event: SesEvent, config: Config)
    requires
        is_one_ses_record(event),
        verdicts_pass(event.records@[0], config),
    ensures
        ({
            let step = handler::first_step::<E>(event, config);
            let record = event.records@[0];
            let to = goes_to(record, config);
            let id = record.ses.mail.message_id;
            &&& step == StepModel::<E>::Done(Ok(Completion::Dropped(DropCause::NoMatch)))
                <==> to.len() == 0
            &&& to.len() > 50 ==> step == StepModel::<E>::Done(
                Err(ErrorModel::TooManyDestinations { count: to.len() }),
            )
            &&& 1 <= to.len() <= 50 && (id is None || id->0@.len() == 0) ==> step == StepModel::<
                E,
            >::Done(Err(ErrorModel::MissingField("mail.messageId"@)))
            &&& 1 <= to.len() <= 50 && id is Some && id->0@.len() > 0 && !is_token(id->0@) ==> step
                == StepModel::<E>::Done(
                Err(ErrorModel::InvalidMessageId { message_id: id->0@ }),
            )
            &&& step is Claim <==> is_to_be_forwarded(event, config)
        }),
{
    lemma_source(event);
    lemma_decision(event.records@[0], config);
    let id = event.records@[0].ses.mail.message_id;
    if id is Some {
        law_which_message_ids_are_valid(id->0@);
    }
}

/// An event is claimed exactly when it is one to be forwarded; what is claimed is
/// its message id, for all its destinations and with its own action.
pub proof fn law_which_events_are_claimed<E>(event: SesEvent, config: Config)
    ensures
        ({
            let step = handler::first_step::<E>(event, config);
            let record = event.records@[0];
            let action = record.ses.receipt.action;
            &&& step is Claim <==> is_to_be_forwarded(event, config)
            &&& step is Claim ==> {
                let state = step->Claim_0;
                &&& state.message_id == record.ses.mail.message_id->0@
                &&& state.destinations == goes_to(record, config)
                &&& state.action.bucket_name is Some <==> action.bucket_name is Some
                &&& action.bucket_name is Some ==> state.action.bucket_name->0
                    == action.bucket_name->0@
                &&& state.action.object_key is Some <==> action.object_key is Some
                &&& action.object_key is Some ==> state.action.object_key->0
                    == action.object_key->0@
                &&& state.matched_recipients == forward::matches_of(
                    text::texts(record.ses.receipt.recipients@),
                    forward::mapping_model(config.forward_mapping@),
                    config.allow_plus_sign,
                ).map_values(|m: (Seq<char>, Seq<char>)| m.0)
            }
        }),
{
    lemma_source(event);
    if event.records@.len() == 1 {
        lemma_decision(event.records@[0], config);
        let id = event.records@[0].ses.mail.message_id;
        if id is Some {
            law_which_message_ids_are_valid(id->0@);
        }
    }
}

/// Where the configuration does not allow plus-sign addressing, an event to
/// `mailbox+tag@domain` alone is dropped as one without a match unless the
/// mapping has that address, its domain, that mailbox with its tag, or the
/// catch-all.
pub proof fn law_tag_is_kept_where_not_allowed<E>(
    event: SesEvent,
    config: Config,
    mailbox: Seq<char>,
    tag: Seq<char>,
    domain: Seq<char>,
)
    requires
        is_one_ses_record(event),
        verdicts_pass(event.records@[0], config),
        event.records@[0].ses.receipt.recipients@.len() == 1,
        text::ascii_lower(text::trimmed(event.records@[0].ses.receipt.recipients@[0]@)) == mailbox
            + "+"@ + tag + "@"@ + domain,
        !mailbox.contains('+'),
        !domain.contains('@'),
        !config.allow_plus_sign,
        !config.forward_mapping@.contains_key(mailbox + "+"@ + tag + "@"@ + domain),
        !config.forward_mapping@.contains_key("@"@ + domain),
        !config.forward_mapping@.contains_key(mailbox + "+"@ + tag),
        !config.forward_mapping@.contains_key("@"@),
    ensures
        handler::first_step::<E>(event, config) == StepModel::<E>::Done(
            Ok(Completion::Dropped(DropCause::NoMatch)),
        ),
{
    let mapping = forward::mapping_model(config.forward_mapping@);
    let recipients = event.records@[0].ses.receipt.recipients@;
    let recipient = recipients[0]@;
    assert(text::texts(recipients) =~= seq![recipient]);
    resolution_laws::law_mailbox_with_plus(mailbox, tag, domain, mapping);
    resolution_laws::law_one_recipient_goes_to_its_list(recipient, mapping, false);
    law_events_that_pass::<E>(event, config);
}

/// Where the configuration allows plus-sign addressing, an event to
/// `mailbox+tag@domain` alone goes to the destinations that the mapping has for
/// `mailbox@domain`.
pub proof fn law_tag_is_ignored_where_allowed(
    event: SesEvent,
    config: Config,
    mailbox: Seq<char>,
    tag: Seq<char>,
    domain: Seq<char>,
)
    requires
        event.records@.len() == 1,
        event.records@[0].ses.receipt.recipients@.len() == 1,
        text::ascii_lower(text::trimmed(event.records@[0].ses.receipt.recipients@[0]@)) == mailbox
            + "+"@ + tag + "@"@ + domain,
        !mailbox.contains('+'),
        !domain.contains('@'),
        domain.len() > 0,
        config.allow_plus_sign,
        config.forward_mapping@.contains_key(mailbox + "@"@ + domain),
    ensures
        forall|d: Seq<char>| #[trigger]
            handler::record_destinations(event.records@[0], config).contains(d) <==> text::texts(
                config.forward_mapping@[mailbox + "@"@ + domain]@,
            ).contains(d),
{
    let mapping = forward::mapping_model(config.forward_mapping@);
    let recipients = event.records@[0].ses.receipt.recipients@;
    let recipient = recipients[0]@;
    reveal_strlit("@");
    assert((mailbox + "+"@ + tag + "@"@ + domain).len() > 0);
    assert(text::texts(recipients) =~= seq![recipient]);
    resolution_laws::law_mailbox_with_plus(mailbox, tag, domain, mapping);
    resolution_laws::law_one_recipient_goes_to_its_list(recipient, mapping, true);
}

/// What is to be logged of the verdicts: that an event from SES with recipients
/// has none, and that one which goes to destinations has one that is neither
/// `PASS` nor `DISABLED`.
pub proof fn law_what_is_logged_of_verdicts(event: SesEvent, config: Config)
    ensures
        ({
            let receipt = event.records@[0].ses.receipt;
            let spam = receipt.spam_verdict.status;
            let virus = receipt.virus_verdict.status;
            &&& handler::lacks_verdicts(event) <==> is_one_ses_record(event)
                && receipt.recipients@.len() > 0 && spam is None && virus is None
            &&& handler::forwards_despite_verdict(event, config) <==> {
                &&& is_one_ses_record(event)
                &&& verdicts_pass(event.records@[0], config)
                &&& 1 <= goes_to(event.records@[0], config).len() <= 50
                &&& (spam is Some && !says(spam, "pass"@) && !says(spam, "disabled"@)) || (
                virus is Some && !says(virus, "pass"@) && !says(virus, "disabled"@))
            }
        }),
{
    lemma_source(event);
    if event.records@.len() == 1 {
        let record = event.records@[0];
        lemma_decision(record, config);
        resolution_laws::law_which_verdicts_are_surfaced(
            text::opt_owned(record.ses.receipt.spam_verdict.status),
        );
        resolution_laws::law_which_verdicts_are_surfaced(
            text::opt_owned(record.ses.receipt.virus_verdict.status),
        );
    }
}

proof fn lemma_source(event: SesEvent)
    ensures
        event.records@.len() == 1 ==> handler::is_from_ses(event.records@[0]) == is_one_ses_record(
            event,
        ),
{
    reveal_strlit("aws:ses");
    assert(text::ascii_lower("aws:ses"@) =~= "aws:ses"@);
}

proof fn lemma_decision(record: SesRecord, config: Config)
    ensures
        handler::record_decision(record, config) == GateDecision::Forward <==> verdicts_pass(
            record,
            config,
        ),
        handler::record_decision(record, config) == GateDecision::Drop(DropReason::Virus) <==> says(
            record.ses.receipt.virus_verdict.status,
            "fail"@,
        ),
        handler::record_decision(record, config) == GateDecision::Drop(DropReason::UnscannedVirus)
            <==> config.drop_unscanned && says(
            record.ses.receipt.virus_verdict.status,
            "processing_failed"@,
        ),
        handler::record_decision(record, config) == GateDecision::Drop(DropReason::Spam) <==> (
        config.drop_spam && says(record.ses.receipt.spam_verdict.status, "fail"@) && !says(
            record.ses.receipt.virus_verdict.status,
            "fail"@,
        ) && !(config.drop_unscanned && says(
            record.ses.receipt.virus_verdict.status,
            "processing_failed"@,
        ))),
{
    resolution_laws::law_what_the_verdicts_decide(
        text::opt_owned(record.ses.receipt.spam_verdict.status),
        text::opt_owned(record.ses.receipt.virus_verdict.status),
        config.drop_spam,
        config.drop_unscanned,
    );
}

// ---------------------------------------------------------------------------
// The stored message
// ---------------------------------------------------------------------------

/// An object key that stays inside its bucket: one to 1024 bytes, without a
/// slash in front and control characters, and without `..` between slashes, in
/// front of the first or behind the last.
pub open spec fn stays_inside(key: Seq<char>) -> bool {
    &&& key.len() > 0
    &&& utf8::encode_utf8(key).len() <= 1024
    &&& key[0] != '/'
    &&& forall|i: int|
        0 <= i < key.len() ==> !((#[trigger] key[i] as u32) < 32 || 127 <= key[i] as u32 <= 159)
    &&& key != ".."@
    &&& forall|rest: Seq<char>| key != #[trigger] ("../"@ + rest)
    &&& forall|start: Seq<char>| key != #[trigger] (start + "/.."@)
    &&& forall|start: Seq<char>, rest: Seq<char>| key != #[trigger] (start + "/../"@ + rest)
}

/// A key of an event is safe exactly when it stays inside its bucket.
pub proof fn law_which_keys_are_safe(key: Seq<char>)
    ensures
        handler::is_safe_key(key) <==> stays_inside(key),
{
    reveal_strlit("..");
    reveal_strlit("../");
    reveal_strlit("/..");
    reveal_strlit("/../");
    if handler::is_safe_key(key) {
        if key == ".."@ {
            assert(handler::parent_segment_at(key, 0));
        }
        assert forall|rest: Seq<char>| key != #[trigger] ("../"@ + rest) by {
            if key == "../"@ + rest {
                assert(handler::parent_segment_at(key, 0));
            }
        }
        assert forall|start: Seq<char>| key != #[trigger] (start + "/.."@) by {
            if key == start + "/.."@ {
                assert(handler::parent_segment_at(key, start.len() as int + 1));
            }
        }
        assert forall|start: Seq<char>, rest: Seq<char>| key != #[trigger] (start + "/../"@
            + rest) by {
            if key == start + "/../"@ + rest {
                assert(handler::parent_segment_at(key, start.len() as int + 1));
            }
        }
        assert forall|i: int| 0 <= i < key.len() implies !((#[trigger] key[i] as u32) < 32 || 127
            <= key[i] as u32 <= 159) by {
            text_laws::law_character_classes(key[i]);
        }
    }
    if stays_inside(key) {
        assert forall|i: int| !handler::parent_segment_at(key, i) by {
            if handler::parent_segment_at(key, i) {
                let n = key.len() as int;
                if i == 0 && n == 2 {
                    assert(key =~= ".."@);
                } else if i == 0 {
                    assert(key =~= "../"@ + key.skip(3));
                } else if i + 2 == n {
                    assert(key =~= key.take(i - 1) + "/.."@);
                } else {
                    assert(key =~= key.take(i - 1) + "/../"@ + key.skip(i + 3));
                }
            }
        }
        assert forall|i: int| 0 <= i < key.len() implies !text::is_control_char(
            #[trigger] key[i],
        ) by {
            text_laws::law_character_classes(key[i]);
        }
    }
}

/// Where the message of an event is read from: without S3 fields, from the
/// configured bucket at the message id; with both, at the key of the event if
/// its bucket is the configured one and the key stays inside it. Everything else
/// is an error that says what is wrong.
pub proof fn law_where_the_message_is_read_from<E>(
    action: SesAction,
    email_bucket: Seq<char>,
    id: Seq<char>,
)
    ensures
        ({
            let location = handler::s3_location::<E>(action@, email_bucket, id);
            match (action.bucket_name, action.object_key) {
                (None, None) => location == Ok::<(Seq<char>, Seq<char>), ErrorModel<E>>(
                    (email_bucket, id),
                ),
                (Some(bucket), Some(key)) => {
                    &&& bucket@ != email_bucket ==> location == Err::<
                        (Seq<char>, Seq<char>),
                        ErrorModel<E>,
                    >(
                        ErrorModel::BucketMismatch {
                            event_bucket: bucket@,
                            configured_bucket: email_bucket,
                        },
                    )
                    &&& bucket@ == email_bucket && !stays_inside(key@) ==> location == Err::<
                        (Seq<char>, Seq<char>),
                        ErrorModel<E>,
                    >(ErrorModel::InvalidObjectKey { object_key: key@ })
                    &&& bucket@ == email_bucket && stays_inside(key@) ==> location == Ok::<
                        (Seq<char>, Seq<char>),
                        ErrorModel<E>,
                    >((bucket@, key@))
                },
                _ => location == Err::<(Seq<char>, Seq<char>), ErrorModel<E>>(
                    ErrorModel::PartialS3Action,
                ),
            }
        }),
{
    if action.object_key is Some {
        law_which_keys_are_safe(action.object_key->0@);
    }
}

// ---------------------------------------------------------------------------
// The replies
// ---------------------------------------------------------------------------

/// What follows each answer to a claim.
pub proof fn law_what_follows_a_claim<E>(state: ClaimingModel, source: E, config: Config)
    ensures
        handler::after_claim(state, Err::<ClaimOutcome, E>(source), config) == StepModel::Done(
            Err(ErrorModel::Idempotency { message_id: state.message_id, source }),
        ),
        handler::after_claim(state, Ok::<ClaimOutcome, E>(ClaimOutcome::AlreadyProcessed), config)
            == StepModel::<E>::Done(Ok(Completion::Dropped(DropCause::Duplicate))),
        ({
            let step = handler::after_claim(state, Ok::<ClaimOutcome, E>(ClaimOutcome::New), config);
            match handler::s3_location::<E>(state.action, config.email_bucket@, state.message_id) {
                Ok((bucket, key)) => step == StepModel::<E>::Fetch(
                    FetchingModel {
                        message_id: state.message_id,
                        bucket,
                        key,
                        destinations: state.destinations,
                        matched_recipients: state.matched_recipients,
                    },
                ),
                Err(error) => step == StepModel::<E>::Release {
                    message_id: state.message_id,
                    error,
                },
            }
        }),
{
}

/// What follows each answer to a fetch: a message that is not empty and has a
/// `From` is sent on, rewritten, from the configured address to all the
/// destinations; in every other case the claim is given up, with an error that
/// says what went wrong.
pub proof fn law_what_follows_a_fetch<E>(
    state: FetchingModel,
    source: E,
    size: u64,
    raw: Vec<u8>,
    config: Config,
)
    requires
        state.destinations.len() <= 50,
    ensures
        handler::after_fetch(state, Err::<FetchResult, E>(source), config) == (StepModel::Release {
            message_id: state.message_id,
            error: ErrorModel::S3 { bucket: state.bucket, key: state.key, source },
        }),
        handler::after_fetch(state, Ok::<FetchResult, E>(FetchResult::TooLarge { size }), config)
            == (StepModel::<E>::Release {
            message_id: state.message_id,
            error: ErrorModel::MessageTooLarge { size: size as nat, limit: 31457280 },
        }),
        ({
            let step = handler::after_fetch(
                state,
                Ok::<FetchResult, E>(FetchResult::Message(raw)),
                config,
            );
            &&& raw@.len() == 0 ==> step == StepModel::<E>::Release {
                message_id: state.message_id,
                error: ErrorModel::EmptyMessage { message_id: state.message_id },
            }
            &&& raw@.len() > 0 && !rewrite::has_from(raw@) ==> step == StepModel::<E>::Release {
                message_id: state.message_id,
                error: ErrorModel::NoFromHeader { message_id: state.message_id },
            }
            &&& raw@.len() > 0 && rewrite::has_from(raw@) ==> {
                &&& step is Send
                &&& step->Send_0.message_id == state.message_id
                &&& step->Send_0.recipient_count == state.destinations.len()
                &&& step->Send_0.matched_recipients == state.matched_recipients
                &&& step->Send_1.from_email_address == config.from_email@
                &&& step->Send_1.to_addresses == state.destinations
                &&& step->Send_1.raw_message == rewrite::rewritten(
                    raw@,
                    config.from_email@,
                    if config.subject_prefix is Some {
                        Some(config.subject_prefix->0@)
                    } else {
                        None
                    },
                )
            }
        }),
{
}

/// What follows each answer to a request to send.
pub proof fn law_what_follows_a_send<E>(state: SendingModel, source: E)
    ensures
        handler::after_send(state, Ok::<(), E>(())) == StepModel::<E>::Done(
            Ok(Completion::Forwarded { recipient_count: state.recipient_count }),
        ),
        handler::after_send(state, Err::<(), E>(source)) == (StepModel::Release {
            message_id: state.message_id,
            error: ErrorModel::Ses {
                message_id: state.message_id,
                recipient_count: state.recipient_count as nat,
                source,
            },
        }),
{
}

/// A request goes out exactly when the event is one to be forwarded, its claim is
/// new, its message has a place to be read from and is there, not empty and with
/// a `From`. It is the only one, and goes from the configured address to the
/// destinations of the event's recipients by the configured mapping and the
/// configured plus-sign addressing.
pub proof fn law_what_goes_out<E>(event: SesEvent, config: Config, replies: Replies<E>)
    ensures
        ({
            let record = event.records@[0];
            let sends = handler_laws::run(event, config, replies).sends;
            &&& sends.len() > 0 <==> {
                &&& is_to_be_forwarded(event, config)
                &&& replies.claim == Ok::<ClaimOutcome, E>(ClaimOutcome::New)
                &&& handler::s3_location::<E>(
                    record.ses.receipt.action@,
                    config.email_bucket@,
                    record.ses.mail.message_id->0@,
                ) is Ok
                &&& replies.fetch matches Ok(FetchResult::Message(raw)) && raw@.len() > 0
                    && rewrite::has_from(raw@)
            }
            &&& sends.len() > 0 ==> {
                &&& sends.len() == 1
                &&& sends[0].from_email_address == config.from_email@
                &&& sends[0].to_addresses == forward::destinations_of(
                    text::texts(record.ses.receipt.recipients@),
                    forward::mapping_model(config.forward_mapping@),
                    config.allow_plus_sign,
                )
                &&& replies.fetch matches Ok(FetchResult::Message(raw)) && sends[0].raw_message
                    == rewrite::rewritten(
                    raw@,
                    config.from_email@,
                    if config.subject_prefix is Some {
                        Some(config.subject_prefix->0@)
                    } else {
                        None
                    },
                )
            }
        }),
{
    handler_laws::lemma_run(event, config, replies);
    law_which_events_are_claimed::<E>(event, config);
    if is_to_be_forwarded(event, config) {
        let state = handler::first_step::<E>(event, config)->Claim_0;
        let action = event.records@[0].ses.receipt.action@;
        assert(state.action.bucket_name == action.bucket_name);
        assert(state.action.object_key == action.object_key);
    }
}

/// What is fetched is the object that the event's message is to be read from, and
/// only after a new claim of its message id.
pub proof fn law_what_is_fetched<E>(event: SesEvent, config: Config, replies: Replies<E>)
    ensures
        ({
            let record = event.records@[0];
            let run = handler_laws::run(event, config, replies);
            let id = record.ses.mail.message_id->0@;
            &&& run.claims == if is_to_be_forwarded(event, config) {
                seq![id]
            } else {
                Seq::<Seq<char>>::empty()
            }
            &&& run.fetches.len() > 0 <==> {
                &&& is_to_be_forwarded(event, config)
                &&& replies.claim == Ok::<ClaimOutcome, E>(ClaimOutcome::New)
                &&& handler::s3_location::<E>(
                    record.ses.receipt.action@,
                    config.email_bucket@,
                    id,
                ) is Ok
            }
            &&& run.fetches.len() > 0 ==> run.fetches == seq![
                handler::s3_location::<E>(
                    record.ses.receipt.action@,
                    config.email_bucket@,
                    id,
                )->Ok_0,
            ]
        }),
{
    handler_laws::lemma_run(event, config, replies);
    law_which_events_are_claimed::<E>(event, config);
    let run = handler_laws::run(event, config, replies);
    if is_to_be_forwarded(event, config) {
        let state = handler::first_step::<E>(event, config)->Claim_0;
        let action = event.records@[0].ses.receipt.action@;
        assert(state.action.bucket_name == action.bucket_name);
        assert(state.action.object_key == action.object_key);
    } else {
        assert(run.claims =~= Seq::<Seq<char>>::empty());
    }
}

// ---------------------------------------------------------------------------
// Words
// ---------------------------------------------------------------------------

/// What each error says.
pub proof fn law_what_errors_say<E>(error: HandlerError<E>)
    ensures
        match error {
            HandlerError::NoRecords => error.message_text()
                == "event contained no records; expected exactly one aws:ses record"@,
            HandlerError::TooManyRecords(n) => error.message_text() == "event contained "@
                + text::decimal_text(n as nat) + " records; expected exactly one aws:ses record"@,
            HandlerError::SourceMismatch { event_source } => error.message_text()
                == "event source `"@ + event_source@ + "` is not `aws:ses`"@,
            HandlerError::MissingField(field) => error.message_text()
                == "event was missing a required field: "@ + field@,
            HandlerError::InvalidMessageId { message_id } => error.message_text() == "messageId `"@
                + message_id@
                + "` is not a valid object-key token (allowed: letters, digits, '.', '_', '-')"@,
            HandlerError::PartialS3Action => error.message_text()
                == "receipt.action provides only one of bucketName/objectKey; an S3 action must carry both or neither"@,
            HandlerError::InvalidObjectKey { object_key } => error.message_text()
                == "event objectKey `"@ + object_key@
                + "` is not a safe object key (empty, leading '/', a '..' segment, or control characters)"@,
            HandlerError::BucketMismatch { event_bucket, configured_bucket } => error.message_text()
                == ("event S3 bucket `"@ + event_bucket@
                + "` does not match configured EMAIL_BUCKET `"@) + configured_bucket@
                + "`; refusing to read from an unlisted bucket"@,
            HandlerError::EmptyMessage { message_id } => error.message_text() == "stored message `"@
                + message_id@ + "` is empty; refusing to send an empty message"@,
            HandlerError::NoFromHeader { message_id } => error.message_text() == "message `"@
                + message_id@ + "` has no From header to rewrite; refusing to forward"@,
            HandlerError::MessageTooLarge { size, limit } => error.message_text() == (
            "stored message is "@ + text::decimal_text(size as nat) + " bytes, exceeding the "@)
                + text::decimal_text(limit as nat)
                + "-byte limit (SES 40 MB post-base64 send cap; base64 inflates ~33%)"@,
            HandlerError::Resolve(ForwardError::TooManyDestinations { count }) => {
                error.message_text() == "resolved "@ + text::decimal_text(count as nat)
                    + " destinations, exceeding the SES cap of "@ + text::decimal_text(50)
                    + " recipients (ToAddresses) per send"@
            },
            HandlerError::Idempotency { message_id, .. } => error.message_text()
                == "failed to claim idempotency marker for message `"@ + message_id@ + "`"@,
            HandlerError::S3 { bucket, key, .. } => error.message_text() == (
            "failed to read message from S3 (bucket `"@ + bucket@ + "`, key `"@) + key@ + "`)"@,
            HandlerError::Ses { message_id, recipient_count, .. } => error.message_text() == (
            "failed to send message `"@ + message_id@ + "` to "@) + text::decimal_text(
                recipient_count as nat,
            ) + " recipient(s) via SES"@,
        },
{
}

/// An error and its causes are joined by `: `, in order.
pub proof fn law_how_causes_are_joined(error: Seq<char>, causes: Seq<Seq<char>>, cause: Seq<char>)
    ensures
        handler::chain_text(error, Seq::empty()) == error,
        handler::chain_text(error, causes.push(cause)) == handler::chain_text(error, causes) + ": "@
            + cause,
{
    assert(causes.push(cause).drop_last() =~= causes);
}

/// What a log shows of a request: its sender and each of its addresses, quoted,
/// and the length of its message.
pub proof fn law_what_a_log_shows(
    from: Seq<char>,
    to: Seq<Seq<char>>,
    address: Seq<char>,
    len: nat,
)
    ensures
        handler::redacted_text(from, to, len) == ("SendRawEmailRequest { from_email_address: "@
            + handler::quoted_text(from) + ", to_addresses: ["@) + handler::quoted_list(to) + (
        "], raw_message_len: "@ + text::decimal_text(len) + " }"@),
        handler::quoted_list(Seq::empty()) == Seq::<char>::empty(),
        handler::quoted_list(to.push(address)) == if to.len() == 0 {
            handler::quoted_text(address)
        } else {
            handler::quoted_list(to) + ", "@ + handler::quoted_text(address)
        },
{
    assert(to.push(address).drop_last() =~= to);
}

/// What a log says of a drop by the verdicts.
pub proof fn law_what_drops_are_called(reason: DropReason)
    ensures
        handler::drop_reason_text(reason) == match reason {
            DropReason::Virus => "virus verdict FAIL"@,
            DropReason::Spam => "spam verdict FAIL with DROP_SPAM enabled"@,
            DropReason::UnscannedVirus => {
                "virus verdict PROCESSING_FAILED with DROP_UNSCANNED enabled"@
            },
        },
{
}

// ---------------------------------------------------------------------------
// Models
// ---------------------------------------------------------------------------

/// Requests, states and actions are modelled by their own texts and bytes.
pub proof fn law_models_of_states(
    request: SendRawEmailRequest,
    action: SesAction,
    claiming: Claiming,
    fetching: Fetching,
    sending: Sending,
)
    ensures
        request@.from_email_address == request.from_email_address@,
        request@.to_addresses == text::texts(request.to_addresses@),
        request@.raw_message == request.raw_message@,
        action@.bucket_name is Some <==> action.bucket_name is Some,
        action.bucket_name is Some ==> action@.bucket_name->0 == action.bucket_name->0@,
        action@.object_key is Some <==> action.object_key is Some,
        action.object_key is Some ==> action@.object_key->0 == action.object_key->0@,
        claiming@.message_id == claiming.message_id@,
        claiming@.action == claiming.action@,
        claiming@.destinations == text::texts(claiming.destinations@),
        claiming@.matched_recipients == text::texts(claiming.matched_recipients@),
        fetching@.message_id == fetching.message_id@,
        fetching@.bucket == fetching.bucket@,
        fetching@.key == fetching.key@,
        fetching@.destinations == text::texts(fetching.destinations@),
        fetching@.matched_recipients == text::texts(fetching.matched_recipients@),
        sending@.message_id == sending.message_id@,
        sending@.recipient_count == sending.recipient_count,
        sending@.matched_recipients == text::texts(sending.matched_recipients@),
{
}

/// A step is modelled by a step of its own kind, and an error by an error of its
/// own kind with its own texts and numbers.
pub proof fn law_models_of_steps<E>(step: Step<E>, error: HandlerError<E>)
    ensures
        match step {
            Step::Claim(state) => step@ == StepModel::<E>::Claim(state@),
            Step::Fetch(state) => step@ == StepModel::<E>::Fetch(state@),
            Step::Send(state, request) => step@ == StepModel::<E>::Send(state@, request@),
            Step::Release(state) => step@ == StepModel::<E>::Release {
                message_id: state.message_id@,
                error: state.error@,
            },
            Step::Done(Ok(completion)) => step@ == StepModel::<E>::Done(Ok(completion)),
            Step::Done(Err(failure)) => step@ == StepModel::<E>::Done(Err(failure@)),
        },
        match error@ {
            ErrorModel::NoRecords => error is NoRecords,
            ErrorModel::TooManyRecords(count) => error matches HandlerError::TooManyRecords(n)
                && n == count,
            ErrorModel::SourceMismatch {
                event_source,
            } => error matches HandlerError::SourceMismatch { event_source: s } && s@
                == event_source,
            ErrorModel::MissingField(field) => error matches HandlerError::MissingField(f) && f@
                == field,
            ErrorModel::InvalidMessageId {
                message_id,
            } => error matches HandlerError::InvalidMessageId { message_id: s } && s@
                == message_id,
            ErrorModel::PartialS3Action => error is PartialS3Action,
            ErrorModel::InvalidObjectKey {
                object_key,
            } => error matches HandlerError::InvalidObjectKey { object_key: s } && s@
                == object_key,
            ErrorModel::BucketMismatch {
                event_bucket,
                configured_bucket,
            } => error matches HandlerError::BucketMismatch {
                event_bucket: a,
                configured_bucket: b,
            } && a@ == event_bucket && b@ == configured_bucket,
            ErrorModel::EmptyMessage {
                message_id,
            } => error matches HandlerError::EmptyMessage { message_id: s } && s@ == message_id,
            ErrorModel::NoFromHeader {
                message_id,
            } => error matches HandlerError::NoFromHeader { message_id: s } && s@ == message_id,
            ErrorModel::MessageTooLarge {
                size,
                limit,
            } => error matches HandlerError::MessageTooLarge { size: a, limit: b } && a == size && b
                == limit,
            ErrorModel::TooManyDestinations { count } => error matches HandlerError::Resolve(
                ForwardError::TooManyDestinations { count: n },
            ) && n == count,
            ErrorModel::Idempotency {
                message_id,
                source,
            } => error matches HandlerError::Idempotency { message_id: s, source: e } && s@
                == message_id && e == source,
            ErrorModel::S3 { bucket, key, source } => error matches HandlerError::S3 {
                bucket: a,
                key: b,
                source: e,
            } && a@ == bucket && b@ == key && e == source,
            ErrorModel::Ses {
                message_id,
                recipient_count,
                source,
            } => error matches HandlerError::Ses { message_id: s, recipient_count: n, source: e }
                && s@ == message_id && n == recipient_count && e == source,
        },
{
}

} // verus!
