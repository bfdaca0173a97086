//! Laws of handling an event, over the whole sequence of its steps.
use crate::config::Config;
use crate::config_laws;
use crate::event::SesEvent;
use crate::forward;
use crate::forward::DropReason;
use crate::handler;
use crate::handler::{
    Completion, DropCause, ErrorModel, FetchResult, RequestModel, SendRawEmailRequest, StepModel,
};
use crate::header;
use crate::idempotency::ClaimOutcome;
use crate::rewrite;
use crate::rewrite_laws;
use crate::text;
use vstd::prelude::*;

verus! {

/// What the idempotency store, S3 and SES answer, should they be asked.
pub struct Replies<E> {
    pub claim: Result<ClaimOutcome, E>,
    pub fetch: Result<FetchResult, E>,
    pub send: Result<(), E>,
}

/// What handling an event does: the calls that are made, and the result.
pub struct Run<E> {
    /// Message ids that are claimed.
    pub claims: Seq<Seq<char>>,
    /// Objects that are fetched: bucket and key.
    pub fetches: Seq<(Seq<char>, Seq<char>)>,
    /// Requests that are sent.
    pub sends: Seq<RequestModel>,
    /// Message ids whose claims are given up.
    pub releases: Seq<Seq<char>>,
    pub result: Result<Completion, ErrorModel<E>>,
}

/// The run that takes the steps from `step` on, after the calls that `before`
/// lists.
pub open spec fn run_from<E>(
    step: StepModel<E>,
    before: Run<E>,
    config: Config,
    replies: Replies<E>,
) -> Run<E>
    decreases
            (match step {
                StepModel::Claim(_) => 4int,
                StepModel::Fetch(_) => 3int,
                StepModel::Send(_, _) => 2int,
                StepModel::Release { .. } => 1int,
                StepModel::Done(_) => 0int,
            }),
{
    match step {
        StepModel::Claim(state) => run_from(
            handler::after_claim(state, replies.claim, config),
            Run { claims: before.claims.push(state.message_id), ..before },
            config,
            replies,
        ),
        StepModel::Fetch(state) => run_from(
            handler::after_fetch(state, replies.fetch, config),
            Run { fetches: before.fetches.push((state.bucket, state.key)), ..before },
            config,
            replies,
        ),
        StepModel::Send(state, request) => run_from(
            handler::after_send(state, replies.send),
            Run { sends: before.sends.push(request), ..before },
            config,
            replies,
        ),
        StepModel::Release { message_id, error } => run_from(
            StepModel::Done(Err(error)),
            Run { releases: before.releases.push(message_id), ..before },
            config,
            replies,
        ),
        StepModel::Done(result) => Run { result, ..before },
    }
}

/// The run of an event: its first step, and each step after it that the reply
/// to the one before leads to.
pub open spec fn run<E>(event: SesEvent, config: Config, replies: Replies<E>) -> Run<E> {
    let nothing = Run {
        claims: seq![],
        fetches: seq![],
        sends: seq![],
        releases: seq![],
        result: Err(ErrorModel::NoRecords),
    };
    run_from(handler::first_step(event, config), nothing, config, replies)
}

/// The run of an event in full.
pub proof fn lemma_run<E>(event: SesEvent, config: Config, replies: Replies<E>)
    ensures
        ({
            let run = run(event, config, replies);
            match handler::first_step::<E>(event, config) {
                StepModel::Claim(state) => {
                    let id = state.message_id;
                    &&& run.claims == seq![id]
                    &&& match handler::after_claim(state, replies.claim, config) {
                        StepModel::Fetch(fetching) => {
                            &&& run.fetches == seq![(fetching.bucket, fetching.key)]
                            &&& match handler::after_fetch(fetching, replies.fetch, config) {
                                StepModel::Send(sending, request) => {
                                    &&& run.sends == seq![request]
                                    &&& match handler::after_send(sending, replies.send) {
                                        StepModel::Done(result) => {
                                            run.releases.len() == 0 && run.result == result
                                        },
                                        StepModel::Release { message_id, error } => {
                                            &&& run.releases == seq![message_id]
                                            &&& run.result == Err::<Completion, ErrorModel<E>>(
                                                error,
                                            )
                                        },
                                        _ => false,
                                    }
                                },
                                StepModel::Release { message_id, error } => {
                                    &&& run.sends.len() == 0
                                    &&& run.releases == seq![message_id]
                                    &&& run.result == Err::<Completion, ErrorModel<E>>(error)
                                },
                                _ => false,
                            }
                        },
                        StepModel::Release { message_id, error } => {
                            &&& run.fetches.len() == 0
                            &&& run.sends.len() == 0
                            &&& run.releases == seq![message_id]
                            &&& run.result == Err::<Completion, ErrorModel<E>>(error)
                        },
                        StepModel::Done(result) => {
                            &&& run.fetches.len() == 0
                            &&& run.sends.len() == 0
                            &&& run.releases.len() == 0
                            &&& run.result == result
                        },
                        _ => false,
                    }
                },
                StepModel::Done(result) => {
                    &&& run.claims.len() == 0
                    &&& run.fetches.len() == 0
                    &&& run.sends.len() == 0
                    &&& run.releases.len() == 0
                    &&& run.result == result
                },
                _ => false,
            }
        }),
{
    reveal_with_fuel(run_from, 6);
}

// ---------------------------------------------------------------------------
// Calls
// ---------------------------------------------------------------------------

/// No event makes more than one call of a kind, and the calls come in order:
/// nothing is given up or fetched that was not claimed as new, nothing is sent
/// that was not fetched.
pub proof fn law_calls_come_in_order<E>(event: SesEvent, config: Config, replies: Replies<E>)
    ensures
        ({
            let run = run(event, config, replies);
            let claimed = run.claims.len() == 1 && replies.claim == Ok::<ClaimOutcome, E>(
                ClaimOutcome::New,
            );
            &&& run.claims.len() <= 1
            &&& run.fetches.len() <= 1
            &&& run.sends.len() <= 1
            &&& run.releases.len() <= 1
            &&& run.fetches.len() > 0 ==> claimed
            &&& run.releases.len() > 0 ==> claimed
            &&& run.sends.len() > 0 ==> run.fetches.len() == 1
        }),
{
    lemma_run(event, config, replies);
}

/// A drop makes no call to S3 or SES; one by the verdict gate, or for want of a
/// match, not even a claim.
pub proof fn law_drops_make_no_calls<E>(event: SesEvent, config: Config, replies: Replies<E>)
    ensures
        ({
            let run = run(event, config, replies);
            match run.result {
                Ok(Completion::Dropped(cause)) => {
                    &&& run.fetches.len() == 0
                    &&& run.sends.len() == 0
                    &&& run.releases.len() == 0
                    &&& cause != DropCause::Duplicate ==> run.claims.len() == 0
                },
                _ => true,
            }
        }),
{
    lemma_run(event, config, replies);
}

/// A message whose virus verdict is `FAIL` is dropped without any call, whatever
/// its recipients and whatever the configuration.
pub proof fn law_infected_message_is_dropped<E>(
    event: SesEvent,
    config: Config,
    replies: Replies<E>,
)
    requires
        event.records@.len() == 1,
        handler::is_from_ses(event.records@[0]),
        forward::verdict_is(
            text::opt_owned(event.records@[0].ses.receipt.virus_verdict.status),
            "FAIL"@,
        ),
    ensures
        run(event, config, replies).result == Ok::<Completion, ErrorModel<E>>(
            Completion::Dropped(DropCause::Verdict(DropReason::Virus)),
        ),
        run(event, config, replies).claims.len() == 0,
        run(event, config, replies).sends.len() == 0,
{
    lemma_run(event, config, replies);
}

/// An event that is not a single record from SES is an error, and makes no call.
pub proof fn law_foreign_event_is_refused<E>(event: SesEvent, config: Config, replies: Replies<E>)
    requires
        event.records@.len() != 1 || !handler::is_from_ses(event.records@[0]),
    ensures
        run(event, config, replies).result is Err,
        run(event, config, replies).claims.len() == 0,
        run(event, config, replies).fetches.len() == 0,
        run(event, config, replies).sends.len() == 0,
        run(event, config, replies).releases.len() == 0,
{
    lemma_run(event, config, replies);
}

/// Only the configured bucket is ever read, and only at a key that is safe or is
/// the message id of the event, which is then a plain token.
pub proof fn law_reads_only_the_configured_bucket<E>(
    event: SesEvent,
    config: Config,
    replies: Replies<E>,
)
    requires
        run(event, config, replies).fetches.len() > 0,
    ensures
        ({
            let (bucket, key) = run(event, config, replies).fetches[0];
            let id = handler::record_message_id(event.records@[0]);
            &&& bucket == config.email_bucket@
            &&& handler::is_safe_key(key) || (key == id && handler::is_message_id(id))
        }),
{
    lemma_run(event, config, replies);
}

/// What is sent is the message that was fetched, rewritten, from the configured
/// address to the destinations that the recipients resolve to: at least one and
/// no more than one send takes. It is never empty, and never without a `From`
/// field.
pub proof fn law_request_is_the_rewritten_message<E>(
    event: SesEvent,
    config: Config,
    replies: Replies<E>,
)
    requires
        run(event, config, replies).sends.len() > 0,
    ensures
        ({
            let request = run(event, config, replies).sends[0];
            match replies.fetch {
                Ok(FetchResult::Message(raw)) => {
                    &&& raw@.len() > 0
                    &&& rewrite::has_from(raw@)
                    &&& request.from_email_address == config.from_email@
                    &&& request.to_addresses == handler::record_destinations(
                        event.records@[0],
                        config,
                    )
                    &&& 0 < request.to_addresses.len() <= forward::MAX_TO_ADDRESSES
                    &&& request.raw_message == rewrite::rewritten(
                        raw@,
                        config.from_email@,
                        text::opt_owned(config.subject_prefix),
                    )
                },
                _ => false,
            }
        }),
{
    lemma_run(event, config, replies);
}

/// A message that nothing speaks against is forwarded: the event is a single
/// record from SES with a valid message id and a proper action, its verdicts
/// pass, its recipients resolve to destinations that fit one send, the stored
/// message has a `From` field, and no call fails.
pub proof fn law_good_message_is_forwarded<E>(
    event: SesEvent,
    config: Config,
    replies: Replies<E>,
)
    requires
        event.records@.len() == 1,
        ({
            let record = event.records@[0];
            let id = handler::record_message_id(record);
            &&& handler::is_from_ses(record)
            &&& handler::record_decision(record, config) is Forward
            &&& 0 < handler::record_destinations(record, config).len()
                <= forward::MAX_TO_ADDRESSES
            &&& handler::is_message_id(id)
            &&& handler::s3_location::<E>(
                record.ses.receipt.action@,
                config.email_bucket@,
                id,
            ) is Ok
        }),
        replies.claim == Ok::<ClaimOutcome, E>(ClaimOutcome::New),
        replies.fetch matches Ok(FetchResult::Message(raw)) && raw@.len() > 0
            && rewrite::has_from(raw@),
        replies.send is Ok,
    ensures
        run(event, config, replies).sends.len() == 1,
        run(event, config, replies).result == Ok::<Completion, ErrorModel<E>>(
            Completion::Forwarded {
                recipient_count: handler::record_destinations(
                    event.records@[0],
                    config,
                ).len() as usize,
            },
        ),
{
    lemma_run(event, config, replies);
}

/// Success means what it says: an event ends as forwarded exactly when a request
/// was sent and SES took it.
pub proof fn law_forwarded_means_sent<E>(event: SesEvent, config: Config, replies: Replies<E>)
    ensures
        ({
            let run = run(event, config, replies);
            run.result is Ok && run.result->Ok_0 is Forwarded <==> run.sends.len() == 1
                && replies.send is Ok
        }),
        ({
            let run = run(event, config, replies);
            run.result is Ok && run.result->Ok_0 is Forwarded
                ==> run.result->Ok_0->recipient_count == run.sends[0].to_addresses.len()
        }),
{
    lemma_run(event, config, replies);
}

/// A claim is given up exactly when the event fails after a new claim, and it is
/// the claim that was made.
pub proof fn law_claim_is_released_on_failure<E>(
    event: SesEvent,
    config: Config,
    replies: Replies<E>,
)
    ensures
        ({
            let run = run(event, config, replies);
            &&& run.releases.len() == 1 <==> run.claims.len() == 1 && replies.claim == Ok::<
                ClaimOutcome,
                E,
            >(ClaimOutcome::New) && run.result is Err
            &&& run.releases.len() == 1 ==> run.releases == run.claims
        }),
{
    lemma_run(event, config, replies);
}

// ---------------------------------------------------------------------------
// Duplicates
// ---------------------------------------------------------------------------

/// The message id of an event with a single record.
pub open spec fn event_message_id(event: SesEvent) -> Seq<char> {
    handler::record_message_id(event.records@[0])
}

/// The idempotency store answers as a conditional write does: a claim is new
/// exactly when the message id has no marker.
pub open spec fn answers_by_markers<E>(
    event: SesEvent,
    replies: Replies<E>,
    markers: Set<Seq<char>>,
) -> bool {
    replies.claim == Ok::<ClaimOutcome, E>(
        if markers.contains(event_message_id(event)) {
            ClaimOutcome::AlreadyProcessed
        } else {
            ClaimOutcome::New
        },
    )
}

/// The message ids that have a marker after a run: a claim leaves one, giving it
/// up takes it away.
pub open spec fn markers_after<E>(run: Run<E>, markers: Set<Seq<char>>) -> Set<Seq<char>> {
    if run.releases.len() > 0 {
        markers.remove(run.releases[0])
    } else if run.claims.len() > 0 {
        markers.insert(run.claims[0])
    } else {
        markers
    }
}

/// A message that was forwarded is not forwarded again: a second delivery with
/// its message id fetches and sends nothing, and where it comes to a claim it
/// is dropped.
pub proof fn law_duplicate_is_not_forwarded<E>(
    first: SesEvent,
    second: SesEvent,
    config: Config,
    first_replies: Replies<E>,
    second_replies: Replies<E>,
    markers: Set<Seq<char>>,
)
    requires
        event_message_id(first) == event_message_id(second),
        run(first, config, first_replies).sends.len() > 0,
        run(first, config, first_replies).result is Ok,
        answers_by_markers(
            second,
            second_replies,
            markers_after(run(first, config, first_replies), markers),
        ),
    ensures
        ({
            let again = run(second, config, second_replies);
            &&& again.fetches.len() == 0
            &&& again.sends.len() == 0
            &&& again.claims.len() > 0 ==> again.result == Ok::<Completion, ErrorModel<E>>(
                Completion::Dropped(DropCause::Duplicate),
            )
        }),
{
    lemma_run(first, config, first_replies);
    lemma_run(second, config, second_replies);
}

/// A failure leaves the markers as they were, so that the next delivery of the
/// message is handled as if it were the first.
pub proof fn law_failed_forward_can_be_retried<E>(
    event: SesEvent,
    config: Config,
    replies: Replies<E>,
    markers: Set<Seq<char>>,
)
    requires
        answers_by_markers(event, replies, markers),
        run(event, config, replies).result is Err,
    ensures
        markers_after(run(event, config, replies), markers) == markers,
{
    lemma_run(event, config, replies);
    assert(markers_after(run(event, config, replies), markers) =~= markers);
}

// ---------------------------------------------------------------------------
// Logging
// ---------------------------------------------------------------------------

/// Two requests that differ only in what their raw messages hold, not in how
/// long they are, look the same in a log.
pub proof fn law_log_form_hides_the_message(a: SendRawEmailRequest, b: SendRawEmailRequest)
    requires
        a@.from_email_address == b@.from_email_address,
        a@.to_addresses == b@.to_addresses,
        a@.raw_message.len() == b@.raw_message.len(),
    ensures
        handler::redacted_text(
            a.from_email_address@,
            text::texts(a.to_addresses@),
            a.raw_message@.len(),
        ) == handler::redacted_text(
            b.from_email_address@,
            text::texts(b.to_addresses@),
            b.raw_message@.len(),
        ),
{
}

// ---------------------------------------------------------------------------
// The outgoing message
// ---------------------------------------------------------------------------

/// Under a configuration that loaded, every message that goes out has the body
/// and the blank line of the stored one, exactly one `From` field, and none of
/// the fields that are removed.
pub proof fn law_outgoing_message<E>(event: SesEvent, config: Config, replies: Replies<E>)
    requires
        config.wf(),
        run(event, config, replies).sends.len() > 0,
    ensures
        ({
            let raw = replies.fetch->Ok_0->Message_0@;
            let out = run(event, config, replies).sends[0].raw_message;
            &&& header::body(out) == header::body(raw)
            &&& header::separator(out) == header::separator(raw)
            &&& rewrite_laws::count_named(rewrite_laws::fields_of(out), "from"@) == 1
            &&& forall|name: Seq<char>|
                rewrite::is_removed(name) ==> #[trigger] rewrite_laws::count_named(
                    rewrite_laws::fields_of(out),
                    name,
                ) == 0
        }),
{
    let raw = replies.fetch->Ok_0->Message_0@;
    let from_email = config.from_email@;
    let prefix = text::opt_owned(config.subject_prefix);
    law_request_is_the_rewritten_message(event, config, replies);
    config_laws::law_configured_text_stays_on_its_line(&config);
    rewrite_laws::law_rewritten_message_reads_back(raw, from_email, prefix);
    reveal_strlit("from");
    rewrite::lemma_header_names_differ();
    rewrite_laws::law_rewritten_field_counts(raw, from_email, prefix, "from"@);
    let out = rewrite::rewritten(raw, from_email, prefix);
    assert forall|name: Seq<char>| rewrite::is_removed(name) implies #[trigger]
        rewrite_laws::count_named(rewrite_laws::fields_of(out), name) == 0 by {
        reveal_strlit("return-path");
        reveal_strlit("sender");
        reveal_strlit("message-id");
        reveal_strlit("dkim-signature");
        rewrite_laws::law_rewritten_field_counts(raw, from_email, prefix, name);
    }
}

} // verus!
