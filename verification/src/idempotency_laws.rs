//! Laws of duplicate suppression, over the objects that S3 holds.
use crate::idempotency;
use crate::idempotency::{CallModel, ClaimOutcome, ObjectModel, PutFailure};
use crate::text;
use vstd::prelude::*;

verus! {

/// The objects that there are after a call that S3 carries out.
pub open spec fn objects_after(call: CallModel, objects: Set<ObjectModel>) -> Set<ObjectModel> {
    match call {
        CallModel::Skip => objects,
        CallModel::Create(object) => objects.insert(object),
        CallModel::Delete(object) => objects.remove(object),
    }
}

/// The answer to the conditional write of a marker is the one that the objects
/// call for: it goes through where there is no such object, and is refused
/// because of the object where there is one.
pub open spec fn answers<E>(
    call: CallModel,
    objects: Set<ObjectModel>,
    written: Option<Result<(), PutFailure<E>>>,
) -> bool {
    match (call, written) {
        (CallModel::Create(object), Some(Ok(_))) => !objects.contains(object),
        (CallModel::Create(object), Some(Err(failure))) => {
            &&& objects.contains(object)
            &&& idempotency::finds_marker(
                failure.status,
                text::opt_owned(failure.code),
            )
        },
        (CallModel::Skip, None) => true,
        _ => false,
    }
}

/// A failed conditional write is a duplicate exactly when its status is 412 or
/// its code is `PreconditionFailed`; of every other status and code it is an
/// error, and that error is what the claim returns.
pub proof fn law_only_a_failed_precondition_is_a_duplicate<E>(failure: PutFailure<E>)
    ensures
        ({
            let outcome = idempotency::claim_outcome_model(Some(Err(failure)));
            if failure.status == Some(412u16) || (failure.code is Some && failure.code->0@
                == "PreconditionFailed"@) {
                outcome == Ok::<ClaimOutcome, E>(ClaimOutcome::AlreadyProcessed)
            } else {
                outcome == Err::<ClaimOutcome, E>(failure.error)
            }
        }),
{
}

/// The status 412 and the code `PreconditionFailed` each say that there is a
/// marker, and nothing else does.
pub proof fn law_what_says_that_there_is_a_marker(status: Option<u16>, code: Option<Seq<char>>)
    ensures
        idempotency::finds_marker(status, code) <==> status == Some(412u16) || code == Some(
            "PreconditionFailed"@,
        ),
{
}

/// A claim is new exactly when nothing was to be written or the write went
/// through.
pub proof fn law_new_means_written<E>(written: Option<Result<(), PutFailure<E>>>)
    ensures
        idempotency::claim_outcome_model(written) == Ok::<ClaimOutcome, E>(ClaimOutcome::New) <==> (
        written is None || written->0 is Ok),
{
}

/// A release makes at most one call: the deletion of the very object that the
/// claim of the same message id creates. Without a bucket neither makes a call.
pub proof fn law_release_deletes_what_claim_creates(
    bucket: Option<Seq<char>>,
    message_id: Seq<char>,
)
    ensures
        match bucket {
            Some(bucket) => {
                let object = (bucket, "idempotency/"@ + message_id);
                &&& idempotency::claim_call_model(Some(bucket), message_id) == CallModel::Create(
                    object,
                )
                &&& idempotency::release_call_model(Some(bucket), message_id)
                    == CallModel::Delete(object)
            },
            None => {
                &&& idempotency::claim_call_model(None, message_id) == CallModel::Skip
                &&& idempotency::release_call_model(None, message_id) == CallModel::Skip
            },
        },
{
}

/// A release undoes a new claim: the objects are what they were before it.
pub proof fn law_release_undoes_a_new_claim<E>(
    bucket: Option<Seq<char>>,
    message_id: Seq<char>,
    objects: Set<ObjectModel>,
    written: Option<Result<(), PutFailure<E>>>,
)
    requires
        answers(idempotency::claim_call_model(bucket, message_id), objects, written),
        idempotency::claim_outcome_model(written) == Ok::<ClaimOutcome, E>(ClaimOutcome::New),
    ensures
        objects_after(
            idempotency::release_call_model(bucket, message_id),
            objects_after(idempotency::claim_call_model(bucket, message_id), objects),
        ) == objects,
{
    let claim = idempotency::claim_call_model(bucket, message_id);
    let release = idempotency::release_call_model(bucket, message_id);
    assert(objects_after(release, objects_after(claim, objects)) =~= objects);
}

/// After a release that was carried out, the next claim of the message id is
/// new, and no other object is gone.
pub proof fn law_claim_after_release_is_new<E>(
    bucket: Option<Seq<char>>,
    message_id: Seq<char>,
    objects: Set<ObjectModel>,
    written: Option<Result<(), PutFailure<E>>>,
)
    requires
        answers(
            idempotency::claim_call_model(bucket, message_id),
            objects_after(idempotency::release_call_model(bucket, message_id), objects),
            written,
        ),
    ensures
        idempotency::claim_outcome_model(written) == Ok::<ClaimOutcome, E>(ClaimOutcome::New),
        forall|object: ObjectModel|
            (bucket is None || object != (bucket->0, "idempotency/"@ + message_id))
                ==> (#[trigger] objects_after(
                idempotency::release_call_model(bucket, message_id),
                objects,
            ).contains(object) == objects.contains(object)),
{
}

/// After a claim that was carried out, with a bucket configured, the next claim
/// of the message id is a duplicate, until it is released.
pub proof fn law_claim_after_claim_is_a_duplicate<E>(
    bucket: Seq<char>,
    message_id: Seq<char>,
    objects: Set<ObjectModel>,
    written: Option<Result<(), PutFailure<E>>>,
)
    requires
        answers(
            idempotency::claim_call_model(Some(bucket), message_id),
            objects_after(idempotency::claim_call_model(Some(bucket), message_id), objects),
            written,
        ),
    ensures
        idempotency::claim_outcome_model(written) == Ok::<ClaimOutcome, E>(
            ClaimOutcome::AlreadyProcessed,
        ),
{
}

/// Claims of different message ids do not get in each other's way: their markers
/// are different objects.
pub proof fn law_markers_differ(bucket: Seq<char>, a: Seq<char>, b: Seq<char>)
    requires
        a != b,
    ensures
        idempotency::claim_call_model(Some(bucket), a) != idempotency::claim_call_model(
            Some(bucket),
            b,
        ),
{
    let n = idempotency::MARKER_PREFIX@.len() as int;
    assert(idempotency::marker_key_text(a).skip(n) =~= a);
    assert(idempotency::marker_key_text(b).skip(n) =~= b);
}

} // verus!
