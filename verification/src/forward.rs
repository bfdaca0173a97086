//! Pure forwarding logic: no I/O, no AWS calls.
//!
//! Three concerns meet here:
//! 1. [`resolve_destinations`] - map inbound recipients to forward addresses.
//! 2. [`evaluate_verdicts`] - the spam/virus gate.
//! 3. [`rewrite_message`] - rewrite the raw message headers, on **bytes**, so
//!    non-UTF-8 mail is never corrupted.
//!
//! All parsing is a linear scan, so a pathological message cannot trigger
//! catastrophic-backtracking denial of service in header parsing.
use crate::search;
use crate::text;
use crate::text::{
    chars_of, decimal, eq_ignore_ascii_case, string_of, to_ascii_lowercase, trim,
};
use vstd::hash_map::StringHashMap;
use vstd::hash_set::StringHashSet;
use vstd::prelude::*;
use vstd::string::StringExecFns;

pub use crate::rewrite::{rewrite_message, RewriteOutcome};

verus! {

/// SES caps `Destination.ToAddresses` at 50 recipients per send.
pub const MAX_TO_ADDRESSES: usize = 50;

/// Errors from the pure forwarding logic.
#[derive(Debug, PartialEq, Eq, Structural)]
pub enum ForwardError {
    TooManyDestinations { count: usize },
}

impl ForwardError {
    /// What [`ForwardError::message`] returns.
    pub open spec fn message_text(self) -> Seq<char> {
        match self {
            ForwardError::TooManyDestinations { count } => "resolved "@ + text::decimal_text(
                count as nat,
            ) + " destinations, exceeding the SES cap of "@ + text::decimal_text(
                MAX_TO_ADDRESSES as nat,
            ) + " recipients (ToAddresses) per send"@,
        }
    }

    /// The error in words.
    pub fn message(&self) -> (out: String)
        ensures
            out@ == self.message_text(),
    {
        match self {
            ForwardError::TooManyDestinations { count } => {
                let mut out = "resolved ".to_owned();
                out.append(decimal(*count as u64).as_str());
                out.append(" destinations, exceeding the SES cap of ");
                out.append(decimal(MAX_TO_ADDRESSES as u64).as_str());
                out.append(" recipients (ToAddresses) per send");
                out
            },
        }
    }
}

// ---------------------------------------------------------------------------
// Recipient resolution
// ---------------------------------------------------------------------------

/// The result of resolving inbound recipients against the forward mapping.
#[derive(Debug, Clone, PartialEq, Eq)]
pub struct ResolvedForward {
    /// Deduplicated destination addresses, in deterministic first-seen order.
    pub destinations: Vec<String>,
    /// The inbound recipients that matched, with the mapping key each hit.
    /// Used for logging only.
    pub matched_recipients: Vec<MatchedRecipient>,
}

/// One inbound recipient that matched a mapping key.
#[derive(Debug, Clone, PartialEq, Eq)]
pub struct MatchedRecipient {
    /// The normalized (trimmed, lower-case) inbound address that matched.
    pub incoming: String,
    /// The mapping key it matched on (`user@domain`, `@domain`, `mailbox`, or `@`).
    pub matched_key: String,
}

/// Match keys and the destinations that each stands for.
pub type MappingModel = Map<Seq<char>, Seq<Seq<char>>>;

/// The texts in a forward mapping.
pub open spec fn mapping_model(mapping: Map<Seq<char>, Vec<String>>) -> MappingModel {
    mapping.map_values(|destinations: Vec<String>| text::texts(destinations@))
}

/// A recipient as it is matched: trimmed and in lower case.
pub open spec fn normalized(recipient: Seq<char>) -> Seq<char> {
    text::ascii_lower(text::trimmed(recipient))
}

/// What stands before the last `@` of an address; all of it where it has none.
pub open spec fn mailbox_of(incoming: Seq<char>) -> Seq<char> {
    match search::last_index(incoming, '@') {
        Some(at) => incoming.take(at),
        None => incoming,
    }
}

/// What stands after the last `@` of an address; empty where it has none.
pub open spec fn domain_of(incoming: Seq<char>) -> Seq<char> {
    match search::last_index(incoming, '@') {
        Some(at) => incoming.skip(at + 1),
        None => Seq::empty(),
    }
}

/// The mailbox without its `+tag` suffix, where plus-sign addressing is allowed.
pub open spec fn without_tag(mailbox: Seq<char>, allow_plus_sign: bool) -> Seq<char> {
    match search::first_index(mailbox, '+') {
        Some(plus) => if allow_plus_sign {
            mailbox.take(plus)
        } else {
            mailbox
        },
        None => mailbox,
    }
}

/// The keys that may match an address, the first the most specific: the exact
/// address, its domain, its bare mailbox, the catch-all.
pub open spec fn candidate_keys(incoming: Seq<char>, allow_plus_sign: bool) -> Seq<Seq<char>> {
    let mailbox = without_tag(mailbox_of(incoming), allow_plus_sign);
    let domain = domain_of(incoming);
    let by_domain = if domain.len() > 0 {
        seq![mailbox + "@"@ + domain, "@"@ + domain]
    } else {
        seq![]
    };
    let by_mailbox = if mailbox.len() > 0 {
        seq![mailbox]
    } else {
        seq![]
    };
    by_domain + by_mailbox + seq!["@"@]
}

/// The first of `keys` that the mapping has.
pub open spec fn first_present(keys: Seq<Seq<char>>, mapping: MappingModel) -> Option<Seq<char>>
    decreases keys.len(),
{
    if keys.len() == 0 {
        None
    } else if mapping.contains_key(keys[0]) {
        Some(keys[0])
    } else {
        first_present(keys.drop_first(), mapping)
    }
}

/// The mapping key that an address matches.
pub open spec fn matching_key(
    incoming: Seq<char>,
    mapping: MappingModel,
    allow_plus_sign: bool,
) -> Option<Seq<char>> {
    first_present(candidate_keys(incoming, allow_plus_sign), mapping)
}

/// The mapping key that a recipient matches. A blank recipient matches none.
pub open spec fn recipient_key(
    recipient: Seq<char>,
    mapping: MappingModel,
    allow_plus_sign: bool,
) -> Option<Seq<char>> {
    if normalized(recipient).len() == 0 {
        None
    } else {
        matching_key(normalized(recipient), mapping, allow_plus_sign)
    }
}

/// The recipients that match, normalized, each with the key that it matches.
pub open spec fn matches_of(
    recipients: Seq<Seq<char>>,
    mapping: MappingModel,
    allow_plus_sign: bool,
) -> Seq<(Seq<char>, Seq<char>)>
    decreases recipients.len(),
{
    if recipients.len() == 0 {
        Seq::empty()
    } else {
        let before = matches_of(recipients.drop_last(), mapping, allow_plus_sign);
        match recipient_key(recipients.last(), mapping, allow_plus_sign) {
            Some(key) => before.push((normalized(recipients.last()), key)),
            None => before,
        }
    }
}

/// The destinations of all recipients, one recipient after the other, with
/// repetitions.
pub open spec fn all_destinations(
    recipients: Seq<Seq<char>>,
    mapping: MappingModel,
    allow_plus_sign: bool,
) -> Seq<Seq<char>>
    decreases recipients.len(),
{
    if recipients.len() == 0 {
        Seq::empty()
    } else {
        let before = all_destinations(recipients.drop_last(), mapping, allow_plus_sign);
        match recipient_key(recipients.last(), mapping, allow_plus_sign) {
            Some(key) => before + mapping[key],
            None => before,
        }
    }
}

/// The elements of `s` in the order in which each is first seen.
pub open spec fn first_seen(s: Seq<Seq<char>>) -> Seq<Seq<char>>
    decreases s.len(),
{
    if s.len() == 0 {
        Seq::empty()
    } else {
        let before = first_seen(s.drop_last());
        if before.contains(s.last()) {
            before
        } else {
            before.push(s.last())
        }
    }
}

/// The destinations of a message: those of all its recipients, each once, in
/// the order in which they are first seen.
pub open spec fn destinations_of(
    recipients: Seq<Seq<char>>,
    mapping: MappingModel,
    allow_plus_sign: bool,
) -> Seq<Seq<char>> {
    first_seen(all_destinations(recipients, mapping, allow_plus_sign))
}

/// The texts of matched recipients.
pub open spec fn matched_model(matched: Seq<MatchedRecipient>) -> Seq<(Seq<char>, Seq<char>)> {
    matched.map_values(|m: MatchedRecipient| (m.incoming@, m.matched_key@))
}

/// Resolve the inbound recipients to forward destinations.
///
/// For each recipient the mapping is consulted in this precedence, first match
/// wins: exact address -> `@domain` -> bare mailbox -> `@` catch-all. When
/// `allow_plus_sign` is true, a `+tag` suffix on the mailbox is stripped before
/// matching. Destinations are aggregated across all recipients and
/// deduplicated deterministically.
///
/// A no-match yields an empty destination list (the caller treats that as a
/// drop). More than [`MAX_TO_ADDRESSES`] resolved destinations is an error.
pub fn resolve_destinations(
    recipients: &[String],
    forward_mapping: &StringHashMap<Vec<String>>,
    allow_plus_sign: bool,
) -> (out: Result<ResolvedForward, ForwardError>)
    ensures
        ({
            let recipients = text::texts(recipients@);
            let mapping = mapping_model(forward_mapping@);
            let destinations = destinations_of(recipients, mapping, allow_plus_sign);
            match out {
                Ok(resolved) => {
                    &&& destinations.len() <= MAX_TO_ADDRESSES
                    &&& text::texts(resolved.destinations@) == destinations
                    &&& matched_model(resolved.matched_recipients@) == matches_of(
                        recipients,
                        mapping,
                        allow_plus_sign,
                    )
                },
                Err(ForwardError::TooManyDestinations { count }) => {
                    &&& destinations.len() > MAX_TO_ADDRESSES
                    &&& count == destinations.len()
                },
            }
        }),
{
    let mut destinations: Vec<String> = Vec::new();
    let mut seen = StringHashSet::new();
    let mut matched_recipients: Vec<MatchedRecipient> = Vec::new();
    let ghost all = text::texts(recipients@);
    let ghost mapping = mapping_model(forward_mapping@);
    let mut i: usize = 0;
    assert(all.take(0) =~= Seq::<Seq<char>>::empty());
    while i < recipients.len()
        invariant
            i <= recipients@.len(),
            all == text::texts(recipients@),
            mapping == mapping_model(forward_mapping@),
            text::texts(destinations@) == destinations_of(
                all.take(i as int),
                mapping,
                allow_plus_sign,
            ),
            forall|d: Seq<char>|
                seen@.contains(d) <==> text::texts(destinations@).contains(d),
            matched_model(matched_recipients@) == matches_of(
                all.take(i as int),
                mapping,
                allow_plus_sign,
            ),
        decreases recipients@.len() - i,
    {
        proof {
            assert(all.take(i + 1).drop_last() =~= all.take(i as int));
            assert(all.take(i + 1).last() == recipients@[i as int]@);
        }
        let trimmed = trim(recipients[i].as_str());
        let incoming = to_ascii_lowercase(trimmed.as_str());
        i += 1;
        if incoming.as_str().is_empty() {
            continue;
        }
        let matched_key = match first_matching_key(
            incoming.as_str(),
            forward_mapping,
            allow_plus_sign,
        ) {
            Some(key) => key,
            None => continue,
        };
        match forward_mapping.get(matched_key.as_str()) {
            Some(mapped) => {
                let ghost before = all_destinations(all.take(i - 1), mapping, allow_plus_sign);
                let ghost added = text::texts(mapped@);
                assert(mapping[matched_key@] == added);
                let mut j: usize = 0;
                assert(before + added.take(0) =~= before);
                while j < mapped.len()
                    invariant
                        j <= mapped@.len(),
                        added == text::texts(mapped@),
                        text::texts(destinations@) == first_seen(before + added.take(j as int)),
                        forall|d: Seq<char>|
                            seen@.contains(d) <==> text::texts(destinations@).contains(d),
                    decreases mapped@.len() - j,
                {
                    let destination = &mapped[j];
                    let ghost so_far = destinations@;
                    proof {
                        let next = before + added.take(j + 1);
                        assert(next.drop_last() =~= before + added.take(j as int));
                        assert(next.last() == destination@);
                    }
                    if seen.insert(destination.clone()) {
                        destinations.push(destination.clone());
                        proof {
                            assert(text::texts(destinations@) =~= text::texts(so_far).push(
                                destination@,
                            ));
                            lemma_push_contains(text::texts(so_far), destination@);
                        }
                    }
                    j += 1;
                }
                assert(before + added.take(j as int) =~= before + added);
            },
            None => {
                proof {
                    lemma_first_present(
                        candidate_keys(incoming@, allow_plus_sign),
                        mapping,
                    );
                }
                assert(false);
            },
        }
        let ghost so_far = matched_recipients@;
        matched_recipients.push(MatchedRecipient { incoming, matched_key });
        assert(matched_model(matched_recipients@) =~= matched_model(so_far).push(
            (incoming@, matched_key@),
        ));
    }
    assert(all.take(i as int) =~= all);

    if destinations.len() > MAX_TO_ADDRESSES {
        return Err(ForwardError::TooManyDestinations { count: destinations.len() });
    }
    Ok(ResolvedForward { destinations, matched_recipients })
}

proof fn lemma_push_contains(s: Seq<Seq<char>>, x: Seq<char>)
    ensures
        forall|d: Seq<char>| s.push(x).contains(d) <==> s.contains(d) || d == x,
{
    assert forall|d: Seq<char>| s.contains(d) || d == x implies s.push(x).contains(d) by {
        if d == x {
            assert(s.push(x)[s.len() as int] == x);
        } else {
            let i = choose|i: int| 0 <= i < s.len() && s[i] == d;
            assert(s.push(x)[i] == d);
        }
    }
}

/// What `first_present` returns is a key of the mapping.
pub proof fn lemma_first_present(keys: Seq<Seq<char>>, mapping: MappingModel)
    ensures
        match first_present(keys, mapping) {
            Some(key) => mapping.contains_key(key) && keys.contains(key),
            None => forall|i: int| 0 <= i < keys.len() ==> !mapping.contains_key(#[trigger] keys[i]),
        },
    decreases keys.len(),
{
    if keys.len() > 0 && !mapping.contains_key(keys[0]) {
        let rest = keys.drop_first();
        lemma_first_present(rest, mapping);
        match first_present(rest, mapping) {
            Some(key) => {
                let i = choose|i: int| 0 <= i < rest.len() && rest[i] == key;
                assert(keys[i + 1] == key);
            },
            None => {
                assert forall|i: int| 0 <= i < keys.len() implies !mapping.contains_key(
                    #[trigger] keys[i],
                ) by {
                    if i > 0 {
                        assert(keys[i] == rest[i - 1]);
                    }
                }
            },
        }
    }
}

/// Return the first mapping key that matches `incoming` by precedence, if any.
pub fn first_matching_key(
    incoming: &str,
    forward_mapping: &StringHashMap<Vec<String>>,
    allow_plus_sign: bool,
) -> (out: Option<String>)
    ensures
        text::opt_owned(out) == matching_key(
            incoming@,
            mapping_model(forward_mapping@),
            allow_plus_sign,
        ),
{
    let ghost mapping = mapping_model(forward_mapping@);
    // Split on the last '@' so a (rare) quoted local-part with an embedded '@'
    // still identifies the domain correctly.
    let (mailbox_raw, domain) = split_address(incoming);
    let mailbox = effective_mailbox(mailbox_raw.as_str(), allow_plus_sign);

    let mut candidates: Vec<String> = Vec::new();
    if !domain.as_str().is_empty() {
        let mut exact = mailbox.clone();
        exact.append("@");
        exact.append(domain.as_str());
        candidates.push(exact);
        let mut whole_domain = "@".to_owned();
        whole_domain.append(domain.as_str());
        candidates.push(whole_domain);
    }
    if !mailbox.as_str().is_empty() {
        candidates.push(mailbox.clone());
    }
    candidates.push("@".to_owned());
    let ghost keys = candidate_keys(incoming@, allow_plus_sign);
    assert(text::texts(candidates@) =~= keys);

    let mut i: usize = 0;
    assert(keys.skip(0) =~= keys);
    while i < candidates.len()
        invariant
            i <= candidates@.len(),
            keys == text::texts(candidates@),
            keys == candidate_keys(incoming@, allow_plus_sign),
            mapping == mapping_model(forward_mapping@),
            first_present(keys, mapping) == first_present(keys.skip(i as int), mapping),
        decreases candidates@.len() - i,
    {
        assert(keys.skip(i as int)[0] == candidates@[i as int]@);
        assert(keys.skip(i as int).drop_first() =~= keys.skip(i + 1));
        if forward_mapping.contains_key(candidates[i].as_str()) {
            return Some(candidates[i].clone());
        }
        i += 1;
    }
    None
}

/// The mailbox and the domain of an address.
fn split_address(incoming: &str) -> (out: (String, String))
    ensures
        out.0@ == mailbox_of(incoming@),
        out.1@ == domain_of(incoming@),
{
    let chars = chars_of(incoming);
    proof {
        search::lemma_last_index(incoming@, '@');
    }
    let mut i: usize = chars.len();
    while i > 0
        invariant
            chars@ == incoming@,
            i <= chars@.len(),
            forall|j: int| i <= j < chars@.len() ==> chars@[j] != '@',
            match search::last_index(incoming@, '@') {
                Some(at) => {
                    &&& 0 <= at < incoming@.len()
                    &&& incoming@[at] == '@'
                    &&& forall|j: int| at < j < incoming@.len() ==> incoming@[j] != '@'
                },
                None => forall|j: int| 0 <= j < incoming@.len() ==> incoming@[j] != '@',
            },
        decreases i,
    {
        if chars[i - 1] == '@' {
            let mailbox = string_of(chars.as_slice(), 0, i - 1);
            let domain = string_of(chars.as_slice(), i, chars.len());
            assert(mailbox@ =~= mailbox_of(incoming@));
            assert(domain@ =~= domain_of(incoming@));
            return (mailbox, domain);
        }
        i -= 1;
    }
    (incoming.to_owned(), String::new())
}

/// Strip a `+tag` suffix from the mailbox when plus-sign addressing is allowed.
pub fn effective_mailbox(mailbox: &str, allow_plus_sign: bool) -> (out: String)
    ensures
        out@ == without_tag(mailbox@, allow_plus_sign),
{
    if !allow_plus_sign {
        return mailbox.to_owned();
    }
    let chars = chars_of(mailbox);
    let mut i: usize = 0;
    while i < chars.len()
        invariant
            allow_plus_sign,
            chars@ == mailbox@,
            i <= chars@.len(),
            forall|j: int| 0 <= j < i ==> chars@[j] != '+',
        decreases chars@.len() - i,
    {
        if chars[i] == '+' {
            proof {
                search::lemma_next_index_is(mailbox@, '+', 0, i as int);
            }
            let base = string_of(chars.as_slice(), 0, i);
            assert(base@ =~= mailbox@.take(i as int));
            return base;
        }
        i += 1;
    }
    proof {
        search::lemma_next_index_none(mailbox@, '+', 0);
    }
    mailbox.to_owned()
}

// ---------------------------------------------------------------------------
// Verdict gate
// ---------------------------------------------------------------------------

/// The decision of the verdict gate on a message given its spam/virus verdicts.
#[derive(Debug, Clone, PartialEq, Eq, Structural)]
pub enum GateDecision {
    Forward,
    Drop(DropReason),
}

/// Why a message was dropped by the verdict gate.
#[derive(Debug, Clone, Copy, PartialEq, Eq, Structural)]
pub enum DropReason {
    Virus,
    Spam,
    /// The virus scan could not render a verdict (`PROCESSING_FAILED`) and
    /// `drop_unscanned` is set, so we fail closed rather than forward it.
    UnscannedVirus,
}

/// A verdict is present and is `target`, in whatever case.
pub open spec fn verdict_is(verdict: Option<Seq<char>>, target: Seq<char>) -> bool {
    verdict is Some && text::same_ignoring_case(verdict->0, target)
}

/// What the verdict gate decides.
pub open spec fn gate_decision(
    spam_verdict: Option<Seq<char>>,
    virus_verdict: Option<Seq<char>>,
    drop_spam: bool,
    drop_unscanned: bool,
) -> GateDecision {
    if verdict_is(virus_verdict, "FAIL"@) {
        GateDecision::Drop(DropReason::Virus)
    } else if drop_unscanned && verdict_is(virus_verdict, "PROCESSING_FAILED"@) {
        GateDecision::Drop(DropReason::UnscannedVirus)
    } else if drop_spam && verdict_is(spam_verdict, "FAIL"@) {
        GateDecision::Drop(DropReason::Spam)
    } else {
        GateDecision::Forward
    }
}

/// A verdict is present and is neither `PASS` nor `DISABLED`.
pub open spec fn is_concerning(verdict: Option<Seq<char>>) -> bool {
    verdict is Some && !verdict_is(verdict, "PASS"@) && !verdict_is(verdict, "DISABLED"@)
}

/// Apply the spam/virus gate.
///
/// A `FAIL` virus verdict always drops. A `PROCESSING_FAILED` virus verdict
/// drops only when `drop_unscanned` is set (fail closed on an unscannable
/// message). A `FAIL` spam verdict drops only when `drop_spam` is set. Every
/// other status - `PASS`, `GRAY`, `DISABLED`, or absent - forwards.
pub fn evaluate_verdicts(
    spam_verdict: Option<&str>,
    virus_verdict: Option<&str>,
    drop_spam: bool,
    drop_unscanned: bool,
) -> (out: GateDecision)
    ensures
        out == gate_decision(
            text::opt_text(spam_verdict),
            text::opt_text(virus_verdict),
            drop_spam,
            drop_unscanned,
        ),
{
    if verdict_matches(virus_verdict, "FAIL") {
        return GateDecision::Drop(DropReason::Virus);
    }
    if drop_unscanned && verdict_matches(virus_verdict, "PROCESSING_FAILED") {
        return GateDecision::Drop(DropReason::UnscannedVirus);
    }
    if drop_spam && verdict_matches(spam_verdict, "FAIL") {
        return GateDecision::Drop(DropReason::Spam);
    }
    GateDecision::Forward
}

/// Whether a forwarded message carried a verdict worth surfacing: present, and
/// neither `PASS` (clean) nor `DISABLED` (scanning deliberately off). This makes
/// a fail-open forward (spam `FAIL`, virus `PROCESSING_FAILED`, `GRAY`) visible
/// and alarmable in the logs rather than silent.
pub fn verdict_is_concerning(verdict: Option<&str>) -> (out: bool)
    ensures
        out == is_concerning(text::opt_text(verdict)),
{
    match verdict {
        Some(status) => !eq_ignore_ascii_case(status, "PASS") && !eq_ignore_ascii_case(
            status,
            "DISABLED",
        ),
        None => false,
    }
}

/// True only when the verdict is present and equal to `target` (case-insensitive).
pub fn verdict_matches(verdict: Option<&str>, target: &str) -> (out: bool)
    ensures
        out == verdict_is(text::opt_text(verdict), target@),
{
    match verdict {
        Some(status) => eq_ignore_ascii_case(status, target),
        None => false,
    }
}

} // verus!
