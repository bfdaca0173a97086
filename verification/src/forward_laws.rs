//! Laws of recipient resolution and of the verdict gate.
use crate::forward;
use crate::forward::{DropReason, GateDecision, MappingModel};
use crate::search;
use crate::text;
use vstd::prelude::*;

verus! {

// ---------------------------------------------------------------------------
// Destinations
// ---------------------------------------------------------------------------

/// No destination of a message is repeated.
pub proof fn law_destinations_are_distinct(
    recipients: Seq<Seq<char>>,
    mapping: MappingModel,
    allow_plus_sign: bool,
)
    ensures
        forward::destinations_of(recipients, mapping, allow_plus_sign).no_duplicates(),
{
    lemma_first_seen(forward::all_destinations(recipients, mapping, allow_plus_sign));
}

/// An address is a destination exactly when some recipient matches a key that
/// maps to it.
pub proof fn law_destinations_are_those_mapped(
    recipients: Seq<Seq<char>>,
    mapping: MappingModel,
    allow_plus_sign: bool,
    destination: Seq<char>,
)
    ensures
        forward::destinations_of(recipients, mapping, allow_plus_sign).contains(destination) <==> (
        exists|i: int|
            0 <= i < recipients.len() && sends_to(
                #[trigger] recipients[i],
                mapping,
                allow_plus_sign,
                destination,
            )),
{
    lemma_first_seen(forward::all_destinations(recipients, mapping, allow_plus_sign));
    lemma_all_destinations(recipients, mapping, allow_plus_sign, destination);
}

/// Destinations come in the order in which the recipients' lists first name
/// them.
pub proof fn law_destinations_keep_first_seen_order(
    recipients: Seq<Seq<char>>,
    mapping: MappingModel,
    allow_plus_sign: bool,
    i: int,
    j: int,
)
    requires
        0 <= i < j < forward::destinations_of(recipients, mapping, allow_plus_sign).len(),
    ensures
        ({
            let all = forward::all_destinations(recipients, mapping, allow_plus_sign);
            let destinations = forward::destinations_of(recipients, mapping, allow_plus_sign);
            &&& search::first_index(all, destinations[i]) is Some
            &&& search::first_index(all, destinations[j]) is Some
            &&& search::first_index(all, destinations[i])->0 < search::first_index(
                all,
                destinations[j],
            )->0
        }),
{
    lemma_first_seen_order(forward::all_destinations(recipients, mapping, allow_plus_sign), i, j);
}

/// Where no recipient matches a key, there is no destination and no match.
pub proof fn law_no_match_gives_no_destination(
    recipients: Seq<Seq<char>>,
    mapping: MappingModel,
    allow_plus_sign: bool,
)
    requires
        forall|i: int|
            0 <= i < recipients.len() ==> forward::recipient_key(
                #[trigger] recipients[i],
                mapping,
                allow_plus_sign,
            ) is None,
    ensures
        forward::destinations_of(recipients, mapping, allow_plus_sign).len() == 0,
        forward::matches_of(recipients, mapping, allow_plus_sign).len() == 0,
    decreases recipients.len(),
{
    if recipients.len() > 0 {
        let before = recipients.drop_last();
        assert forall|i: int| 0 <= i < before.len() implies forward::recipient_key(
            #[trigger] before[i],
            mapping,
            allow_plus_sign,
        ) is None by {
            assert(before[i] == recipients[i]);
        }
        law_no_match_gives_no_destination(before, mapping, allow_plus_sign);
        assert(recipients.last() == recipients[recipients.len() - 1]);
    }
}

/// The case of ASCII letters in a recipient, and white space around it, make no
/// difference to what it resolves to.
pub proof fn law_resolution_ignores_case_and_white_space(
    a: Seq<Seq<char>>,
    b: Seq<Seq<char>>,
    mapping: MappingModel,
    allow_plus_sign: bool,
)
    requires
        a.len() == b.len(),
        forall|i: int|
            0 <= i < a.len() ==> text::same_ignoring_case(
                text::trimmed(#[trigger] a[i]),
                text::trimmed(b[i]),
            ),
    ensures
        forward::destinations_of(a, mapping, allow_plus_sign) == forward::destinations_of(
            b,
            mapping,
            allow_plus_sign,
        ),
        forward::matches_of(a, mapping, allow_plus_sign) == forward::matches_of(
            b,
            mapping,
            allow_plus_sign,
        ),
{
    lemma_same_normalized(a, b, mapping, allow_plus_sign);
}

// ---------------------------------------------------------------------------
// Matching
// ---------------------------------------------------------------------------

/// Keys are tried in a fixed order: the exact address, then its domain, then
/// its bare mailbox, then the catch-all. A tag on the mailbox is left out where
/// plus-sign addressing is allowed.
pub proof fn law_match_precedence(
    mailbox: Seq<char>,
    domain: Seq<char>,
    mapping: MappingModel,
    allow_plus_sign: bool,
)
    requires
        !domain.contains('@'),
    ensures
        ({
            let plain = forward::without_tag(mailbox, allow_plus_sign);
            forward::matching_key(mailbox + "@"@ + domain, mapping, allow_plus_sign) == (
            if domain.len() > 0 && mapping.contains_key(plain + "@"@ + domain) {
                Some(plain + "@"@ + domain)
            } else if domain.len() > 0 && mapping.contains_key("@"@ + domain) {
                Some("@"@ + domain)
            } else if plain.len() > 0 && mapping.contains_key(plain) {
                Some(plain)
            } else if mapping.contains_key("@"@) {
                Some("@"@)
            } else {
                None
            })
        }),
{
    lemma_split(mailbox, domain);
    let plain = forward::without_tag(mailbox, allow_plus_sign);
    let keys = forward::candidate_keys(mailbox + "@"@ + domain, allow_plus_sign);
    let by_mailbox = if plain.len() > 0 {
        seq![plain, "@"@]
    } else {
        seq!["@"@]
    };
    if domain.len() > 0 {
        assert(keys =~= seq![plain + "@"@ + domain, "@"@ + domain] + by_mailbox);
        assert(keys.drop_first() =~= seq!["@"@ + domain] + by_mailbox);
        assert(keys.drop_first().drop_first() =~= by_mailbox);
    } else {
        assert(keys =~= by_mailbox);
    }
    assert(by_mailbox.drop_first() =~= if plain.len() > 0 {
        seq!["@"@]
    } else {
        seq![]
    });
    reveal_with_fuel(forward::first_present, 5);
}

/// With plus-sign addressing allowed, `mailbox+tag@domain` matches what
/// `mailbox@domain` matches, whatever the tag.
pub proof fn law_plus_tag_makes_no_difference(
    mailbox: Seq<char>,
    tag: Seq<char>,
    domain: Seq<char>,
    mapping: MappingModel,
)
    requires
        !domain.contains('@'),
    ensures
        forward::matching_key(mailbox + "+"@ + tag + "@"@ + domain, mapping, true)
            == forward::matching_key(mailbox + "@"@ + domain, mapping, true),
{
    let tagged = mailbox + "+"@ + tag;
    lemma_split(tagged, domain);
    lemma_split(mailbox, domain);
    reveal_strlit("+");
    assert(tagged[mailbox.len() as int] == '+');
    search::lemma_next_index(mailbox, '+', 0);
    let plus = match search::first_index(mailbox, '+') {
        Some(plus) => plus,
        None => mailbox.len() as int,
    };
    assert forall|j: int| 0 <= j < plus implies tagged[j] != '+' by {
        assert(tagged[j] == mailbox[j]);
    }
    search::lemma_next_index_is(tagged, '+', 0, plus);
    assert(tagged.take(plus) =~= mailbox.take(plus));
    assert(mailbox.take(mailbox.len() as int) =~= mailbox);
}

/// With plus-sign addressing allowed, the recipient `mailbox+tag@domain` matches
/// the key that `mailbox@domain` matches, whatever the tag, and whatever the case
/// of letters and the white space around.
pub proof fn law_tagged_recipient_matches_alike(
    mailbox: Seq<char>,
    tag: Seq<char>,
    domain: Seq<char>,
    mapping: MappingModel,
)
    requires
        !domain.contains('@'),
    ensures
        forward::recipient_key(mailbox + "+"@ + tag + "@"@ + domain, mapping, true)
            == forward::recipient_key(mailbox + "@"@ + domain, mapping, true),
{
    reveal_strlit("+");
    reveal_strlit("@");
    let start = text::trim_start(mailbox);
    let end = text::trim_end(domain);
    let m = text::ascii_lower(start);
    let t = text::ascii_lower(tag);
    let d = text::ascii_lower(end);
    // Trimming and folding act on the parts.
    let tagged = mailbox + "+"@ + tag + "@"@ + domain;
    let plain = mailbox + "@"@ + domain;
    lemma_trimmed_around(mailbox, "+"@ + tag + "@"@, domain);
    lemma_trimmed_around(mailbox, "@"@, domain);
    assert(tagged =~= mailbox + ("+"@ + tag + "@"@) + domain);
    assert(text::ascii_lower("+"@) =~= "+"@);
    assert(text::ascii_lower("@"@) =~= "@"@);
    assert(forward::normalized(tagged) =~= m + "+"@ + t + "@"@ + d);
    assert(forward::normalized(plain) =~= m + "@"@ + d);
    assert(!d.contains('@')) by {
        text::lemma_trim_end(domain);
        assert forall|i: int| 0 <= i < d.len() implies d[i] != '@' by {
            assert(end[i] == domain[i]);
            assert(domain.contains(domain[i]));
        }
    }
    law_plus_tag_makes_no_difference(m, t, d, mapping);
}

/// `tagged` is `plain`, or is it with a tag on its mailbox.
pub open spec fn same_but_for_tag(tagged: Seq<char>, plain: Seq<char>) -> bool {
    tagged == plain || exists|mailbox: Seq<char>, tag: Seq<char>, domain: Seq<char>| #[trigger]
        is_tagged(tagged, plain, mailbox, tag, domain)
}

/// `plain` is `mailbox@domain` and `tagged` is `mailbox+tag@domain`.
pub open spec fn is_tagged(
    tagged: Seq<char>,
    plain: Seq<char>,
    mailbox: Seq<char>,
    tag: Seq<char>,
    domain: Seq<char>,
) -> bool {
    &&& !domain.contains('@')
    &&& tagged == mailbox + "+"@ + tag + "@"@ + domain
    &&& plain == mailbox + "@"@ + domain
}

/// With plus-sign addressing allowed, tags on the recipients make no difference
/// to the destinations.
pub proof fn law_tags_make_no_difference_to_destinations(
    tagged: Seq<Seq<char>>,
    plain: Seq<Seq<char>>,
    mapping: MappingModel,
)
    requires
        tagged.len() == plain.len(),
        forall|i: int| 0 <= i < tagged.len() ==> same_but_for_tag(#[trigger] tagged[i], plain[i]),
    ensures
        forward::destinations_of(tagged, mapping, true) == forward::destinations_of(
            plain,
            mapping,
            true,
        ),
{
    lemma_tagged_destinations(tagged, plain, mapping);
}

proof fn lemma_tagged_destinations(
    tagged: Seq<Seq<char>>,
    plain: Seq<Seq<char>>,
    mapping: MappingModel,
)
    requires
        tagged.len() == plain.len(),
        forall|i: int| 0 <= i < tagged.len() ==> same_but_for_tag(#[trigger] tagged[i], plain[i]),
    ensures
        forward::all_destinations(tagged, mapping, true) == forward::all_destinations(
            plain,
            mapping,
            true,
        ),
    decreases tagged.len(),
{
    if tagged.len() > 0 {
        let n = tagged.len() - 1;
        assert forall|i: int| 0 <= i < tagged.drop_last().len() implies same_but_for_tag(
            #[trigger] tagged.drop_last()[i],
            plain.drop_last()[i],
        ) by {
            assert(tagged.drop_last()[i] == tagged[i]);
        }
        lemma_tagged_destinations(tagged.drop_last(), plain.drop_last(), mapping);
        assert(same_but_for_tag(tagged[n], plain[n]));
        if tagged[n] != plain[n] {
            let (mailbox, tag, domain) = choose|
                mailbox: Seq<char>,
                tag: Seq<char>,
                domain: Seq<char>,
            | #[trigger]
                is_tagged(tagged[n], plain[n], mailbox, tag, domain);
            law_tagged_recipient_matches_alike(mailbox, tag, domain, mapping);
        }
    }
}

/// With plus-sign addressing allowed, a key with a `+` before its last `@`, or
/// with a `+` and no `@`, matches no address.
pub proof fn law_tagged_key_never_matches(incoming: Seq<char>, mapping: MappingModel)
    ensures
        match forward::matching_key(incoming, mapping, true) {
            Some(key) => !forward::mailbox_of(key).contains('+'),
            None => true,
        },
{
    reveal_strlit("@");
    let mailbox = forward::mailbox_of(incoming);
    let domain = forward::domain_of(incoming);
    let plain = forward::without_tag(mailbox, true);
    let keys = forward::candidate_keys(incoming, true);
    forward::lemma_first_present(keys, mapping);
    search::lemma_last_index(incoming, '@');
    search::lemma_next_index(mailbox, '+', 0);
    assert(!plain.contains('+')) by {
        assert forall|j: int| 0 <= j < plain.len() implies plain[j] != '+' by {
            assert(plain[j] == mailbox[j]);
        }
    }
    assert(!domain.contains('@')) by {
        if search::last_index(incoming, '@') is Some {
            let at = search::last_index(incoming, '@')->0;
            assert forall|j: int| 0 <= j < domain.len() implies domain[j] != '@' by {
                assert(domain[j] == incoming[at + 1 + j]);
            }
        }
    }
    match forward::matching_key(incoming, mapping, true) {
        Some(key) => {
            let i = choose|i: int| 0 <= i < keys.len() && keys[i] == key;
            lemma_split(plain, domain);
            lemma_split(Seq::empty(), domain);
            lemma_split(Seq::empty(), Seq::empty());
            assert(Seq::<char>::empty() + "@"@ + domain =~= "@"@ + domain);
            assert(Seq::<char>::empty() + "@"@ + Seq::<char>::empty() =~= "@"@);
            if key == plain {
                search::lemma_last_index(key, '@');
                assert forall|j: int|
                    0 <= j < forward::mailbox_of(key).len() implies forward::mailbox_of(key)[j]
                    != '+' by {
                    assert(forward::mailbox_of(key)[j] == plain[j]);
                }
            } else {
                assert(key == plain + "@"@ + domain || key == "@"@ + domain || key == "@"@);
            }
        },
        None => {},
    }
}

/// With plus-sign addressing allowed, a key with a `+` before its last `@`, or
/// with a `+` and no `@`, matches no recipient.
pub proof fn law_tagged_key_matches_no_recipient(recipient: Seq<char>, mapping: MappingModel)
    ensures
        match forward::recipient_key(recipient, mapping, true) {
            Some(key) => !forward::mailbox_of(key).contains('+'),
            None => true,
        },
{
    law_tagged_key_never_matches(forward::normalized(recipient), mapping);
}

/// With plus-sign addressing not allowed, a tag is a part of the mailbox: the
/// exact address with its tag is the first key tried.
pub proof fn law_plus_tag_is_kept(mailbox: Seq<char>, domain: Seq<char>, mapping: MappingModel)
    requires
        !domain.contains('@'),
        domain.len() > 0,
    ensures
        forward::candidate_keys(mailbox + "@"@ + domain, false)[0] == mailbox + "@"@ + domain,
        mapping.contains_key(mailbox + "@"@ + domain) ==> forward::matching_key(
            mailbox + "@"@ + domain,
            mapping,
            false,
        ) == Some(mailbox + "@"@ + domain),
{
    lemma_split(mailbox, domain);
}

/// A catch-all key matches every recipient that is not blank.
pub proof fn law_catch_all_matches_every_recipient(
    recipient: Seq<char>,
    mapping: MappingModel,
    allow_plus_sign: bool,
)
    requires
        mapping.contains_key("@"@),
        text::trimmed(recipient).len() > 0,
    ensures
        forward::recipient_key(recipient, mapping, allow_plus_sign) is Some,
{
    let keys = forward::candidate_keys(forward::normalized(recipient), allow_plus_sign);
    forward::lemma_first_present(keys, mapping);
    assert(keys[keys.len() - 1] == "@"@);
}

// ---------------------------------------------------------------------------
// Verdicts
// ---------------------------------------------------------------------------

/// A message whose virus verdict is `FAIL` is dropped, whatever else holds.
pub proof fn law_virus_is_always_dropped(
    spam: Option<Seq<char>>,
    virus: Option<Seq<char>>,
    drop_spam: bool,
    drop_unscanned: bool,
)
    requires
        forward::verdict_is(virus, "FAIL"@),
    ensures
        forward::gate_decision(spam, virus, drop_spam, drop_unscanned) == GateDecision::Drop(
            DropReason::Virus,
        ),
{
}

/// The verdict gate drops only a message with a verdict that is worth surfacing: one
/// that is present and is neither `PASS` nor `DISABLED`.
pub proof fn law_only_concerning_verdicts_drop(
    spam: Option<Seq<char>>,
    virus: Option<Seq<char>>,
    drop_spam: bool,
    drop_unscanned: bool,
)
    ensures
        match forward::gate_decision(spam, virus, drop_spam, drop_unscanned) {
            GateDecision::Drop(DropReason::Spam) => drop_spam && forward::is_concerning(spam),
            GateDecision::Drop(DropReason::Virus) => forward::is_concerning(virus),
            GateDecision::Drop(DropReason::UnscannedVirus) => drop_unscanned
                && forward::is_concerning(virus),
            GateDecision::Forward => true,
        },
{
    lemma_verdict_words();
}

/// With neither option set, every message forwards but one that carries a
/// virus; with an option set, only the verdict it names is dropped in addition.
pub proof fn law_options_only_add_drops(
    spam: Option<Seq<char>>,
    virus: Option<Seq<char>>,
    drop_spam: bool,
    drop_unscanned: bool,
)
    ensures
        (forward::gate_decision(spam, virus, false, false) is Forward) == !forward::verdict_is(
            virus,
            "FAIL"@,
        ),
        (forward::gate_decision(spam, virus, drop_spam, drop_unscanned) is Forward) == (
        forward::gate_decision(spam, virus, false, false) is Forward && !(drop_spam
            && forward::verdict_is(spam, "FAIL"@)) && !(drop_unscanned && forward::verdict_is(
            virus,
            "PROCESSING_FAILED"@,
        ))),
{
}

// ---------------------------------------------------------------------------
// Proofs
// ---------------------------------------------------------------------------

/// The recipient matches a key that maps to the destination.
pub open spec fn sends_to(
    recipient: Seq<char>,
    mapping: MappingModel,
    allow_plus_sign: bool,
    destination: Seq<char>,
) -> bool {
    match forward::recipient_key(recipient, mapping, allow_plus_sign) {
        Some(key) => mapping[key].contains(destination),
        None => false,
    }
}

/// `first_seen` keeps every element, once.
pub proof fn lemma_first_seen(s: Seq<Seq<char>>)
    ensures
        forward::first_seen(s).no_duplicates(),
        forall|x: Seq<char>| forward::first_seen(s).contains(x) <==> s.contains(x),
    decreases s.len(),
{
    if s.len() > 0 {
        let rest = s.drop_last();
        lemma_first_seen(rest);
        let before = forward::first_seen(rest);
        assert(s =~= rest.push(s.last()));
        assert forall|x: Seq<char>| forward::first_seen(s).contains(x) <==> s.contains(x) by {
            if s.contains(x) {
                let i = choose|i: int| 0 <= i < s.len() && s[i] == x;
                if i < rest.len() {
                    assert(rest[i] == x);
                    assert(rest.contains(x));
                    let k = choose|k: int| 0 <= k < before.len() && before[k] == x;
                    assert(forward::first_seen(s)[k] == x);
                } else {
                    assert(x == s.last());
                    if !before.contains(x) {
                        assert(forward::first_seen(s)[before.len() as int] == x);
                    }
                }
            }
            if forward::first_seen(s).contains(x) {
                let k = choose|k: int|
                    0 <= k < forward::first_seen(s).len() && forward::first_seen(s)[k] == x;
                if k < before.len() {
                    assert(before[k] == x);
                    assert(rest.contains(x));
                    let i = choose|i: int| 0 <= i < rest.len() && rest[i] == x;
                    assert(s[i] == x);
                } else {
                    assert(s[s.len() - 1] == x);
                }
            }
        }
    }
}

pub proof fn lemma_first_seen_order(s: Seq<Seq<char>>, i: int, j: int)
    requires
        0 <= i < j < forward::first_seen(s).len(),
    ensures
        search::first_index(s, forward::first_seen(s)[i]) is Some,
        search::first_index(s, forward::first_seen(s)[j]) is Some,
        search::first_index(s, forward::first_seen(s)[i])->0 < search::first_index(
            s,
            forward::first_seen(s)[j],
        )->0,
    decreases s.len(),
{
    let rest = s.drop_last();
    let before = forward::first_seen(rest);
    let x = forward::first_seen(s)[i];
    let y = forward::first_seen(s)[j];
    if j < before.len() {
        lemma_first_seen_order(rest, i, j);
        lemma_first_index_in_prefix(s, x);
        lemma_first_index_in_prefix(s, y);
    } else {
        lemma_first_seen(rest);
        assert(before[i] == x);
        assert(rest.contains(x));
        assert(!before.contains(y));
        assert(!rest.contains(y));
        search::lemma_next_index(rest, x, 0);
        lemma_first_index_in_prefix(s, x);
        assert forall|k: int| 0 <= k < s.len() - 1 implies s[k] != y by {
            assert(rest[k] == s[k]);
        }
        search::lemma_next_index_is(s, y, 0, s.len() - 1);
    }
}

/// An element of `s` without its last element has the same first index in `s`.
proof fn lemma_first_index_in_prefix(s: Seq<Seq<char>>, x: Seq<char>)
    requires
        s.len() > 0,
        search::first_index(s.drop_last(), x) is Some,
    ensures
        search::first_index(s, x) == search::first_index(s.drop_last(), x),
        search::first_index(s, x)->0 < s.len() - 1,
{
    let rest = s.drop_last();
    search::lemma_next_index(rest, x, 0);
    let i = search::first_index(rest, x)->0;
    assert forall|k: int| 0 <= k < i implies s[k] != x by {
        assert(rest[k] == s[k]);
    }
    search::lemma_next_index_is(s, x, 0, i);
}

proof fn lemma_all_destinations(
    recipients: Seq<Seq<char>>,
    mapping: MappingModel,
    allow_plus_sign: bool,
    destination: Seq<char>,
)
    ensures
        forward::all_destinations(recipients, mapping, allow_plus_sign).contains(destination) <==> (
        exists|i: int|
            0 <= i < recipients.len() && sends_to(
                #[trigger] recipients[i],
                mapping,
                allow_plus_sign,
                destination,
            )),
    decreases recipients.len(),
{
    if recipients.len() > 0 {
        let rest = recipients.drop_last();
        let last = recipients.last();
        lemma_all_destinations(rest, mapping, allow_plus_sign, destination);
        let before = forward::all_destinations(rest, mapping, allow_plus_sign);
        let all = forward::all_destinations(recipients, mapping, allow_plus_sign);
        if all.contains(destination) {
            let k = choose|k: int| 0 <= k < all.len() && all[k] == destination;
            if k < before.len() {
                assert(before[k] == destination);
                let i = choose|i: int|
                    0 <= i < rest.len() && sends_to(
                        #[trigger] rest[i],
                        mapping,
                        allow_plus_sign,
                        destination,
                    );
                assert(recipients[i] == rest[i]);
            } else {
                let key = forward::recipient_key(last, mapping, allow_plus_sign)->0;
                assert(mapping[key][k - before.len()] == destination);
                assert(sends_to(
                    recipients[recipients.len() - 1],
                    mapping,
                    allow_plus_sign,
                    destination,
                ));
            }
        }
        if exists|i: int|
            0 <= i < recipients.len() && sends_to(
                #[trigger] recipients[i],
                mapping,
                allow_plus_sign,
                destination,
            ) {
            let i = choose|i: int|
                0 <= i < recipients.len() && sends_to(
                    #[trigger] recipients[i],
                    mapping,
                    allow_plus_sign,
                    destination,
                );
            if i < rest.len() {
                assert(rest[i] == recipients[i]);
                assert(before.contains(destination));
                let k = choose|k: int| 0 <= k < before.len() && before[k] == destination;
                assert(all[k] == destination);
            } else {
                let key = forward::recipient_key(last, mapping, allow_plus_sign)->0;
                let mapped = mapping[key];
                let k = choose|k: int| 0 <= k < mapped.len() && mapped[k] == destination;
                assert(all[before.len() + k] == destination);
            }
        }
    }
}

proof fn lemma_same_normalized(
    a: Seq<Seq<char>>,
    b: Seq<Seq<char>>,
    mapping: MappingModel,
    allow_plus_sign: bool,
)
    requires
        a.len() == b.len(),
        forall|i: int|
            0 <= i < a.len() ==> text::same_ignoring_case(
                text::trimmed(#[trigger] a[i]),
                text::trimmed(b[i]),
            ),
    ensures
        forward::all_destinations(a, mapping, allow_plus_sign) == forward::all_destinations(
            b,
            mapping,
            allow_plus_sign,
        ),
        forward::matches_of(a, mapping, allow_plus_sign) == forward::matches_of(
            b,
            mapping,
            allow_plus_sign,
        ),
    decreases a.len(),
{
    if a.len() > 0 {
        assert forall|i: int| 0 <= i < a.drop_last().len() implies text::same_ignoring_case(
            text::trimmed(#[trigger] a.drop_last()[i]),
            text::trimmed(b.drop_last()[i]),
        ) by {
            assert(a.drop_last()[i] == a[i]);
        }
        lemma_same_normalized(a.drop_last(), b.drop_last(), mapping, allow_plus_sign);
        assert(a.last() == a[a.len() - 1]);
        assert(forward::normalized(a.last()) == forward::normalized(b.last()));
    }
}

/// An address whose domain has no `@` splits into the mailbox and the domain.
pub proof fn lemma_split(mailbox: Seq<char>, domain: Seq<char>)
    requires
        !domain.contains('@'),
    ensures
        forward::mailbox_of(mailbox + "@"@ + domain) == mailbox,
        forward::domain_of(mailbox + "@"@ + domain) == domain,
{
    reveal_strlit("@");
    let address = mailbox + "@"@ + domain;
    assert(address[mailbox.len() as int] == '@');
    assert forall|j: int| mailbox.len() < j < address.len() implies address[j] != '@' by {
        assert(address[j] == domain[j - mailbox.len() - 1]);
    }
    search::lemma_last_index(address, '@');
    assert(search::last_index(address, '@') == Some(mailbox.len() as int));
    assert(address.take(mailbox.len() as int) =~= mailbox);
    assert(address.skip(mailbox.len() as int + 1) =~= domain);
}

/// Trimming a text acts on what stands before and after a middle that neither
/// starts nor ends with white space.
proof fn lemma_trimmed_around(before: Seq<char>, middle: Seq<char>, after: Seq<char>)
    requires
        middle.len() > 0,
        !text::is_white_space(middle[0]),
        !text::is_white_space(middle.last()),
    ensures
        text::trimmed(before + middle + after) == text::trim_start(before) + middle
            + text::trim_end(after),
{
    assert(before + middle + after =~= before + (middle + after));
    lemma_trim_start_before(before, middle + after);
    let start = text::trim_start(before) + middle;
    assert(text::trim_start(before) + (middle + after) =~= start + after);
    lemma_trim_end_after(start, after);
}

proof fn lemma_trim_start_before(before: Seq<char>, rest: Seq<char>)
    requires
        rest.len() > 0,
        !text::is_white_space(rest[0]),
    ensures
        text::trim_start(before + rest) == text::trim_start(before) + rest,
    decreases before.len(),
{
    let s = before + rest;
    if before.len() == 0 {
        assert(s =~= rest);
        assert(text::trim_start(before) + rest =~= rest);
    } else if text::is_white_space(before[0]) {
        lemma_trim_start_before(before.drop_first(), rest);
        assert(s.drop_first() =~= before.drop_first() + rest);
    }
}

proof fn lemma_trim_end_after(rest: Seq<char>, after: Seq<char>)
    requires
        rest.len() > 0,
        !text::is_white_space(rest.last()),
    ensures
        text::trim_end(rest + after) == rest + text::trim_end(after),
    decreases after.len(),
{
    let s = rest + after;
    if after.len() == 0 {
        assert(s =~= rest);
        assert(rest + text::trim_end(after) =~= rest);
    } else {
        assert(s.last() == after.last());
        if text::is_white_space(after.last()) {
            lemma_trim_end_after(rest, after.drop_last());
            assert(s.drop_last() =~= rest + after.drop_last());
        }
    }
}

/// The words of the verdicts are four different texts, whatever the case.
proof fn lemma_verdict_words()
    ensures
        !text::same_ignoring_case("FAIL"@, "PASS"@),
        !text::same_ignoring_case("FAIL"@, "DISABLED"@),
        !text::same_ignoring_case("PROCESSING_FAILED"@, "PASS"@),
        !text::same_ignoring_case("PROCESSING_FAILED"@, "DISABLED"@),
{
    reveal_strlit("FAIL");
    reveal_strlit("PASS");
    reveal_strlit("DISABLED");
    reveal_strlit("PROCESSING_FAILED");
    assert(text::ascii_lower("FAIL"@)[0] == 'f');
    assert(text::ascii_lower("PASS"@)[0] == 'p');
    assert(text::ascii_lower("PASS"@).len() == 4);
    assert(text::ascii_lower("DISABLED"@).len() == 8);
    assert(text::ascii_lower("PROCESSING_FAILED"@).len() == 17);
}

} // verus!
