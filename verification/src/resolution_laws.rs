//! Laws of recipient resolution and of the verdict gate, on the parts that
//! addresses, recipient lists and verdicts are made of.
use crate::forward;
use crate::forward::{DropReason, GateDecision, MappingModel, MatchedRecipient};
use crate::forward_laws;
use crate::search;
use crate::text;
use crate::text_laws;
use vstd::prelude::*;

verus! {

// ---------------------------------------------------------------------------
// Keys
// ---------------------------------------------------------------------------

/// The key that a mailbox at a domain is found under: `mailbox@domain` before
/// `@domain` before `mailbox` before `@`. An empty domain stands for none.
pub open spec fn found_under(
    mapping: MappingModel,
    mailbox: Seq<char>,
    domain: Seq<char>,
) -> Option<Seq<char>> {
    if domain.len() > 0 && mapping.contains_key(mailbox + "@"@ + domain) {
        Some(mailbox + "@"@ + domain)
    } else if domain.len() > 0 && mapping.contains_key("@"@ + domain) {
        Some("@"@ + domain)
    } else if mailbox.len() > 0 && mapping.contains_key(mailbox) {
        Some(mailbox)
    } else if mapping.contains_key("@"@) {
        Some("@"@)
    } else {
        None
    }
}

/// A mailbox without a `+` is looked up as it is, every character of it, whether
/// or not plus-sign addressing is allowed.
pub proof fn law_mailbox_without_plus_is_looked_up_as_it_is(
    mailbox: Seq<char>,
    domain: Seq<char>,
    mapping: MappingModel,
    allow_plus_sign: bool,
)
    requires
        !mailbox.contains('+'),
        !domain.contains('@'),
    ensures
        forward::matching_key(mailbox + "@"@ + domain, mapping, allow_plus_sign) == found_under(
            mapping,
            mailbox,
            domain,
        ),
        domain.len() > 0 && mapping.contains_key(mailbox + "@"@ + domain) ==> forward::matching_key(
            mailbox + "@"@ + domain,
            mapping,
            allow_plus_sign,
        ) == Some(mailbox + "@"@ + domain),
{
    lemma_no_tag(mailbox, allow_plus_sign);
    forward_laws::law_match_precedence(mailbox, domain, mapping, allow_plus_sign);
}

/// With plus-sign addressing allowed, `base+tag@domain` is looked up as
/// `base@domain`; with it not allowed, as it is.
pub proof fn law_mailbox_with_plus(
    base: Seq<char>,
    tag: Seq<char>,
    domain: Seq<char>,
    mapping: MappingModel,
)
    requires
        !base.contains('+'),
        !domain.contains('@'),
    ensures
        forward::matching_key(base + "+"@ + tag + "@"@ + domain, mapping, true) == found_under(
            mapping,
            base,
            domain,
        ),
        forward::matching_key(base + "+"@ + tag + "@"@ + domain, mapping, false) == found_under(
            mapping,
            base + "+"@ + tag,
            domain,
        ),
{
    lemma_tag(base, tag);
    forward_laws::law_match_precedence(base + "+"@ + tag, domain, mapping, true);
    forward_laws::law_match_precedence(base + "+"@ + tag, domain, mapping, false);
}

/// An address without an `@` is a mailbox alone.
pub proof fn law_address_without_domain(
    mailbox: Seq<char>,
    mapping: MappingModel,
    allow_plus_sign: bool,
)
    requires
        !mailbox.contains('@'),
    ensures
        !mailbox.contains('+') ==> forward::matching_key(mailbox, mapping, allow_plus_sign)
            == found_under(mapping, mailbox, Seq::empty()),
        !allow_plus_sign ==> forward::matching_key(mailbox, mapping, allow_plus_sign)
            == found_under(mapping, mailbox, Seq::empty()),
        forall|base: Seq<char>, tag: Seq<char>|
            mailbox == #[trigger] (base + "+"@ + tag) && !base.contains('+') && allow_plus_sign
                ==> forward::matching_key(mailbox, mapping, allow_plus_sign) == found_under(
                mapping,
                base,
                Seq::empty(),
            ),
{
    search::lemma_last_index(mailbox, '@');
    if search::last_index(mailbox, '@') is Some {
        assert(mailbox.contains(mailbox[search::last_index(mailbox, '@')->0]));
    }
    let plain = forward::without_tag(mailbox, allow_plus_sign);
    let keys = forward::candidate_keys(mailbox, allow_plus_sign);
    if plain.len() > 0 {
        assert(keys =~= seq![plain, "@"@]);
        assert(keys.drop_first() =~= seq!["@"@]);
    } else {
        assert(keys =~= seq!["@"@]);
    }
    reveal_with_fuel(forward::first_present, 3);
    assert(forward::matching_key(mailbox, mapping, allow_plus_sign) == found_under(
        mapping,
        plain,
        Seq::empty(),
    ));
    if !mailbox.contains('+') {
        lemma_no_tag(mailbox, allow_plus_sign);
    }
    assert forall|base: Seq<char>, tag: Seq<char>|
        mailbox == #[trigger] (base + "+"@ + tag) && !base.contains('+')
            && allow_plus_sign implies forward::matching_key(mailbox, mapping, allow_plus_sign)
        == found_under(mapping, base, Seq::empty()) by {
        lemma_tag(base, tag);
    }
}

/// What is stripped from a mailbox is what follows its first `+`, with it, and
/// only where plus-sign addressing is allowed.
pub proof fn law_what_is_stripped_from_a_mailbox(base: Seq<char>, tag: Seq<char>)
    requires
        !base.contains('+'),
    ensures
        forward::without_tag(base, true) == base,
        forward::without_tag(base, false) == base,
        forward::without_tag(base + "+"@ + tag, true) == base,
        forward::without_tag(base + "+"@ + tag, false) == base + "+"@ + tag,
{
    lemma_no_tag(base, true);
    lemma_no_tag(base, false);
    lemma_tag(base, tag);
}

proof fn lemma_no_tag(mailbox: Seq<char>, allow_plus_sign: bool)
    requires
        !mailbox.contains('+'),
    ensures
        forward::without_tag(mailbox, allow_plus_sign) == mailbox,
{
    search::lemma_next_index(mailbox, '+', 0);
}

proof fn lemma_tag(base: Seq<char>, tag: Seq<char>)
    requires
        !base.contains('+'),
    ensures
        forward::without_tag(base + "+"@ + tag, true) == base,
        forward::without_tag(base + "+"@ + tag, false) == base + "+"@ + tag,
{
    reveal_strlit("+");
    let mailbox = base + "+"@ + tag;
    let n = base.len() as int;
    assert(mailbox[n] == '+');
    assert forall|j: int| 0 <= j < n implies mailbox[j] != '+' by {
        assert(mailbox[j] == base[j]);
        assert(base.contains(base[j]));
    }
    search::lemma_next_index_is(mailbox, '+', 0, n);
    assert(mailbox.take(n) =~= base);
}

/// The domain of an address is what follows its last `@`, the mailbox what
/// stands before it.
pub proof fn law_parts_of_an_address(mailbox: Seq<char>, domain: Seq<char>)
    requires
        !domain.contains('@'),
    ensures
        forward::mailbox_of(mailbox + "@"@ + domain) == mailbox,
        forward::domain_of(mailbox + "@"@ + domain) == domain,
        forward::mailbox_of(domain) == domain,
        forward::domain_of(domain) == Seq::<char>::empty(),
{
    forward_laws::lemma_split(mailbox, domain);
    search::lemma_last_index(domain, '@');
    if search::last_index(domain, '@') is Some {
        assert(domain.contains(domain[search::last_index(domain, '@')->0]));
    }
}

// ---------------------------------------------------------------------------
// Recipients
// ---------------------------------------------------------------------------

/// A recipient is looked up in lower case and without the white space around it;
/// one that is nothing but white space matches no key.
pub proof fn law_how_a_recipient_is_looked_up(
    before: Seq<char>,
    address: Seq<char>,
    after: Seq<char>,
    mapping: MappingModel,
    allow_plus_sign: bool,
)
    requires
        forall|i: int| 0 <= i < before.len() ==> text::is_white_space(#[trigger] before[i]),
        forall|i: int| 0 <= i < after.len() ==> text::is_white_space(#[trigger] after[i]),
        address.len() > 0 ==> !text::is_white_space(address[0]) && !text::is_white_space(
            address.last(),
        ),
    ensures
        address.len() > 0 ==> forward::recipient_key(
            before + address + after,
            mapping,
            allow_plus_sign,
        ) == forward::matching_key(text::ascii_lower(address), mapping, allow_plus_sign),
        address.len() == 0 ==> forward::recipient_key(
            before + address + after,
            mapping,
            allow_plus_sign,
        ) is None,
{
    text_laws::law_trimming_takes_what_surrounds(before, address, after);
}

/// A message to one recipient goes to the list of the key that the recipient
/// matches: to each address of the list and to no other, each once, in the order
/// of the list. Where no address is in the list twice, it goes to the list.
pub proof fn law_one_recipient_goes_to_its_list(
    recipient: Seq<char>,
    mapping: MappingModel,
    allow_plus_sign: bool,
)
    ensures
        match forward::recipient_key(recipient, mapping, allow_plus_sign) {
            None => forward::destinations_of(seq![recipient], mapping, allow_plus_sign).len() == 0,
            Some(key) => {
                let list = mapping[key];
                let to = forward::destinations_of(seq![recipient], mapping, allow_plus_sign);
                &&& to.no_duplicates()
                &&& forall|d: Seq<char>| #[trigger] to.contains(d) <==> list.contains(d)
                &&& forall|i: int, j: int|
                    0 <= i < j < to.len() ==> search::first_index(list, #[trigger] to[i])->0
                        < search::first_index(list, #[trigger] to[j])->0
                &&& list.no_duplicates() ==> to == list
            },
        },
{
    let recipients = seq![recipient];
    assert(recipients.drop_last() =~= seq![]);
    reveal_with_fuel(forward::all_destinations, 2);
    let all = forward::all_destinations(recipients, mapping, allow_plus_sign);
    match forward::recipient_key(recipient, mapping, allow_plus_sign) {
        Some(key) => {
            let list = mapping[key];
            assert(all =~= list);
            forward_laws::lemma_first_seen(list);
            let to = forward::destinations_of(recipients, mapping, allow_plus_sign);
            assert forall|i: int, j: int| 0 <= i < j < to.len() implies search::first_index(
                list,
                #[trigger] to[i],
            )->0 < search::first_index(list, #[trigger] to[j])->0 by {
                forward_laws::lemma_first_seen_order(list, i, j);
            }
            if list.no_duplicates() {
                lemma_first_seen_of_distinct(list);
            }
        },
        None => {
            assert(all =~= seq![]);
        },
    }
}

proof fn lemma_first_seen_of_distinct(s: Seq<Seq<char>>)
    requires
        s.no_duplicates(),
    ensures
        forward::first_seen(s) == s,
    decreases s.len(),
{
    if s.len() > 0 {
        let init = s.drop_last();
        lemma_first_seen_of_distinct(init);
        if init.contains(s.last()) {
            let i = choose|i: int| 0 <= i < init.len() && init[i] == s.last();
            assert(s[i] == s[s.len() - 1]);
        }
        assert(init.push(s.last()) =~= s);
    } else {
        assert(forward::first_seen(s) =~= s);
    }
}

/// Of two lists of recipients, the one after the other, the first gives the
/// first destinations, and the second adds those of its own that are not among
/// them.
pub proof fn law_more_recipients_add_destinations(
    a: Seq<Seq<char>>,
    b: Seq<Seq<char>>,
    mapping: MappingModel,
    allow_plus_sign: bool,
)
    ensures
        ({
            let first = forward::destinations_of(a, mapping, allow_plus_sign);
            let second = forward::destinations_of(b, mapping, allow_plus_sign);
            forward::destinations_of(a + b, mapping, allow_plus_sign) == first + second.filter(
                |d: Seq<char>| !first.contains(d),
            )
        }),
{
    lemma_all_destinations_add(a, b, mapping, allow_plus_sign);
    lemma_first_seen_add(
        forward::all_destinations(a, mapping, allow_plus_sign),
        forward::all_destinations(b, mapping, allow_plus_sign),
    );
}

proof fn lemma_all_destinations_add(
    a: Seq<Seq<char>>,
    b: Seq<Seq<char>>,
    mapping: MappingModel,
    allow_plus_sign: bool,
)
    ensures
        forward::all_destinations(a + b, mapping, allow_plus_sign) == forward::all_destinations(
            a,
            mapping,
            allow_plus_sign,
        ) + forward::all_destinations(b, mapping, allow_plus_sign),
    decreases b.len(),
{
    if b.len() == 0 {
        assert(a + b =~= a);
        assert(forward::all_destinations(a, mapping, allow_plus_sign) =~= forward::all_destinations(
            a,
            mapping,
            allow_plus_sign,
        ) + forward::all_destinations(b, mapping, allow_plus_sign));
    } else {
        lemma_all_destinations_add(a, b.drop_last(), mapping, allow_plus_sign);
        assert((a + b).drop_last() =~= a + b.drop_last());
        assert((a + b).last() == b.last());
        assert(forward::all_destinations(a + b, mapping, allow_plus_sign)
            =~= forward::all_destinations(a, mapping, allow_plus_sign)
            + forward::all_destinations(b, mapping, allow_plus_sign));
    }
}

/// What a filter keeps is there before.
pub proof fn lemma_filter_source<A>(s: Seq<A>, pred: spec_fn(A) -> bool, i: int)
    requires
        0 <= i < s.filter(pred).len(),
    ensures
        s.contains(s.filter(pred)[i]),
    decreases s.len(),
{
    reveal(Seq::filter);
    if s.len() > 0 {
        let init = s.drop_last();
        if pred(s.last()) && i == s.filter(pred).len() - 1 {
            assert(s[s.len() - 1] == s.filter(pred)[i]);
        } else {
            lemma_filter_source(init, pred, i);
            let j = choose|j: int| 0 <= j < init.len() && init[j] == init.filter(pred)[i];
            assert(s[j] == s.filter(pred)[i]);
        }
    }
}

proof fn lemma_first_seen_add(a: Seq<Seq<char>>, b: Seq<Seq<char>>)
    ensures
        forward::first_seen(a + b) == forward::first_seen(a) + forward::first_seen(b).filter(
            |d: Seq<char>| !forward::first_seen(a).contains(d),
        ),
    decreases b.len(),
{
    reveal(Seq::filter);
    let first = forward::first_seen(a);
    let fresh = |d: Seq<char>| !first.contains(d);
    let second = forward::first_seen(b);
    if b.len() == 0 {
        assert(a + b =~= a);
        assert(second.filter(fresh) =~= seq![]);
        assert(first + second.filter(fresh) =~= first);
    } else {
        let init = b.drop_last();
        let x = b.last();
        lemma_first_seen_add(a, init);
        assert((a + b).drop_last() =~= a + init);
        assert((a + b).last() == x);
        let before = forward::first_seen(init);
        let kept = before.filter(fresh);
        let all = first + kept;
        assert(all.contains(x) <==> first.contains(x) || before.contains(x)) by {
            if all.contains(x) {
                let i = choose|i: int| 0 <= i < all.len() && all[i] == x;
                if i < first.len() {
                    assert(first[i] == x);
                } else {
                    lemma_filter_source(before, fresh, i - first.len());
                }
            }
            if first.contains(x) {
                let i = choose|i: int| 0 <= i < first.len() && first[i] == x;
                assert(all[i] == x);
            } else if before.contains(x) {
                let i = choose|i: int| 0 <= i < before.len() && before[i] == x;
                before.lemma_filter_contains(fresh, i);
                let j = choose|j: int| 0 <= j < kept.len() && kept[j] == x;
                assert(all[first.len() + j] == x);
            }
        }
        if !before.contains(x) {
            assert(second.drop_last() =~= before);
            assert(second.last() == x);
        }
        assert(forward::first_seen(a + b) =~= first + second.filter(fresh));
    }
}

/// Each recipient that matches is listed, in order, with its address in lower
/// case and trimmed and with its key; the others are not.
pub proof fn law_matches_are_listed_in_order(
    recipients: Seq<Seq<char>>,
    recipient: Seq<char>,
    mapping: MappingModel,
    allow_plus_sign: bool,
)
    ensures
        forward::matches_of(Seq::empty(), mapping, allow_plus_sign).len() == 0,
        ({
            let before = forward::matches_of(recipients, mapping, allow_plus_sign);
            forward::matches_of(recipients.push(recipient), mapping, allow_plus_sign) == (
            match forward::recipient_key(recipient, mapping, allow_plus_sign) {
                Some(key) => before + seq![(text::ascii_lower(text::trimmed(recipient)), key)],
                None => before,
            })
        }),
{
    assert(recipients.push(recipient).drop_last() =~= recipients);
    let before = forward::matches_of(recipients, mapping, allow_plus_sign);
    if let Some(key) = forward::recipient_key(recipient, mapping, allow_plus_sign) {
        let one = (text::ascii_lower(text::trimmed(recipient)), key);
        assert(before.push(one) =~= before + seq![one]);
    }
}

/// One send takes fifty addresses.
pub proof fn law_fifty_addresses_fit_one_send()
    ensures
        forward::MAX_TO_ADDRESSES == 50,
{
}

/// The contents of a mapping and of lists of strings are their texts, none left
/// out and each in its place.
pub proof fn law_contents_are_texts(
    mapping: Map<Seq<char>, Vec<String>>,
    strings: Seq<String>,
    matched: Seq<MatchedRecipient>,
)
    ensures
        forall|key: Seq<char>|
            #![trigger forward::mapping_model(mapping).contains_key(key)]
            forward::mapping_model(mapping).contains_key(key) == mapping.contains_key(key) && (
            mapping.contains_key(key) ==> forward::mapping_model(mapping)[key] == text::texts(
                mapping[key]@,
            )),
        text::texts(strings).len() == strings.len(),
        forall|i: int|
            0 <= i < strings.len() ==> #[trigger] text::texts(strings)[i] == strings[i]@,
        forward::matched_model(matched).len() == matched.len(),
        forall|i: int|
            0 <= i < matched.len() ==> #[trigger] forward::matched_model(matched)[i] == (
                matched[i].incoming@,
                matched[i].matched_key@,
            ),
{
}

/// An optional string is there with its text, or is not there.
pub proof fn law_optional_texts(owned: Option<String>, borrowed: Option<&str>)
    ensures
        text::opt_owned(owned) is Some <==> owned is Some,
        owned is Some ==> text::opt_owned(owned) == Some(owned->0@),
        text::opt_text(borrowed) is Some <==> borrowed is Some,
        borrowed is Some ==> text::opt_text(borrowed) == Some(borrowed->0@),
{
}

// ---------------------------------------------------------------------------
// Verdicts
// ---------------------------------------------------------------------------

/// The verdict is there and is, in lower case, the given word.
pub open spec fn says(verdict: Option<Seq<char>>, word: Seq<char>) -> bool {
    verdict is Some && text::ascii_lower(verdict->0) == word
}

/// A message is dropped for a virus exactly when its virus verdict is `FAIL`; as
/// unscanned exactly when that is to be dropped and its virus verdict is
/// `PROCESSING_FAILED`; for spam exactly when that is to be dropped, its spam
/// verdict is `FAIL`, and it is not dropped for its virus verdict. Everything
/// else is forwarded.
pub proof fn law_what_the_verdicts_decide(
    spam: Option<Seq<char>>,
    virus: Option<Seq<char>>,
    drop_spam: bool,
    drop_unscanned: bool,
)
    ensures
        ({
            let decision = forward::gate_decision(spam, virus, drop_spam, drop_unscanned);
            &&& decision == GateDecision::Drop(DropReason::Virus) <==> says(virus, "fail"@)
            &&& decision == GateDecision::Drop(DropReason::UnscannedVirus) <==> drop_unscanned
                && says(virus, "processing_failed"@)
            &&& decision == GateDecision::Drop(DropReason::Spam) <==> drop_spam && says(
                spam,
                "fail"@,
            ) && !says(virus, "fail"@) && !(drop_unscanned && says(virus, "processing_failed"@))
            &&& decision == GateDecision::Forward <==> !says(virus, "fail"@) && !(drop_unscanned
                && says(virus, "processing_failed"@)) && !(drop_spam && says(spam, "fail"@))
        }),
{
    lemma_lower_words();
}

/// A verdict is worth surfacing exactly when it is there and is neither `PASS`
/// nor `DISABLED`.
pub proof fn law_which_verdicts_are_surfaced(verdict: Option<Seq<char>>)
    ensures
        forward::is_concerning(verdict) <==> verdict is Some && !says(verdict, "pass"@) && !says(
            verdict,
            "disabled"@,
        ),
{
    lemma_lower_words();
}

/// A verdict is compared with a word in whatever case.
pub proof fn law_verdicts_are_compared_in_any_case(verdict: Option<Seq<char>>, word: Seq<char>)
    ensures
        forward::verdict_is(verdict, word) <==> says(verdict, text::ascii_lower(word)),
{
}

proof fn lemma_lower_words()
    ensures
        text::ascii_lower("FAIL"@) == "fail"@,
        text::ascii_lower("PROCESSING_FAILED"@) == "processing_failed"@,
        text::ascii_lower("PASS"@) == "pass"@,
        text::ascii_lower("DISABLED"@) == "disabled"@,
        "fail"@ != "processing_failed"@,
{
    reveal_strlit("FAIL");
    reveal_strlit("fail");
    reveal_strlit("PROCESSING_FAILED");
    reveal_strlit("processing_failed");
    reveal_strlit("PASS");
    reveal_strlit("pass");
    reveal_strlit("DISABLED");
    reveal_strlit("disabled");
    assert(text::ascii_lower("FAIL"@) =~= "fail"@);
    assert(text::ascii_lower("PROCESSING_FAILED"@) =~= "processing_failed"@);
    assert(text::ascii_lower("PASS"@) =~= "pass"@);
    assert(text::ascii_lower("DISABLED"@) =~= "disabled"@);
    assert("fail"@.len() != "processing_failed"@.len());
}

} // verus!
