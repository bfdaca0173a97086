//! Laws of the configuration.
use crate::config;
use crate::config::{Config, Vars};
use crate::forward;
use crate::json;
use crate::rewrite_laws;
use crate::scan::{CR, LF};
use crate::text;
use vstd::prelude::*;
use vstd::utf8;

verus! {

/// Every problem of every variable is reported, whatever the others hold.
pub proof fn law_every_problem_is_reported(
    vars: Vars,
    parsed: Option<Result<json::DocumentModel, Seq<char>>>,
    problem: Seq<char>,
)
    ensures
        config::config_problems(vars, parsed).contains(problem) == {
            ||| config::required_problems(vars, "FROM_EMAIL"@).contains(problem)
            ||| config::from_email_problems(vars).contains(problem)
            ||| config::required_problems(vars, "EMAIL_BUCKET"@).contains(problem)
            ||| config::required_problems(vars, "FORWARD_MAPPING"@).contains(problem)
            ||| config::forward_mapping_problems(parsed).contains(problem)
            ||| config::prefix_problems(vars).contains(problem)
            ||| config::bool_problems(vars, "ALLOW_PLUS_SIGN"@).contains(problem)
            ||| config::bool_problems(vars, "DROP_SPAM"@).contains(problem)
            ||| config::bool_problems(vars, "DROP_UNSCANNED"@).contains(problem)
        },
{
    broadcast use vstd::seq_lib::group_seq_properties;

}

/// An optional variable that is not set gives its default and no problem.
pub proof fn law_defaults(vars: Vars)
    ensures
        !vars.contains_key("SUBJECT_PREFIX"@) ==> config::prefix_value(vars) is None
            && config::prefix_problems(vars).len() == 0,
        !vars.contains_key("ALLOW_PLUS_SIGN"@) ==> config::bool_value(
            vars,
            "ALLOW_PLUS_SIGN"@,
            true,
        ) && config::bool_problems(vars, "ALLOW_PLUS_SIGN"@).len() == 0,
        !vars.contains_key("DROP_SPAM"@) ==> !config::bool_value(vars, "DROP_SPAM"@, false)
            && config::bool_problems(vars, "DROP_SPAM"@).len() == 0,
        !vars.contains_key("DROP_UNSCANNED"@) ==> !config::bool_value(
            vars,
            "DROP_UNSCANNED"@,
            false,
        ) && config::bool_problems(vars, "DROP_UNSCANNED"@).len() == 0,
        !vars.contains_key("IDEMPOTENCY_BUCKET"@) ==> config::trimmed_setting(
            vars,
            "IDEMPOTENCY_BUCKET"@,
        ) is None,
{
}

/// Nothing that a configuration puts into a header field can end its line:
/// neither the sender address nor the subject prefix holds a line feed or a
/// carriage return.
pub proof fn law_configured_text_stays_on_its_line(config: &Config)
    requires
        config.wf(),
    ensures
        rewrite_laws::no_line_feed(config.from_email@, text::opt_owned(config.subject_prefix)),
        !utf8::encode_utf8(config.from_email@).contains(CR),
        config.subject_prefix is Some ==> !utf8::encode_utf8(
            config.subject_prefix->0@,
        ).contains(CR),
{
    rewrite_laws::lemma_no_control_no_line_feed(config.from_email@);
    if let Some(prefix) = config.subject_prefix {
        rewrite_laws::lemma_no_control_no_line_feed(prefix@);
    }
}

/// A mapping that is accepted is the document: each member is an entry of it,
/// its key in lower case and its destinations trimmed, and there is no other
/// entry.
pub proof fn law_mapping_is_the_document(members: Seq<(Seq<char>, json::EntryModel)>)
    requires
        config::members_problems(members).len() == 0,
    ensures
        forall|i: int|
            0 <= i < members.len() ==> config::members_mapping(members).contains_key(
                text::ascii_lower((#[trigger] members[i]).0),
            ) && config::members_mapping(members)[text::ascii_lower(members[i].0)]
                == config::entry_destinations(members[i].1),
        forall|key: Seq<char>| #[trigger]
            config::members_mapping(members).contains_key(key) ==> exists|i: int|
                0 <= i < members.len() && text::ascii_lower((#[trigger] members[i]).0) == key,
    decreases members.len(),
{
    if members.len() > 0 {
        let before = members.drop_last();
        law_mapping_is_the_document(before);
        assert forall|i: int| 0 <= i < members.len() implies config::members_mapping(
            members,
        ).contains_key(text::ascii_lower((#[trigger] members[i]).0)) && config::members_mapping(
            members,
        )[text::ascii_lower(members[i].0)] == config::entry_destinations(members[i].1) by {
            if i < before.len() {
                assert(before[i] == members[i]);
            }
        }
        assert forall|key: Seq<char>| #[trigger]
            config::members_mapping(members).contains_key(key) implies exists|i: int|
            0 <= i < members.len() && text::ascii_lower((#[trigger] members[i]).0) == key by {
            if config::members_mapping(before).contains_key(key) {
                let i = choose|i: int|
                    0 <= i < before.len() && text::ascii_lower((#[trigger] before[i]).0) == key;
                assert(members[i] == before[i]);
            } else {
                assert(members[members.len() - 1] == members.last());
            }
        }
    }
}

/// Two members whose keys differ at most in the case of ASCII letters are a
/// problem.
pub proof fn law_keys_that_differ_in_case_collide(
    members: Seq<(Seq<char>, json::EntryModel)>,
    i: int,
    j: int,
)
    requires
        0 <= i < j < members.len(),
        text::same_ignoring_case(members[i].0, members[j].0),
    ensures
        config::members_problems(members).len() > 0,
    decreases members.len(),
{
    if config::members_problems(members).len() == 0 {
        let before = members.drop_last();
        if j < before.len() {
            law_keys_that_differ_in_case_collide(before, i, j);
        } else {
            law_mapping_is_the_document(before);
            assert(before[i] == members[i]);
        }
    }
}

/// Under a configuration that loaded, a message to a single recipient never has
/// more destinations than one send takes.
pub proof fn law_one_recipient_fits_one_send(config: &Config, recipient: Seq<char>)
    requires
        config.wf(),
    ensures
        forward::destinations_of(
            seq![recipient],
            forward::mapping_model(config.forward_mapping@),
            config.allow_plus_sign,
        ).len() <= forward::MAX_TO_ADDRESSES,
{
    let mapping = forward::mapping_model(config.forward_mapping@);
    let recipients = seq![recipient];
    assert(recipients.drop_last() =~= seq![]);
    reveal_with_fuel(forward::all_destinations, 2);
    let all = forward::all_destinations(recipients, mapping, config.allow_plus_sign);
    let keys = forward::candidate_keys(forward::normalized(recipient), config.allow_plus_sign);
    forward::lemma_first_present(keys, mapping);
    match forward::recipient_key(recipient, mapping, config.allow_plus_sign) {
        Some(key) => {
            assert(mapping.contains_key(key));
            assert(config::valid_destinations(mapping[key]));
            assert(all =~= mapping[key]);
        },
        None => {},
    }
    lemma_first_seen_is_no_longer(all);
}

proof fn lemma_first_seen_is_no_longer(s: Seq<Seq<char>>)
    ensures
        forward::first_seen(s).len() <= s.len(),
    decreases s.len(),
{
    if s.len() > 0 {
        lemma_first_seen_is_no_longer(s.drop_last());
    }
}

} // verus!
