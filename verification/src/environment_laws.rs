//! Laws of which environments load, and of what they load to.
use crate::config;
use crate::config::{Config, Vars};
use crate::config_laws;
use crate::forward;
use crate::json;
use crate::text;
use vstd::prelude::*;

verus! {

// ---------------------------------------------------------------------------
// The sender address
// ---------------------------------------------------------------------------

/// A part of an address: not empty, and without an `@`, white space and control
/// characters.
pub open spec fn is_address_part(part: Seq<char>) -> bool {
    &&& part.len() > 0
    &&& forall|i: int|
        0 <= i < part.len() ==> #[trigger] part[i] != '@' && !text::is_white_space(part[i])
            && !text::is_control_char(part[i])
}

/// `value` is `local@domain`, of two such parts.
pub open spec fn is_made_of(value: Seq<char>, local: Seq<char>, domain: Seq<char>) -> bool {
    value == local + "@"@ + domain && is_address_part(local) && is_address_part(domain)
}

/// `local@domain` is an address without problems exactly when both are parts of
/// an address, whatever other characters they hold.
pub proof fn law_local_at_domain_is_an_address(
    name: Seq<char>,
    local: Seq<char>,
    domain: Seq<char>,
)
    ensures
        config::email_problems(name, local + "@"@ + domain).len() == 0 <==> is_address_part(local)
            && is_address_part(domain),
{
    reveal_strlit("@");
    let value = local + "@"@ + domain;
    let at = local.len() as int;
    assert(value[at] == '@');
    assert forall|i: int| 0 <= i < local.len() implies value[i] == #[trigger] local[i] by {}
    assert forall|i: int| 0 <= i < domain.len() implies value[at + 1 + i] == #[trigger] domain[i] by {}
    if is_address_part(local) && is_address_part(domain) {
        assert forall|j: int| 0 <= j < value.len() && j != at implies value[j] != '@'
            && !text::is_white_space(value[j]) && !text::is_control_char(value[j]) by {
            if j < at {
                assert(value[j] == local[j]);
            } else {
                assert(value[j] == domain[j - at - 1]);
            }
        }
        assert(config::is_only_at_sign(value, at));
        assert(config::is_email(value));
        assert forall|j: int| 0 <= j < value.len() implies !text::is_white_space(
            #[trigger] value[j],
        ) && !text::is_control_char(value[j]) by {}
        assert(config::no_white_space(value));
        assert(config::no_control_char(value));
    }
    if config::email_problems(name, value).len() == 0 {
        assert(config::is_email(value));
        let a = choose|a: int| 0 < a < value.len() - 1 && config::is_only_at_sign(value, a);
        assert(a == at);
        assert(config::no_white_space(value) && config::no_control_char(value));
        assert forall|i: int| 0 <= i < local.len() implies #[trigger] local[i] != '@'
            && !text::is_white_space(local[i]) && !text::is_control_char(local[i]) by {
            assert(value[i] == local[i]);
        }
        assert forall|i: int| 0 <= i < domain.len() implies #[trigger] domain[i] != '@'
            && !text::is_white_space(domain[i]) && !text::is_control_char(domain[i]) by {
            assert(value[at + 1 + i] == domain[i]);
        }
    }
}

/// Nothing else is an address without problems.
pub proof fn law_an_address_is_local_at_domain(name: Seq<char>, value: Seq<char>)
    ensures
        config::email_problems(name, value).len() == 0 <==> exists|
            local: Seq<char>,
            domain: Seq<char>,
        | #[trigger]
            is_made_of(value, local, domain),
{
    if config::email_problems(name, value).len() == 0 {
        reveal_strlit("@");
        assert(config::is_email(value));
        let at = choose|a: int| 0 < a < value.len() - 1 && config::is_only_at_sign(value, a);
        let local = value.take(at);
        let domain = value.skip(at + 1);
        assert(value =~= local + "@"@ + domain);
        law_local_at_domain_is_an_address(name, local, domain);
        assert(is_made_of(value, local, domain));
    }
    if exists|local: Seq<char>, domain: Seq<char>| #[trigger] is_made_of(value, local, domain) {
        let (local, domain) = choose|local: Seq<char>, domain: Seq<char>| #[trigger]
            is_made_of(value, local, domain);
        law_local_at_domain_is_an_address(name, local, domain);
    }
}

// ---------------------------------------------------------------------------
// The forward mapping
// ---------------------------------------------------------------------------

/// A list of one to fifty texts, none of them blank.
pub open spec fn is_destination_list(entry: json::EntryModel) -> bool {
    &&& entry is Some
    &&& 1 <= entry->0.len() <= 50
    &&& forall|j: int|
        0 <= j < entry->0.len() ==> (#[trigger] entry->0[j]) is Some && text::trimmed(
            entry->0[j]->0,
        ).len() > 0
}

/// The value of a key has no problems exactly when it is a list of one to fifty
/// texts that are not blank, whatever else they hold.
pub proof fn law_destination_lists(key: Seq<char>, entry: json::EntryModel)
    ensures
        config::entry_problems(key, entry).len() == 0 <==> is_destination_list(entry),
        is_destination_list(entry) ==> {
            &&& config::entry_destinations(entry).len() == entry->0.len()
            &&& forall|j: int|
                0 <= j < entry->0.len() ==> #[trigger] config::entry_destinations(entry)[j]
                    == text::trimmed(entry->0[j]->0)
        },
{
    if entry is Some {
        let items = entry->0;
        lemma_items(key, items);
        if config::entry_problems(key, entry).len() == 0 {
            assert forall|j: int| 0 <= j < items.len() implies (#[trigger] items[j]) is Some
                && text::trimmed(items[j]->0).len() > 0 by {
                assert(config::item_problems(key, items[j]).len() == 0);
            }
        }
        if is_destination_list(entry) {
            assert forall|j: int| 0 <= j < items.len() implies config::item_problems(
                key,
                #[trigger] items[j],
            ).len() == 0 by {}
        }
    }
}

proof fn lemma_items(key: Seq<char>, items: Seq<json::ItemModel>)
    ensures
        config::items_problems(key, items).len() == 0 <==> forall|j: int|
            0 <= j < items.len() ==> config::item_problems(key, #[trigger] items[j]).len() == 0,
    decreases items.len(),
{
    if items.len() > 0 {
        let init = items.drop_last();
        lemma_items(key, init);
        if config::items_problems(key, items).len() == 0 {
            assert forall|j: int| 0 <= j < items.len() implies config::item_problems(
                key,
                #[trigger] items[j],
            ).len() == 0 by {
                if j < init.len() {
                    assert(init[j] == items[j]);
                }
            }
        }
        if forall|j: int|
            0 <= j < items.len() ==> config::item_problems(key, #[trigger] items[j]).len() == 0 {
            assert forall|j: int| 0 <= j < init.len() implies config::item_problems(
                key,
                #[trigger] init[j],
            ).len() == 0 by {
                assert(init[j] == items[j]);
            }
            assert(config::item_problems(key, items[items.len() - 1]).len() == 0);
        }
    }
}

/// Members that a mapping can be made of: each has a list of destinations, and
/// no two keys are the same in lower case.
pub open spec fn are_mappings(members: Seq<(Seq<char>, json::EntryModel)>) -> bool {
    &&& forall|i: int| 0 <= i < members.len() ==> is_destination_list((#[trigger] members[i]).1)
    &&& forall|i: int, j: int|
        0 <= i < j < members.len() ==> text::ascii_lower((#[trigger] members[i]).0)
            != text::ascii_lower((#[trigger] members[j]).0)
}

/// The members of a document have no problems exactly when each has a list of
/// destinations and their keys differ in lower case.
pub proof fn law_which_members_are_accepted(members: Seq<(Seq<char>, json::EntryModel)>)
    ensures
        config::members_problems(members).len() == 0 <==> are_mappings(members),
    decreases members.len(),
{
    if members.len() > 0 {
        let init = members.drop_last();
        let n = init.len() as int;
        let (key, entry) = members.last();
        law_which_members_are_accepted(init);
        law_destination_lists(key, entry);
        assert(members[n] == (key, entry));
        if config::members_problems(members).len() == 0 {
            config_laws::law_mapping_is_the_document(init);
            assert forall|i: int| 0 <= i < members.len() implies is_destination_list(
                (#[trigger] members[i]).1,
            ) by {
                if i < n {
                    assert(init[i] == members[i]);
                }
            }
            assert forall|i: int, j: int| 0 <= i < j < members.len() implies text::ascii_lower(
                (#[trigger] members[i]).0,
            ) != text::ascii_lower((#[trigger] members[j]).0) by {
                assert(init[i] == members[i]);
                if j < n {
                    assert(init[j] == members[j]);
                }
            }
        }
        if are_mappings(members) {
            assert(are_mappings(init)) by {
                assert forall|i: int| 0 <= i < init.len() implies is_destination_list(
                    (#[trigger] init[i]).1,
                ) by {
                    assert(init[i] == members[i]);
                }
                assert forall|i: int, j: int| 0 <= i < j < init.len() implies text::ascii_lower(
                    (#[trigger] init[i]).0,
                ) != text::ascii_lower((#[trigger] init[j]).0) by {
                    assert(init[i] == members[i]);
                    assert(init[j] == members[j]);
                }
            }
            config_laws::law_mapping_is_the_document(init);
            if config::members_mapping(init).contains_key(text::ascii_lower(key)) {
                let i = choose|i: int|
                    0 <= i < init.len() && text::ascii_lower((#[trigger] init[i]).0)
                        == text::ascii_lower(key);
                assert(init[i] == members[i]);
                assert(text::ascii_lower(members[i].0) != text::ascii_lower(members[n].0));
            }
        }
    }
}

/// What `FORWARD_MAPPING` parses to has no problems exactly when it is a document
/// that is an object with at least one member, all of them acceptable.
pub proof fn law_which_documents_are_accepted(parsed: Result<json::DocumentModel, Seq<char>>)
    ensures
        config::mapping_problems(parsed).len() == 0 <==> (parsed is Ok && parsed->Ok_0 is Some
            && parsed->Ok_0->0.len() > 0 && are_mappings(parsed->Ok_0->0)),
{
    if parsed is Ok && parsed->Ok_0 is Some {
        law_which_members_are_accepted(parsed->Ok_0->0);
    }
}

// ---------------------------------------------------------------------------
// The whole environment
// ---------------------------------------------------------------------------

/// The variable is set to more than white space.
pub open spec fn is_filled(vars: Vars, name: Seq<char>) -> bool {
    vars.contains_key(name) && text::trimmed(vars[name]@).len() > 0
}

/// The variable is not set, or is `true` or `false` in whatever case.
pub open spec fn is_unset_or_boolean(vars: Vars, name: Seq<char>) -> bool {
    ||| !vars.contains_key(name)
    ||| text::ascii_lower(vars[name]@) == "true"@
    ||| text::ascii_lower(vars[name]@) == "false"@
}

/// A required variable has no problem exactly when it is set to more than white
/// space; one that is not set and one that is blank are told apart.
pub proof fn law_required_variables(vars: Vars, name: Seq<char>)
    ensures
        config::required_problems(vars, name).len() == 0 <==> is_filled(vars, name),
        !vars.contains_key(name) ==> config::required_problems(vars, name) == seq![
            name + " is required but not set"@,
        ],
        vars.contains_key(name) && !is_filled(vars, name) ==> config::required_problems(vars, name)
            == seq![name + " is set but empty"@],
        config::trimmed_setting(vars, name) is Some <==> is_filled(vars, name),
        is_filled(vars, name) ==> config::trimmed_setting(vars, name) == Some(
            text::trimmed(vars[name]@),
        ),
{
}

/// A boolean variable has no problem exactly when it is not set or is `true` or
/// `false` in whatever case, and then has the value that it says.
pub proof fn law_boolean_variables(vars: Vars, name: Seq<char>, default: bool)
    ensures
        config::bool_problems(vars, name).len() == 0 <==> is_unset_or_boolean(vars, name),
        !vars.contains_key(name) ==> config::bool_value(vars, name, default) == default,
        vars.contains_key(name) && text::ascii_lower(vars[name]@) == "true"@ ==> config::bool_value(
            vars,
            name,
            default,
        ),
        vars.contains_key(name) && text::ascii_lower(vars[name]@) == "false"@
            ==> !config::bool_value(vars, name, default),
{
    reveal_strlit("true");
    reveal_strlit("false");
    assert(text::ascii_lower("true"@) =~= "true"@);
    assert(text::ascii_lower("false"@) =~= "false"@);
    assert("true"@.len() == 4 && "false"@.len() == 5);
}

/// An environment loads exactly when the sender is an address, the bucket is
/// named, the mapping is an acceptable document, the subject prefix has no
/// control character, and each switch is a boolean; whatever other variables
/// there are.
pub proof fn law_which_environments_load(
    vars: Vars,
    parsed: Option<Result<json::DocumentModel, Seq<char>>>,
)
    requires
        parsed is Some <==> is_filled(vars, "FORWARD_MAPPING"@),
    ensures
        config::config_problems(vars, parsed).len() == 0 <==> {
            &&& is_filled(vars, "FROM_EMAIL"@)
            &&& exists|local: Seq<char>, domain: Seq<char>| #[trigger]
                is_made_of(text::trimmed(vars["FROM_EMAIL"@]@), local, domain)
            &&& is_filled(vars, "EMAIL_BUCKET"@)
            &&& is_filled(vars, "FORWARD_MAPPING"@)
            &&& parsed->0 is Ok && parsed->0->Ok_0 is Some && parsed->0->Ok_0->0.len() > 0
                && are_mappings(parsed->0->Ok_0->0)
            &&& vars.contains_key("SUBJECT_PREFIX"@) ==> forall|i: int|
                0 <= i < vars["SUBJECT_PREFIX"@]@.len() ==> !text::is_control_char(
                    #[trigger] vars["SUBJECT_PREFIX"@]@[i],
                )
            &&& is_unset_or_boolean(vars, "ALLOW_PLUS_SIGN"@)
            &&& is_unset_or_boolean(vars, "DROP_SPAM"@)
            &&& is_unset_or_boolean(vars, "DROP_UNSCANNED"@)
        },
{
    law_required_variables(vars, "FROM_EMAIL"@);
    law_required_variables(vars, "EMAIL_BUCKET"@);
    law_required_variables(vars, "FORWARD_MAPPING"@);
    law_boolean_variables(vars, "ALLOW_PLUS_SIGN"@, true);
    law_boolean_variables(vars, "DROP_SPAM"@, false);
    law_boolean_variables(vars, "DROP_UNSCANNED"@, false);
    if is_filled(vars, "FROM_EMAIL"@) {
        law_an_address_is_local_at_domain("FROM_EMAIL"@, text::trimmed(vars["FROM_EMAIL"@]@));
    }
    if parsed is Some {
        law_which_documents_are_accepted(parsed->0);
    }
    let total = config::config_problems(vars, parsed).len();
    assert(total == config::required_problems(vars, "FROM_EMAIL"@).len()
        + config::from_email_problems(vars).len() + config::required_problems(
        vars,
        "EMAIL_BUCKET"@,
    ).len() + config::required_problems(vars, "FORWARD_MAPPING"@).len()
        + config::forward_mapping_problems(parsed).len() + config::prefix_problems(vars).len()
        + config::bool_problems(vars, "ALLOW_PLUS_SIGN"@).len() + config::bool_problems(
        vars,
        "DROP_SPAM"@,
    ).len() + config::bool_problems(vars, "DROP_UNSCANNED"@).len());
}

/// What an environment that loads sets, variable by variable.
pub proof fn law_what_an_environment_sets(
    config: &Config,
    vars: Vars,
    parsed: Option<Result<json::DocumentModel, Seq<char>>>,
)
    requires
        config.is_set_by(vars, parsed),
        config::config_problems(vars, parsed).len() == 0,
        parsed is Some <==> is_filled(vars, "FORWARD_MAPPING"@),
    ensures
        config.from_email@ == text::trimmed(vars["FROM_EMAIL"@]@),
        config.email_bucket@ == text::trimmed(vars["EMAIL_BUCKET"@]@),
        match config.subject_prefix {
            Some(prefix) => vars.contains_key("SUBJECT_PREFIX"@) && prefix@
                == vars["SUBJECT_PREFIX"@]@ && prefix@.len() > 0,
            None => !vars.contains_key("SUBJECT_PREFIX"@) || vars["SUBJECT_PREFIX"@]@.len() == 0,
        },
        config.allow_plus_sign <==> !(vars.contains_key("ALLOW_PLUS_SIGN"@) && text::ascii_lower(
            vars["ALLOW_PLUS_SIGN"@]@,
        ) == "false"@),
        config.drop_spam <==> vars.contains_key("DROP_SPAM"@) && text::ascii_lower(
            vars["DROP_SPAM"@]@,
        ) == "true"@,
        config.drop_unscanned <==> vars.contains_key("DROP_UNSCANNED"@) && text::ascii_lower(
            vars["DROP_UNSCANNED"@]@,
        ) == "true"@,
        match config.idempotency_bucket {
            Some(bucket) => is_filled(vars, "IDEMPOTENCY_BUCKET"@) && bucket@ == text::trimmed(
                vars["IDEMPOTENCY_BUCKET"@]@,
            ),
            None => !is_filled(vars, "IDEMPOTENCY_BUCKET"@),
        },
{
    law_which_environments_load(vars, parsed);
    law_required_variables(vars, "FROM_EMAIL"@);
    law_required_variables(vars, "EMAIL_BUCKET"@);
    law_required_variables(vars, "IDEMPOTENCY_BUCKET"@);
    law_boolean_variables(vars, "ALLOW_PLUS_SIGN"@, true);
    law_boolean_variables(vars, "DROP_SPAM"@, false);
    law_boolean_variables(vars, "DROP_UNSCANNED"@, false);
    reveal_strlit("true");
    reveal_strlit("false");
    assert("true"@.len() == 4 && "false"@.len() == 5);
}

/// The mapping of a configuration that loads is the document: every member is an
/// entry, its key in lower case and its destinations trimmed and in order; and
/// every entry is such a member.
pub proof fn law_what_mapping_an_environment_sets(
    config: &Config,
    vars: Vars,
    members: Seq<(Seq<char>, json::EntryModel)>,
)
    requires
        config.is_set_by(vars, Some(Ok(Some(members)))),
        config::config_problems(vars, Some(Ok(Some(members)))).len() == 0,
    ensures
        forall|i: int|
            0 <= i < members.len() ==> {
                let key = text::ascii_lower((#[trigger] members[i]).0);
                &&& config.forward_mapping@.contains_key(key)
                &&& config.forward_mapping@[key]@.len() == members[i].1->0.len()
                &&& forall|j: int|
                    0 <= j < members[i].1->0.len() ==> (#[trigger] config.forward_mapping@[key]@[j])@
                        == text::trimmed(members[i].1->0[j]->0)
            },
        forall|key: Seq<char>| #[trigger]
            config.forward_mapping@.contains_key(key) ==> exists|i: int|
                0 <= i < members.len() && text::ascii_lower((#[trigger] members[i]).0) == key,
{
    let parsed = Some(Ok::<json::DocumentModel, Seq<char>>(Some(members)));
    assert(config::forward_mapping_problems(parsed).len() == 0);
    assert(config::mapping_problems(parsed->0).len() == 0);
    config_laws::law_mapping_is_the_document(members);
    law_which_members_are_accepted(members);
    let mapping = forward::mapping_model(config.forward_mapping@);
    assert(mapping == config::members_mapping(members));
    assert forall|i: int| 0 <= i < members.len() implies {
        let key = text::ascii_lower((#[trigger] members[i]).0);
        &&& config.forward_mapping@.contains_key(key)
        &&& config.forward_mapping@[key]@.len() == members[i].1->0.len()
        &&& forall|j: int|
            0 <= j < members[i].1->0.len() ==> (#[trigger] config.forward_mapping@[key]@[j])@
                == text::trimmed(members[i].1->0[j]->0)
    } by {
        let key = text::ascii_lower(members[i].0);
        assert(mapping.contains_key(key));
        law_destination_lists(members[i].0, members[i].1);
        let list = config.forward_mapping@[key]@;
        assert(mapping[key] == text::texts(list));
        assert(text::texts(list) == config::entry_destinations(members[i].1));
        assert(text::texts(list).len() == list.len());
        assert forall|j: int| 0 <= j < members[i].1->0.len() implies (#[trigger] list[j])@
            == text::trimmed(members[i].1->0[j]->0) by {
            assert(text::texts(list)[j] == list[j]@);
        }
    }
    assert forall|key: Seq<char>| #[trigger]
        config.forward_mapping@.contains_key(key) implies exists|i: int|
        0 <= i < members.len() && text::ascii_lower((#[trigger] members[i]).0) == key by {
        assert(config::members_mapping(members).contains_key(key));
    }
}

/// What the mapping is read from is the parse of the trimmed variable.
pub proof fn law_what_the_mapping_is_read_from(vars: Vars)
    ensures
        is_filled(vars, "FORWARD_MAPPING"@) ==> config::parsed_mapping(vars) == Some(
            json::parsed_document(text::trimmed(vars["FORWARD_MAPPING"@]@)),
        ),
        !is_filled(vars, "FORWARD_MAPPING"@) ==> config::parsed_mapping(vars) is None,
{
}

// ---------------------------------------------------------------------------
// Problems in words
// ---------------------------------------------------------------------------

/// What is said of an address, a subject prefix and a switch that have problems.
pub proof fn law_what_is_said_of_variables(vars: Vars, name: Seq<char>, value: Seq<char>)
    ensures
        !value.contains('@') ==> config::email_problems(name, value).len() > 0
            && config::email_problems(name, value)[0] == name
            + " must be a valid email address (local@domain); got `"@ + value + "`"@,
        (exists|i: int|
            0 <= i < value.len() && (text::is_white_space(#[trigger] value[i])
                || text::is_control_char(value[i]))) ==> config::email_problems(name, value).len()
            > 0 && config::email_problems(name, value).last() == name
            + " must not contain whitespace or control characters"@,
        config::prefix_problems(vars).len() > 0 ==> config::prefix_problems(vars) == seq![
            "SUBJECT_PREFIX must not contain control characters"@,
        ],
        !is_unset_or_boolean(vars, name) ==> config::bool_problems(vars, name) == seq![
            name + " must be `true` or `false` (case-insensitive); got `"@ + vars[name]@ + "`"@,
        ],
{
    law_boolean_variables(vars, name, true);
    if !value.contains('@') {
        if config::is_email(value) {
            let at = choose|a: int| 0 < a < value.len() - 1 && config::is_only_at_sign(value, a);
            assert(value.contains(value[at]));
        }
    }
}

/// What is said of a document that is no mapping.
pub proof fn law_what_is_said_of_documents(message: Seq<char>)
    ensures
        config::mapping_problems(Err(message)) == seq![
            "FORWARD_MAPPING is not valid JSON: "@ + message,
        ],
        config::mapping_problems(Ok(None)) == seq![
            "FORWARD_MAPPING must be a JSON object mapping match keys to arrays of destination addresses"@,
        ],
        config::mapping_problems(Ok(Some(Seq::empty()))) == seq![
            "FORWARD_MAPPING must contain at least one mapping"@,
        ],
{
}

/// What is said of a key whose value is no list of destinations.
pub proof fn law_what_is_said_of_lists(
    key: Seq<char>,
    items: Seq<json::ItemModel>,
    item: json::ItemModel,
)
    ensures
        ({
            let named = "FORWARD_MAPPING key `"@ + key + "`"@;
            &&& config::entry_problems(key, None) == seq![
                named + " must map to a non-empty array of addresses"@,
            ]
            &&& config::entry_problems(key, Some(Seq::empty())) == seq![
                named + " maps to an empty array; provide at least one destination"@,
            ]
            &&& config::items_problems(key, items.push(item)) == config::items_problems(key, items)
                + (match item {
                None => seq![named + " contains a non-string destination"@],
                Some(address) => if text::trimmed(address).len() == 0 {
                    seq![named + " contains an empty destination address"@]
                } else {
                    seq![]
                },
            })
            &&& 1 <= items.len() <= 50 ==> config::entry_problems(key, Some(items))
                == config::items_problems(key, items)
            &&& items.len() > 50 ==> config::entry_problems(key, Some(items)) == seq![
                named + (" maps to "@ + text::decimal_text(items.len())
                    + " destinations; a single key may map to at most 50 (the SES per-send cap)"@),
            ] + config::items_problems(key, items)
        }),
{
    assert(items.push(item).drop_last() =~= items);
    if 1 <= items.len() <= 50 {
        assert(config::entry_problems(key, Some(items)) =~= config::items_problems(key, items));
    }
}

/// What is said of a document's last member: what is wrong with its list, or that
/// its key is one of an earlier member in lower case.
pub proof fn law_what_is_said_of_members(
    members: Seq<(Seq<char>, json::EntryModel)>,
    key: Seq<char>,
    entry: json::EntryModel,
)
    requires
        config::members_problems(members).len() == 0,
    ensures
        ({
            let all = config::members_problems(members.push((key, entry)));
            &&& !is_destination_list(entry) ==> all == config::entry_problems(key, entry)
            &&& is_destination_list(entry) && (exists|i: int|
                0 <= i < members.len() && text::ascii_lower((#[trigger] members[i]).0)
                    == text::ascii_lower(key)) ==> all == seq![
                "FORWARD_MAPPING has duplicate key `"@ + text::ascii_lower(key)
                    + "` after lowercasing; keys must be unique"@,
            ]
        }),
{
    law_destination_lists(key, entry);
    config_laws::law_mapping_is_the_document(members);
    let all = members.push((key, entry));
    assert(all.drop_last() =~= members);
    assert(all.last() == (key, entry));
    assert(config::members_problems(all) =~= config::member_problems(
        config::members_mapping(members),
        key,
        entry,
    ));
}

/// An error counts the problems, and has a line for each.
pub proof fn law_what_a_configuration_error_says(
    error: config::ConfigError,
    problems: Seq<Seq<char>>,
    problem: Seq<char>,
)
    ensures
        error.message_text() == "invalid configuration ("@ + text::decimal_text(
            error.problems@.len(),
        ) + " problem(s)):\n"@ + config::problem_lines(text::texts(error.problems@)),
        config::problem_lines(Seq::empty()) == Seq::<char>::empty(),
        config::problem_lines(problems.push(problem)) == config::problem_lines(problems) + ("  - "@
            + problem + "\n"@),
{
    assert(problems.push(problem).drop_last() =~= problems);
}

// ---------------------------------------------------------------------------
// Documents
// ---------------------------------------------------------------------------

/// The parts of a document are modelled by their own texts, each in its place.
pub proof fn law_models_of_documents(
    item: json::JsonItem,
    entry: json::JsonEntry,
    document: json::JsonDocument,
    parsed: Result<json::JsonDocument, String>,
)
    ensures
        match item {
            json::JsonItem::Text(text) => item@ == Some(text@),
            json::JsonItem::Other => item@ is None,
        },
        match entry {
            json::JsonEntry::Array(items) => {
                &&& entry@ is Some
                &&& entry@->0.len() == items@.len()
                &&& forall|i: int| 0 <= i < items@.len() ==> #[trigger] entry@->0[i] == items@[i]@
            },
            json::JsonEntry::Other => entry@ is None,
        },
        match document {
            json::JsonDocument::Object(members) => {
                &&& document@ is Some
                &&& document@->0.len() == members@.len()
                &&& forall|i: int|
                    0 <= i < members@.len() ==> #[trigger] document@->0[i] == (
                        members@[i].0@,
                        members@[i].1@,
                    )
            },
            json::JsonDocument::Other => document@ is None,
        },
        match parsed {
            Ok(value) => json::parse_model(parsed) == Ok::<json::DocumentModel, Seq<char>>(value@),
            Err(message) => json::parse_model(parsed) == Err::<json::DocumentModel, Seq<char>>(
                message@,
            ),
        },
        json::opt_parse_model(Some(parsed)) == Some(json::parse_model(parsed)),
        json::opt_parse_model(None) is None,
{
}

/// What is read off a JSON value: of a string its text, of an array its
/// elements, of an object its members, each in order and none left out; and
/// nothing of a value of another kind.
pub proof fn law_what_is_read_off_a_document(value: json::Json)
    ensures
        match value {
            json::Json::Text(text) => {
                &&& json::item_model(value) == Some(text)
                &&& json::entry_model(value) is None
                &&& json::document_model(value) is None
            },
            json::Json::Array(items) => {
                &&& json::item_model(value) is None
                &&& json::entry_model(value) is Some
                &&& json::entry_model(value)->0.len() == items.len()
                &&& forall|i: int|
                    0 <= i < items.len() ==> #[trigger] json::entry_model(value)->0[i]
                        == json::item_model(items[i])
                &&& json::document_model(value) is None
            },
            json::Json::Object(members) => {
                &&& json::item_model(value) is None
                &&& json::entry_model(value) is None
                &&& json::document_model(value) is Some
                &&& json::document_model(value)->0.len() == members.len()
                &&& forall|i: int|
                    0 <= i < members.len() ==> #[trigger] json::document_model(value)->0[i] == (
                        members[i].0,
                        json::entry_model(members[i].1),
                    )
            },
            json::Json::Other => {
                &&& json::item_model(value) is None
                &&& json::entry_model(value) is None
                &&& json::document_model(value) is None
            },
        },
{
}

/// A text that parses gives what is read off its document; one that does not
/// gives the parser's message.
pub proof fn law_what_a_text_parses_to(text: Seq<char>)
    ensures
        match json::parsed_json(text) {
            Ok(value) => json::parsed_document(text) == Ok::<json::DocumentModel, Seq<char>>(
                json::document_model(value),
            ),
            Err(message) => json::parsed_document(text) == Err::<json::DocumentModel, Seq<char>>(
                message,
            ),
        },
{
}

} // verus!
