//! Configuration loaded entirely from environment variables.
//!
//! No configuration value is ever written into the source, so private data
//! cannot leak through the code. [`Config::from_env`] validates everything and
//! reports *all* problems at once rather than failing on the first, so an
//! operator fixing a misconfiguration sees the complete list in one deploy.
use crate::forward;
use crate::forward::MAX_TO_ADDRESSES;
use crate::json;
use crate::json::{parse_document, JsonDocument, JsonEntry, JsonItem};
use crate::text;
use crate::text::{
    chars_of, concat, control_char, decimal, eq_ignore_ascii_case, join, to_ascii_lowercase, trim,
    white_space,
};
use vstd::hash_map::StringHashMap;
use vstd::prelude::*;
use vstd::string::StringExecFns;

verus! {

/// Fully validated configuration for the forwarder.
pub struct Config {
    /// Verified-domain address that all forwarded mail is sent as.
    pub from_email: String,
    /// S3 bucket SES writes inbound mail to; also an allowlist cross-check
    /// against the bucket named in the event.
    pub email_bucket: String,
    /// Lowercased match key -> non-empty list of destination addresses.
    pub forward_mapping: StringHashMap<Vec<String>>,
    /// Prepended to the Subject when present. Absent means "no prefix".
    pub subject_prefix: Option<String>,
    /// When true, a `+tag` suffix in the recipient mailbox is stripped before
    /// matching (so `info+sales@example.com` matches as `info@example.com`).
    pub allow_plus_sign: bool,
    /// When true, messages whose spam verdict is `FAIL` are dropped.
    pub drop_spam: bool,
    /// When true, messages whose virus verdict is `PROCESSING_FAILED` are
    /// dropped.
    pub drop_unscanned: bool,
    /// Bucket that duplicate-suppression markers are written to. Absent means
    /// "no duplicate suppression".
    pub idempotency_bucket: Option<String>,
}

/// Aggregated configuration error: carries every problem found, not just the
/// first, so the operator can fix them all in one pass.
#[derive(Debug, Clone, PartialEq, Eq)]
pub struct ConfigError {
    pub problems: Vec<String>,
}

/// One line for each problem.
pub open spec fn problem_lines(problems: Seq<Seq<char>>) -> Seq<char>
    decreases problems.len(),
{
    if problems.len() == 0 {
        Seq::empty()
    } else {
        problem_lines(problems.drop_last()) + ("  - "@ + problems.last() + "\n"@)
    }
}

impl ConfigError {
    /// What [`ConfigError::message`] returns.
    pub open spec fn message_text(self) -> Seq<char> {
        "invalid configuration ("@ + text::decimal_text(self.problems@.len())
            + " problem(s)):\n"@ + problem_lines(text::texts(self.problems@))
    }

    /// The error in words: a count, then a line for each problem.
    pub fn message(&self) -> (out: String)
        ensures
            out@ == self.message_text(),
    {
        let count = decimal(self.problems.len() as u64);
        let mut out = concat("invalid configuration (", count.as_str(), " problem(s)):\n");
        let ghost head = out@;
        let ghost all = text::texts(self.problems@);
        let mut i: usize = 0;
        assert(head + problem_lines(all.take(0)) =~= head);
        while i < self.problems.len()
            invariant
                i <= self.problems@.len(),
                all == text::texts(self.problems@),
                out@ == head + problem_lines(all.take(i as int)),
            decreases self.problems@.len() - i,
        {
            let line = concat("  - ", self.problems[i].as_str(), "\n");
            assert(all.take(i + 1).drop_last() =~= all.take(i as int));
            assert(all.take(i + 1).last() == self.problems@[i as int]@);
            out.append(line.as_str());
            assert(out@ =~= head + problem_lines(all.take(i + 1)));
            i += 1;
        }
        assert(all.take(i as int) =~= all);
        out
    }
}

// ---------------------------------------------------------------------------
// Single variables
// ---------------------------------------------------------------------------

/// Environment variables: names and values.
pub type Vars = Map<Seq<char>, String>;

/// The value of a variable that is set.
pub open spec fn setting(vars: Vars, name: Seq<char>) -> Option<Seq<char>> {
    if vars.contains_key(name) {
        Some(vars[name]@)
    } else {
        None
    }
}

/// The trimmed value of a variable that is set to more than white space.
pub open spec fn trimmed_setting(vars: Vars, name: Seq<char>) -> Option<Seq<char>> {
    match setting(vars, name) {
        Some(value) => if text::trimmed(value).len() > 0 {
            Some(text::trimmed(value))
        } else {
            None
        },
        None => None,
    }
}

/// What is wrong with a variable that is required.
pub open spec fn required_problems(vars: Vars, name: Seq<char>) -> Seq<Seq<char>> {
    match setting(vars, name) {
        Some(value) => if text::trimmed(value).len() > 0 {
            seq![]
        } else {
            seq![name + " is set but empty"@]
        },
        None => seq![name + " is required but not set"@],
    }
}

/// `local@domain`, with one `@` and both parts non-empty.
pub open spec fn is_email(value: Seq<char>) -> bool {
    exists|at: int| 0 < at < value.len() - 1 && is_only_at_sign(value, at)
}

/// `value` has an `@` at `at` and nowhere else.
pub open spec fn is_only_at_sign(value: Seq<char>, at: int) -> bool {
    &&& 0 <= at < value.len()
    &&& value[at] == '@'
    &&& forall|j: int| 0 <= j < value.len() && j != at ==> value[j] != '@'
}

/// `value` has no control character.
pub open spec fn no_control_char(value: Seq<char>) -> bool {
    forall|i: int| 0 <= i < value.len() ==> !text::is_control_char(#[trigger] value[i])
}

/// `value` has no white space.
pub open spec fn no_white_space(value: Seq<char>) -> bool {
    forall|i: int| 0 <= i < value.len() ==> !text::is_white_space(#[trigger] value[i])
}

/// What is wrong with an address.
pub open spec fn email_problems(name: Seq<char>, value: Seq<char>) -> Seq<Seq<char>> {
    let shape = if is_email(value) {
        seq![]
    } else {
        seq![
            name + " must be a valid email address (local@domain); got `"@ + value + "`"@,
        ]
    };
    let characters = if no_white_space(value) && no_control_char(value) {
        seq![]
    } else {
        seq![name + " must not contain whitespace or control characters"@]
    };
    shape + characters
}

/// What is wrong with an optional subject prefix.
pub open spec fn prefix_problems(vars: Vars) -> Seq<Seq<char>> {
    match setting(vars, "SUBJECT_PREFIX"@) {
        Some(value) => if no_control_char(value) {
            seq![]
        } else {
            seq!["SUBJECT_PREFIX must not contain control characters"@]
        },
        None => seq![],
    }
}

/// The subject prefix: the value as it is set, unless that is empty.
pub open spec fn prefix_value(vars: Vars) -> Option<Seq<char>> {
    match setting(vars, "SUBJECT_PREFIX"@) {
        Some(value) => if value.len() > 0 {
            Some(value)
        } else {
            None
        },
        None => None,
    }
}

/// The value of a boolean variable: `true` or `false`, in whatever case.
pub open spec fn bool_value(vars: Vars, name: Seq<char>, default: bool) -> bool {
    match setting(vars, name) {
        Some(raw) => if text::same_ignoring_case(raw, "true"@) {
            true
        } else if text::same_ignoring_case(raw, "false"@) {
            false
        } else {
            default
        },
        None => default,
    }
}

/// What is wrong with a boolean variable.
pub open spec fn bool_problems(vars: Vars, name: Seq<char>) -> Seq<Seq<char>> {
    match setting(vars, name) {
        Some(raw) => if text::same_ignoring_case(raw, "true"@) || text::same_ignoring_case(
            raw,
            "false"@,
        ) {
            seq![]
        } else {
            seq![name + " must be `true` or `false` (case-insensitive); got `"@ + raw + "`"@]
        },
        None => seq![],
    }
}

/// Adds one problem to the list.
fn report(problems: &mut Vec<String>, problem: String)
    ensures
        text::texts(final(problems)@) == text::texts(old(problems)@).push(problem@),
{
    let ghost before = problems@;
    problems.push(problem);
    assert(text::texts(problems@) =~= text::texts(before).push(problem@));
}

/// Fetch a required variable, trimming surrounding whitespace. Records a
/// problem (and returns `None`) when the variable is missing or blank.
pub fn required(vars: &StringHashMap<String>, name: &str, problems: &mut Vec<String>) -> (out:
    Option<String>)
    ensures
        text::opt_owned(out) == trimmed_setting(vars@, name@),
        text::texts(final(problems)@) == text::texts(old(problems)@) + required_problems(
            vars@,
            name@,
        ),
{
    match vars.get(name) {
        Some(value) => {
            let trimmed = trim(value.as_str());
            if !trimmed.as_str().is_empty() {
                return Some(trimmed);
            }
            report(problems, join(name, " is set but empty"));
            None
        },
        None => {
            report(problems, join(name, " is required but not set"));
            None
        },
    }
}

/// Light sanity check: the address must be `local@domain` with both parts
/// non-empty, and hold neither white space nor control characters. Stricter RFC
/// validation is intentionally avoided - a malformed address that slips past
/// this is rejected by SES at send time anyway.
pub fn validate_email(name: &str, value: String, problems: &mut Vec<String>) -> (out: Option<
    String,
>)
    ensures
        text::opt_owned(out) == (if email_problems(name@, value@).len() == 0 {
            Some(value@)
        } else {
            None
        }),
        text::texts(final(problems)@) == text::texts(old(problems)@) + email_problems(
            name@,
            value@,
        ),
{
    let ghost before = text::texts(problems@);
    let looks_like_email = looks_like_email(value.as_str());
    if !looks_like_email {
        let named = join(name, " must be a valid email address (local@domain); got `");
        report(problems, concat(named.as_str(), value.as_str(), "`"));
    }
    let clean = !has_control_char(value.as_str()) && !has_white_space(value.as_str());
    if !clean {
        report(problems, join(name, " must not contain whitespace or control characters"));
    }
    assert(text::texts(problems@) =~= before + email_problems(name@, value@));
    if looks_like_email && clean {
        Some(value)
    } else {
        None
    }
}

/// Whether `value` is `local@domain`, with one `@` and both parts non-empty.
fn looks_like_email(value: &str) -> (out: bool)
    ensures
        out == is_email(value@),
{
    let chars = chars_of(value);
    let mut first: usize = 0;
    while first < chars.len() && chars[first] != '@'
        invariant
            chars@ == value@,
            first <= chars@.len(),
            forall|j: int| 0 <= j < first ==> chars@[j] != '@',
        decreases chars@.len() - first,
    {
        first += 1;
    }
    if first == chars.len() {
        return false;
    }
    let mut i: usize = first + 1;
    while i < chars.len()
        invariant
            chars@ == value@,
            first < i <= chars@.len(),
            chars@[first as int] == '@',
            forall|j: int| 0 <= j < i && j != first ==> chars@[j] != '@',
        decreases chars@.len() - i,
    {
        if chars[i] == '@' {
            return false;
        }
        i += 1;
    }
    assert(is_only_at_sign(value@, first as int));
    0 < first && first < chars.len() - 1
}

/// Whether `value` holds a control character.
fn has_control_char(value: &str) -> (out: bool)
    ensures
        out == !no_control_char(value@),
{
    let chars = chars_of(value);
    let mut i: usize = 0;
    while i < chars.len()
        invariant
            chars@ == value@,
            i <= chars@.len(),
            forall|j: int| 0 <= j < i ==> !text::is_control_char(#[trigger] chars@[j]),
        decreases chars@.len() - i,
    {
        if control_char(chars[i]) {
            return true;
        }
        i += 1;
    }
    false
}

/// Whether `value` holds white space.
fn has_white_space(value: &str) -> (out: bool)
    ensures
        out == !no_white_space(value@),
{
    let chars = chars_of(value);
    let mut i: usize = 0;
    while i < chars.len()
        invariant
            chars@ == value@,
            i <= chars@.len(),
            forall|j: int| 0 <= j < i ==> !text::is_white_space(#[trigger] chars@[j]),
        decreases chars@.len() - i,
    {
        if white_space(chars[i]) {
            return true;
        }
        i += 1;
    }
    false
}

/// Fetch the subject prefix. A value with a control character is a problem: it
/// would end up in a header line.
pub fn subject_prefix(vars: &StringHashMap<String>, problems: &mut Vec<String>) -> (out: Option<
    String,
>)
    ensures
        text::opt_owned(out) == prefix_value(vars@),
        text::texts(final(problems)@) == text::texts(old(problems)@) + prefix_problems(vars@),
{
    match vars.get("SUBJECT_PREFIX") {
        Some(value) => {
            if has_control_char(value.as_str()) {
                report(
                    problems,
                    "SUBJECT_PREFIX must not contain control characters".to_owned(),
                );
            }
            if value.as_str().is_empty() {
                None
            } else {
                Some(value.clone())
            }
        },
        None => None,
    }
}

/// Fetch an optional variable, trimming surrounding whitespace. A blank one
/// counts as absent.
pub fn optional(vars: &StringHashMap<String>, name: &str) -> (out: Option<String>)
    ensures
        text::opt_owned(out) == trimmed_setting(vars@, name@),
{
    match vars.get(name) {
        Some(value) => {
            let trimmed = trim(value.as_str());
            if trimmed.as_str().is_empty() {
                None
            } else {
                Some(trimmed)
            }
        },
        None => None,
    }
}

/// Parse a strict boolean: only `true`/`false` (case-insensitive) are accepted.
/// When the variable is absent, the default is used. When it is present but not
/// a strict boolean, a problem is recorded and the default is returned so
/// parsing can continue and surface any further problems.
pub fn parse_optional_bool(
    vars: &StringHashMap<String>,
    name: &str,
    default: bool,
    problems: &mut Vec<String>,
) -> (out: bool)
    ensures
        out == bool_value(vars@, name@, default),
        text::texts(final(problems)@) == text::texts(old(problems)@) + bool_problems(
            vars@,
            name@,
        ),
{
    let raw = match vars.get(name) {
        Some(raw) => raw,
        None => return default,
    };
    if eq_ignore_ascii_case(raw.as_str(), "true") {
        true
    } else if eq_ignore_ascii_case(raw.as_str(), "false") {
        false
    } else {
        let named = join(name, " must be `true` or `false` (case-insensitive); got `");
        report(problems, concat(named.as_str(), raw.as_str(), "`"));
        default
    }
}

// ---------------------------------------------------------------------------
// The forward mapping
// ---------------------------------------------------------------------------

/// `FORWARD_MAPPING key ` and the key, quoted.
pub open spec fn key_phrase(key: Seq<char>) -> Seq<char> {
    "FORWARD_MAPPING key `"@ + key + "`"@
}

/// What is wrong with one element of a destination list.
pub open spec fn item_problems(key: Seq<char>, item: json::ItemModel) -> Seq<Seq<char>> {
    match item {
        Some(address) => if text::trimmed(address).len() > 0 {
            seq![]
        } else {
            seq![key_phrase(key) + " contains an empty destination address"@]
        },
        None => seq![key_phrase(key) + " contains a non-string destination"@],
    }
}

/// What is wrong with the elements of a destination list, one after the other.
pub open spec fn items_problems(key: Seq<char>, items: Seq<json::ItemModel>) -> Seq<Seq<char>>
    decreases items.len(),
{
    if items.len() == 0 {
        seq![]
    } else {
        items_problems(key, items.drop_last()) + item_problems(key, items.last())
    }
}

/// What is wrong with the value of one mapping key.
pub open spec fn entry_problems(key: Seq<char>, entry: json::EntryModel) -> Seq<Seq<char>> {
    match entry {
        None => seq![key_phrase(key) + " must map to a non-empty array of addresses"@],
        Some(items) => if items.len() == 0 {
            seq![
                key_phrase(key)
                    + " maps to an empty array; provide at least one destination"@,
            ]
        } else {
            cap_problems(key, items.len()) + items_problems(key, items)
        },
    }
}

/// What is wrong with the number of a key's destinations.
pub open spec fn cap_problems(key: Seq<char>, count: nat) -> Seq<Seq<char>> {
    if count > MAX_TO_ADDRESSES {
        seq![
            key_phrase(key) + (" maps to "@ + text::decimal_text(count)
                + " destinations; a single key may map to at most 50 (the SES per-send cap)"@),
        ]
    } else {
        seq![]
    }
}

/// The destinations in a list: the text of each element, trimmed.
pub open spec fn entry_destinations(entry: json::EntryModel) -> Seq<Seq<char>> {
    match entry {
        Some(items) => items.map_values(|item: json::ItemModel| text::trimmed(item->0)),
        None => seq![],
    }
}

/// The mapping that the members of the document give: keys in lower case, the
/// first of two that coincide kept, invalid entries left out.
pub open spec fn members_mapping(
    members: Seq<(Seq<char>, json::EntryModel)>,
) -> forward::MappingModel
    decreases members.len(),
{
    if members.len() == 0 {
        Map::empty()
    } else {
        let before = members_mapping(members.drop_last());
        let (key, entry) = members.last();
        if entry_problems(key, entry).len() > 0 || before.contains_key(text::ascii_lower(key)) {
            before
        } else {
            before.insert(text::ascii_lower(key), entry_destinations(entry))
        }
    }
}

/// What is wrong with a member, given the mapping that the members before it
/// give.
pub open spec fn member_problems(
    before: forward::MappingModel,
    key: Seq<char>,
    entry: json::EntryModel,
) -> Seq<Seq<char>> {
    if entry_problems(key, entry).len() > 0 {
        entry_problems(key, entry)
    } else if before.contains_key(text::ascii_lower(key)) {
        seq![
            "FORWARD_MAPPING has duplicate key `"@ + text::ascii_lower(key)
                + "` after lowercasing; keys must be unique"@,
        ]
    } else {
        seq![]
    }
}

/// What is wrong with the members of the document, one after the other.
pub open spec fn members_problems(members: Seq<(Seq<char>, json::EntryModel)>) -> Seq<Seq<char>>
    decreases members.len(),
{
    if members.len() == 0 {
        seq![]
    } else {
        let before = members.drop_last();
        let (key, entry) = members.last();
        members_problems(before) + member_problems(members_mapping(before), key, entry)
    }
}

/// What is wrong with what `FORWARD_MAPPING` parses to.
pub open spec fn mapping_problems(
    parsed: Result<json::DocumentModel, Seq<char>>,
) -> Seq<Seq<char>> {
    match parsed {
        Err(message) => seq!["FORWARD_MAPPING is not valid JSON: "@ + message],
        Ok(None) => seq![
            "FORWARD_MAPPING must be a JSON object mapping match keys to arrays of destination addresses"@,
        ],
        Ok(Some(members)) => if members.len() == 0 {
            seq!["FORWARD_MAPPING must contain at least one mapping"@]
        } else {
            members_problems(members)
        },
    }
}

/// The mapping in what `FORWARD_MAPPING` parses to.
pub open spec fn mapping_value(
    parsed: Result<json::DocumentModel, Seq<char>>,
) -> forward::MappingModel {
    match parsed {
        Ok(Some(members)) => members_mapping(members),
        _ => Map::empty(),
    }
}

/// Validate the destination list for a single mapping key. Returns the parsed,
/// trimmed addresses, or `None` (recording problems) if the value is not a
/// non-empty array of non-empty strings, or has too many of them for one send.
pub fn parse_destinations(key: &str, value: &JsonEntry, problems: &mut Vec<String>) -> (out: Option<
    Vec<String>,
>)
    ensures
        match out {
            Some(destinations) => {
                &&& entry_problems(key@, value@).len() == 0
                &&& text::texts(destinations@) == entry_destinations(value@)
            },
            None => entry_problems(key@, value@).len() > 0,
        },
        text::texts(final(problems)@) == text::texts(old(problems)@) + entry_problems(
            key@,
            value@,
        ),
{
    let phrase = concat("FORWARD_MAPPING key `", key, "`");
    let ghost start = text::texts(problems@);
    let items = match value {
        JsonEntry::Array(items) => items,
        JsonEntry::Other => {
            report(
                problems,
                join(phrase.as_str(), " must map to a non-empty array of addresses"),
            );
            return None;
        },
    };
    if items.len() == 0 {
        report(
            problems,
            join(
                phrase.as_str(),
                " maps to an empty array; provide at least one destination",
            ),
        );
        return None;
    }
    let mut destinations: Vec<String> = Vec::new();
    let mut entry_valid = true;
    if items.len() > MAX_TO_ADDRESSES {
        let count = decimal(items.len() as u64);
        let excess = concat(
            " maps to ",
            count.as_str(),
            " destinations; a single key may map to at most 50 (the SES per-send cap)",
        );
        report(problems, join(phrase.as_str(), excess.as_str()));
        entry_valid = false;
    }
    let ghost all = value@->0;
    let ghost capped = start + cap_problems(key@, all.len());
    assert(text::texts(problems@) =~= capped);
    assert(all.take(0) =~= seq![]);
    let mut i: usize = 0;
    while i < items.len()
        invariant
            i <= items@.len(),
            phrase@ == key_phrase(key@),
            all == items@.map_values(|item: JsonItem| item@),
            entry_valid == (all.len() <= MAX_TO_ADDRESSES && items_problems(
                key@,
                all.take(i as int),
            ).len() == 0),
            text::texts(problems@) == capped + items_problems(key@, all.take(i as int)),
            entry_valid ==> text::texts(destinations@) == entry_destinations(
                Some(all.take(i as int)),
            ),
        decreases items@.len() - i,
    {
        let ghost so_far = text::texts(problems@);
        let ghost before = destinations@;
        proof {
            assert(all.take(i + 1).drop_last() =~= all.take(i as int));
            assert(all.take(i + 1).last() == items@[i as int]@);
        }
        match &items[i] {
            JsonItem::Text(address) => {
                let trimmed = trim(address.as_str());
                if !trimmed.as_str().is_empty() {
                    destinations.push(trimmed);
                    proof {
                        assert(text::texts(destinations@) =~= text::texts(before).push(trimmed@));
                        assert(items@[i as int]@ == Some(address@));
                        assert(entry_destinations(Some(all.take(i + 1))) =~= entry_destinations(
                            Some(all.take(i as int)),
                        ).push(trimmed@));
                    }
                } else {
                    report(
                        problems,
                        join(phrase.as_str(), " contains an empty destination address"),
                    );
                    entry_valid = false;
                }
            },
            JsonItem::Other => {
                report(problems, join(phrase.as_str(), " contains a non-string destination"));
                entry_valid = false;
            },
        }
        assert(text::texts(problems@) =~= so_far + item_problems(key@, items@[i as int]@));
        assert(text::texts(problems@) =~= capped + items_problems(key@, all.take(i + 1)));
        i += 1;
    }
    assert(all.take(i as int) =~= all);
    assert(text::texts(problems@) =~= start + entry_problems(key@, value@));
    if entry_valid {
        Some(destinations)
    } else {
        None
    }
}

/// Read the mapping off the parsed `FORWARD_MAPPING`: a JSON object whose values
/// are non-empty arrays of non-empty destination strings. Keys are lowercased.
pub fn parse_forward_mapping(parsed: Result<JsonDocument, String>, problems: &mut Vec<String>) -> (
out: Option<StringHashMap<Vec<String>>>)
    ensures
        match out {
            Some(mapping) => {
                &&& mapping_problems(json::parse_model(parsed)).len() == 0
                &&& forward::mapping_model(mapping@) == mapping_value(json::parse_model(parsed))
            },
            None => mapping_problems(json::parse_model(parsed)).len() > 0,
        },
        text::texts(final(problems)@) == text::texts(old(problems)@) + mapping_problems(
            json::parse_model(parsed),
        ),
{
    let ghost start = text::texts(problems@);
    let members = match parsed {
        Ok(JsonDocument::Object(members)) => members,
        Ok(JsonDocument::Other) => {
            report(
                problems,
                "FORWARD_MAPPING must be a JSON object mapping match keys to arrays of destination addresses".to_owned(),
            );
            return None;
        },
        Err(message) => {
            report(problems, join("FORWARD_MAPPING is not valid JSON: ", message.as_str()));
            return None;
        },
    };
    if members.len() == 0 {
        report(problems, "FORWARD_MAPPING must contain at least one mapping".to_owned());
        return None;
    }
    let mut mapping: StringHashMap<Vec<String>> = StringHashMap::new();
    let mut all_entries_valid = true;
    let ghost all = members@.map_values(|m: (String, JsonEntry)| (m.0@, m.1@));
    assert(all.take(0) =~= seq![]);
    assert(forward::mapping_model(mapping@) =~= Map::empty());
    let mut i: usize = 0;
    while i < members.len()
        invariant
            i <= members@.len(),
            all == members@.map_values(|m: (String, JsonEntry)| (m.0@, m.1@)),
            forward::mapping_model(mapping@) == members_mapping(all.take(i as int)),
            all_entries_valid == (members_problems(all.take(i as int)).len() == 0),
            text::texts(problems@) == start + members_problems(all.take(i as int)),
        decreases members@.len() - i,
    {
        let ghost so_far = text::texts(problems@);
        let ghost before = mapping@;
        proof {
            assert(all.take(i + 1).drop_last() =~= all.take(i as int));
            assert(all.take(i + 1).last() == (members@[i as int].0@, members@[i as int].1@));
        }
        let key = &members[i].0;
        match parse_destinations(key.as_str(), &members[i].1, problems) {
            Some(destinations) => {
                let normalized_key = to_ascii_lowercase(key.as_str());
                if mapping.contains_key(normalized_key.as_str()) {
                    report(
                        problems,
                        concat(
                            "FORWARD_MAPPING has duplicate key `",
                            normalized_key.as_str(),
                            "` after lowercasing; keys must be unique",
                        ),
                    );
                    all_entries_valid = false;
                } else {
                    mapping.insert(normalized_key, destinations);
                    assert(forward::mapping_model(mapping@) =~= forward::mapping_model(
                        before,
                    ).insert(normalized_key@, text::texts(destinations@)));
                }
            },
            None => all_entries_valid = false,
        }
        assert(text::texts(problems@) =~= so_far + member_problems(
            members_mapping(all.take(i as int)),
            members@[i as int].0@,
            members@[i as int].1@,
        ));
        assert(text::texts(problems@) =~= start + members_problems(all.take(i + 1)));
        i += 1;
    }
    assert(all.take(i as int) =~= all);
    if all_entries_valid {
        Some(mapping)
    } else {
        None
    }
}

// ---------------------------------------------------------------------------
// The whole configuration
// ---------------------------------------------------------------------------

/// What the text of `FORWARD_MAPPING` parses to, where the variable is set to
/// more than white space.
pub open spec fn parsed_mapping(vars: Vars) -> Option<Result<json::DocumentModel, Seq<char>>> {
    match trimmed_setting(vars, "FORWARD_MAPPING"@) {
        Some(raw) => Some(json::parsed_document(raw)),
        None => None,
    }
}

/// What is wrong with the sender address, beyond its absence.
pub open spec fn from_email_problems(vars: Vars) -> Seq<Seq<char>> {
    match trimmed_setting(vars, "FROM_EMAIL"@) {
        Some(value) => email_problems("FROM_EMAIL"@, value),
        None => seq![],
    }
}

/// What is wrong with the forward mapping, beyond its absence.
pub open spec fn forward_mapping_problems(
    parsed: Option<Result<json::DocumentModel, Seq<char>>>,
) -> Seq<Seq<char>> {
    match parsed {
        Some(parsed) => mapping_problems(parsed),
        None => seq![],
    }
}

/// Every problem of the environment, given what `FORWARD_MAPPING` parses to.
pub open spec fn config_problems(
    vars: Vars,
    parsed: Option<Result<json::DocumentModel, Seq<char>>>,
) -> Seq<Seq<char>> {
    required_problems(vars, "FROM_EMAIL"@) + from_email_problems(vars) + required_problems(
        vars,
        "EMAIL_BUCKET"@,
    ) + required_problems(vars, "FORWARD_MAPPING"@) + forward_mapping_problems(parsed)
        + prefix_problems(vars) + bool_problems(vars, "ALLOW_PLUS_SIGN"@) + bool_problems(
        vars,
        "DROP_SPAM"@,
    ) + bool_problems(vars, "DROP_UNSCANNED"@)
}

/// A list of destinations that a mapping key may have: at least one, no more
/// than one send takes, none blank or with white space around it.
pub open spec fn valid_destinations(destinations: Seq<Seq<char>>) -> bool {
    &&& 0 < destinations.len() <= MAX_TO_ADDRESSES
    &&& forall|i: int| 0 <= i < destinations.len() ==> is_trimmed(#[trigger] destinations[i])
}

/// Not blank, and without white space at either end.
pub open spec fn is_trimmed(value: Seq<char>) -> bool {
    value.len() > 0 && !text::is_white_space(value[0]) && !text::is_white_space(value.last())
}

/// A mapping that a configuration may have: keys in lower case, destinations
/// as `valid_destinations` says, at least one key.
pub open spec fn valid_mapping(mapping: forward::MappingModel) -> bool {
    &&& exists|key: Seq<char>| mapping.contains_key(key)
    &&& forall|key: Seq<char>| #[trigger]
        mapping.contains_key(key) ==> text::ascii_lower(key) == key && valid_destinations(
            mapping[key],
        )
}

impl Config {
    /// What holds of every configuration that loads.
    pub open spec fn wf(&self) -> bool {
        &&& is_email(self.from_email@)
        &&& no_white_space(self.from_email@)
        &&& no_control_char(self.from_email@)
        &&& is_trimmed(self.email_bucket@)
        &&& valid_mapping(forward::mapping_model(self.forward_mapping@))
        &&& match text::opt_owned(self.subject_prefix) {
            Some(prefix) => prefix.len() > 0 && no_control_char(prefix),
            None => true,
        }
        &&& match text::opt_owned(self.idempotency_bucket) {
            Some(bucket) => is_trimmed(bucket),
            None => true,
        }
    }

    /// The configuration is the one that the environment sets, given what
    /// `FORWARD_MAPPING` parses to.
    pub open spec fn is_set_by(
        &self,
        vars: Vars,
        parsed: Option<Result<json::DocumentModel, Seq<char>>>,
    ) -> bool {
        &&& trimmed_setting(vars, "FROM_EMAIL"@) == Some(self.from_email@)
        &&& trimmed_setting(vars, "EMAIL_BUCKET"@) == Some(self.email_bucket@)
        &&& parsed is Some
        &&& forward::mapping_model(self.forward_mapping@) == mapping_value(parsed->0)
        &&& text::opt_owned(self.subject_prefix) == prefix_value(vars)
        &&& self.allow_plus_sign == bool_value(vars, "ALLOW_PLUS_SIGN"@, true)
        &&& self.drop_spam == bool_value(vars, "DROP_SPAM"@, false)
        &&& self.drop_unscanned == bool_value(vars, "DROP_UNSCANNED"@, false)
        &&& text::opt_owned(self.idempotency_bucket) == trimmed_setting(
            vars,
            "IDEMPOTENCY_BUCKET"@,
        )
    }

    /// Load and validate configuration from an explicit variable map.
    ///
    /// Every problem is collected and returned together; the function never
    /// stops at the first error.
    pub fn from_env(vars: &StringHashMap<String>) -> (out: Result<Config, ConfigError>)
        ensures
            match out {
                Ok(config) => {
                    &&& config_problems(vars@, parsed_mapping(vars@)).len() == 0
                    &&& config.is_set_by(vars@, parsed_mapping(vars@))
                    &&& config.wf()
                },
                Err(error) => {
                    &&& config_problems(vars@, parsed_mapping(vars@)).len() > 0
                    &&& text::texts(error.problems@) == config_problems(
                        vars@,
                        parsed_mapping(vars@),
                    )
                },
            },
    {
        let parsed = match optional(vars, "FORWARD_MAPPING") {
            Some(raw) => Some(parse_document(raw.as_str())),
            None => None,
        };
        Config::from_parsed(vars, parsed)
    }

    /// Validate configuration from an explicit variable map, given what the
    /// text of `FORWARD_MAPPING` parses to.
    pub fn from_parsed(
        vars: &StringHashMap<String>,
        parsed: Option<Result<JsonDocument, String>>,
    ) -> (out: Result<Config, ConfigError>)
        requires
            (parsed is Some) == (trimmed_setting(vars@, "FORWARD_MAPPING"@) is Some),
        ensures
            ({
                let model = json::opt_parse_model(parsed);
                match out {
                    Ok(config) => {
                        &&& config_problems(vars@, model).len() == 0
                        &&& config.is_set_by(vars@, model)
                        &&& config.wf()
                    },
                    Err(error) => {
                        &&& config_problems(vars@, model).len() > 0
                        &&& text::texts(error.problems@) == config_problems(vars@, model)
                    },
                }
            }),
    {
        let ghost model = json::opt_parse_model(parsed);
        let mut problems: Vec<String> = Vec::new();

        let from_email = match required(vars, "FROM_EMAIL", &mut problems) {
            Some(value) => validate_email("FROM_EMAIL", value, &mut problems),
            None => None,
        };

        let email_bucket = required(vars, "EMAIL_BUCKET", &mut problems);

        let forward_mapping = match (required(vars, "FORWARD_MAPPING", &mut problems), parsed) {
            (Some(_), Some(parsed)) => parse_forward_mapping(parsed, &mut problems),
            _ => None,
        };

        let subject_prefix = subject_prefix(vars, &mut problems);

        let allow_plus_sign = parse_optional_bool(vars, "ALLOW_PLUS_SIGN", true, &mut problems);
        let drop_spam = parse_optional_bool(vars, "DROP_SPAM", false, &mut problems);
        let drop_unscanned = parse_optional_bool(vars, "DROP_UNSCANNED", false, &mut problems);

        let idempotency_bucket = optional(vars, "IDEMPOTENCY_BUCKET");

        assert(text::texts(problems@) =~= config_problems(vars@, model));
        match (from_email, email_bucket, forward_mapping) {
            (Some(from_email), Some(email_bucket), Some(forward_mapping)) if problems.len()
                == 0 => {
                let config = Config {
                    from_email,
                    email_bucket,
                    forward_mapping,
                    subject_prefix,
                    allow_plus_sign,
                    drop_spam,
                    drop_unscanned,
                    idempotency_bucket,
                };
                proof {
                    lemma_config_is_wf(vars@, model, &config);
                }
                Ok(config)
            },
            // Any missing or invalid required value has pushed a problem above.
            _ => Err(ConfigError { problems }),
        }
    }
}

/// A configuration set by an environment without problems is well-formed.
proof fn lemma_config_is_wf(
    vars: Vars,
    parsed: Option<Result<json::DocumentModel, Seq<char>>>,
    config: &Config,
)
    requires
        config_problems(vars, parsed).len() == 0,
        config.is_set_by(vars, parsed),
    ensures
        config.wf(),
{
    lemma_trimmed_setting(vars, "EMAIL_BUCKET"@);
    lemma_trimmed_setting(vars, "IDEMPOTENCY_BUCKET"@);
    let members = parsed->0->Ok_0->0;
    lemma_members(members);
}

proof fn lemma_trimmed_setting(vars: Vars, name: Seq<char>)
    ensures
        match trimmed_setting(vars, name) {
            Some(value) => is_trimmed(value),
            None => true,
        },
{
    if vars.contains_key(name) {
        let bounds = text::lemma_trimmed(vars[name]@);
    }
}

/// Members without problems give a valid mapping.
proof fn lemma_members(members: Seq<(Seq<char>, json::EntryModel)>)
    requires
        members_problems(members).len() == 0,
    ensures
        members.len() > 0 ==> exists|key: Seq<char>| members_mapping(members).contains_key(key),
        forall|key: Seq<char>| #[trigger]
            members_mapping(members).contains_key(key) ==> text::ascii_lower(key) == key
                && valid_destinations(members_mapping(members)[key]),
    decreases members.len(),
{
    if members.len() > 0 {
        let before = members.drop_last();
        let (key, entry) = members.last();
        lemma_members(before);
        lemma_entry(key, entry);
        text::lemma_ascii_lower_idempotent(key);
        assert(members_mapping(members).contains_key(text::ascii_lower(key)));
    }
}

/// A list without problems is one that a key may have.
proof fn lemma_entry(key: Seq<char>, entry: json::EntryModel)
    requires
        entry_problems(key, entry).len() == 0,
    ensures
        valid_destinations(entry_destinations(entry)),
{
    let items = entry->0;
    lemma_items(key, items);
    assert forall|i: int| 0 <= i < items.len() implies is_trimmed(
        #[trigger] entry_destinations(entry)[i],
    ) by {
        assert(item_problems(key, items[i]).len() == 0);
        let bounds = text::lemma_trimmed(items[i]->0);
    }
}

proof fn lemma_items(key: Seq<char>, items: Seq<json::ItemModel>)
    requires
        items_problems(key, items).len() == 0,
    ensures
        forall|i: int| 0 <= i < items.len() ==> item_problems(key, #[trigger] items[i]).len() == 0,
    decreases items.len(),
{
    if items.len() > 0 {
        let before = items.drop_last();
        lemma_items(key, before);
        assert forall|i: int| 0 <= i < items.len() implies item_problems(
            key,
            #[trigger] items[i],
        ).len() == 0 by {
            if i < before.len() {
                assert(before[i] == items[i]);
            } else {
                assert(items[i] == items.last());
            }
        }
    }
}

} // verus!
