//! JSON documents: the parse, and the part of a parsed document that a forward
//! mapping is read from.
use vstd::prelude::*;

verus! {

/// A JSON document, as far as a forward mapping can tell its values apart.
pub enum Json {
    /// An object: its members.
    Object(Seq<(Seq<char>, Json)>),
    Array(Seq<Json>),
    Text(Seq<char>),
    /// A number, a boolean or null.
    Other,
}

/// A parsed JSON document.
#[verifier::external_type_specification]
#[verifier::external_body]
pub struct ExJsonValue(serde_json::Value);

/// The document that a `serde_json::Value` holds, an object's members in the
/// order in which its map yields them.
pub uninterp spec fn json_of(value: serde_json::Value) -> Json;

/// What `serde_json::from_str` makes of a text: the document, or the error's
/// message.
pub uninterp spec fn parsed_json(text: Seq<char>) -> Result<Json, Seq<char>>;

/// The outermost layer of a parsed document.
pub enum JsonNode {
    Object(Vec<(String, serde_json::Value)>),
    Array(Vec<serde_json::Value>),
    Text(String),
    Other,
}

impl JsonNode {
    /// The document that the node is the outermost layer of.
    pub open spec fn model(self) -> Json {
        match self {
            JsonNode::Object(members) => Json::Object(
                members@.map_values(|m: (String, serde_json::Value)| (m.0@, json_of(m.1))),
            ),
            JsonNode::Array(items) => Json::Array(
                items@.map_values(|item: serde_json::Value| json_of(item)),
            ),
            JsonNode::Text(text) => Json::Text(text@),
            JsonNode::Other => Json::Other,
        }
    }
}

/// `serde_json::from_str`: the parsed document, or the message of the error.
/// What it returns depends on the text alone; `parsed_json` names it.
#[verifier::external_body]
fn parse(text: &str) -> (out: Result<serde_json::Value, String>)
    ensures
        match out {
            Ok(value) => parsed_json(text@) == Ok::<Json, Seq<char>>(json_of(value)),
            Err(message) => parsed_json(text@) == Err::<Json, Seq<char>>(message@),
        },
{
    serde_json::from_str(text).map_err(|error: serde_json::Error| error.to_string())
}

/// Takes a `serde_json::Value` apart, one layer: an object's members in the
/// order of `serde_json::Map`'s iterator, an array's items in theirs.
#[verifier::external_body]
fn into_node(value: serde_json::Value) -> (out: JsonNode)
    ensures
        out.model() == json_of(value),
{
    match value {
        serde_json::Value::Object(members) => JsonNode::Object(members.into_iter().collect()),
        serde_json::Value::Array(items) => JsonNode::Array(items),
        serde_json::Value::String(text) => JsonNode::Text(text),
        serde_json::Value::Number(_) => JsonNode::Other,
        serde_json::Value::Bool(_) => JsonNode::Other,
        serde_json::Value::Null => JsonNode::Other,
    }
}

// ---------------------------------------------------------------------------
// The part of a document that a mapping is read from
// ---------------------------------------------------------------------------

/// An element of an array.
#[derive(Debug, Clone, PartialEq, Eq)]
pub enum JsonItem {
    Text(String),
    /// Anything but a string.
    Other,
}

/// A member of an object.
#[derive(Debug, Clone, PartialEq, Eq)]
pub enum JsonEntry {
    Array(Vec<JsonItem>),
    /// Anything but an array.
    Other,
}

/// A whole document.
#[derive(Debug, Clone, PartialEq, Eq)]
pub enum JsonDocument {
    Object(Vec<(String, JsonEntry)>),
    /// Anything but an object.
    Other,
}

/// The text of a string; nothing for anything else.
pub type ItemModel = Option<Seq<char>>;

/// The elements of an array; nothing for anything else.
pub type EntryModel = Option<Seq<ItemModel>>;

/// The members of an object; nothing for anything else.
pub type DocumentModel = Option<Seq<(Seq<char>, EntryModel)>>;

impl View for JsonItem {
    type V = ItemModel;

    open spec fn view(&self) -> ItemModel {
        match self {
            JsonItem::Text(text) => Some(text@),
            JsonItem::Other => None,
        }
    }
}

impl View for JsonEntry {
    type V = EntryModel;

    open spec fn view(&self) -> EntryModel {
        match self {
            JsonEntry::Array(items) => Some(items@.map_values(|item: JsonItem| item@)),
            JsonEntry::Other => None,
        }
    }
}

impl View for JsonDocument {
    type V = DocumentModel;

    open spec fn view(&self) -> DocumentModel {
        match self {
            JsonDocument::Object(members) => Some(
                members@.map_values(|m: (String, JsonEntry)| (m.0@, m.1@)),
            ),
            JsonDocument::Other => None,
        }
    }
}

/// `json` as an element of an array.
pub open spec fn item_model(json: Json) -> ItemModel {
    match json {
        Json::Text(text) => Some(text),
        _ => None,
    }
}

/// `json` as a member of an object.
pub open spec fn entry_model(json: Json) -> EntryModel {
    match json {
        Json::Array(items) => Some(items.map_values(|item: Json| item_model(item))),
        _ => None,
    }
}

/// `json` as a whole document.
pub open spec fn document_model(json: Json) -> DocumentModel {
    match json {
        Json::Object(members) => Some(
            members.map_values(|m: (Seq<char>, Json)| (m.0, entry_model(m.1))),
        ),
        _ => None,
    }
}

/// What a text parses to: the document, or the parser's message.
pub open spec fn parsed_document(text: Seq<char>) -> Result<DocumentModel, Seq<char>> {
    match parsed_json(text) {
        Ok(json) => Ok(document_model(json)),
        Err(message) => Err(message),
    }
}

/// The model of a parse result.
pub open spec fn parse_model(parsed: Result<JsonDocument, String>) -> Result<
    DocumentModel,
    Seq<char>,
> {
    match parsed {
        Ok(document) => Ok(document@),
        Err(message) => Err(message@),
    }
}

/// The model of a parse result, where there is one.
pub open spec fn opt_parse_model(parsed: Option<Result<JsonDocument, String>>) -> Option<
    Result<DocumentModel, Seq<char>>,
> {
    match parsed {
        Some(parsed) => Some(parse_model(parsed)),
        None => None,
    }
}

fn to_item(value: serde_json::Value) -> (out: JsonItem)
    ensures
        out@ == item_model(json_of(value)),
{
    match into_node(value) {
        JsonNode::Text(text) => JsonItem::Text(text),
        _ => JsonItem::Other,
    }
}

fn to_entry(value: serde_json::Value) -> (out: JsonEntry)
    ensures
        out@ == entry_model(json_of(value)),
{
    let ghost json = json_of(value);
    match into_node(value) {
        JsonNode::Array(values) => {
            let ghost all = values@;
            let mut items: Vec<JsonItem> = Vec::new();
            for value in it: values.into_iter()
                invariant
                    it.seq() == all,
                    items@.len() == it.index(),
                    forall|i: int|
                        0 <= i < items@.len() ==> (#[trigger] items@[i])@ == item_model(
                            json_of(all[i]),
                        ),
            {
                items.push(to_item(value));
            }
            proof {
                let modelled = all.map_values(|item: serde_json::Value| json_of(item));
                assert(json == Json::Array(modelled));
                assert(items@.map_values(|item: JsonItem| item@) =~= modelled.map_values(
                    |item: Json| item_model(item),
                ));
            }
            JsonEntry::Array(items)
        },
        _ => JsonEntry::Other,
    }
}

fn to_document(value: serde_json::Value) -> (out: JsonDocument)
    ensures
        out@ == document_model(json_of(value)),
{
    let ghost json = json_of(value);
    match into_node(value) {
        JsonNode::Object(values) => {
            let ghost all = values@;
            let mut members: Vec<(String, JsonEntry)> = Vec::new();
            for member in it: values.into_iter()
                invariant
                    it.seq() == all,
                    members@.len() == it.index(),
                    forall|i: int|
                        0 <= i < members@.len() ==> {
                            &&& (#[trigger] members@[i]).0@ == all[i].0@
                            &&& members@[i].1@ == entry_model(json_of(all[i].1))
                        },
            {
                let (key, value) = member;
                members.push((key, to_entry(value)));
            }
            proof {
                let modelled = all.map_values(
                    |m: (String, serde_json::Value)| (m.0@, json_of(m.1)),
                );
                assert(json == Json::Object(modelled));
                assert(members@.map_values(|m: (String, JsonEntry)| (m.0@, m.1@))
                    =~= modelled.map_values(|m: (Seq<char>, Json)| (m.0, entry_model(m.1))));
            }
            JsonDocument::Object(members)
        },
        _ => JsonDocument::Other,
    }
}

/// Parse `text` as a JSON document. An error is the parser's message.
pub fn parse_document(text: &str) -> (out: Result<JsonDocument, String>)
    ensures
        parse_model(out) == parsed_document(text@),
{
    match parse(text) {
        Ok(value) => Ok(to_document(value)),
        Err(message) => Err(message),
    }
}

} // verus!
