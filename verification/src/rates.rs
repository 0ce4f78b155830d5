//! Decoding of the remote rate table: a JSON object that maps each currency
//! code to an object with a textual `code` and a numeric `rate`.
//!
//! Parsing is done by `serde_json`; which documents count as a rate table, and
//! what is taken from them, is decided here.

use vstd::prelude::*;
use serde_json::Value;

verus! {

/// A JSON value of `serde_json`, opaque to the verifier.
#[verifier::external_type_specification]
#[verifier::external_body]
pub struct ExValue(Value);

/// What a JSON value holds, as far as a rate table is concerned.
pub enum Json {
    /// A string, with its content.
    Text(Seq<char>),
    /// A number, with the text `serde_json` prints for it.
    Number(Seq<char>),
    /// An object, with its members in the order `serde_json` walks them.
    Object(Seq<(Seq<char>, Json)>),
    /// Null, a boolean or an array.
    Other,
}

/// What `value` holds.
pub uninterp spec fn json_of(value: Value) -> Json;

/// What the document that `serde_json::from_str` reads from `text` holds;
/// `None` where `text` is not well-formed JSON.
pub uninterp spec fn parsed(text: Seq<char>) -> Option<Json>;

/// The first of `fields` that is named `name`.
pub open spec fn first_named(fields: Seq<(Seq<char>, Json)>, name: Seq<char>) -> Option<Json>
    decreases fields.len(),
{
    if fields.len() == 0 {
        None
    } else if fields[0].0 == name {
        Some(fields[0].1)
    } else {
        first_named(fields.subrange(1, fields.len() as int), name)
    }
}

/// The member of `j` named `name`, if `j` is an object that has one.
pub open spec fn member_of(j: Json, name: Seq<char>) -> Option<Json> {
    match j {
        Json::Object(fields) => first_named(fields, name),
        _ => None,
    }
}

/// The members of an object as the model has them.
pub open spec fn members_model(ms: Seq<(String, Value)>) -> Seq<(Seq<char>, Json)> {
    Seq::new(ms.len(), |i: int| (ms[i].0@, json_of(ms[i].1)))
}

/// Calls `serde_json::from_str` for a `Value`. The parse error is dropped: a
/// document comes back exactly when the text parses, and it holds what the
/// text stands for.
#[verifier::external_body]
fn parse_document(text: &str) -> (doc: Option<Value>)
    ensures
        match doc {
            Some(v) => parsed(text@) == Some(json_of(v)),
            None => parsed(text@).is_none(),
        },
{
    serde_json::from_str::<Value>(text).ok()
}

/// Copies the members out of a `Value::Object`, in the order `Map::iter` gives
/// them; `None` for every other variant.
#[verifier::external_body]
fn members(v: &Value) -> (out: Option<Vec<(String, Value)>>)
    ensures
        match out {
            Some(ms) => json_of(*v) == Json::Object(members_model(ms@)),
            None => !(json_of(*v) is Object),
        },
{
    match v {
        Value::Object(map) => Some(map.iter().map(|(k, x)| (k.clone(), x.clone())).collect()),
        _ => None,
    }
}

/// Calls `Value::get` with a string index and copies what it finds: the member
/// of that name where the value is an object that has one. An object of
/// `serde_json` holds no name twice.
#[verifier::external_body]
fn member(v: &Value, name: &str) -> (found: Option<Value>)
    ensures
        match found {
            Some(x) => member_of(json_of(*v), name@) == Some(json_of(x)),
            None => member_of(json_of(*v), name@).is_none(),
        },
{
    v.get(name).cloned()
}

/// Calls `Value::as_str` and copies the text: the content of a JSON string,
/// `None` for any other value.
#[verifier::external_body]
fn text(v: &Value) -> (out: Option<String>)
    ensures
        match out {
            Some(s) => json_of(*v) == Json::Text(s@),
            None => !(json_of(*v) is Text),
        },
{
    v.as_str().map(String::from)
}

/// Calls `Value::as_number` and prints the number as `serde_json` does; `None`
/// for any value that is not a number.
#[verifier::external_body]
fn number(v: &Value) -> (out: Option<String>)
    ensures
        match out {
            Some(s) => json_of(*v) == Json::Number(s@),
            None => !(json_of(*v) is Number),
        },
{
    v.as_number().map(|n| n.to_string())
}

/// One line of the rate table.
pub struct RateEntry {
    /// The key the entry stands under in the table.
    pub key: String,
    /// The currency code the entry carries.
    pub code: String,
    /// The rate, as the text of the JSON number that was read.
    pub rate: String,
}

/// The content of a `RateEntry`.
pub struct RateModel {
    pub key: Seq<char>,
    pub code: Seq<char>,
    pub rate: Seq<char>,
}

impl View for RateEntry {
    type V = RateModel;

    open spec fn view(&self) -> RateModel {
        RateModel { key: self.key@, code: self.code@, rate: self.rate@ }
    }
}

/// The content of a table.
pub open spec fn table_model(t: Seq<RateEntry>) -> Seq<RateModel> {
    Seq::new(t.len(), |i: int| t[i]@)
}

/// The entry that the member `key: j` stands for: `j` must be an object with a
/// member `code` that is a string and a member `rate` that is a number. Other
/// members of `j` are ignored.
pub open spec fn entry_of(key: Seq<char>, j: Json) -> Option<RateModel> {
    match (member_of(j, "code"@), member_of(j, "rate"@)) {
        (Some(Json::Text(code)), Some(Json::Number(rate))) => Some(RateModel { key, code, rate }),
        _ => None,
    }
}

/// The table that the members of an object stand for: one entry per member, in
/// the same order, provided every member stands for an entry.
pub open spec fn table_of(ms: Seq<(Seq<char>, Json)>) -> Option<Seq<RateModel>> {
    if forall|i: int| 0 <= i < ms.len() ==> (#[trigger] entry_of(ms[i].0, ms[i].1)).is_some() {
        Some(Seq::new(ms.len(), |i: int| entry_of(ms[i].0, ms[i].1).unwrap()))
    } else {
        None
    }
}

/// The table that a response body stands for: the body must parse, the document
/// must be an object, and every member must stand for an entry. Anything else
/// is no table at all.
pub open spec fn decoded(text: Seq<char>) -> Option<Seq<RateModel>> {
    match parsed(text) {
        Some(Json::Object(ms)) => table_of(ms),
        _ => None,
    }
}

/// Whether an executable result is the given table.
pub open spec fn is_table(out: Option<Vec<RateEntry>>, table: Option<Seq<RateModel>>) -> bool {
    match out {
        Some(t) => table == Some(table_model(t@)),
        None => table.is_none(),
    }
}

/// Reads the entry under `key` from its JSON value.
pub fn entry_from(key: &String, value: &Value) -> (out: Option<RateEntry>)
    ensures
        match out {
            Some(e) => entry_of(key@, json_of(*value)) == Some(e@),
            None => entry_of(key@, json_of(*value)).is_none(),
        },
{
    let code_member = match member(value, "code") {
        Some(c) => c,
        None => {
            return None;
        },
    };
    let rate_member = match member(value, "rate") {
        Some(r) => r,
        None => {
            return None;
        },
    };
    let code = match text(&code_member) {
        Some(c) => c,
        None => {
            return None;
        },
    };
    let rate = match number(&rate_member) {
        Some(r) => r,
        None => {
            return None;
        },
    };
    Some(RateEntry { key: key.clone(), code, rate })
}

/// Reads a table from the members of a JSON object. One member that is not an
/// entry spoils the whole table.
pub fn table_from(ms: &Vec<(String, Value)>) -> (out: Option<Vec<RateEntry>>)
    ensures
        is_table(out, table_of(members_model(ms@))),
{
    let ghost model = members_model(ms@);
    let mut table: Vec<RateEntry> = Vec::new();
    let mut i: usize = 0;
    while i < ms.len()
        invariant
            i <= ms.len(),
            model == members_model(ms@),
            table@.len() == i,
            forall|j: int|
                0 <= j < i ==> (#[trigger] entry_of(model[j].0, model[j].1)) == Some(table@[j]@),
        decreases ms.len() - i,
    {
        match entry_from(&ms[i].0, &ms[i].1) {
            Some(e) => {
                table.push(e);
            },
            None => {
                proof {
                    assert(entry_of(model[i as int].0, model[i as int].1).is_none());
                }
                return None;
            },
        }
        i += 1;
    }
    proof {
        assert(table_model(table@) =~= table_of(model).unwrap());
    }
    Some(table)
}

/// Decodes a response body into a rate table, or `None` where the body is not
/// one: malformed JSON, a document that is no object, or a member without a
/// textual `code` or a numeric `rate`.
pub fn decode_rates(body: &str) -> (out: Option<Vec<RateEntry>>)
    ensures
        is_table(out, decoded(body@)),
{
    match parse_document(body) {
        Some(doc) => match members(&doc) {
            Some(ms) => table_from(&ms),
            None => None,
        },
        None => None,
    }
}

} // verus!
