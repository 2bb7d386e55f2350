use vstd::prelude::*;

verus! {

/// A JSON document, as `serde_json::Value` holds it (numbers are not needed here).
pub enum JsonValue {
    Null,
    Bool(bool),
    Number,
    Str(String),
    Array(Vec<JsonValue>),
    Object(Vec<(String, JsonValue)>),
}

/// A JSON document as plain values.
pub enum JsonTree {
    Null,
    Bool(bool),
    Number,
    Str(Seq<char>),
    Array(Seq<JsonTree>),
    Object(Seq<(Seq<char>, JsonTree)>),
}

impl JsonValue {
    pub open spec fn tree(&self) -> JsonTree
        decreases self,
    {
        match self {
            JsonValue::Null => JsonTree::Null,
            JsonValue::Bool(b) => JsonTree::Bool(*b),
            JsonValue::Number => JsonTree::Number,
            JsonValue::Str(s) => JsonTree::Str(s@),
            JsonValue::Array(items) => JsonTree::Array(
                Seq::new(
                    items@.len(),
                    |i: int|
                        if 0 <= i < items@.len() {
                            items@[i].tree()
                        } else {
                            JsonTree::Null
                        },
                ),
            ),
            JsonValue::Object(fields) => JsonTree::Object(
                Seq::new(
                    fields@.len(),
                    |i: int|
                        if 0 <= i < fields@.len() {
                            (fields@[i].0@, fields@[i].1.tree())
                        } else {
                            (Seq::empty(), JsonTree::Null)
                        },
                ),
            ),
        }
    }
}

/// The member `key` of an object (`serde_json::Value::get` with a string key); `None`
/// for other values or a missing key.
pub open spec fn member(t: JsonTree, key: Seq<char>) -> Option<JsonTree> {
    match t {
        JsonTree::Object(fields) => member_in(fields, key, 0),
        _ => None,
    }
}

/// The value of the first field at or after `i` named `key`.
pub open spec fn member_in(fields: Seq<(Seq<char>, JsonTree)>, key: Seq<char>, i: int) -> Option<JsonTree>
    decreases fields.len() - i,
{
    if i < 0 || i >= fields.len() {
        None
    } else if fields[i].0 == key {
        Some(fields[i].1)
    } else {
        member_in(fields, key, i + 1)
    }
}

/// The text of a JSON string (`serde_json::Value::as_str`).
pub open spec fn as_text(t: JsonTree) -> Option<Seq<char>> {
    match t {
        JsonTree::Str(s) => Some(s),
        _ => None,
    }
}

#[verifier::external_type_specification]
#[verifier::external_body]
pub struct ExJsonValue(serde_json::Value);

/// The document that `serde_json::from_str::<serde_json::Value>` reads from `text`, or
/// `None` when that call returns an error.
pub uninterp spec fn json_parse(text: Seq<char>) -> Option<JsonTree>;

/// Calls `serde_json::from_str::<serde_json::Value>(text)` and converts the value it
/// returns into a `JsonValue`, variant for variant (an error becomes `None`). Claims only
/// that the result is `json_parse` of the text.
#[verifier::external_body]
pub(crate) fn parse_json(text: &str) -> (r: Option<JsonValue>)
    ensures
        match r {
            Some(v) => json_parse(text@) == Some(v.tree()),
            None => json_parse(text@) is None,
        },
{
    match serde_json::from_str::<serde_json::Value>(text) {
        Ok(value) => Some(json_model(value)),
        Err(_) => None,
    }
}

/// Rebuilds a `serde_json::Value` as a `JsonValue`, variant for variant, keeping the
/// order in which the value's arrays and maps iterate. It states nothing; `parse_json`,
/// its only caller, states the result.
#[verifier::external_body]
fn json_model(value: serde_json::Value) -> JsonValue {
    match value {
        serde_json::Value::Null => JsonValue::Null,
        serde_json::Value::Bool(b) => JsonValue::Bool(b),
        serde_json::Value::Number(_) => JsonValue::Number,
        serde_json::Value::String(s) => JsonValue::Str(s),
        serde_json::Value::Array(items) => JsonValue::Array(items.into_iter().map(json_model).collect()),
        serde_json::Value::Object(fields) => JsonValue::Object(
            fields.into_iter().map(|(key, item)| (key, json_model(item))).collect(),
        ),
    }
}

impl JsonValue {
    /// The member `key` of an object.
    pub fn get(&self, key: &str) -> (r: Option<&JsonValue>)
        ensures
            match r {
                Some(v) => member(self.tree(), key@) == Some(v.tree()),
                None => member(self.tree(), key@) is None,
            },
    {
        match self {
            JsonValue::Object(fields) => {
                let key_chars = crate::text::chars_of(key);
                let ghost t = self.tree();
                let ghost tf = match t {
                    JsonTree::Object(f) => f,
                    _ => Seq::empty(),
                };
                assert(tf.len() == fields@.len());
                assert forall|j: int| 0 <= j < fields@.len() implies tf[j] == (#[trigger] fields@[j].0@, fields@[j].1.tree()) by {
                }
                assert(t is Object);
                let mut i: usize = 0;
                while i < fields.len()
                    invariant
                        i <= fields.len(),
                        tf.len() == fields@.len(),
                        forall|j: int| 0 <= j < fields@.len() ==> tf[j] == (#[trigger] fields@[j].0@, fields@[j].1.tree()),
                        member(t, key@) == member_in(tf, key@, i as int),
                        t == self.tree(),
                        t == JsonTree::Object(tf),
                        key_chars@ == key@,
                    decreases fields.len() - i,
                {
                    assert(tf[i as int] == (fields@[i as int].0@, fields@[i as int].1.tree()));
                    let name_chars = crate::text::chars_of(fields[i].0.as_str());
                    if crate::text::chars_equal(name_chars.as_slice(), key_chars.as_slice()) {
                        return Some(&fields[i].1);
                    }
                    i += 1;
                }
                None
            },
            _ => None,
        }
    }

    /// The text of a JSON string.
    pub fn as_str(&self) -> (r: Option<&String>)
        ensures
            match r {
                Some(s) => as_text(self.tree()) == Some(s@),
                None => as_text(self.tree()) is None,
            },
    {
        match self {
            JsonValue::Str(s) => Some(s),
            _ => None,
        }
    }
}

} // verus!
