use vstd::prelude::*;

verus! {

/// A JSON value, as plain data.
pub enum JsonValue {
    Null,
    Bool(bool),
    /// A number, in the text that `serde_json` writes for it.
    Number(String),
    Text(String),
    Array(Vec<JsonValue>),
    /// An object's members, in the order in which `serde_json` keeps them.
    Object(Vec<(String, JsonValue)>),
}

/// The model of a JSON value.
pub enum JsonModel {
    Null,
    Bool(bool),
    Number(Seq<char>),
    Text(Seq<char>),
    Array(Seq<JsonModel>),
    Object(Seq<(Seq<char>, JsonModel)>),
}

/// The model of a JSON value.
pub open spec fn json_model(v: JsonValue) -> JsonModel
    decreases v,
{
    match v {
        JsonValue::Null => JsonModel::Null,
        JsonValue::Bool(b) => JsonModel::Bool(b),
        JsonValue::Number(n) => JsonModel::Number(n@),
        JsonValue::Text(t) => JsonModel::Text(t@),
        JsonValue::Array(items) => JsonModel::Array(json_models(items@)),
        JsonValue::Object(members) => JsonModel::Object(member_models(members@)),
    }
}

/// The models of a sequence of JSON values.
pub open spec fn json_models(items: Seq<JsonValue>) -> Seq<JsonModel>
    decreases items,
{
    if items.len() == 0 {
        Seq::empty()
    } else {
        json_models(items.drop_last()).push(json_model(items.last()))
    }
}

/// The models of a sequence of object members.
pub open spec fn member_models(members: Seq<(String, JsonValue)>) -> Seq<(Seq<char>, JsonModel)>
    decreases members,
{
    if members.len() == 0 {
        Seq::empty()
    } else {
        member_models(members.drop_last()).push(
            (members.last().0@, json_model(members.last().1)),
        )
    }
}

} // verus!

verus! {

/// A sequence of values has as many models as values, each the model of its value.
pub proof fn lemma_json_models(items: Seq<JsonValue>)
    ensures
        json_models(items).len() == items.len(),
        forall|i: int| 0 <= i < items.len() ==> #[trigger] json_models(items)[i] == json_model(items[i]),
    decreases items.len(),
{
    if items.len() > 0 {
        lemma_json_models(items.drop_last());
        assert forall|i: int| 0 <= i < items.len() implies #[trigger] json_models(items)[i]
            == json_model(items[i]) by {
            if i < items.len() - 1 {
                assert(items.drop_last()[i] == items[i]);
            }
        }
    }
}

/// A sequence of members has as many models as members, each the key's text and the
/// value's model.
pub proof fn lemma_member_models(members: Seq<(String, JsonValue)>)
    ensures
        member_models(members).len() == members.len(),
        forall|i: int|
            0 <= i < members.len() ==> #[trigger] member_models(members)[i] == (
                members[i].0@,
                json_model(members[i].1),
            ),
    decreases members.len(),
{
    if members.len() > 0 {
        lemma_member_models(members.drop_last());
        assert forall|i: int| 0 <= i < members.len() implies #[trigger] member_models(members)[i]
            == (members[i].0@, json_model(members[i].1)) by {
            if i < members.len() - 1 {
                assert(members.drop_last()[i] == members[i]);
            }
        }
    }
}

/// The value of the first member with this key, or null when there is none.
pub open spec fn lookup(members: Seq<(Seq<char>, JsonModel)>, key: Seq<char>) -> JsonModel
    decreases members.len(),
{
    if members.len() == 0 {
        JsonModel::Null
    } else if members[0].0 == key {
        members[0].1
    } else {
        lookup(members.drop_first(), key)
    }
}

/// What indexing a value with a key gives, as `serde_json::Value`'s `Index` does: the
/// member's value for an object that has it, null otherwise.
pub open spec fn member(v: JsonModel, key: Seq<char>) -> JsonModel {
    match v {
        JsonModel::Object(members) => lookup(members, key),
        _ => JsonModel::Null,
    }
}

/// The member of an object with this key, where there is one.
pub fn member_of<'a>(v: &'a JsonValue, key: &str) -> (r: Option<&'a JsonValue>)
    ensures
        match r {
            Some(x) => json_model(*x) == member(json_model(*v), key@),
            None => member(json_model(*v), key@) == JsonModel::Null,
        },
{
    match v {
        JsonValue::Object(members) => {
            let key_text = String::from_str(key);
            let ghost models = member_models(members@);
            proof {
                lemma_member_models(members@);
                assert(models.skip(0) =~= models);
                assert(json_model(*v) == JsonModel::Object(models));
            }
            let mut i: usize = 0;
            while i < members.len()
                invariant
                    i <= members.len(),
                    key_text@ == key@,
                    models == member_models(members@),
                    json_model(*v) == JsonModel::Object(models),
                    models.len() == members@.len(),
                    forall|k: int|
                        0 <= k < members@.len() ==> #[trigger] models[k] == (
                            members@[k].0@,
                            json_model(members@[k].1),
                        ),
                    lookup(models, key@) == lookup(models.skip(i as int), key@),
                decreases members.len() - i,
            {
                let ghost rest = models.skip(i as int);
                assert(rest[0] == models[i as int]);
                assert(rest.drop_first() =~= models.skip(i + 1));
                if members[i].0 == key_text {
                    assert(models[i as int].0 == key@);
                    assert(lookup(rest, key@) == rest[0].1);
                    return Some(&members[i].1);
                }
                i += 1;
            }
            assert(models.skip(i as int) =~= Seq::<(Seq<char>, JsonModel)>::empty());
            None
        },
        _ => None,
    }
}

/// The text of a value that is a string, else empty text (`as_str().unwrap_or_default()`).
pub open spec fn text_or_empty(v: JsonModel) -> Seq<char> {
    match v {
        JsonModel::Text(t) => t,
        _ => Seq::empty(),
    }
}

/// The elements of a value that is an array, else none (`as_array()` with an empty default).
pub open spec fn items_or_none(v: JsonModel) -> Seq<JsonModel> {
    match v {
        JsonModel::Array(items) => items,
        _ => Seq::empty(),
    }
}

/// The text of the member with this key where it is a string, else empty text.
pub fn member_text(v: &JsonValue, key: &str) -> (text: String)
    ensures
        text@ == text_or_empty(member(json_model(*v), key@)),
{
    match member_of(v, key) {
        Some(JsonValue::Text(t)) => t.clone(),
        _ => String::new(),
    }
}

/// What `serde_json::from_str` makes of a text read as a `serde_json::Value`, as a
/// model, or the message of its error.
pub uninterp spec fn json_document(text: Seq<char>) -> Result<JsonModel, Seq<char>>;

/// The model of a parse outcome.
pub open spec fn parsed_model(r: Result<JsonValue, String>) -> Result<JsonModel, Seq<char>> {
    match r {
        Ok(v) => Ok(json_model(v)),
        Err(message) => Err(message@),
    }
}

#[verifier::external_type_specification]
#[verifier::external_body]
pub struct ExJsonValue(serde_json::Value);

/// Turns a `serde_json::Value` into a `JsonValue`, one variant into the same variant
/// (numbers by their `Display` text), all the way down. A helper of `parse_json`, which
/// alone calls it; nothing is claimed of it on its own.
#[verifier::external_body]
fn json_value_of(value: &serde_json::Value) -> JsonValue {
    match value {
        serde_json::Value::Null => JsonValue::Null,
        serde_json::Value::Bool(b) => JsonValue::Bool(*b),
        serde_json::Value::Number(n) => JsonValue::Number(n.to_string()),
        serde_json::Value::String(s) => JsonValue::Text(s.clone()),
        serde_json::Value::Array(items) => JsonValue::Array(items.iter().map(json_value_of).collect()),
        serde_json::Value::Object(members) => JsonValue::Object(
            members.iter().map(|(k, v)| (k.clone(), json_value_of(v))).collect(),
        ),
    }
}

/// Parses a text with `serde_json::from_str` into a `serde_json::Value` and hands it back
/// as a `JsonValue`, or the `serde_json::Error`'s message. The contract claims that the
/// outcome is a function of the text, named `json_document`.
#[verifier::external_body]
pub(crate) fn parse_json(text: &str) -> (r: Result<JsonValue, String>)
    ensures
        parsed_model(r) == json_document(text@),
{
    serde_json::from_str::<serde_json::Value>(text).map(|v| json_value_of(&v)).map_err(
        |e| e.to_string(),
    )
}

} // verus!

verus! {

/// Whether one key comes before another in the order of `String`'s `Ord`: the
/// lexicographic order of their characters, a proper prefix first.
pub open spec fn key_less(a: Seq<char>, b: Seq<char>) -> bool
    decreases a.len(),
{
    if a.len() == 0 {
        b.len() > 0
    } else if b.len() == 0 {
        false
    } else if a[0] != b[0] {
        (a[0] as int) < (b[0] as int)
    } else {
        key_less(a.drop_first(), b.drop_first())
    }
}

/// Whether a value comes back unchanged from being written and read again: no numbers,
/// the keys of each object in increasing order, and at most `depth` levels of nested
/// arrays and objects.
pub open spec fn reads_back(m: JsonModel, depth: nat) -> bool
    decreases m,
{
    match m {
        JsonModel::Number(_) => false,
        JsonModel::Array(items) => depth > 0 && forall|i: int|
            0 <= i < items.len() ==> reads_back(#[trigger] items[i], (depth - 1) as nat),
        JsonModel::Object(members) => {
            &&& depth > 0
            &&& forall|i: int, j: int|
                0 <= i < j < members.len() ==> key_less(#[trigger] members[i].0, #[trigger] members[j].0)
            &&& forall|i: int|
                0 <= i < members.len() ==> reads_back(#[trigger] members[i].1, (depth - 1) as nat)
        },
        _ => true,
    }
}

/// `serde_json::from_str` reads the text as this value.
pub open spec fn reads_as(text: Seq<char>, doc: JsonModel) -> bool {
    json_document(text) == Ok::<JsonModel, Seq<char>>(doc)
}

/// The text that `serde_json::to_string_pretty` writes for a value.
pub uninterp spec fn json_pretty_text(doc: JsonModel) -> Seq<char>;

/// Turns a `JsonValue` into a `serde_json::Value`, one variant into the same variant
/// (numbers parsed back from their text), all the way down. A helper of
/// `write_json_pretty`, which alone calls it; nothing is claimed of it on its own.
#[verifier::external_body]
fn serde_value_of(v: &JsonValue) -> Result<serde_json::Value, String> {
    Ok(match v {
        JsonValue::Null => serde_json::Value::Null,
        JsonValue::Bool(b) => serde_json::Value::Bool(*b),
        JsonValue::Number(n) => serde_json::Value::Number(n.parse().map_err(|e: serde_json::Error| e.to_string())?),
        JsonValue::Text(t) => serde_json::Value::String(t.clone()),
        JsonValue::Array(items) => serde_json::Value::Array(items.iter().map(serde_value_of).collect::<Result<_, _>>()?),
        JsonValue::Object(members) => serde_json::Value::Object(
            members.iter().map(|(k, v)| Ok((k.clone(), serde_value_of(v)?))).collect::<Result<_, String>>()?,
        ),
    })
}

/// Writes a value with `serde_json::to_string_pretty` (as a `serde_json::Value`, whose
/// objects keep their keys in order and once each). The contract names the text
/// `json_pretty_text`, and states for a value with no numbers, increasing keys and
/// shallow nesting that writing succeeds (it writes into memory, and a `Value`'s keys
/// are strings; only a number's text can fail to convert) and that `serde_json::from_str`
/// reads the text back as the same value. When a value with numbers fails to convert is
/// not stated.
#[verifier::external_body]
pub(crate) fn write_json_pretty(doc: &JsonValue) -> (r: Result<String, String>)
    ensures
        r matches Ok(text) ==> text@ == json_pretty_text(json_model(*doc)),
        reads_back(json_model(*doc), 100) ==> r is Ok,
        r matches Ok(text) ==> (reads_back(json_model(*doc), 100) ==> reads_as(
            text@,
            json_model(*doc),
        )),
{
    serde_json::to_string_pretty(&serde_value_of(doc)?).map_err(|e| e.to_string())
}

} // verus!
