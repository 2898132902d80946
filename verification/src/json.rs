use vstd::prelude::*;

verus! {

/// serde_json's number: carried through opaquely.
#[verifier::external_type_specification]
#[verifier::external_body]
pub struct ExJsonNumber(serde_json::Number);

/// serde_json's value: only converted to and from `Json` in the wrappers below.
#[verifier::external_type_specification]
#[verifier::external_body]
pub struct ExJsonValue(serde_json::Value);

/// A JSON value, as the templates and render contexts hold it.
#[derive(Debug)]
pub enum Json {
    Null,
    Bool(bool),
    Number(serde_json::Number),
    Str(String),
    Array(Vec<Json>),
    Object(Vec<(String, Json)>),
}

/// The mathematical model of a JSON value: strings as character sequences.
pub enum JsonV {
    Null,
    Bool(bool),
    Number(serde_json::Number),
    Str(Seq<char>),
    Array(Seq<JsonV>),
    Object(Seq<(Seq<char>, JsonV)>),
}

pub open spec fn json_view(j: Json) -> JsonV
    decreases j,
{
    match j {
        Json::Null => JsonV::Null,
        Json::Bool(b) => JsonV::Bool(b),
        Json::Number(n) => JsonV::Number(n),
        Json::Str(s) => JsonV::Str(s@),
        Json::Array(a) => JsonV::Array(
            Seq::new(
                a@.len(),
                |i: int|
                    if 0 <= i < a@.len() {
                        json_view(a@[i])
                    } else {
                        JsonV::Null
                    },
            ),
        ),
        Json::Object(o) => JsonV::Object(
            Seq::new(
                o@.len(),
                |i: int|
                    if 0 <= i < o@.len() {
                        (o@[i].0@, json_view(o@[i].1))
                    } else {
                        (Seq::empty(), JsonV::Null)
                    },
            ),
        ),
    }
}

impl View for Json {
    type V = JsonV;

    open spec fn view(&self) -> JsonV {
        json_view(*self)
    }
}


/// What `serde_json::from_str::<serde_json::Value>` gives for a text: the parsed value,
/// or the parser's error message.
pub uninterp spec fn json_parse(text: Seq<char>) -> Result<JsonV, Seq<char>>;

/// What `serde_json::to_string` writes for a value (compact JSON text).
pub uninterp spec fn json_text(v: JsonV) -> Seq<char>;

/// What `serde_json::to_string_pretty` writes for a value, or its error message.
pub uninterp spec fn json_pretty_text(v: JsonV) -> Result<Seq<char>, Seq<char>>;

/// Converts a serde_json value into the library's JSON type, one variant for one.
#[verifier::external_body]
pub(crate) fn from_serde(v: serde_json::Value) -> Json {
    match v {
        serde_json::Value::Null => Json::Null,
        serde_json::Value::Bool(b) => Json::Bool(b),
        serde_json::Value::Number(n) => Json::Number(n),
        serde_json::Value::String(s) => Json::Str(s),
        serde_json::Value::Array(a) => Json::Array(a.into_iter().map(from_serde).collect()),
        serde_json::Value::Object(o) => Json::Object(
            o.into_iter().map(|(k, v)| (k, from_serde(v))).collect(),
        ),
    }
}

/// Converts the library's JSON type into a serde_json value, one variant for one.
#[verifier::external_body]
pub(crate) fn to_serde(v: &Json) -> serde_json::Value {
    match v {
        Json::Null => serde_json::Value::Null,
        Json::Bool(b) => serde_json::Value::Bool(*b),
        Json::Number(n) => serde_json::Value::Number(n.clone()),
        Json::Str(s) => serde_json::Value::String(s.clone()),
        Json::Array(a) => serde_json::Value::Array(a.iter().map(to_serde).collect()),
        Json::Object(o) => serde_json::Value::Object(
            o.iter().map(|(k, v)| (k.clone(), to_serde(v))).collect(),
        ),
    }
}

/// Parses a JSON text with `serde_json::from_str`; the result is the one that
/// `json_parse` names for the text.
#[verifier::external_body]
fn serde_parse(text: &str) -> (r: Result<Json, String>)
    ensures
        match r {
            Ok(j) => json_parse(text@) == Ok::<JsonV, Seq<char>>(j@),
            Err(e) => json_parse(text@) == Err::<JsonV, Seq<char>>(e@),
        },
{
    match serde_json::from_str::<serde_json::Value>(text) {
        Ok(v) => Ok(from_serde(v)),
        Err(e) => Err(e.to_string()),
    }
}

/// Writes a value as compact JSON with `serde_json::to_string`; the text is the
/// one that `json_text` names for the value.
#[verifier::external_body]
fn serde_compact(v: &Json) -> (r: String)
    ensures
        r@ == json_text(v@),
{
    serde_json::Value::to_string(&to_serde(v))
}

/// Writes a value as indented JSON with `serde_json::to_string_pretty`; the
/// result is the one that `json_pretty_text` names for the value.
#[verifier::external_body]
fn serde_pretty(v: &Json) -> (r: Result<String, String>)
    ensures
        match r {
            Ok(t) => json_pretty_text(v@) == Ok::<Seq<char>, Seq<char>>(t@),
            Err(e) => json_pretty_text(v@) == Err::<Seq<char>, Seq<char>>(e@),
        },
{
    serde_json::to_string_pretty(&to_serde(v)).map_err(|e| e.to_string())
}

/// The JSON value that a text holds, or the parser's error message.
pub fn parse_json(text: &str) -> (r: Result<Json, String>)
    ensures
        match r {
            Ok(j) => json_parse(text@) == Ok::<JsonV, Seq<char>>(j@),
            Err(e) => json_parse(text@) == Err::<JsonV, Seq<char>>(e@),
        },
{
    serde_parse(text)
}

/// A value as compact JSON text.
pub fn compact_json(v: &Json) -> (r: String)
    ensures
        r@ == json_text(v@),
{
    serde_compact(v)
}

/// A value as indented JSON text, or the writer's error message.
pub fn pretty_json(v: &Json) -> (r: Result<String, String>)
    ensures
        match r {
            Ok(t) => json_pretty_text(v@) == Ok::<Seq<char>, Seq<char>>(t@),
            Err(e) => json_pretty_text(v@) == Err::<Seq<char>, Seq<char>>(e@),
        },
{
    serde_pretty(v)
}

/// The value stored under `key` in the entries of an object: the first entry
/// with that key.
pub open spec fn entries_get(entries: Seq<(Seq<char>, JsonV)>, key: Seq<char>) -> Option<JsonV>
    decreases entries.len(),
{
    if entries.len() == 0 {
        None
    } else if entries[0].0 == key {
        Some(entries[0].1)
    } else {
        entries_get(entries.drop_first(), key)
    }
}

/// `value.get(key)` of serde_json: the member `key` of an object, `None` otherwise.
pub open spec fn get_spec(v: JsonV, key: Seq<char>) -> Option<JsonV> {
    match v {
        JsonV::Object(entries) => entries_get(entries, key),
        _ => None,
    }
}

/// The string inside a JSON string, `None` for every other value.
pub open spec fn as_str_spec(v: JsonV) -> Option<Seq<char>> {
    match v {
        JsonV::Str(s) => Some(s),
        _ => None,
    }
}

/// The boolean inside a JSON boolean, `None` for every other value.
pub open spec fn as_bool_spec(v: JsonV) -> Option<bool> {
    match v {
        JsonV::Bool(b) => Some(b),
        _ => None,
    }
}

/// `v.get(key).and_then(as_str)`.
pub open spec fn get_str_spec(v: JsonV, key: Seq<char>) -> Option<Seq<char>> {
    match get_spec(v, key) {
        Some(x) => as_str_spec(x),
        None => None,
    }
}

/// The elements of a JSON array, `None` for every other value.
pub open spec fn as_array_spec(v: JsonV) -> Option<Seq<JsonV>> {
    match v {
        JsonV::Array(a) => Some(a),
        _ => None,
    }
}

pub proof fn lemma_array_view(a: Vec<Json>)
    ensures
        json_view(Json::Array(a)) == JsonV::Array(a@.map_values(|x: Json| json_view(x))),
{
    match json_view(Json::Array(a)) {
        JsonV::Array(s) => {
            assert(s =~= a@.map_values(|x: Json| json_view(x)));
        },
        _ => {},
    }
}

pub proof fn lemma_object_view(o: Vec<(String, Json)>)
    ensures
        json_view(Json::Object(o)) == JsonV::Object(
            o@.map_values(|e: (String, Json)| (e.0@, json_view(e.1))),
        ),
{
    match json_view(Json::Object(o)) {
        JsonV::Object(s) => {
            assert(s =~= o@.map_values(|e: (String, Json)| (e.0@, json_view(e.1))));
        },
        _ => {},
    }
}

/// An object made of the given entries, in the given order.
pub fn object_from(entries: Vec<(String, Json)>) -> (r: Json)
    ensures
        r@ == JsonV::Object(entries@.map_values(|e: (String, Json)| (e.0@, e.1@))),
{
    proof {
        lemma_object_view(entries);
        assert(entries@.map_values(|e: (String, Json)| (e.0@, json_view(e.1))) =~= entries@.map_values(
            |e: (String, Json)| (e.0@, e.1@),
        ));
    }
    Json::Object(entries)
}

/// An array made of the given elements, in the given order.
pub fn array_from(items: Vec<Json>) -> (r: Json)
    ensures
        r@ == JsonV::Array(items@.map_values(|x: Json| x@)),
{
    proof {
        lemma_array_view(items);
        assert(items@.map_values(|x: Json| json_view(x)) =~= items@.map_values(|x: Json| x@));
    }
    Json::Array(items)
}

impl Json {
    /// The member `key` of an object (the first entry with that key), `None`
    /// for every other value.
    pub fn get(&self, key: &str) -> (r: Option<&Json>)
        ensures
            match r {
                Some(x) => get_spec(self@, key@) == Some(x@),
                None => get_spec(self@, key@) is None,
            },
    {
        match self {
            Json::Object(entries) => {
                proof {
                    lemma_object_view(*entries);
                }
                let ghost ev = entries@.map_values(|e: (String, Json)| (e.0@, json_view(e.1)));
                let mut i: usize = 0;
                assert(ev.skip(0) =~= ev);
                assert(self@ == JsonV::Object(ev));
                while i < entries.len()
                    invariant
                        self@ == JsonV::Object(ev),
                        i <= entries@.len(),
                        ev == entries@.map_values(|e: (String, Json)| (e.0@, json_view(e.1))),
                        entries_get(ev, key@) == entries_get(ev.skip(i as int), key@),
                    decreases entries.len() - i,
                {
                    assert(ev.skip(i as int).drop_first() =~= ev.skip(i + 1));
                    if crate::text::str_eq(entries[i].0.as_str(), key) {
                        assert(ev[i as int] == (entries@[i as int].0@, json_view(entries@[i as int].1)));
                        assert(ev.skip(i as int)[0] == ev[i as int]);

                        return Some(&entries[i].1);
                    }
                    i = i + 1;
                }
                None
            },
            _ => None,
        }
    }

    /// The string of a JSON string, `None` for every other value.
    pub fn as_str(&self) -> (r: Option<&str>)
        ensures
            match r {
                Some(s) => as_str_spec(self@) == Some(s@),
                None => as_str_spec(self@) is None,
            },
    {
        match self {
            Json::Str(s) => Some(s.as_str()),
            _ => None,
        }
    }

    /// The boolean of a JSON boolean, `None` for every other value.
    pub fn as_bool(&self) -> (r: Option<bool>)
        ensures
            r == as_bool_spec(self@),
    {
        match self {
            Json::Bool(b) => Some(*b),
            _ => None,
        }
    }

    /// The elements of a JSON array, `None` for every other value.
    pub fn as_array(&self) -> (r: Option<&Vec<Json>>)
        ensures
            match r {
                Some(a) => as_array_spec(self@) == Some(a@.map_values(|x: Json| x@)),
                None => as_array_spec(self@) is None,
            },
    {
        match self {
            Json::Array(a) => {
                proof {
                    lemma_array_view(*a);
                }
                Some(a)
            },
            _ => None,
        }
    }

    /// Whether the value is JSON `null`.
    pub fn is_null(&self) -> (r: bool)
        ensures
            r == (self@ is Null),
    {
        match self {
            Json::Null => true,
            _ => false,
        }
    }
}

} // verus!
