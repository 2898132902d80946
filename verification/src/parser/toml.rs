use vstd::prelude::*;
use crate::json::{array_from, from_serde, get_spec, get_str_spec, object_from, Json, JsonV};
use crate::parser::markdown::{concat, str_or};
use crate::text::{decimal, push_decimal, push_str, str_eq, string_of};

verus! {

/// toml's value: only converted to and from `TomlValue` in the wrappers below;
/// integers, floats and date-times stay inside it, untouched.
#[verifier::external_type_specification]
#[verifier::external_body]
pub struct ExTomlValue(::toml::Value);

/// A TOML value as the template parser reads it: strings, booleans, arrays and
/// tables are open to the logic; every other value is carried as it came.
pub enum TomlValue {
    Str(String),
    Bool(bool),
    Array(Vec<TomlValue>),
    Table(Vec<(String, TomlValue)>),
    Other(::toml::Value),
}

/// The mathematical model of a TOML value.
pub enum TomlV {
    Str(Seq<char>),
    Bool(bool),
    Array(Seq<TomlV>),
    Table(Seq<(Seq<char>, TomlV)>),
    Other(::toml::Value),
}

pub open spec fn toml_view(v: TomlValue) -> TomlV
    decreases v,
{
    match v {
        TomlValue::Str(s) => TomlV::Str(s@),
        TomlValue::Bool(b) => TomlV::Bool(b),
        TomlValue::Array(a) => TomlV::Array(
            Seq::new(
                a@.len(),
                |i: int|
                    if 0 <= i < a@.len() {
                        toml_view(a@[i])
                    } else {
                        TomlV::Bool(false)
                    },
            ),
        ),
        TomlValue::Table(t) => TomlV::Table(
            Seq::new(
                t@.len(),
                |i: int|
                    if 0 <= i < t@.len() {
                        (t@[i].0@, toml_view(t@[i].1))
                    } else {
                        (Seq::empty(), TomlV::Bool(false))
                    },
            ),
        ),
        TomlValue::Other(o) => TomlV::Other(o),
    }
}

impl View for TomlValue {
    type V = TomlV;

    open spec fn view(&self) -> TomlV {
        toml_view(*self)
    }
}

pub proof fn lemma_toml_array_view(a: Vec<TomlValue>)
    ensures
        toml_view(TomlValue::Array(a)) == TomlV::Array(a@.map_values(|x: TomlValue| toml_view(x))),
{
    match toml_view(TomlValue::Array(a)) {
        TomlV::Array(s) => {
            assert(s =~= a@.map_values(|x: TomlValue| toml_view(x)));
        },
        _ => {},
    }
}

pub proof fn lemma_toml_table_view(t: Vec<(String, TomlValue)>)
    ensures
        toml_view(TomlValue::Table(t)) == TomlV::Table(
            t@.map_values(|e: (String, TomlValue)| (e.0@, toml_view(e.1))),
        ),
{
    match toml_view(TomlValue::Table(t)) {
        TomlV::Table(s) => {
            assert(s =~= t@.map_values(|e: (String, TomlValue)| (e.0@, toml_view(e.1))));
        },
        _ => {},
    }
}

/// What toml's `str::parse::<toml::Value>` gives for a document: the root
/// table, or the parser's error message.
pub uninterp spec fn toml_parse(text: Seq<char>) -> Result<TomlV, Seq<char>>;

/// What `serde_json::to_value` gives for a TOML value, `None` where it fails.
pub uninterp spec fn toml_json(v: TomlV) -> Option<JsonV>;

/// Converts a toml value into the library's TOML type, one variant for one.
#[verifier::external_body]
fn from_toml(v: ::toml::Value) -> TomlValue {
    match v {
        ::toml::Value::String(s) => TomlValue::Str(s),
        ::toml::Value::Boolean(b) => TomlValue::Bool(b),
        ::toml::Value::Array(a) => TomlValue::Array(a.into_iter().map(from_toml).collect()),
        ::toml::Value::Table(t) => TomlValue::Table(
            t.into_iter().map(|(k, v)| (k, from_toml(v))).collect(),
        ),
        other => TomlValue::Other(other),
    }
}

/// Converts the library's TOML type back into a toml value, one variant for one.
#[verifier::external_body]
fn to_toml(v: &TomlValue) -> ::toml::Value {
    match v {
        TomlValue::Str(s) => ::toml::Value::String(s.clone()),
        TomlValue::Bool(b) => ::toml::Value::Boolean(*b),
        TomlValue::Array(a) => ::toml::Value::Array(a.iter().map(to_toml).collect()),
        TomlValue::Table(t) => ::toml::Value::Table(
            t.iter().map(|(k, v)| (k.clone(), to_toml(v))).collect(),
        ),
        TomlValue::Other(o) => o.clone(),
    }
}

/// Parses a TOML document with toml's `FromStr` for `toml::Value`; the result
/// is the one that `toml_parse` names for the text.
#[verifier::external_body]
fn parse_toml(text: &str) -> (r: Result<TomlValue, String>)
    ensures
        match r {
            Ok(v) => toml_parse(text@) == Ok::<TomlV, Seq<char>>(v@),
            Err(e) => toml_parse(text@) == Err::<TomlV, Seq<char>>(e@),
        },
{
    match text.parse::<::toml::Value>() {
        Ok(v) => Ok(from_toml(v)),
        Err(e) => Err(e.to_string()),
    }
}

/// Converts a TOML value to JSON with `serde_json::to_value`; the result is the
/// one that `toml_json` names for the value.
#[verifier::external_body]
fn toml_to_json(v: &TomlValue) -> (r: Option<Json>)
    ensures
        match r {
            Some(j) => toml_json(v@) == Some(j@),
            None => toml_json(v@) is None,
        },
{
    serde_json::to_value(to_toml(v)).ok().map(from_serde)
}

/// The value stored under `key` in the entries of a table: the first entry with
/// that key.
pub open spec fn toml_entries_get(entries: Seq<(Seq<char>, TomlV)>, key: Seq<char>) -> Option<TomlV>
    decreases entries.len(),
{
    if entries.len() == 0 {
        None
    } else if entries[0].0 == key {
        Some(entries[0].1)
    } else {
        toml_entries_get(entries.drop_first(), key)
    }
}

/// `value.get(key)` of toml: the member `key` of a table, `None` otherwise.
pub open spec fn tget(v: TomlV, key: Seq<char>) -> Option<TomlV> {
    match v {
        TomlV::Table(entries) => toml_entries_get(entries, key),
        _ => None,
    }
}

/// `tget` on an optional value.
pub open spec fn tget_in(v: Option<TomlV>, key: Seq<char>) -> Option<TomlV> {
    match v {
        Some(x) => tget(x, key),
        None => None,
    }
}

/// The string of an optional TOML string, `None` for anything else.
pub open spec fn tstr(v: Option<TomlV>) -> Option<Seq<char>> {
    match v {
        Some(TomlV::Str(s)) => Some(s),
        _ => None,
    }
}

/// The boolean of an optional TOML boolean, `None` for anything else.
pub open spec fn tbool(v: Option<TomlV>) -> Option<bool> {
    match v {
        Some(TomlV::Bool(b)) => Some(b),
        _ => None,
    }
}

/// The elements of an optional TOML array, `None` for anything else.
pub open spec fn tarray(v: Option<TomlV>) -> Option<Seq<TomlV>> {
    match v {
        Some(TomlV::Array(a)) => Some(a),
        _ => None,
    }
}

/// The JSON form of step number `idx` of `[[workflow.steps]]`, or why it is
/// refused.
pub open spec fn toml_step(idx: int, v: TomlV) -> Result<JsonV, Seq<char>> {
    match v {
        TomlV::Table(_) => match tstr(tget(v, "id"@)) {
            None => Err("Step "@ + decimal(idx as nat) + " missing required 'id' field"@),
            Some(id) => match tstr(tget(v, "content"@)) {
                None => Err("Step "@ + decimal(idx as nat) + " missing required 'content' field"@),
                Some(content) => Ok(
                    JsonV::Object(
                        seq![
                            ("content"@, JsonV::Str(content)),
                            (
                                "critical"@,
                                JsonV::Bool(
                                    match tbool(tget(v, "critical"@)) {
                                        Some(b) => b,
                                        None => false,
                                    },
                                ),
                            ),
                            ("id"@, JsonV::Str(id)),
                            (
                                "next"@,
                                match tstr(tget(v, "next"@)) {
                                    Some(n) => JsonV::Str(n),
                                    None => JsonV::Null,
                                },
                            ),
                        ],
                    ),
                ),
            },
        },
        _ => Err("workflow.steps["@ + decimal(idx as nat) + "] must be a table"@),
    }
}

/// The JSON forms of the steps from `i` on, or the first refusal.
pub open spec fn toml_steps(a: Seq<TomlV>, i: int) -> Result<Seq<JsonV>, Seq<char>>
    decreases a.len() - i,
{
    if i < 0 || i >= a.len() {
        Ok(Seq::empty())
    } else {
        match toml_step(i, a[i]) {
            Err(e) => Err(e),
            Ok(s) => match toml_steps(a, i + 1) {
                Err(e) => Err(e),
                Ok(rest) => Ok(seq![s] + rest),
            },
        }
    }
}

/// `prefix` in front of the steps of `r`, or the error of `r`.
pub open spec fn steps_after(prefix: Seq<JsonV>, r: Result<Seq<JsonV>, Seq<char>>) -> Result<
    Seq<JsonV>,
    Seq<char>,
> {
    match r {
        Err(e) => Err(e),
        Ok(rest) => Ok(prefix + rest),
    }
}

/// The `meta` member of the result: the document's `[meta]` as JSON, or null.
pub open spec fn meta_json(m: Option<TomlV>) -> JsonV {
    match m {
        Some(v) => match toml_json(v) {
            Some(j) => j,
            None => JsonV::Null,
        },
        None => JsonV::Null,
    }
}

/// The template value that a parsed TOML document describes, or the error.
pub open spec fn toml_template(doc: TomlV) -> Result<JsonV, Seq<char>> {
    match tget(doc, "workflow"@) {
        None => Err("Missing [workflow] table"@),
        Some(wf) => match tarray(tget(wf, "steps"@)) {
            None => Err("workflow.steps must be an array of tables ([[workflow.steps]])"@),
            Some(items) => match toml_steps(items, 0) {
                Err(e) => Err(e),
                Ok(steps) => match tget(doc, "output_template"@) {
                    None => Err("Missing [output_template] table"@),
                    Some(out) => Ok(
                        JsonV::Object(
                            seq![
                                ("meta"@, meta_json(tget(doc, "meta"@))),
                                (
                                    "output_template"@,
                                    JsonV::Object(
                                        seq![
                                            ("content"@, JsonV::Str(str_or(tstr(tget(out, "content"@)), ""@))),
                                            ("format"@, JsonV::Str(str_or(tstr(tget(out, "format"@)), "markdown"@))),
                                        ],
                                    ),
                                ),
                                (
                                    "workflow"@,
                                    JsonV::Object(
                                        seq![
                                            (
                                                "loop_restart"@,
                                                JsonV::Str(
                                                    str_or(tstr(tget_in(tget(wf, "loop_restart"@), "text"@)), ""@),
                                                ),
                                            ),
                                            ("restart"@, JsonV::Str(str_or(tstr(tget(wf, "restart"@)), "0"@))),
                                            (
                                                "rules"@,
                                                JsonV::Str(str_or(tstr(tget_in(tget(wf, "rules"@), "text"@)), ""@)),
                                            ),
                                            ("steps"@, JsonV::Array(steps)),
                                            ("title"@, JsonV::Str(str_or(tstr(tget(wf, "title"@)), ""@))),
                                        ],
                                    ),
                                ),
                            ],
                        ),
                    ),
                },
            },
        },
    }
}

/// The template value of a TOML text, or the error.
pub open spec fn toml_template_spec(input: Seq<char>) -> Result<JsonV, Seq<char>> {
    match toml_parse(input) {
        Err(e) => Err("TOML parse error: "@ + e),
        Ok(doc) => toml_template(doc),
    }
}

/// The law of steps: when every step is accepted, there is one JSON step per
/// TOML step, in order, each the form of its own step; when one is refused,
/// the error is that of the first refused step.
pub proof fn lemma_toml_steps(a: Seq<TomlV>, i: int)
    requires
        0 <= i <= a.len(),
    ensures
        toml_steps(a, i) matches Ok(s) ==> s.len() == a.len() - i && forall|k: int|
            0 <= k < s.len() ==> toml_step(i + k, a[i + k]) == Ok::<JsonV, Seq<char>>(#[trigger] s[k]),
        toml_steps(a, i) matches Err(e) ==> exists|k: int|
            i <= k < a.len() && toml_step(k, a[k]) == Err::<JsonV, Seq<char>>(e) && forall|j: int|
                i <= j < k ==> (#[trigger] toml_step(j, a[j])) is Ok,
    decreases a.len() - i,
{
    if i < a.len() {
        lemma_toml_steps(a, i + 1);
        match toml_step(i, a[i]) {
            Err(e) => {
                assert(toml_step(i, a[i]) == Err::<JsonV, Seq<char>>(e));
            },
            Ok(s0) => {
                match toml_steps(a, i + 1) {
                    Ok(rest) => {
                        let s = seq![s0] + rest;
                        assert forall|k: int| 0 <= k < s.len() implies toml_step(i + k, a[i + k])
                            == Ok::<JsonV, Seq<char>>(#[trigger] s[k]) by {
                            if k > 0 {
                                assert(s[k] == rest[k - 1]);
                                assert(i + 1 + (k - 1) == i + k);
                            }
                        }
                    },
                    Err(e) => {
                        let k = choose|k: int|
                            i + 1 <= k < a.len() && toml_step(k, a[k]) == Err::<JsonV, Seq<char>>(e) && forall|j: int|
                                i + 1 <= j < k ==> (#[trigger] toml_step(j, a[j])) is Ok;
                        assert forall|j: int| i <= j < k implies (#[trigger] toml_step(j, a[j])) is Ok by {
                            if j == i {
                            }
                        }
                    },
                }
            },
        }
    }
}

impl TomlValue {
    /// The member `key` of a table (the first entry with that key), `None` for
    /// every other value.
    pub fn get(&self, key: &str) -> (r: Option<&TomlValue>)
        ensures
            match r {
                Some(x) => tget(self@, key@) == Some(x@),
                None => tget(self@, key@) is None,
            },
    {
        match self {
            TomlValue::Table(entries) => {
                proof {
                    lemma_toml_table_view(*entries);
                }
                let ghost ev = entries@.map_values(|e: (String, TomlValue)| (e.0@, toml_view(e.1)));
                let mut i: usize = 0;
                assert(ev.skip(0) =~= ev);
                while i < entries.len()
                    invariant
                        self@ == TomlV::Table(ev),
                        i <= entries@.len(),
                        ev == entries@.map_values(|e: (String, TomlValue)| (e.0@, toml_view(e.1))),
                        toml_entries_get(ev, key@) == toml_entries_get(ev.skip(i as int), key@),
                    decreases entries.len() - i,
                {
                    assert(ev.skip(i as int).drop_first() =~= ev.skip(i + 1));
                    if str_eq(entries[i].0.as_str(), key) {
                        assert(ev.skip(i as int)[0] == ev[i as int]);
                        return Some(&entries[i].1);
                    }
                    i = i + 1;
                }
                None
            },
            _ => None,
        }
    }

    /// The string under `key`, when the value is a table holding a string there.
    pub fn get_str(&self, key: &str) -> (r: Option<&str>)
        ensures
            match r {
                Some(s) => tstr(tget(self@, key@)) == Some(s@),
                None => tstr(tget(self@, key@)) is None,
            },
    {
        match self.get(key) {
            Some(TomlValue::Str(s)) => Some(s.as_str()),
            _ => None,
        }
    }

    /// The boolean under `key`, when the value is a table holding a boolean there.
    pub fn get_bool(&self, key: &str) -> (r: Option<bool>)
        ensures
            r == tbool(tget(self@, key@)),
    {
        match self.get(key) {
            Some(TomlValue::Bool(b)) => Some(*b),
            _ => None,
        }
    }

    /// The elements under `key`, when the value is a table holding an array there.
    pub fn get_array(&self, key: &str) -> (r: Option<&Vec<TomlValue>>)
        ensures
            match r {
                Some(a) => tarray(tget(self@, key@)) == Some(a@.map_values(|x: TomlValue| x@)),
                None => tarray(tget(self@, key@)) is None,
            },
    {
        match self.get(key) {
            Some(TomlValue::Array(a)) => {
                proof {
                    lemma_toml_array_view(*a);
                }
                Some(a)
            },
            _ => None,
        }
    }

    /// Whether the value is a table.
    pub fn is_table(&self) -> (r: bool)
        ensures
            r == (self@ is Table),
    {
        match self {
            TomlValue::Table(_) => true,
            _ => false,
        }
    }
}

/// The string under `inner` of the table under `outer`, if both are there.
fn nested_str<'a>(v: &'a TomlValue, outer: &str, inner: &str) -> (r: Option<&'a str>)
    ensures
        match r {
            Some(s) => tstr(tget_in(tget(v@, outer@), inner@)) == Some(s@),
            None => tstr(tget_in(tget(v@, outer@), inner@)) is None,
        },
{
    match v.get(outer) {
        Some(t) => t.get_str(inner),
        None => None,
    }
}

/// `s`, or `default` where there is none.
fn str_or_exec(s: Option<&str>, default: &str) -> (r: String)
    ensures
        r@ == str_or(
            match s {
                Some(x) => Some(x@),
                None => None,
            },
            default@,
        ),
{
    match s {
        Some(x) => x.to_string(),
        None => default.to_string(),
    }
}

/// `prefix`, the decimal numeral of `i`, then `suffix`.
fn indexed_message(prefix: &str, i: usize, suffix: &str) -> (r: String)
    ensures
        r@ == prefix@ + decimal(i as nat) + suffix@,
{
    let mut v: Vec<char> = Vec::new();
    push_str(&mut v, prefix);
    push_decimal(&mut v, i as u64);
    push_str(&mut v, suffix);
    string_of(&v)
}

/// The JSON form of step number `idx`, or why it is refused.
fn step_from_toml(idx: usize, v: &TomlValue) -> (r: Result<Json, String>)
    ensures
        match r {
            Ok(j) => toml_step(idx as int, v@) == Ok::<JsonV, Seq<char>>(j@),
            Err(e) => toml_step(idx as int, v@) == Err::<JsonV, Seq<char>>(e@),
        },
{
    if !v.is_table() {
        return Err(indexed_message("workflow.steps[", idx, "] must be a table"));
    }
    let id = match v.get_str("id") {
        Some(s) => s.to_string(),
        None => {
            return Err(indexed_message("Step ", idx, " missing required 'id' field"));
        },
    };
    let content = match v.get_str("content") {
        Some(s) => s.to_string(),
        None => {
            return Err(indexed_message("Step ", idx, " missing required 'content' field"));
        },
    };
    let critical = match v.get_bool("critical") {
        Some(b) => b,
        None => false,
    };
    let next = match v.get_str("next") {
        Some(s) => Json::Str(s.to_string()),
        None => Json::Null,
    };
    let ghost expected = seq![
        ("content"@, JsonV::Str(content@)),
        ("critical"@, JsonV::Bool(critical)),
        ("id"@, JsonV::Str(id@)),
        ("next"@, next@),
    ];
    let entries = vec![
        ("content".to_string(), Json::Str(content)),
        ("critical".to_string(), Json::Bool(critical)),
        ("id".to_string(), Json::Str(id)),
        ("next".to_string(), next),
    ];
    assert(entries@.map_values(|e: (String, Json)| (e.0@, e.1@)) =~= expected);
    let r = object_from(entries);
    assert(toml_step(idx as int, v@)->Ok_0->Object_0 =~= expected);
    Ok(r)
}

/// The template value that a parsed TOML document describes: `[workflow]`
/// with its `title` (default ""), `restart` (default "0"), `rules.text`,
/// `loop_restart.text` (default "") and `[[workflow.steps]]` (each a table with
/// a string `id` and `content`, a boolean `critical`, default false, and an
/// optional `next`); `[output_template]` with `format` (default "markdown") and
/// `content`; and `[meta]` as JSON, or null.
pub fn template_from_toml(doc: &TomlValue) -> (r: Result<Json, String>)
    ensures
        match r {
            Ok(j) => toml_template(doc@) == Ok::<JsonV, Seq<char>>(j@),
            Err(e) => toml_template(doc@) == Err::<JsonV, Seq<char>>(e@),
        },
{
    let wf = match doc.get("workflow") {
        Some(w) => w,
        None => {
            return Err("Missing [workflow] table".to_string());
        },
    };
    let title = str_or_exec(wf.get_str("title"), "");
    let restart = str_or_exec(wf.get_str("restart"), "0");
    let rules = str_or_exec(nested_str(wf, "rules", "text"), "");
    let items = match wf.get_array("steps") {
        Some(a) => a,
        None => {
            return Err("workflow.steps must be an array of tables ([[workflow.steps]])".to_string());
        },
    };
    let ghost iv = items@.map_values(|x: TomlValue| x@);
    let mut steps: Vec<Json> = Vec::new();
    let mut i: usize = 0;
    assert(steps@.map_values(|x: Json| x@) + Seq::<JsonV>::empty() =~= Seq::<JsonV>::empty());
    while i < items.len()
        invariant
            i <= items@.len(),
            iv == items@.map_values(|x: TomlValue| x@),
            tget(doc@, "workflow"@) == Some(wf@),
            tarray(tget(wf@, "steps"@)) == Some(iv),
            toml_steps(iv, 0) == steps_after(steps@.map_values(|x: Json| x@), toml_steps(iv, i as int)),
        decreases items.len() - i,
    {
        let ghost sv = steps@.map_values(|x: Json| x@);
        assert(iv[i as int] == items@[i as int]@);
        match step_from_toml(i, &items[i]) {
            Err(e) => {
                assert(toml_steps(iv, i as int) == Err::<Seq<JsonV>, Seq<char>>(e@));
                return Err(e);
            },
            Ok(s) => {
                let ghost sj = s@;
                steps.push(s);
                proof {
                    assert(steps@.map_values(|x: Json| x@) =~= sv.push(sj));
                    match toml_steps(iv, i + 1) {
                        Err(e) => {},
                        Ok(rest) => {
                            assert(sv + (seq![sj] + rest) =~= sv.push(sj) + rest);
                        },
                    }
                }
                i = i + 1;
            },
        }
    }
    let ghost sv = steps@.map_values(|x: Json| x@);
    assert(sv + Seq::<JsonV>::empty() =~= sv);
    let loop_restart = str_or_exec(nested_str(wf, "loop_restart", "text"), "");
    let out = match doc.get("output_template") {
        Some(o) => o,
        None => {
            return Err("Missing [output_template] table".to_string());
        },
    };
    let format = str_or_exec(out.get_str("format"), "markdown");
    let content = str_or_exec(out.get_str("content"), "");
    let meta = match doc.get("meta") {
        Some(m) => match toml_to_json(m) {
            Some(j) => j,
            None => Json::Null,
        },
        None => Json::Null,
    };
    let steps_json = array_from(steps);
    let output = object_from(
        vec![("content".to_string(), Json::Str(content)), ("format".to_string(), Json::Str(format))],
    );
    let workflow = object_from(
        vec![
            ("loop_restart".to_string(), Json::Str(loop_restart)),
            ("restart".to_string(), Json::Str(restart)),
            ("rules".to_string(), Json::Str(rules)),
            ("steps".to_string(), steps_json),
            ("title".to_string(), Json::Str(title)),
        ],
    );
    let ghost wv = workflow@;
    let ghost ov = output@;
    let r = object_from(
        vec![
            ("meta".to_string(), meta),
            ("output_template".to_string(), output),
            ("workflow".to_string(), workflow),
        ],
    );
    proof {
        reveal_strlit("");
        reveal_strlit("0");
        reveal_strlit("markdown");
        match wv {
            JsonV::Object(o) => {
                assert(o =~= seq![
                    ("loop_restart"@, JsonV::Str(loop_restart@)),
                    ("restart"@, JsonV::Str(restart@)),
                    ("rules"@, JsonV::Str(rules@)),
                    ("steps"@, JsonV::Array(sv)),
                    ("title"@, JsonV::Str(title@)),
                ]);
            },
            _ => {},
        }
        match ov {
            JsonV::Object(o) => {
                assert(o =~= seq![("content"@, JsonV::Str(content@)), ("format"@, JsonV::Str(format@))]);
            },
            _ => {},
        }
        match r@ {
            JsonV::Object(o) => {
                assert(o =~= seq![
                    ("meta"@, meta_json(tget(doc@, "meta"@))),
                    ("output_template"@, ov),
                    ("workflow"@, wv),
                ]);
            },
            _ => {},
        }
    }
    Ok(r)
}

/// Parses a TOML template (`[workflow]`, `[workflow.rules]`,
/// `[[workflow.steps]]`, `[workflow.loop_restart]`, `[output_template]`,
/// optional `[meta]`) into the template value.
pub fn parse_toml_template(input: &str) -> (r: Result<Json, String>)
    ensures
        match r {
            Ok(j) => toml_template_spec(input@) == Ok::<JsonV, Seq<char>>(j@),
            Err(e) => toml_template_spec(input@) == Err::<JsonV, Seq<char>>(e@),
        },
{
    match parse_toml(input) {
        Err(e) => Err(concat("TOML parse error: ", e.as_str())),
        Ok(doc) => template_from_toml(&doc),
    }
}

/// The law of the output template: where a document is accepted, the result's
/// `output_template.content` is the string `content` of `[output_template]`
/// where it has one, and empty otherwise; its `format` is the string `format`
/// there, and `markdown` otherwise.
pub proof fn lemma_toml_output_template(doc: TomlV)
    requires
        toml_template(doc) is Ok,
    ensures
        tget(doc, "output_template"@) is Some,
        get_spec(toml_template(doc)->Ok_0, "output_template"@) is Some,
        ({
            let out = tget(doc, "output_template"@)->Some_0;
            let o = get_spec(toml_template(doc)->Ok_0, "output_template"@)->Some_0;
            &&& (tget(out, "content"@) matches Some(TomlV::Str(c)) ==> get_str_spec(o, "content"@) == Some(c))
            &&& (!(tget(out, "content"@) matches Some(TomlV::Str(_))) ==> get_str_spec(o, "content"@)
                == Some(Seq::<char>::empty()))
            &&& (tget(out, "format"@) matches Some(TomlV::Str(f)) ==> get_str_spec(o, "format"@) == Some(f))
            &&& (!(tget(out, "format"@) matches Some(TomlV::Str(_))) ==> get_str_spec(o, "format"@)
                == Some("markdown"@))
        }),
{
    reveal_strlit("meta");
    reveal_strlit("output_template");
    reveal_strlit("content");
    reveal_strlit("format");
    assert("meta"@[0] != "output_template"@[0]);
    assert("content"@[0] != "format"@[0]);
    reveal_with_fuel(crate::json::entries_get, 3);
    reveal_strlit("");
    assert(""@ =~= Seq::<char>::empty());
    let v = toml_template(doc)->Ok_0;
    let out = tget(doc, "output_template"@)->Some_0;
    let entries = v->Object_0;
    assert(entries[0].0 == "meta"@);
    assert(entries.drop_first()[0].0 == "output_template"@);
    let o = entries[1].1;
    assert(get_spec(v, "output_template"@) == Some(o));
    let oe = o->Object_0;
    assert(oe[0].0 == "content"@);
    assert(oe.drop_first()[0].0 == "format"@);
    assert(get_spec(o, "format"@) == Some(oe[1].1));
}

proof fn lemma_toml_step_members(idx: int, v: TomlV)
    requires
        toml_step(idx, v) is Ok,
    ensures
        tstr(tget(v, "id"@)) is Some,
        tstr(tget(v, "content"@)) is Some,
        get_str_spec(toml_step(idx, v)->Ok_0, "id"@) == tstr(tget(v, "id"@)),
        get_str_spec(toml_step(idx, v)->Ok_0, "content"@) == tstr(tget(v, "content"@)),
{
    reveal_strlit("content");
    reveal_strlit("critical");
    reveal_strlit("id");
    assert("content"@[1] != "critical"@[1]);
    assert("content"@[0] != "id"@[0]);
    assert("critical"@[0] != "id"@[0]);
    reveal_with_fuel(crate::json::entries_get, 4);
    let o = toml_step(idx, v)->Ok_0;
    let e = o->Object_0;
    assert(e[0].0 == "content"@);
    assert(e.drop_first()[0].0 == "critical"@);
    assert(e.drop_first().drop_first()[0].0 == "id"@);
    assert(get_spec(o, "id"@) == Some(e[2].1));
}

/// The law of the workflow: where a document is accepted, the result's
/// `workflow` has the string `title` of `[workflow]` (else empty), its string
/// `restart` (else "0"), the string `text` of its `rules` and `loop_restart`
/// tables (else empty), and one step per entry of `workflow.steps`, in order,
/// each with that entry's `id` and `content`.
pub proof fn lemma_toml_workflow(doc: TomlV)
    requires
        toml_template(doc) is Ok,
    ensures
        tget(doc, "workflow"@) is Some,
        get_spec(toml_template(doc)->Ok_0, "workflow"@) is Some,
        ({
            let wf = tget(doc, "workflow"@)->Some_0;
            let w = get_spec(toml_template(doc)->Ok_0, "workflow"@)->Some_0;
            &&& get_str_spec(w, "title"@) == Some(str_or(tstr(tget(wf, "title"@)), ""@))
            &&& get_str_spec(w, "restart"@) == Some(str_or(tstr(tget(wf, "restart"@)), "0"@))
            &&& get_str_spec(w, "rules"@) == Some(str_or(tstr(tget_in(tget(wf, "rules"@), "text"@)), ""@))
            &&& get_str_spec(w, "loop_restart"@) == Some(
                str_or(tstr(tget_in(tget(wf, "loop_restart"@), "text"@)), ""@),
            )
            &&& tarray(tget(wf, "steps"@)) is Some
            &&& get_spec(w, "steps"@) matches Some(JsonV::Array(st)) && st.len() == tarray(
                tget(wf, "steps"@),
            )->Some_0.len() && forall|k: int|
                0 <= k < st.len() ==> {
                    &&& get_str_spec(#[trigger] st[k], "id"@) == tstr(
                        tget(tarray(tget(wf, "steps"@))->Some_0[k], "id"@),
                    )
                    &&& get_str_spec(st[k], "content"@) == tstr(
                        tget(tarray(tget(wf, "steps"@))->Some_0[k], "content"@),
                    )
                }
        }),
{
    reveal_strlit("meta");
    reveal_strlit("output_template");
    reveal_strlit("workflow");
    reveal_strlit("loop_restart");
    reveal_strlit("restart");
    reveal_strlit("rules");
    reveal_strlit("steps");
    reveal_strlit("title");
    assert("meta"@[0] != "workflow"@[0]);
    assert("output_template"@[0] != "workflow"@[0]);
    assert("loop_restart"@[0] != "restart"@[0]);
    assert("loop_restart"@[0] != "rules"@[0]);
    assert("loop_restart"@[0] != "steps"@[0]);
    assert("loop_restart"@[0] != "title"@[0]);
    assert("restart"@[1] != "rules"@[1]);
    assert("restart"@[0] != "steps"@[0]);
    assert("restart"@[0] != "title"@[0]);
    assert("rules"@[0] != "steps"@[0]);
    assert("rules"@[0] != "title"@[0]);
    assert("steps"@[0] != "title"@[0]);
    reveal_with_fuel(crate::json::entries_get, 6);
    let v = toml_template(doc)->Ok_0;
    let top = v->Object_0;
    assert(top.drop_first().drop_first()[0].0 == "workflow"@);
    assert(get_spec(v, "workflow"@) == Some(top[2].1));
    let w = top[2].1;
    let we = w->Object_0;
    assert(we.drop_first()[0].0 == "restart"@);
    assert(we.drop_first().drop_first()[0].0 == "rules"@);
    assert(we.drop_first().drop_first().drop_first()[0].0 == "steps"@);
    assert(we.drop_first().drop_first().drop_first().drop_first()[0].0 == "title"@);
    let wf = tget(doc, "workflow"@)->Some_0;
    let items = tarray(tget(wf, "steps"@))->Some_0;
    lemma_toml_steps(items, 0);
    let st = toml_steps(items, 0)->Ok_0;
    assert(get_spec(w, "steps"@) == Some(JsonV::Array(st)));
    assert forall|k: int| 0 <= k < st.len() implies {
        &&& get_str_spec(#[trigger] st[k], "id"@) == tstr(tget(items[k], "id"@))
        &&& get_str_spec(st[k], "content"@) == tstr(tget(items[k], "content"@))
    } by {
        lemma_toml_step_members(k, items[k]);
    }
}

} // verus!
