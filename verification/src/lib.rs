pub mod text;
pub mod json;
pub mod parser;
pub mod renderer;
pub mod models;
pub mod memory;
pub mod rules_engine;
pub mod backend;
pub mod engine;
pub mod ids;
pub mod task_delegator;
pub mod distiller;
pub mod cli;
pub mod sandbox;
pub mod craft;
pub mod validator;
pub mod db;
pub mod sense;
pub mod cron;
pub mod generate;
pub mod sync;

use vstd::prelude::*;
use crate::json::{Json, JsonV, json_view, json_parse, parse_json, json_pretty_text, pretty_json, to_serde, lemma_array_view, lemma_object_view};
use crate::parser::TemplateFormat;
use crate::parser::markdown::{concat, serialize_markdown_spec, serialize_markdown_template};

verus! {

/// serde_json's number is a plain copy of its digits: cloning gives an equal number.
pub assume_specification[ <serde_json::Number as Clone>::clone ](n: &serde_json::Number) -> (r:
    serde_json::Number)
    ensures
        r == *n,
;

/// A value with every object member whose value is null left out, at every
/// depth; nulls inside arrays stay.
pub open spec fn drop_nulls(v: JsonV) -> JsonV
    decreases v,
{
    match v {
        JsonV::Object(entries) => JsonV::Object(drop_null_entries(entries)),
        JsonV::Array(items) => JsonV::Array(
            Seq::new(
                items.len(),
                |i: int|
                    if 0 <= i < items.len() {
                        drop_nulls(items[i])
                    } else {
                        JsonV::Null
                    },
            ),
        ),
        _ => v,
    }
}

/// The members of an object without those whose value is null, each value
/// with its own nulls dropped.
pub open spec fn drop_null_entries(entries: Seq<(Seq<char>, JsonV)>) -> Seq<(Seq<char>, JsonV)>
    decreases entries,
{
    if entries.len() == 0 {
        Seq::empty()
    } else {
        let rest = entries.subrange(1, entries.len() as int);
        let head = entries[0];
        proof {
            assert(decreases_to!(entries => entries.subrange(1, entries.len() as int)));
            assert(decreases_to!(entries => entries[0]));
        }
        if head.1 is Null {
            drop_null_entries(rest)
        } else {
            seq![(head.0, drop_nulls(head.1))] + drop_null_entries(rest)
        }
    }
}

/// No object inside `v`, at any depth, has a member whose value is null.
pub open spec fn no_null_members(v: JsonV) -> bool
    decreases v,
{
    match v {
        JsonV::Object(entries) => members_not_null(entries),
        JsonV::Array(items) => forall|i: int| 0 <= i < items.len() ==> no_null_members(#[trigger] items[i]),
        _ => true,
    }
}

/// No member of `entries` is null, nor holds an object with a null member.
pub open spec fn members_not_null(entries: Seq<(Seq<char>, JsonV)>) -> bool
    decreases entries,
{
    if entries.len() == 0 {
        true
    } else {
        proof {
            assert(decreases_to!(entries => entries.subrange(1, entries.len() as int)));
            assert(decreases_to!(entries => entries[0]));
        }
        !(entries[0].1 is Null) && no_null_members(entries[0].1) && members_not_null(
            entries.subrange(1, entries.len() as int),
        )
    }
}

/// The law of dropping nulls: afterwards no object, at any depth, has a
/// member whose value is null.
pub proof fn lemma_drop_nulls_clean(v: JsonV)
    ensures
        no_null_members(drop_nulls(v)),
    decreases v,
{
    match v {
        JsonV::Object(entries) => {
            lemma_drop_null_entries_clean(entries);
        },
        JsonV::Array(items) => {
            assert forall|i: int| 0 <= i < items.len() implies no_null_members(
                #[trigger] drop_nulls(v)->Array_0[i],
            ) by {
                assert(decreases_to!(v => items[i]));
                lemma_drop_nulls_clean(items[i]);
            }
        },
        _ => {},
    }
}

/// The law of dropping nulls, for the members of an object.
pub proof fn lemma_drop_null_entries_clean(entries: Seq<(Seq<char>, JsonV)>)
    ensures
        members_not_null(drop_null_entries(entries)),
    decreases entries,
{
    if entries.len() > 0 {
        let rest = entries.subrange(1, entries.len() as int);
        assert(decreases_to!(entries => rest));
        lemma_drop_null_entries_clean(rest);
        if !(entries[0].1 is Null) {
            assert(decreases_to!(entries => entries[0]));
            lemma_drop_nulls_clean(entries[0].1);
            let x = (entries[0].0, drop_nulls(entries[0].1));
            let r = seq![x] + drop_null_entries(rest);
            assert(r.subrange(1, r.len() as int) =~= drop_null_entries(rest));
            assert(r[0] == x);
            if drop_nulls(entries[0].1) is Null {
                assert(entries[0].1 is Null);
            }
        }
    }
}

/// The value with every object member whose value is null left out, at every
/// depth (see `drop_nulls`).
fn filter_null_from_json_value(value: &Json) -> (r: Json)
    ensures
        r@ == drop_nulls(value@),
    decreases value,
{
    match value {
        Json::Object(entries) => {
            proof {
                lemma_object_view(*entries);
            }
            let ghost ev = entries@.map_values(|e: (String, Json)| (e.0@, json_view(e.1)));
            let mut out: Vec<(String, Json)> = Vec::new();
            let mut i: usize = 0;
            assert(ev.subrange(0, ev.len() as int) =~= ev);
            while i < entries.len()
                invariant
                    i <= entries@.len(),
                    ev == entries@.map_values(|e: (String, Json)| (e.0@, json_view(e.1))),
                    value@ == JsonV::Object(ev),
                    *value == Json::Object(*entries),
                    drop_null_entries(ev) == out@.map_values(|e: (String, Json)| (e.0@, json_view(e.1)))
                        + drop_null_entries(ev.subrange(i as int, ev.len() as int)),
                decreases entries.len() - i,
            {
                let ghost ov = out@.map_values(|e: (String, Json)| (e.0@, json_view(e.1)));
                let ghost tail = ev.subrange(i as int, ev.len() as int);
                assert(tail.subrange(1, tail.len() as int) =~= ev.subrange(i + 1, ev.len() as int));
                assert(tail[0] == ev[i as int]);
                if entries[i].1.is_null() {
                    assert(drop_null_entries(tail) == drop_null_entries(ev.subrange(i + 1, ev.len() as int)));
                } else {
                    proof {
                        assert(decreases_to!(*value => entries@[i as int].1));
                    }
                    let f = filter_null_from_json_value(&entries[i].1);
                    let k = entries[i].0.clone();
                    let ghost item = (k@, f@);
                    out.push((k, f));
                    assert(out@.map_values(|e: (String, Json)| (e.0@, json_view(e.1))) =~= ov.push(item));
                    assert(drop_null_entries(tail) == seq![item] + drop_null_entries(
                        ev.subrange(i + 1, ev.len() as int),
                    ));
                    assert(ov + (seq![item] + drop_null_entries(ev.subrange(i + 1, ev.len() as int)))
                        =~= ov.push(item) + drop_null_entries(ev.subrange(i + 1, ev.len() as int)));
                }
                i = i + 1;
            }
            assert(ev.subrange(ev.len() as int, ev.len() as int) =~= Seq::<(Seq<char>, JsonV)>::empty());
            let ghost ov = out@.map_values(|e: (String, Json)| (e.0@, json_view(e.1)));
            assert(ov + Seq::<(Seq<char>, JsonV)>::empty() =~= ov);
            assert(drop_null_entries(ev.subrange(ev.len() as int, ev.len() as int)) =~= Seq::<(Seq<char>, JsonV)>::empty());
            assert(drop_null_entries(ev) =~= ov);
            assert(drop_nulls(value@) == JsonV::Object(drop_null_entries(ev)));
            proof {
                lemma_object_view(out);
            }
            Json::Object(out)
        },
        Json::Array(items) => {
            proof {
                lemma_array_view(*items);
            }
            let mut out: Vec<Json> = Vec::new();
            let mut i: usize = 0;
            while i < items.len()
                invariant
                    i <= items@.len(),
                    out@.len() == i,
                    *value == Json::Array(*items),
                    value@ == JsonV::Array(items@.map_values(|x: Json| json_view(x))),
                    forall|k: int| 0 <= k < i ==> (#[trigger] out@[k])@ == drop_nulls(items@[k]@),
                decreases items.len() - i,
            {
                proof {
                    assert(decreases_to!(*value => items@[i as int]));
                }
                let f = filter_null_from_json_value(&items[i]);
                out.push(f);
                i = i + 1;
            }
            proof {
                lemma_array_view(out);
                match drop_nulls(value@) {
                    JsonV::Array(a) => {
                        assert(a =~= out@.map_values(|x: Json| json_view(x)));
                    },
                    _ => {},
                }
            }
            Json::Array(out)
        },
        Json::Null => Json::Null,
        Json::Bool(b) => Json::Bool(*b),
        Json::Number(n) => Json::Number(n.clone()),
        Json::Str(s) => Json::Str(s.clone()),
    }
}

/// What `toml::to_string_pretty` writes for a JSON value, or its error message.
pub uninterp spec fn toml_text(v: JsonV) -> Result<Seq<char>, Seq<char>>;

/// Writes a JSON value as TOML with `toml::to_string_pretty`; the result is the
/// one that `toml_text` names for the value.
#[verifier::external_body]
fn toml_pretty(v: &Json) -> (r: Result<String, String>)
    ensures
        match r {
            Ok(t) => toml_text(v@) == Ok::<Seq<char>, Seq<char>>(t@),
            Err(e) => toml_text(v@) == Err::<Seq<char>, Seq<char>>(e@),
        },
{
    ::toml::to_string_pretty(&to_serde(v)).map_err(|e| e.to_string())
}

/// The text of a template value in a format, or the error.
pub open spec fn serialize_template_spec(value: JsonV, format: TemplateFormat) -> Result<
    Seq<char>,
    Seq<char>,
> {
    match format {
        TemplateFormat::Json => match json_pretty_text(value) {
            Ok(t) => Ok(t),
            Err(e) => Err("JSON error: "@ + e),
        },
        TemplateFormat::Toml => match toml_text(drop_nulls(value)) {
            Ok(t) => Ok(t),
            Err(e) => Err("TOML error: "@ + e),
        },
        TemplateFormat::Markdown => serialize_markdown_spec(value),
    }
}

/// Writes a template value in a format: indented JSON; TOML, after object
/// members whose value is null are dropped (TOML has no null); or
/// Markdown+XML.
pub fn serialize_template(value: &Json, format: TemplateFormat) -> (r: Result<String, String>)
    ensures
        match r {
            Ok(t) => serialize_template_spec(value@, format) == Ok::<Seq<char>, Seq<char>>(t@),
            Err(e) => serialize_template_spec(value@, format) == Err::<Seq<char>, Seq<char>>(e@),
        },
{
    match format {
        TemplateFormat::Json => match pretty_json(value) {
            Ok(t) => Ok(t),
            Err(e) => Err(concat("JSON error: ", e.as_str())),
        },
        TemplateFormat::Toml => {
            let filtered = filter_null_from_json_value(value);
            match toml_pretty(&filtered) {
                Ok(t) => Ok(t),
                Err(e) => Err(concat("TOML error: ", e.as_str())),
            }
        },
        TemplateFormat::Markdown => serialize_markdown_template(value),
    }
}

/// The template value of the text of a JSON template file at `path`, or the
/// error `Invalid JSON in <path>: <message>`.
pub fn json_template_from_text(path: &str, data: &str) -> (r: Result<Json, String>)
    ensures
        match r {
            Ok(j) => json_parse(data@) == Ok::<JsonV, Seq<char>>(j@),
            Err(e) => json_parse(data@) is Err && e@ == "Invalid JSON in "@ + path@ + ": "@ + json_parse(
                data@,
            )->Err_0,
        },
{
    match parse_json(data) {
        Ok(v) => Ok(v),
        Err(e) => {
            let a = concat("Invalid JSON in ", path);
            let b = concat(a.as_str(), ": ");
            Err(concat(b.as_str(), e.as_str()))
        },
    }
}

} // verus!
