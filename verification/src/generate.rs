use vstd::prelude::*;
use crate::json::{Json, JsonV, entries_get, get_spec, get_str_spec, json_pretty_text, json_view, lemma_object_view, pretty_json, to_serde};

verus! {

/// The position of the first entry with key `key`, if any.
pub open spec fn key_index(entries: Seq<(Seq<char>, JsonV)>, key: Seq<char>) -> Option<int>
    decreases entries.len(),
{
    if entries.len() == 0 {
        None
    } else if entries[0].0 == key {
        Some(0)
    } else {
        match key_index(entries.drop_first(), key) {
            Some(i) => Some(i + 1),
            None => None,
        }
    }
}

proof fn lemma_key_index(entries: Seq<(Seq<char>, JsonV)>, key: Seq<char>)
    ensures
        key_index(entries, key) matches Some(i) ==> 0 <= i < entries.len() && entries[i].0 == key
            && entries_get(entries, key) == Some(entries[i].1)
            && forall|j: int| 0 <= j < i ==> entries[j].0 != key,
        key_index(entries, key) is None ==> entries_get(entries, key) is None
            && forall|j: int| 0 <= j < entries.len() ==> entries[j].0 != key,
    decreases entries.len(),
{
    if entries.len() > 0 && entries[0].0 != key {
        let rest = entries.drop_first();
        lemma_key_index(rest, key);
        assert forall|j: int| 1 <= j < entries.len() implies entries[j] == rest[j - 1] by {}
    }
}

/// serde_json's `value[key]` read from a value: the member `key` of an
/// object, `null` where there is none.
pub open spec fn member_or_null(v: JsonV, key: Seq<char>) -> JsonV {
    match get_spec(v, key) {
        Some(x) => x,
        None => JsonV::Null,
    }
}

/// The entries with the value of the first entry keyed `key` replaced by
/// `val`, or with `(key, val)` added at the end where no entry has that key.
pub open spec fn entries_set(entries: Seq<(Seq<char>, JsonV)>, key: Seq<char>, val: JsonV) -> Seq<
    (Seq<char>, JsonV),
> {
    match key_index(entries, key) {
        Some(i) => entries.update(i, (key, val)),
        None => entries.push((key, val)),
    }
}

/// serde_json's `value[key] = val` on a value that is null or an object: the
/// member set on an object, and null turned into an object of that member.
pub open spec fn assign_member(v: JsonV, key: Seq<char>, val: JsonV) -> JsonV {
    match v {
        JsonV::Object(entries) => JsonV::Object(entries_set(entries, key, val)),
        _ => JsonV::Object(seq![(key, val)]),
    }
}

/// Values that serde_json's `value[key] = ..` takes without panicking.
pub open spec fn assignable(v: JsonV) -> bool {
    v is Null || v is Object
}

/// The view of an object's entries, one entry for one.
pub open spec fn entries_view(entries: Seq<(String, Json)>) -> Seq<(Seq<char>, JsonV)> {
    entries.map_values(|e: (String, Json)| (e.0@, json_view(e.1)))
}

/// The position of the first entry keyed `key`, if any.
fn find_key(entries: &Vec<(String, Json)>, key: &str) -> (r: Option<usize>)
    ensures
        match r {
            Some(i) => key_index(entries_view(entries@), key@) == Some(i as int),
            None => key_index(entries_view(entries@), key@) is None,
        },
{
    let ghost ev = entries_view(entries@);
    proof {
        lemma_key_index(ev, key@);
    }
    let mut i: usize = 0;
    while i < entries.len()
        invariant
            i <= entries@.len(),
            ev == entries_view(entries@),
            forall|j: int| 0 <= j < i ==> ev[j].0 != key@,
            key_index(ev, key@) matches Some(k) ==> 0 <= k < ev.len() && ev[k].0 == key@
                && forall|j: int| 0 <= j < k ==> ev[j].0 != key@,
            key_index(ev, key@) is None ==> forall|j: int| 0 <= j < ev.len() ==> ev[j].0 != key@,
        decreases entries.len() - i,
    {
        assert(ev[i as int] == (entries@[i as int].0@, json_view(entries@[i as int].1)));
        if crate::text::str_eq(entries[i].0.as_str(), key) {
            return Some(i);
        }
        i = i + 1;
    }
    None
}

/// `value[key] = val` on an object's entries.
fn set_entry(entries: &mut Vec<(String, Json)>, key: &str, val: Json)
    ensures
        entries_view(final(entries)@) == entries_set(entries_view(old(entries)@), key@, val@),
{
    let ghost old_ev = entries_view(entries@);
    proof {
        lemma_key_index(old_ev, key@);
    }
    let k = key.to_string();
    match find_key(entries, key) {
        Some(i) => {
            let _ = entries.remove(i);
            entries.insert(i, (k, val));
            assert(entries_view(entries@) =~= old_ev.update(i as int, (key@, val@)));
        },
        None => {
            entries.push((k, val));
            assert(entries_view(entries@) =~= old_ev.push((key@, val@)));
        },
    }
}

/// serde_json's `value[key] = val`, on a value that is null or an object.
pub fn with_member(v: Json, key: &str, val: Json) -> (r: Json)
    requires
        assignable(v@),
    ensures
        r@ == assign_member(v@, key@, val@),
{
    match v {
        Json::Object(mut entries) => {
            proof {
                lemma_object_view(entries);
            }
            set_entry(&mut entries, key, val);
            proof {
                lemma_object_view(entries);
            }
            Json::Object(entries)
        },
        _ => {
            let entries = vec![(key.to_string(), val)];
            proof {
                lemma_object_view(entries);
                assert(entries_view(entries@) =~= seq![(key@, val@)]);
            }
            Json::Object(entries)
        },
    }
}

/// What the generate command renders: the string `output_template.content`
/// of a template, `None` where it is missing or not a string.
pub open spec fn output_content_spec(template: JsonV) -> Option<Seq<char>> {
    match get_spec(template, "output_template"@) {
        Some(o) => get_str_spec(o, "content"@),
        None => None,
    }
}

/// The string `output_template.content` of a template, or the error that the
/// generate command reports where it is missing or not a string.
pub fn output_content(template: &Json) -> (r: Result<&str, String>)
    ensures
        match r {
            Ok(s) => output_content_spec(template@) == Some(s@),
            Err(e) => output_content_spec(template@) is None
                && e@ == "output_template.content must be a string"@,
        },
{
    match template.get("output_template") {
        Some(o) => match o.get("content") {
            Some(c) => match c.as_str() {
                Some(s) => Ok(s),
                None => Err("output_template.content must be a string".to_string()),
            },
            None => Err("output_template.content must be a string".to_string()),
        },
        None => Err("output_template.content must be a string".to_string()),
    }
}

/// The template with `output_template.content` set to `content`, as
/// serde_json's `template["output_template"]["content"] = content` leaves it.
pub open spec fn with_output_content_spec(template: JsonV, content: Seq<char>) -> JsonV {
    assign_member(
        template,
        "output_template"@,
        assign_member(member_or_null(template, "output_template"@), "content"@, JsonV::Str(content)),
    )
}

proof fn lemma_entries_get_first(e: Seq<(Seq<char>, JsonV)>, k: Seq<char>, j: int)
    requires
        0 <= j < e.len(),
        e[j].0 == k,
        forall|i: int| 0 <= i < j ==> (#[trigger] e[i]).0 != k,
    ensures
        entries_get(e, k) == Some(e[j].1),
    decreases j,
{
    if j > 0 {
        let r = e.drop_first();
        assert forall|i: int| 0 <= i < j - 1 implies (#[trigger] r[i]).0 != k by {
            assert(r[i] == e[i + 1]);
        }
        assert(e[0].0 != k);
        lemma_entries_get_first(r, k, j - 1);
    }
}

proof fn lemma_entries_get_none(e: Seq<(Seq<char>, JsonV)>, k: Seq<char>)
    requires
        forall|i: int| 0 <= i < e.len() ==> (#[trigger] e[i]).0 != k,
    ensures
        entries_get(e, k) is None,
    decreases e.len(),
{
    if e.len() > 0 {
        let r = e.drop_first();
        assert forall|i: int| 0 <= i < r.len() implies (#[trigger] r[i]).0 != k by {
            assert(r[i] == e[i + 1]);
        }
        assert(e[0].0 != k);
        lemma_entries_get_none(r, k);
    }
}

/// The law of assignment: after `value[key] = val` the member `key` is `val`,
/// and on an object every other member is as it was.
pub proof fn lemma_assign_member(v: JsonV, key: Seq<char>, val: JsonV, other: Seq<char>)
    ensures
        get_spec(assign_member(v, key, val), key) == Some(val),
        v is Object && other != key ==> get_spec(assign_member(v, key, val), other) == get_spec(v, other),
{
    match v {
        JsonV::Object(e) => {
            let u = entries_set(e, key, val);
            lemma_key_index(e, key);
            lemma_key_index(e, other);
            match key_index(e, key) {
                Some(i) => {
                    lemma_entries_get_first(u, key, i);
                    if other != key {
                        match key_index(e, other) {
                            Some(j) => {
                                assert forall|m: int| 0 <= m < j implies (#[trigger] u[m]).0 != other by {
                                    if m != i {
                                        assert(u[m] == e[m]);
                                    }
                                }
                                lemma_entries_get_first(u, other, j);
                            },
                            None => {
                                assert forall|m: int| 0 <= m < u.len() implies (#[trigger] u[m]).0 != other by {
                                    if m != i {
                                        assert(u[m] == e[m]);
                                    }
                                }
                                lemma_entries_get_none(u, other);
                            },
                        }
                    }
                },
                None => {
                    assert forall|m: int| 0 <= m < e.len() implies (#[trigger] u[m]).0 != key by {
                        assert(u[m] == e[m]);
                    }
                    lemma_entries_get_first(u, key, e.len() as int);
                    if other != key {
                        match key_index(e, other) {
                            Some(j) => {
                                assert forall|m: int| 0 <= m < j implies (#[trigger] u[m]).0 != other by {
                                    assert(u[m] == e[m]);
                                }
                                lemma_entries_get_first(u, other, j);
                            },
                            None => {
                                assert forall|m: int| 0 <= m < u.len() implies (#[trigger] u[m]).0 != other by {
                                    if m < e.len() {
                                        assert(u[m] == e[m]);
                                    }
                                }
                                lemma_entries_get_none(u, other);
                            },
                        }
                    }
                },
            }
        },
        _ => {
            lemma_entries_get_first(seq![(key, val)], key, 0);
        },
    }
}

/// The law of the rendered output: after setting `output_template.content`,
/// reading it gives the rendered text; the template's other members, and the
/// other members of an `output_template` object, stay as they were.
pub proof fn lemma_output_content_round_trip(template: JsonV, content: Seq<char>, other: Seq<char>)
    ensures
        output_content_spec(with_output_content_spec(template, content)) == Some(content),
        template is Object && other != "output_template"@ ==> get_spec(
            with_output_content_spec(template, content),
            other,
        ) == get_spec(template, other),
        member_or_null(template, "output_template"@) is Object && other != "content"@ ==> get_spec(
            member_or_null(with_output_content_spec(template, content), "output_template"@),
            other,
        ) == get_spec(member_or_null(template, "output_template"@), other),
{
    let o = member_or_null(template, "output_template"@);
    let o2 = assign_member(o, "content"@, JsonV::Str(content));
    lemma_assign_member(o, "content"@, JsonV::Str(content), other);
    lemma_assign_member(template, "output_template"@, o2, other);
}

/// Sets `output_template.content` of a template to the rendered text, on a
/// template where serde_json's `template["output_template"]["content"] = ..`
/// does not panic: the template and its `output_template` member (where there
/// is one) are objects or null.
pub fn with_output_content(template: Json, content: String) -> (r: Json)
    requires
        assignable(template@),
        assignable(member_or_null(template@, "output_template"@)),
    ensures
        r@ == with_output_content_spec(template@, content@),
{
    let text = Json::Str(content);
    match template {
        Json::Object(mut entries) => {
            proof {
                lemma_object_view(entries);
                lemma_key_index(entries_view(entries@), "output_template"@);
            }
            let ghost old_ev = entries_view(entries@);
            match find_key(&entries, "output_template") {
                Some(i) => {
                    let (k, inner) = entries.remove(i);
                    assert(old_ev[i as int] == (k@, json_view(inner)));
                    let updated = with_member(inner, "content", text);
                    entries.insert(i, (k, updated));
                    assert(entries_view(entries@) =~= old_ev.update(
                        i as int,
                        ("output_template"@, updated@),
                    ));
                    proof {
                        lemma_object_view(entries);
                    }
                    Json::Object(entries)
                },
                None => {
                    let inner = with_member(Json::Null, "content", text);
                    entries.push(("output_template".to_string(), inner));
                    assert(entries_view(entries@) =~= old_ev.push(("output_template"@, inner@)));
                    proof {
                        lemma_object_view(entries);
                    }
                    Json::Object(entries)
                },
            }
        },
        _ => {
            let inner = with_member(Json::Null, "content", text);
            with_member(Json::Null, "output_template", inner)
        },
    }
}

/// What `serde_yaml::to_string` writes for a JSON value, or its error message.
pub uninterp spec fn yaml_text(v: JsonV) -> Result<Seq<char>, Seq<char>>;

/// Writes a JSON value as YAML with `serde_yaml::to_string`; the result is the
/// one that `yaml_text` names.
#[verifier::external_body]
fn serde_yaml_text(v: &Json) -> (r: Result<String, String>)
    ensures
        match r {
            Ok(t) => yaml_text(v@) == Ok::<Seq<char>, Seq<char>>(t@),
            Err(e) => yaml_text(v@) == Err::<Seq<char>, Seq<char>>(e@),
        },
{
    serde_yaml::to_string(&to_serde(v)).map_err(|e| e.to_string())
}

/// The forms the generate command writes its output in.
#[derive(Debug, Clone, Copy, PartialEq, Eq, Structural)]
pub enum OutputKind {
    Markdown,
    Json,
    Yaml,
}

/// What the generate command writes: the rendered text itself as Markdown;
/// as JSON or YAML, the template with `output_template.content` set to the
/// rendered text, written indented (JSON) or as YAML.
pub open spec fn generate_output_spec(template: JsonV, rendered: Seq<char>, kind: OutputKind) -> Result<
    Seq<char>,
    Seq<char>,
> {
    match kind {
        OutputKind::Markdown => Ok(rendered),
        OutputKind::Json => json_pretty_text(with_output_content_spec(template, rendered)),
        OutputKind::Yaml => yaml_text(with_output_content_spec(template, rendered)),
    }
}

/// The output of the generate command (see `generate_output_spec`), on a
/// template that serde_json's `template["output_template"]["content"] = ..`
/// takes without panicking where the output is JSON or YAML.
pub fn generate_output(template: Json, rendered: String, kind: OutputKind) -> (r: Result<String, String>)
    requires
        kind != OutputKind::Markdown ==> assignable(template@) && assignable(
            member_or_null(template@, "output_template"@),
        ),
    ensures
        match r {
            Ok(t) => generate_output_spec(template@, rendered@, kind) == Ok::<Seq<char>, Seq<char>>(t@),
            Err(e) => generate_output_spec(template@, rendered@, kind) == Err::<Seq<char>, Seq<char>>(e@),
        },
{
    match kind {
        OutputKind::Markdown => Ok(rendered),
        OutputKind::Json => {
            let updated = with_output_content(template, rendered);
            pretty_json(&updated)
        },
        OutputKind::Yaml => {
            let updated = with_output_content(template, rendered);
            serde_yaml_text(&updated)
        },
    }
}

} // verus!
