use vstd::prelude::*;
use crate::json::{Json, JsonV, to_serde, json_view, lemma_array_view, lemma_object_view};
use crate::text::{chars_of, str_eq, string_of_range};

verus! {

/// What the jsonschema crate (draft 7) says of an instance against a schema:
/// the schema's compile error message, or the errors as (instance path,
/// message) pairs, in the order the validator reports them, none when the
/// instance is valid.
pub uninterp spec fn schema_check(schema: JsonV, instance: JsonV) -> Result<
    Seq<(Seq<char>, Seq<char>)>,
    Seq<char>,
>;

/// No object in `v`, at any depth, has a member named `key`.
pub open spec fn key_free(v: JsonV, key: Seq<char>) -> bool
    decreases v,
{
    match v {
        JsonV::Array(items) => forall|i: int| 0 <= i < items.len() ==> key_free(#[trigger] items[i], key),
        JsonV::Object(entries) => forall|i: int|
            0 <= i < entries.len() ==> (#[trigger] entries[i]).0 != key && key_free(entries[i].1, key),
        _ => true,
    }
}

/// A value in which no object, at any depth, has a member named `$ref`.
pub open spec fn ref_free(v: JsonV) -> bool {
    key_free(v, "$ref"@)
}

/// Whether no object in a value, at any depth, has a member named `key`.
pub fn is_key_free(v: &Json, key: &str) -> (r: bool)
    ensures
        r == key_free(v@, key@),
    decreases v,
{
    match v {
        Json::Array(a) => {
            proof {
                lemma_array_view(*a);
            }
            let ghost av = a@.map_values(|x: Json| json_view(x));
            let mut i: usize = 0;
            while i < a.len()
                invariant
                    i <= a@.len(),
                    av == a@.map_values(|x: Json| json_view(x)),
                    v@ == JsonV::Array(av),
                    *v == Json::Array(*a),
                    forall|j: int| 0 <= j < i ==> key_free(#[trigger] av[j], key@),
                decreases a.len() - i,
            {
                proof {
                    assert(decreases_to!(*v => v->Array_0));
                    assert(v->Array_0 == *a);
                    assert(decreases_to!(v->Array_0 => (v->Array_0)@));
                    assert(decreases_to!(a@ => a@[i as int]));
                    let w = v@;
                    assert(decreases_to!(w => w->Array_0));
                    assert(decreases_to!(w->Array_0 => av[i as int]));
                }
                if !is_key_free(&a[i], key) {
                    assert(av[i as int] == a@[i as int]@);
                    assert(!key_free(av[i as int], key@));
                    assert(!key_free(v@, key@));
                    return false;
                }
                i = i + 1;
            }
            true
        },
        Json::Object(o) => {
            proof {
                lemma_object_view(*o);
            }
            let ghost ov = o@.map_values(|e: (String, Json)| (e.0@, json_view(e.1)));
            let mut i: usize = 0;
            while i < o.len()
                invariant
                    i <= o@.len(),
                    ov == o@.map_values(|e: (String, Json)| (e.0@, json_view(e.1))),
                    v@ == JsonV::Object(ov),
                    *v == Json::Object(*o),
                    forall|j: int| 0 <= j < i ==> (#[trigger] ov[j]).0 != key@ && key_free(ov[j].1, key@),
                decreases o.len() - i,
            {
                assert(ov[i as int] == (o@[i as int].0@, o@[i as int].1@));
                proof {
                    assert(decreases_to!(*v => v->Object_0));
                    assert(v->Object_0 == *o);
                    assert(decreases_to!(v->Object_0 => (v->Object_0)@));
                    assert(decreases_to!(o@ => o@[i as int]));
                    assert(decreases_to!(o@[i as int] => o@[i as int].1));
                    let w = v@;
                    assert(decreases_to!(w => w->Object_0));
                    assert(decreases_to!(w->Object_0 => ov[i as int]));
                    assert(decreases_to!(ov[i as int] => ov[i as int].1));
                }
                if str_eq(o[i].0.as_str(), key) {
                    return false;
                }
                if !is_key_free(&o[i].1, key) {
                    assert(!key_free(ov[i as int].1, key@));
                    assert(!key_free(v@, key@));
                    return false;
                }
                i = i + 1;
            }
            true
        },
        _ => true,
    }
}

/// Whether a value is free of `$ref` members, at any depth.
pub fn is_ref_free(v: &Json) -> (r: bool)
    ensures
        r == ref_free(v@),
{
    is_key_free(v, "$ref")
}

/// A definition name that a local reference can spell plainly: ASCII
/// letters, digits, '_' and '-' (nothing that JSON pointers or URI fragments
/// escape).
pub open spec fn plain_def_name(n: Seq<char>) -> bool {
    &&& n.len() > 0
    &&& forall|k: int|
        0 <= k < n.len() ==> {
            let c = #[trigger] n[k] as u32;
            (48 <= c <= 57) || (65 <= c <= 90) || (97 <= c <= 122) || c == 95 || c == 45
        }
}

/// The value under `name` in an object of definitions holds no `$ref`: the
/// object has such a member, and every member of that name is `$ref`-free.
pub open spec fn defs_ok(d: JsonV, name: Seq<char>) -> bool {
    match d {
        JsonV::Object(de) => {
            &&& exists|j: int| 0 <= j < de.len() && (#[trigger] de[j]).0 == name
            &&& forall|j: int| 0 <= j < de.len() && (#[trigger] de[j]).0 == name ==> ref_free(de[j].1)
        },
        _ => false,
    }
}

/// `root` is an object whose `definitions` hold a `$ref`-free schema under
/// `name` (every member `definitions`, where it is there more than once).
pub open spec fn def_ok(root: JsonV, name: Seq<char>) -> bool {
    match root {
        JsonV::Object(re) => {
            &&& exists|i: int| 0 <= i < re.len() && (#[trigger] re[i]).0 == "definitions"@
            &&& forall|i: int| 0 <= i < re.len() && (#[trigger] re[i]).0 == "definitions"@ ==> defs_ok(re[i].1, name)
        },
        _ => false,
    }
}

/// A `$ref` value that points, within the schema, to a `$ref`-free definition:
/// the text `#/definitions/<name>` with a plain name.
pub open spec fn ref_target_ok(root: JsonV, r: JsonV) -> bool {
    match r {
        JsonV::Str(t) => t.len() > 14 && t.subrange(0, 14) == "#/definitions/"@ && plain_def_name(
            t.subrange(14, t.len() as int),
        ) && def_ok(root, t.subrange(14, t.len() as int)),
        _ => false,
    }
}

/// Every `$ref` member in `v`, at any depth, points to a `$ref`-free
/// definition of `root`.
pub open spec fn refs_resolve(root: JsonV, v: JsonV) -> bool
    decreases v,
{
    match v {
        JsonV::Array(items) => forall|i: int| 0 <= i < items.len() ==> refs_resolve(root, #[trigger] items[i]),
        JsonV::Object(entries) => forall|i: int|
            0 <= i < entries.len() ==> ((#[trigger] entries[i]).0 == "$ref"@ ==> ref_target_ok(root, entries[i].1))
                && refs_resolve(root, entries[i].1),
        _ => true,
    }
}

/// The schemas that the validator takes: those in which every `$ref` points,
/// by a plain local pointer `#/definitions/<name>`, to a definition that
/// holds no `$ref` itself, and which hold no `$id` where they hold a `$ref`.
///
/// jsonschema (draft 7) compiles the schema that a `$ref` points to anew each
/// time it validates through it, so a `$ref` that leads back to itself
/// without going deeper into the instance recurses without end. Whether a
/// `$ref` leads back depends on how jsonschema resolves references (base
/// URIs, `$id`, pointer escapes, remote documents); a reference of this form,
/// in a schema without `$id`, leads to a definition that holds no `$ref` and
/// so cannot lead back.
pub open spec fn schema_ok(v: JsonV) -> bool {
    refs_resolve(v, v) && (ref_free(v) || key_free(v, "$id"@))
}

/// Whether `v` is a plain definition name.
fn is_plain_def_name(v: &Vec<char>, from: usize) -> (r: bool)
    requires
        from <= v@.len(),
    ensures
        r == plain_def_name(v@.subrange(from as int, v@.len() as int)),
{
    let ghost n = v@.subrange(from as int, v@.len() as int);
    if from == v.len() {
        return false;
    }
    let mut k = from;
    while k < v.len()
        invariant
            from <= k <= v@.len(),
            n == v@.subrange(from as int, v@.len() as int),
            forall|m: int|
                0 <= m < k - from ==> {
                    let c = #[trigger] n[m] as u32;
                    (48 <= c <= 57) || (65 <= c <= 90) || (97 <= c <= 122) || c == 95 || c == 45
                },
        decreases v.len() - k,
    {
        let c = v[k] as u32;
        assert(n[k - from] == v@[k as int]);
        if !((48 <= c && c <= 57) || (65 <= c && c <= 90) || (97 <= c && c <= 122) || c == 95 || c == 45) {
            return false;
        }
        k = k + 1;
    }
    true
}

/// Whether the definitions object `d` holds a `$ref`-free schema under `name`.
fn is_defs_ok(d: &Json, name: &str) -> (r: bool)
    ensures
        r == defs_ok(d@, name@),
{
    match d {
        Json::Object(o) => {
            proof {
                lemma_object_view(*o);
            }
            let ghost ov = o@.map_values(|e: (String, Json)| (e.0@, json_view(e.1)));
            let mut found = false;
            let mut i: usize = 0;
            while i < o.len()
                invariant
                    i <= o@.len(),
                    ov == o@.map_values(|e: (String, Json)| (e.0@, json_view(e.1))),
                    d@ == JsonV::Object(ov),
                    found == exists|j: int| 0 <= j < i && (#[trigger] ov[j]).0 == name@,
                    forall|j: int| 0 <= j < i && (#[trigger] ov[j]).0 == name@ ==> ref_free(ov[j].1),
                decreases o.len() - i,
            {
                assert(ov[i as int] == (o@[i as int].0@, o@[i as int].1@));
                if str_eq(o[i].0.as_str(), name) {
                    if !is_ref_free(&o[i].1) {
                        return false;
                    }
                    found = true;
                }
                i = i + 1;
            }
            proof {
                let w = JsonV::Object(ov);
                assert(w->Object_0 == ov);
                assert(w is Object);
            }
            found
        },
        _ => false,
    }
}

/// Whether `root` holds a `$ref`-free definition under `name`.
fn is_def_ok(root: &Json, name: &str) -> (r: bool)
    ensures
        r == def_ok(root@, name@),
{
    match root {
        Json::Object(o) => {
            proof {
                lemma_object_view(*o);
            }
            let ghost ov = o@.map_values(|e: (String, Json)| (e.0@, json_view(e.1)));
            let mut found = false;
            let mut i: usize = 0;
            while i < o.len()
                invariant
                    i <= o@.len(),
                    ov == o@.map_values(|e: (String, Json)| (e.0@, json_view(e.1))),
                    root@ == JsonV::Object(ov),
                    found == exists|j: int| 0 <= j < i && (#[trigger] ov[j]).0 == "definitions"@,
                    forall|j: int| 0 <= j < i && (#[trigger] ov[j]).0 == "definitions"@ ==> defs_ok(ov[j].1, name@),
                decreases o.len() - i,
            {
                assert(ov[i as int] == (o@[i as int].0@, o@[i as int].1@));
                if str_eq(o[i].0.as_str(), "definitions") {
                    if !is_defs_ok(&o[i].1, name) {
                        return false;
                    }
                    found = true;
                }
                i = i + 1;
            }
            proof {
                let w = JsonV::Object(ov);
                assert(w->Object_0 == ov);
                assert(w is Object);
            }
            found
        },
        _ => false,
    }
}

/// Whether a `$ref` value points to a `$ref`-free definition of `root`.
fn is_ref_target_ok(root: &Json, r: &Json) -> (b: bool)
    ensures
        b == ref_target_ok(root@, r@),
{
    match r {
        Json::Str(t) => {
            let v = chars_of(t.as_str());
            if v.len() <= 14 {
                return false;
            }
            let prefix = string_of_range(&v, 0, 14);
            if !str_eq(prefix.as_str(), "#/definitions/") {
                return false;
            }
            if !is_plain_def_name(&v, 14) {
                return false;
            }
            let name = string_of_range(&v, 14, v.len());
            is_def_ok(root, name.as_str())
        },
        _ => false,
    }
}

/// Whether every `$ref` in `v` points to a `$ref`-free definition of `root`.
fn check_refs(root: &Json, v: &Json) -> (r: bool)
    ensures
        r == refs_resolve(root@, v@),
    decreases v,
{
    match v {
        Json::Array(a) => {
            proof {
                lemma_array_view(*a);
            }
            let ghost av = a@.map_values(|x: Json| json_view(x));
            let mut i: usize = 0;
            while i < a.len()
                invariant
                    i <= a@.len(),
                    av == a@.map_values(|x: Json| json_view(x)),
                    v@ == JsonV::Array(av),
                    *v == Json::Array(*a),
                    forall|j: int| 0 <= j < i ==> refs_resolve(root@, #[trigger] av[j]),
                decreases a.len() - i,
            {
                proof {
                    assert(decreases_to!(*v => v->Array_0));
                    assert(v->Array_0 == *a);
                    assert(decreases_to!(v->Array_0 => (v->Array_0)@));
                    assert(decreases_to!(a@ => a@[i as int]));
                    let w = v@;
                    assert(decreases_to!(w => w->Array_0));
                    assert(decreases_to!(w->Array_0 => av[i as int]));
                }
                if !check_refs(root, &a[i]) {
                    assert(av[i as int] == a@[i as int]@);
                    assert(!refs_resolve(root@, av[i as int]));
                    assert(!refs_resolve(root@, v@));
                    return false;
                }
                i = i + 1;
            }
            true
        },
        Json::Object(o) => {
            proof {
                lemma_object_view(*o);
            }
            let ghost ov = o@.map_values(|e: (String, Json)| (e.0@, json_view(e.1)));
            let mut i: usize = 0;
            while i < o.len()
                invariant
                    i <= o@.len(),
                    ov == o@.map_values(|e: (String, Json)| (e.0@, json_view(e.1))),
                    v@ == JsonV::Object(ov),
                    *v == Json::Object(*o),
                    forall|j: int|
                        0 <= j < i ==> ((#[trigger] ov[j]).0 == "$ref"@ ==> ref_target_ok(root@, ov[j].1))
                            && refs_resolve(root@, ov[j].1),
                decreases o.len() - i,
            {
                assert(ov[i as int] == (o@[i as int].0@, o@[i as int].1@));
                proof {
                    assert(decreases_to!(*v => v->Object_0));
                    assert(v->Object_0 == *o);
                    assert(decreases_to!(v->Object_0 => (v->Object_0)@));
                    assert(decreases_to!(o@ => o@[i as int]));
                    assert(decreases_to!(o@[i as int] => o@[i as int].1));
                    let w = v@;
                    assert(decreases_to!(w => w->Object_0));
                    assert(decreases_to!(w->Object_0 => ov[i as int]));
                    assert(decreases_to!(ov[i as int] => ov[i as int].1));
                }
                if str_eq(o[i].0.as_str(), "$ref") && !is_ref_target_ok(root, &o[i].1) {
                    assert(!refs_resolve(root@, v@));
                    return false;
                }
                if !check_refs(root, &o[i].1) {
                    assert(!refs_resolve(root@, ov[i as int].1));
                    assert(!refs_resolve(root@, v@));
                    return false;
                }
                i = i + 1;
            }
            true
        },
        _ => true,
    }
}

/// Whether the validator takes a schema (see `schema_ok`).
pub fn is_schema_ok(v: &Json) -> (r: bool)
    ensures
        r == schema_ok(v@),
{
    check_refs(v, v) && (is_ref_free(v) || is_key_free(v, "$id"))
}

/// Compiles the schema with `jsonschema::JSONSchema::options()` for draft 7
/// and validates the instance with `validate`; the answer is the one that
/// `schema_check` names. The schema's references are of the form that
/// `schema_ok` admits: with one that leads back to itself, jsonschema does
/// not return.
#[verifier::external_body]
fn check_against_schema(schema: &Json, instance: &Json) -> (r: Result<Vec<(String, String)>, String>)
    requires
        schema_ok(schema@),
    ensures
        match r {
            Ok(errs) => schema_check(schema@, instance@) == Ok::<Seq<(Seq<char>, Seq<char>)>, Seq<char>>(
                errs@.map_values(|e: (String, String)| (e.0@, e.1@)),
            ),
            Err(m) => schema_check(schema@, instance@) == Err::<Seq<(Seq<char>, Seq<char>)>, Seq<char>>(m@),
        },
{
    let schema_value = to_serde(schema);
    let instance_value = to_serde(instance);
    let compiled = match jsonschema::JSONSchema::options().with_draft(jsonschema::Draft::Draft7).compile(&schema_value) {
        Ok(c) => c,
        Err(e) => return Err(e.to_string()),
    };
    let found: Vec<(String, String)> = match compiled.validate(&instance_value) {
        Ok(()) => Vec::new(),
        Err(errs) => errs.map(|e| (e.instance_path.to_string(), e.to_string())).collect(),
    };
    Ok(found)
}

/// Why a template is refused.
#[derive(Debug, Clone)]
pub enum ValidationErrorType {
    SchemaCompile(String),
    Validation { path: String, message: String },
}

/// The model of a refusal.
pub enum ValidationErrorV {
    SchemaCompile(Seq<char>),
    Validation { path: Seq<char>, message: Seq<char> },
}

pub open spec fn error_view(e: ValidationErrorType) -> ValidationErrorV {
    match e {
        ValidationErrorType::SchemaCompile(m) => ValidationErrorV::SchemaCompile(m@),
        ValidationErrorType::Validation { path, message } => ValidationErrorV::Validation {
            path: path@,
            message: message@,
        },
    }
}

/// What validation answers for a schema check: success when the instance has
/// no errors; every error, in order, otherwise; the compile error alone when
/// the schema does not compile.
pub open spec fn validation_spec(check: Result<Seq<(Seq<char>, Seq<char>)>, Seq<char>>) -> Result<
    (),
    Seq<ValidationErrorV>,
> {
    match check {
        Err(m) => Err(seq![ValidationErrorV::SchemaCompile(m)]),
        Ok(errs) => if errs.len() == 0 {
            Ok(())
        } else {
            Err(
                errs.map_values(
                    |e: (Seq<char>, Seq<char>)| ValidationErrorV::Validation { path: e.0, message: e.1 },
                ),
            )
        },
    }
}

/// The law of validation: a template passes exactly when the schema compiles
/// and the check finds no error; otherwise the answer holds, in order, one
/// refusal for each error found, with its path and message, or the compile
/// error alone.
pub proof fn lemma_validation(check: Result<Seq<(Seq<char>, Seq<char>)>, Seq<char>>)
    ensures
        validation_spec(check) is Ok <==> (check matches Ok(es) && es.len() == 0),
        check matches Err(m) ==> validation_spec(check) == Err::<(), Seq<ValidationErrorV>>(
            seq![ValidationErrorV::SchemaCompile(m)],
        ),
        check is Ok && check->Ok_0.len() > 0 ==> ({
            let es = check->Ok_0;
            &&& validation_spec(check) is Err
            &&& validation_spec(check)->Err_0.len() == es.len()
            &&& forall|i: int|
                0 <= i < es.len() ==> #[trigger] validation_spec(check)->Err_0[i] == ValidationErrorV::Validation {
                    path: es[i].0,
                    message: es[i].1,
                }
        }),
{
}

/// The refusals that a schema check reports, as the library's errors.
pub fn validation_result(check: Result<Vec<(String, String)>, String>) -> (r: Result<(), Vec<ValidationErrorType>>)
    ensures
        match r {
            Ok(()) => validation_spec(match check {
                Ok(v) => Ok(v@.map_values(|e: (String, String)| (e.0@, e.1@))),
                Err(m) => Err(m@),
            }) == Ok::<(), Seq<ValidationErrorV>>(()),
            Err(es) => validation_spec(match check {
                Ok(v) => Ok(v@.map_values(|e: (String, String)| (e.0@, e.1@))),
                Err(m) => Err(m@),
            }) == Err::<(), Seq<ValidationErrorV>>(es@.map_values(|e: ValidationErrorType| error_view(e))),
        },
{
    match check {
        Err(m) => {
            let es = vec![ValidationErrorType::SchemaCompile(m)];
            assert(es@.map_values(|e: ValidationErrorType| error_view(e)) =~= seq![ValidationErrorV::SchemaCompile(m@)]);
            Err(es)
        },
        Ok(found) => {
            if found.len() == 0 {
                return Ok(());
            }
            let ghost fv = found@.map_values(|e: (String, String)| (e.0@, e.1@));
            let mut errors: Vec<ValidationErrorType> = Vec::new();
            let mut rest = found;
            let ghost all = rest@;
            let mut n: usize = 0;
            assert(all.len() == rest.len());
            assert(rest@ =~= all.subrange(0, all.len() as int));
            while rest.len() > 0
                invariant
                    all.len() <= usize::MAX,
                    fv == all.map_values(|e: (String, String)| (e.0@, e.1@)),
                    n + rest@.len() == all.len(),
                    rest@ == all.subrange(n as int, all.len() as int),
                    errors@.map_values(|e: ValidationErrorType| error_view(e)) == fv.subrange(0, n as int).map_values(
                        |e: (Seq<char>, Seq<char>)| ValidationErrorV::Validation { path: e.0, message: e.1 },
                    ),
                decreases rest.len(),
            {
                let (path, message) = rest.remove(0);
                let ghost e0 = errors@.map_values(|e: ValidationErrorType| error_view(e));
                let ghost item = ValidationErrorV::Validation { path: path@, message: message@ };
                assert(fv[n as int] == (path@, message@));
                errors.push(ValidationErrorType::Validation { path, message });
                assert(errors@.map_values(|e: ValidationErrorType| error_view(e)) =~= e0.push(item));
                assert(fv.subrange(0, n + 1).map_values(
                    |e: (Seq<char>, Seq<char>)| ValidationErrorV::Validation { path: e.0, message: e.1 },
                ) =~= fv.subrange(0, n as int).map_values(
                    |e: (Seq<char>, Seq<char>)| ValidationErrorV::Validation { path: e.0, message: e.1 },
                ).push(item));
                n = n + 1;
                assert(rest@ =~= all.subrange(n as int, all.len() as int));
            }
            assert(fv.subrange(0, n as int) =~= fv);
            Err(errors)
        },
    }
}

/// Validates a template against a JSON schema (draft 7) whose references are
/// of the form that `schema_ok` admits: success, every error with the path of the part it
/// concerns, or the schema's compile error.
pub fn validate_template(schema: &Json, instance: &Json) -> (r: Result<(), Vec<ValidationErrorType>>)
    requires
        schema_ok(schema@),
    ensures
        match r {
            Ok(()) => validation_spec(schema_check(schema@, instance@)) == Ok::<(), Seq<ValidationErrorV>>(()),
            Err(es) => validation_spec(schema_check(schema@, instance@)) == Err::<(), Seq<ValidationErrorV>>(
                es@.map_values(|e: ValidationErrorType| error_view(e)),
            ),
        },
{
    let check = check_against_schema(schema, instance);
    validation_result(check)
}

} // verus!
