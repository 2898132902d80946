use vstd::prelude::*;
use crate::engine::labels::{LabelSet, strictly_sorted, text_set};
use crate::text::{contains, ends_with, str_contains, str_ends_with};

verus! {

/// The language label of a changed file, if its extension names one.
pub open spec fn language_label(f: Seq<char>) -> Option<Seq<char>> {
    if ends_with(f, ".rs"@) {
        Some("lang:rust"@)
    } else if ends_with(f, ".py"@) {
        Some("lang:python"@)
    } else if ends_with(f, ".js"@) || ends_with(f, ".ts"@) {
        Some("lang:node"@)
    } else {
        None
    }
}

/// The kind labels of a changed file, from its path.
pub open spec fn kind_labels(f: Seq<char>) -> Set<Seq<char>> {
    if contains(f, "tests/"@) {
        set!["type:test"@, "stage:test"@]
    } else if contains(f, "docs/"@) || ends_with(f, ".md"@) {
        set!["type:docs"@]
    } else if contains(f, "Cargo.toml"@) || contains(f, "package.json"@) {
        set!["type:dep"@]
    } else {
        Set::empty()
    }
}

/// The labels of one changed file.
pub open spec fn file_labels_of(f: Seq<char>) -> Set<Seq<char>> {
    match language_label(f) {
        Some(l) => kind_labels(f).insert(l),
        None => kind_labels(f),
    }
}

/// The labels of all changed files.
pub open spec fn file_labels(files: Seq<String>) -> Set<Seq<char>> {
    Set::new(|x: Seq<char>| exists|i: int| 0 <= i < files.len() && file_labels_of((#[trigger] files[i])@).contains(x))
}

/// Labels from the paths of changed files.
pub struct FileDetector;

impl FileDetector {
    /// The labels that the changed files call for, in increasing order, each
    /// once: the language of each source file (`.rs`, `.py`, `.js`/`.ts`),
    /// tests for paths under `tests/`, docs for `docs/` and `.md` files, a
    /// dependency change for `Cargo.toml` and `package.json`.
    pub fn detect(changed_files: &Vec<String>) -> (r: Vec<String>)
        ensures
            strictly_sorted(r@),
            text_set(r@) == file_labels(changed_files@),
    {
        let mut detected = LabelSet::new();
        let mut i: usize = 0;
        while i < changed_files.len()
            invariant
                i <= changed_files@.len(),
                detected@ == file_labels(changed_files@.subrange(0, i as int)),
            decreases changed_files.len() - i,
        {
            let ghost s0 = detected@;
            let file = changed_files[i].as_str();
            if str_ends_with(file, ".rs") {
                detected.insert("lang:rust".to_string());
            } else if str_ends_with(file, ".py") {
                detected.insert("lang:python".to_string());
            } else if str_ends_with(file, ".js") || str_ends_with(file, ".ts") {
                detected.insert("lang:node".to_string());
            }
            if str_contains(file, "tests/") {
                detected.insert("type:test".to_string());
                detected.insert("stage:test".to_string());
            } else if str_contains(file, "docs/") || str_ends_with(file, ".md") {
                detected.insert("type:docs".to_string());
            } else if str_contains(file, "Cargo.toml") || str_contains(file, "package.json") {
                detected.insert("type:dep".to_string());
            }
            assert(detected@ =~= s0.union(file_labels_of(changed_files@[i as int]@)));
            assert(file_labels(changed_files@.subrange(0, i + 1)) =~= s0.union(
                file_labels_of(changed_files@[i as int]@),
            )) by {
                let sub = changed_files@.subrange(0, i + 1);
                assert forall|x: Seq<char>| file_labels(sub).contains(x) implies s0.union(
                    file_labels_of(changed_files@[i as int]@),
                ).contains(x) by {
                    let k = choose|k: int| 0 <= k < sub.len() && file_labels_of((#[trigger] sub[k])@).contains(x);
                    if k < i {
                        assert(changed_files@.subrange(0, i as int)[k] == sub[k]);
                    }
                }
                assert forall|x: Seq<char>| s0.union(file_labels_of(changed_files@[i as int]@)).contains(x) implies file_labels(
                    sub,
                ).contains(x) by {
                    if s0.contains(x) {
                        let k = choose|k: int| 0 <= k < i && file_labels_of(
                            (#[trigger] changed_files@.subrange(0, i as int)[k])@,
                        ).contains(x);
                        assert(changed_files@.subrange(0, i as int)[k] == sub[k]);
                    } else {
                        assert(sub[i as int] == changed_files@[i as int]);
                    }
                }
            }
            i = i + 1;
        }
        assert(changed_files@.subrange(0, changed_files@.len() as int) =~= changed_files@);
        detected.into_sorted()
    }
}

/// The law of file labels: a path ending in `.rs` gets `lang:rust`, `.py`
/// `lang:python`, `.js` or `.ts` `lang:node`; a path under `tests/` gets
/// `type:test` and `stage:test`; otherwise one under `docs/` or ending in
/// `.md` gets `type:docs`; otherwise one naming `Cargo.toml` or
/// `package.json` gets `type:dep`; and a file gets no label but for these
/// reasons. The labels of several files are those of each file.
pub proof fn lemma_file_labels(f: Seq<char>, files: Seq<String>, x: Seq<char>)
    ensures
        ends_with(f, ".rs"@) ==> file_labels_of(f).contains("lang:rust"@),
        ends_with(f, ".py"@) ==> file_labels_of(f).contains("lang:python"@),
        ends_with(f, ".js"@) || ends_with(f, ".ts"@) ==> file_labels_of(f).contains("lang:node"@),
        contains(f, "tests/"@) ==> file_labels_of(f).contains("type:test"@) && file_labels_of(f).contains(
            "stage:test"@,
        ),
        !contains(f, "tests/"@) && (contains(f, "docs/"@) || ends_with(f, ".md"@)) ==> file_labels_of(
            f,
        ).contains("type:docs"@),
        !contains(f, "tests/"@) && !contains(f, "docs/"@) && !ends_with(f, ".md"@) && (contains(
            f,
            "Cargo.toml"@,
        ) || contains(f, "package.json"@)) ==> file_labels_of(f).contains("type:dep"@),
        file_labels_of(f).contains(x) ==> {
            ||| x == "lang:rust"@ && ends_with(f, ".rs"@)
            ||| x == "lang:python"@ && ends_with(f, ".py"@)
            ||| x == "lang:node"@ && (ends_with(f, ".js"@) || ends_with(f, ".ts"@))
            ||| (x == "type:test"@ || x == "stage:test"@) && contains(f, "tests/"@)
            ||| x == "type:docs"@ && (contains(f, "docs/"@) || ends_with(f, ".md"@))
            ||| x == "type:dep"@ && (contains(f, "Cargo.toml"@) || contains(f, "package.json"@))
        },
        file_labels(files).contains(x) <==> exists|i: int| 0 <= i < files.len() && file_labels_of(files[i]@).contains(x),
{
    reveal_strlit(".rs");
    reveal_strlit(".py");
    reveal_strlit(".js");
    reveal_strlit(".ts");
    let n = f.len() as int;
    if ends_with(f, ".rs"@) {
        assert(f[n - 1] == f.subrange(n - 3, n)[2]);
    }
    if ends_with(f, ".py"@) {
        assert(f[n - 1] == f.subrange(n - 3, n)[2]);
    }
    if ends_with(f, ".js"@) {
        assert(f[n - 1] == f.subrange(n - 3, n)[2]);
        assert(f[n - 2] == f.subrange(n - 3, n)[1]);
    }
    if ends_with(f, ".ts"@) {
        assert(f[n - 1] == f.subrange(n - 3, n)[2]);
        assert(f[n - 2] == f.subrange(n - 3, n)[1]);
    }
    assert(file_labels(files).contains(x) == exists|i: int| 0 <= i < files.len() && file_labels_of((#[trigger] files[i])@).contains(x));
}

} // verus!
