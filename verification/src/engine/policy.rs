use vstd::prelude::*;
use crate::engine::labels::LabelSet;
use crate::text::{contains, ends_with, occurs_at, starts_with, str_contains, str_ends_with};

verus! {

/// Some changed file is code (`.rs` or `.py`).
pub open spec fn has_code_change(files: Seq<String>) -> bool {
    exists|i: int| 0 <= i < files.len() && (ends_with((#[trigger] files[i])@, ".rs"@) || ends_with(files[i]@, ".py"@))
}

/// Some changed file is a project manifest (`Cargo.toml` or `package.json`).
pub open spec fn has_manifest_change(files: Seq<String>) -> bool {
    exists|i: int| 0 <= i < files.len() && (contains((#[trigger] files[i])@, "Cargo.toml"@) || contains(files[i]@, "package.json"@))
}

/// Some label holds `part`.
pub open spec fn some_contains(s: Set<Seq<char>>, part: Seq<char>) -> bool {
    exists|x: Seq<char>| s.contains(x) && contains(x, part)
}

/// Some label begins with `prefix`.
pub open spec fn some_starts_with(s: Set<Seq<char>>, prefix: Seq<char>) -> bool {
    exists|x: Seq<char>| s.contains(x) && starts_with(x, prefix)
}

/// `s` without the labels that begin with `prefix`.
pub open spec fn without_prefix(s: Set<Seq<char>>, prefix: Seq<char>) -> Set<Seq<char>> {
    s.filter(|x: Seq<char>| !starts_with(x, prefix))
}

/// Step one of the policy: a blocking label raises the priority to `p:p0`,
/// in place of every other priority.
pub open spec fn escalate(s: Set<Seq<char>>) -> Set<Seq<char>> {
    if some_contains(s, "blocking"@) {
        without_prefix(s, "p:"@).insert("p:p0"@)
    } else {
        s
    }
}

/// Step two: code changes cannot finalize without approval (`rev:ready`);
/// the stage goes back to review and waits.
pub open spec fn guard_finalize(s: Set<Seq<char>>, files: Seq<String>) -> Set<Seq<char>> {
    if has_code_change(files) && s.contains("stage:finalize"@) && !s.contains("rev:ready"@) {
        s.remove("stage:finalize"@).insert("stage:review"@).insert("auto:wait"@)
    } else {
        s
    }
}

/// Step three: a changed manifest makes the work a dependency change.
pub open spec fn mark_dependency(s: Set<Seq<char>>, files: Seq<String>) -> Set<Seq<char>> {
    if has_manifest_change(files) {
        s.insert("type:dep"@)
    } else {
        s
    }
}

/// The project policy applied to a set of labels.
pub open spec fn enforce_spec(s: Set<Seq<char>>, files: Seq<String>) -> Set<Seq<char>> {
    mark_dependency(guard_finalize(escalate(s), files), files)
}

fn any_code_change(files: &Vec<String>) -> (r: bool)
    ensures
        r == has_code_change(files@),
{
    let mut i: usize = 0;
    while i < files.len()
        invariant
            i <= files@.len(),
            forall|k: int| 0 <= k < i ==> !(ends_with((#[trigger] files@[k])@, ".rs"@) || ends_with(files@[k]@, ".py"@)),
        decreases files.len() - i,
    {
        if str_ends_with(files[i].as_str(), ".rs") || str_ends_with(files[i].as_str(), ".py") {
            return true;
        }
        i = i + 1;
    }
    false
}

fn any_manifest_change(files: &Vec<String>) -> (r: bool)
    ensures
        r == has_manifest_change(files@),
{
    let mut i: usize = 0;
    while i < files.len()
        invariant
            i <= files@.len(),
            forall|k: int| 0 <= k < i ==> !(contains((#[trigger] files@[k])@, "Cargo.toml"@) || contains(files@[k]@, "package.json"@)),
        decreases files.len() - i,
    {
        if str_contains(files[i].as_str(), "Cargo.toml") || str_contains(files[i].as_str(), "package.json") {
            return true;
        }
        i = i + 1;
    }
    false
}

/// The project's label policy.
pub struct PolicyEngine;

impl PolicyEngine {
    /// Applies the policy: a blocking label sets the priority to `p:p0`;
    /// code changes that try to finalize without `rev:ready` go back to
    /// `stage:review` with `auto:wait`; a changed `Cargo.toml` or
    /// `package.json` adds `type:dep`.
    pub fn enforce(labels: &mut LabelSet, changed_files: &Vec<String>)
        ensures
            final(labels)@ == enforce_spec(old(labels)@, changed_files@),
    {
        if labels.any_contains("blocking") {
            labels.retain_not_prefixed("p:");
            labels.insert("p:p0".to_string());
        }
        let ghost s1 = labels@;
        assert(s1 == escalate(old(labels)@));
        let has_code_changes = any_code_change(changed_files);
        let is_finalizing = labels.contains("stage:finalize");
        let is_approved = labels.contains("rev:ready");
        if has_code_changes && is_finalizing && !is_approved {
            labels.remove("stage:finalize");
            labels.insert("stage:review".to_string());
            labels.insert("auto:wait".to_string());
        }
        assert(labels@ == guard_finalize(s1, changed_files@));
        if any_manifest_change(changed_files) {
            labels.insert("type:dep".to_string());
        }
    }
}

/// The laws of the policy: a blocking label leaves `p:p0` as the only
/// priority; with code changes, a set without `rev:ready` never ends on
/// `stage:finalize`, and one that tried goes back to review and waits; a
/// changed manifest always marks a dependency change.
pub proof fn lemma_policy(s: Set<Seq<char>>, files: Seq<String>)
    ensures
        some_contains(s, "blocking"@) ==> enforce_spec(s, files).contains("p:p0"@) && forall|x: Seq<char>|
            #[trigger] enforce_spec(s, files).contains(x) && starts_with(x, "p:"@) ==> x == "p:p0"@,
        has_code_change(files) && !enforce_spec(s, files).contains("rev:ready"@) ==> !enforce_spec(
            s,
            files,
        ).contains("stage:finalize"@),
        has_code_change(files) && s.contains("stage:finalize"@) && !s.contains("rev:ready"@)
            ==> enforce_spec(s, files).contains("stage:review"@) && enforce_spec(s, files).contains(
            "auto:wait"@,
        ),
        has_manifest_change(files) ==> enforce_spec(s, files).contains("type:dep"@),
{
    reveal_strlit("p:p0");
    reveal_strlit("p:");
    reveal_strlit("stage:review");
    reveal_strlit("stage:finalize");
    reveal_strlit("auto:wait");
    reveal_strlit("type:dep");
    reveal_strlit("rev:ready");
    let e = escalate(s);
    let p = "p:"@;
    assert(p[0] == 'p');
    assert("stage:review"@[0] == 's');
    assert("stage:finalize"@[0] == 's');
    assert("stage:finalize"@[6] == 'f');
    assert("stage:review"@[6] == 'r');
    assert("auto:wait"@[0] == 'a');
    assert("type:dep"@[0] == 't');
    assert("rev:ready"@[0] == 'r');
    assert("p:p0"@[0] == 'p');
    assert(!starts_with("stage:review"@, p)) by {
        assert("stage:review"@.subrange(0, 2)[0] == 's');
    }
    assert(!starts_with("stage:finalize"@, p)) by {
        assert("stage:finalize"@.subrange(0, 2)[0] == 's');
    }
    assert(!starts_with("rev:ready"@, p)) by {
        assert("rev:ready"@.subrange(0, 2)[0] == 'r');
    }
    assert(!starts_with("auto:wait"@, p)) by {
        assert("auto:wait"@.subrange(0, 2)[0] == 'a');
    }
    assert(!starts_with("type:dep"@, p)) by {
        assert("type:dep"@.subrange(0, 2)[0] == 't');
    }
    assert(s.contains("stage:finalize"@) ==> e.contains("stage:finalize"@));
    assert(s.contains("rev:ready"@) <==> e.contains("rev:ready"@));
    if some_contains(s, "blocking"@) {
        assert(starts_with("p:p0"@, p)) by {
            assert("p:p0"@.subrange(0, 2) =~= p);
        }
        assert forall|x: Seq<char>| #[trigger] enforce_spec(s, files).contains(x) && starts_with(x, "p:"@) implies x
            == "p:p0"@ by {
            if x != "p:p0"@ {
                assert(e.contains(x));
            }
        }
    }
}

/// A label that does not contain "blocking": one whose first candidate
/// positions for a 'b' hold none.
proof fn lemma_no_blocking(t: Seq<char>)
    requires
        forall|i: int| 0 <= i <= t.len() - 8 ==> t[i] != 'b',
    ensures
        !contains(t, "blocking"@),
{
    reveal_strlit("blocking");
    assert forall|i: int| !occurs_at(t, "blocking"@, i) by {
        if occurs_at(t, "blocking"@, i) {
            assert(t.subrange(i, i + 8)[0] == t[i]);
        }
    }
}

/// The labels that the policy adds hold no "blocking".
proof fn lemma_added_labels_not_blocking()
    ensures
        !contains("stage:review"@, "blocking"@),
        !contains("auto:wait"@, "blocking"@),
        !contains("type:dep"@, "blocking"@),
        !contains("p:p0"@, "blocking"@),
{
    reveal_strlit("stage:review");
    reveal_strlit("auto:wait");
    reveal_strlit("type:dep");
    reveal_strlit("p:p0");
    let a = "stage:review"@;
    assert forall|i: int| 0 <= i <= a.len() - 8 implies a[i] != 'b' by {
        assert(i == 0 || i == 1 || i == 2 || i == 3 || i == 4);
    }
    lemma_no_blocking(a);
    let b = "auto:wait"@;
    assert forall|i: int| 0 <= i <= b.len() - 8 implies b[i] != 'b' by {
        assert(i == 0 || i == 1);
    }
    lemma_no_blocking(b);
    let c = "type:dep"@;
    assert forall|i: int| 0 <= i <= c.len() - 8 implies c[i] != 'b' by {
        assert(i == 0);
    }
    lemma_no_blocking(c);
    lemma_no_blocking("p:p0"@);
}

/// The laws of applying the policy twice and of what it keeps: applying it
/// again changes nothing, and every label that is no priority (`p:...`) and
/// not `stage:finalize` stays.
pub proof fn lemma_policy_idempotent(s: Set<Seq<char>>, files: Seq<String>)
    ensures
        enforce_spec(enforce_spec(s, files), files) == enforce_spec(s, files),
        forall|x: Seq<char>|
            s.contains(x) && !starts_with(x, "p:"@) && x != "stage:finalize"@ ==> #[trigger] enforce_spec(
                s,
                files,
            ).contains(x),
{
    lemma_policy(s, files);
    lemma_added_labels_not_blocking();
    let e = escalate(s);
    let e1 = enforce_spec(s, files);
    // Escalating again changes nothing.
    if some_contains(s, "blocking"@) {
        if some_contains(e1, "blocking"@) {
            assert(without_prefix(e1, "p:"@).insert("p:p0"@) =~= e1);
        }
        assert(escalate(e1) == e1);
    } else {
        assert(e == s);
        if some_contains(e1, "blocking"@) {
            let x = choose|x: Seq<char>| e1.contains(x) && contains(x, "blocking"@);
            assert(s.contains(x));
            assert(some_contains(s, "blocking"@));
        }
        assert(escalate(e1) == e1);
    }
    // The guard and the dependency mark change nothing either.
    assert(guard_finalize(e1, files) == e1);
    if has_manifest_change(files) {
        assert(e1.insert("type:dep"@) =~= e1);
    }
    assert(mark_dependency(e1, files) == e1);
    // What is kept.
    reveal_strlit("p:p0");
    reveal_strlit("p:");
    assert forall|x: Seq<char>|
        s.contains(x) && !starts_with(x, "p:"@) && x != "stage:finalize"@ implies #[trigger] e1.contains(x) by {
        assert(e.contains(x));
        assert(guard_finalize(e, files).contains(x));
    }
}

} // verus!
