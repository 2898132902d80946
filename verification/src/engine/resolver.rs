use vstd::prelude::*;
use crate::engine::labels::{LabelSet, lemma_text_set_texts, strictly_sorted, text_set, texts};
use crate::engine::policy::{
    PolicyEngine, enforce_spec, escalate, guard_finalize, mark_dependency, some_contains, some_starts_with,
    without_prefix,
};
use crate::text::{
    chars_of, find_from, find_from_exec, is_ws, lemma_find_from, occurs_at, starts_with, str_eq, string_of,
    string_of_range, trim, trim_bounds, trim_end, trim_start,
};

verus! {

/// The group of a label: the trimmed text before its first ':', if it has one.
pub open spec fn label_group(l: Seq<char>) -> Option<Seq<char>> {
    match find_from(l, seq![':'], 0) {
        Some(i) => Some(trim(l.subrange(0, i))),
        None => None,
    }
}

/// The groups in which a label excludes the others: stage, type, p, size,
/// lang, env, plat, rev.
pub open spec fn exclusive_group(g: Seq<char>) -> bool {
    g == "stage"@ || g == "type"@ || g == "p"@ || g == "size"@ || g == "lang"@ || g == "env"@
        || g == "plat"@ || g == "rev"@
}

/// `s` with `l` added; where `l` belongs to an exclusive group, the labels of
/// that group leave first.
pub open spec fn add_exclusive_spec(s: Set<Seq<char>>, l: Seq<char>) -> Set<Seq<char>> {
    match label_group(l) {
        Some(g) => if exclusive_group(g) {
            s.filter(|x: Seq<char>| !starts_with(x, g + seq![':'])).insert(l)
        } else {
            s.insert(l)
        },
        None => s.insert(l),
    }
}

/// The labels of `q`, added one after the other, to `s`.
pub open spec fn add_all(s: Set<Seq<char>>, q: Seq<Seq<char>>) -> Set<Seq<char>>
    decreases q.len(),
{
    if q.len() == 0 {
        s
    } else {
        add_exclusive_spec(add_all(s, q.drop_last()), q.last())
    }
}

/// `s` with a label for each required group that has none: `stage:spec`,
/// `size:m`, `p:p1`.
pub open spec fn defaults_spec(s: Set<Seq<char>>) -> Set<Seq<char>> {
    let s1 = if !some_starts_with(s, "stage:"@) {
        s.insert("stage:spec"@)
    } else {
        s
    };
    let s2 = if !some_starts_with(s1, "size:"@) {
        s1.insert("size:m"@)
    } else {
        s1
    };
    if !some_starts_with(s2, "p:"@) {
        s2.insert("p:p1"@)
    } else {
        s2
    }
}

/// The labels that resolving gives: the current labels without those removed
/// by hand, then the detected labels and those added by hand (each excluding
/// its group), then the policy, then the defaults.
pub open spec fn resolve_spec(
    detected: Seq<Seq<char>>,
    manual_add: Seq<Seq<char>>,
    manual_remove: Seq<Seq<char>>,
    current: Seq<Seq<char>>,
    changed_files: Seq<String>,
) -> Set<Seq<char>> {
    defaults_spec(
        enforce_spec(
            add_all(add_all(current.to_set().difference(manual_remove.to_set()), detected), manual_add),
            changed_files,
        ),
    )
}

fn is_exclusive_group(g: &str) -> (r: bool)
    ensures
        r == exclusive_group(g@),
{
    str_eq(g, "stage") || str_eq(g, "type") || str_eq(g, "p") || str_eq(g, "size") || str_eq(g, "lang")
        || str_eq(g, "env") || str_eq(g, "plat") || str_eq(g, "rev")
}

/// Resolves labels from what was detected, what was added and removed by
/// hand, the current labels and the changed files.
pub struct Resolver;

impl Resolver {
    /// The resolved labels, in increasing order, each once: the current
    /// labels without those removed by hand; the detected labels, then those
    /// added by hand, each replacing the labels of its exclusive group; the
    /// project policy; and a default stage, size and priority where missing.
    pub fn resolve(
        detected: Vec<String>,
        manual_add: Vec<String>,
        manual_remove: Vec<String>,
        current: Vec<String>,
        changed_files: Vec<String>,
    ) -> (r: Vec<String>)
        ensures
            strictly_sorted(r@),
            text_set(r@) == resolve_spec(
                texts(detected@),
                texts(manual_add@),
                texts(manual_remove@),
                texts(current@),
                changed_files@,
            ),
    {
        proof {
            lemma_text_set_texts(current@);
            lemma_text_set_texts(manual_remove@);
        }
        let mut final_labels = LabelSet::from_vec(current);
        let ghost base = final_labels@;
        let mut i: usize = 0;
        while i < manual_remove.len()
            invariant
                i <= manual_remove@.len(),
                final_labels@ == base.difference(text_set(manual_remove@.subrange(0, i as int))),
            decreases manual_remove.len() - i,
        {
            let ghost s0 = final_labels@;
            final_labels.remove(manual_remove[i].as_str());
            assert(final_labels@ =~= base.difference(text_set(manual_remove@.subrange(0, i + 1)))) by {
                assert forall|x: Seq<char>| text_set(manual_remove@.subrange(0, i + 1)).contains(x) <==> (
                text_set(manual_remove@.subrange(0, i as int)).contains(x) || x == manual_remove@[i as int]@) by {
                    if text_set(manual_remove@.subrange(0, i + 1)).contains(x) {
                        let k = choose|k: int| 0 <= k < i + 1 && (#[trigger] manual_remove@.subrange(0, i + 1)[k])@ == x;
                        if k < i {
                            assert(manual_remove@.subrange(0, i as int)[k] == manual_remove@.subrange(0, i + 1)[k]);
                        }
                    }
                    if text_set(manual_remove@.subrange(0, i as int)).contains(x) {
                        let k = choose|k: int| 0 <= k < i && (#[trigger] manual_remove@.subrange(0, i as int)[k])@ == x;
                        assert(manual_remove@.subrange(0, i as int)[k] == manual_remove@.subrange(0, i + 1)[k]);
                    }
                    if x == manual_remove@[i as int]@ {
                        assert(manual_remove@.subrange(0, i + 1)[i as int] == manual_remove@[i as int]);
                    }
                }
            }
            i = i + 1;
        }
        assert(manual_remove@.subrange(0, manual_remove@.len() as int) =~= manual_remove@);
        Self::add_each(&mut final_labels, detected);
        Self::add_each(&mut final_labels, manual_add);
        PolicyEngine::enforce(&mut final_labels, &changed_files);
        Self::ensure_defaults(&mut final_labels);
        final_labels.into_sorted()
    }

    fn add_each(labels: &mut LabelSet, items: Vec<String>)
        ensures
            final(labels)@ == add_all(old(labels)@, texts(items@)),
    {
        let ghost s0 = labels@;
        let ghost all = items@;
        let mut rest = items;
        let mut n: usize = 0;
        assert(all.len() == rest.len());
        assert(rest@ =~= all.subrange(0, all.len() as int));
        assert(all.subrange(0, 0) =~= Seq::<String>::empty());
        while rest.len() > 0
            invariant
                all.len() <= usize::MAX,
                n + rest@.len() == all.len(),
                rest@ == all.subrange(n as int, all.len() as int),
                labels@ == add_all(s0, texts(all.subrange(0, n as int))),
            decreases rest.len(),
        {
            let x = rest.remove(0);
            assert(x == all[n as int]);
            Self::add_exclusive(labels, x);
            assert(texts(all.subrange(0, n + 1)).drop_last() =~= texts(all.subrange(0, n as int)));
            n = n + 1;
            assert(rest@ =~= all.subrange(n as int, all.len() as int));
        }
        assert(all.subrange(0, n as int) =~= all);
        assert(all.subrange(0, 0) =~= Seq::<String>::empty());
    }

    /// Adds a label; where it belongs to an exclusive group (stage, type, p,
    /// size, lang, env, plat, rev), the labels of that group leave first.
    pub fn add_exclusive(labels: &mut LabelSet, new_label: String)
        ensures
            final(labels)@ == add_exclusive_spec(old(labels)@, new_label@),
    {
        let ghost s0 = labels@;
        let v = chars_of(new_label.as_str());
        let colon = vec![':'];
        assert(colon@ =~= seq![':']);
        proof {
            lemma_find_from(v@, colon@, 0);
        }
        match find_from_exec(&v, &colon, 0) {
            Some(i) => {
                let (a, b) = trim_bounds(&v, 0, i);
                let g = string_of_range(&v, a, b);
                assert(label_group(new_label@) == Some(g@));
                if is_exclusive_group(g.as_str()) {
                    let mut p: Vec<char> = chars_of(g.as_str());
                    p.push(':');
                    let prefix = string_of(&p);
                    assert(prefix@ =~= g@ + seq![':']);
                    labels.retain_not_prefixed(prefix.as_str());
                    assert(labels@ =~= s0.filter(|x: Seq<char>| !starts_with(x, g@ + seq![':'])));
                }
            },
            None => {},
        }
        labels.insert(new_label);
    }

    /// Adds a default for each required group that has no label: `stage:spec`,
    /// `size:m`, `p:p1`.
    pub fn ensure_defaults(labels: &mut LabelSet)
        ensures
            final(labels)@ == defaults_spec(old(labels)@),
    {
        if !labels.any_starts_with("stage:") {
            labels.insert("stage:spec".to_string());
        }
        if !labels.any_starts_with("size:") {
            labels.insert("size:m".to_string());
        }
        if !labels.any_starts_with("p:") {
            labels.insert("p:p1".to_string());
        }
    }
}

/// The law of the defaults: after them, the set has a stage, a size and a
/// priority label.
pub proof fn lemma_defaults_complete(s: Set<Seq<char>>)
    ensures
        some_starts_with(defaults_spec(s), "stage:"@),
        some_starts_with(defaults_spec(s), "size:"@),
        some_starts_with(defaults_spec(s), "p:"@),
{
    reveal_strlit("stage:spec");
    reveal_strlit("stage:");
    reveal_strlit("size:m");
    reveal_strlit("size:");
    reveal_strlit("p:p1");
    reveal_strlit("p:");
    assert("stage:spec"@.subrange(0, 6) =~= "stage:"@);
    assert("size:m"@.subrange(0, 5) =~= "size:"@);
    assert("p:p1"@.subrange(0, 2) =~= "p:"@);
    let d = defaults_spec(s);
    let s1 = if !some_starts_with(s, "stage:"@) {
        s.insert("stage:spec"@)
    } else {
        s
    };
    let s2 = if !some_starts_with(s1, "size:"@) {
        s1.insert("size:m"@)
    } else {
        s1
    };
    assert(some_starts_with(s1, "stage:"@)) by {
        if some_starts_with(s, "stage:"@) {
            let x = choose|x: Seq<char>| s.contains(x) && starts_with(x, "stage:"@);
            assert(s1.contains(x));
        } else {
            assert(s1.contains("stage:spec"@));
        }
    }
    assert(some_starts_with(s2, "stage:"@)) by {
        let x = choose|x: Seq<char>| s1.contains(x) && starts_with(x, "stage:"@);
        assert(s2.contains(x));
    }
    assert(some_starts_with(s2, "size:"@)) by {
        if some_starts_with(s1, "size:"@) {
            let x = choose|x: Seq<char>| s1.contains(x) && starts_with(x, "size:"@);
            assert(s2.contains(x));
        } else {
            assert(s2.contains("size:m"@));
        }
    }
    assert(some_starts_with(d, "stage:"@)) by {
        let x = choose|x: Seq<char>| s2.contains(x) && starts_with(x, "stage:"@);
        assert(d.contains(x));
    }
    assert(some_starts_with(d, "size:"@)) by {
        let x = choose|x: Seq<char>| s2.contains(x) && starts_with(x, "size:"@);
        assert(d.contains(x));
    }
    assert(some_starts_with(d, "p:"@)) by {
        if some_starts_with(s2, "p:"@) {
            let x = choose|x: Seq<char>| s2.contains(x) && starts_with(x, "p:"@);
            assert(d.contains(x));
        } else {
            assert(d.contains("p:p1"@));
        }
    }
}

/// The law of defaults: the labels stay; a group among stage, size and
/// priority that has no label gets `stage:spec`, `size:m` and `p:p1`; and no
/// label comes but these, and only for a group that had none.
pub proof fn lemma_defaults_values(s: Set<Seq<char>>)
    ensures
        s.subset_of(defaults_spec(s)),
        !some_starts_with(s, "stage:"@) ==> defaults_spec(s).contains("stage:spec"@),
        !some_starts_with(s, "size:"@) ==> defaults_spec(s).contains("size:m"@),
        !some_starts_with(s, "p:"@) ==> defaults_spec(s).contains("p:p1"@),
        forall|x: Seq<char>|
            #[trigger] defaults_spec(s).contains(x) && !s.contains(x) ==> (x == "stage:spec"@ && !some_starts_with(
                s,
                "stage:"@,
            )) || (x == "size:m"@ && !some_starts_with(s, "size:"@)) || (x == "p:p1"@ && !some_starts_with(
                s,
                "p:"@,
            )),
{
    reveal_strlit("stage:spec");
    reveal_strlit("stage:");
    reveal_strlit("size:m");
    reveal_strlit("size:");
    reveal_strlit("p:p1");
    reveal_strlit("p:");
    assert(!starts_with("stage:spec"@, "size:"@)) by {
        assert("stage:spec"@.subrange(0, 5)[1] != "size:"@[1]);
    }
    assert(!starts_with("stage:spec"@, "p:"@)) by {
        assert("stage:spec"@.subrange(0, 2)[0] != "p:"@[0]);
    }
    assert(!starts_with("size:m"@, "p:"@)) by {
        assert("size:m"@.subrange(0, 2)[0] != "p:"@[0]);
    }
    let s1 = if !some_starts_with(s, "stage:"@) {
        s.insert("stage:spec"@)
    } else {
        s
    };
    let s2 = if !some_starts_with(s1, "size:"@) {
        s1.insert("size:m"@)
    } else {
        s1
    };
    assert(some_starts_with(s1, "size:"@) == some_starts_with(s, "size:"@)) by {
        if some_starts_with(s1, "size:"@) {
            let x = choose|x: Seq<char>| s1.contains(x) && starts_with(x, "size:"@);
            assert(s.contains(x));
        }
        if some_starts_with(s, "size:"@) {
            let x = choose|x: Seq<char>| s.contains(x) && starts_with(x, "size:"@);
            assert(s1.contains(x));
        }
    }
    assert(some_starts_with(s2, "p:"@) == some_starts_with(s, "p:"@)) by {
        if some_starts_with(s2, "p:"@) {
            let x = choose|x: Seq<char>| s2.contains(x) && starts_with(x, "p:"@);
            assert(s.contains(x));
        }
        if some_starts_with(s, "p:"@) {
            let x = choose|x: Seq<char>| s.contains(x) && starts_with(x, "p:"@);
            assert(s2.contains(x));
        }
    }
}

/// The law of exclusive groups: after a label of an exclusive group is added,
/// it is the only label of its group.
pub proof fn lemma_add_exclusive(s: Set<Seq<char>>, l: Seq<char>)
    ensures
        add_exclusive_spec(s, l).contains(l),
        label_group(l) is Some && exclusive_group(label_group(l)->Some_0) ==> forall|x: Seq<char>|
            #[trigger] add_exclusive_spec(s, l).contains(x) && starts_with(
                x,
                label_group(l)->Some_0 + seq![':'],
            ) ==> x == l,
        forall|x: Seq<char>| s.contains(x) && label_group(l) is None ==> #[trigger] add_exclusive_spec(s, l).contains(x),
{
}

/// The law of resolving: the result always has a stage, a size and a
/// priority label.
pub proof fn lemma_resolve_complete(
    detected: Seq<Seq<char>>,
    manual_add: Seq<Seq<char>>,
    manual_remove: Seq<Seq<char>>,
    current: Seq<Seq<char>>,
    changed_files: Seq<String>,
)
    ensures
        some_starts_with(resolve_spec(detected, manual_add, manual_remove, current, changed_files), "stage:"@),
        some_starts_with(resolve_spec(detected, manual_add, manual_remove, current, changed_files), "size:"@),
        some_starts_with(resolve_spec(detected, manual_add, manual_remove, current, changed_files), "p:"@),
{
    lemma_defaults_complete(
        enforce_spec(
            add_all(add_all(current.to_set().difference(manual_remove.to_set()), detected), manual_add),
            changed_files,
        ),
    );
}

/// A label of group `g`: it begins with `g` and ':'.
pub open spec fn in_group(x: Seq<char>, g: Seq<char>) -> bool {
    starts_with(x, g + seq![':'])
}

/// `s` holds exactly one label of group `g`.
pub open spec fn one_in_group(s: Set<Seq<char>>, g: Seq<char>) -> bool {
    exists|x: Seq<char>|
        s.contains(x) && in_group(x, g) && forall|y: Seq<char>| #[trigger] s.contains(y) && in_group(y, g) ==> y == x
}

/// The groups in which resolving leaves exactly one label once one is asked
/// for: the exclusive groups but `type`, to which the policy can add
/// `type:dep` beside a detected type.
pub open spec fn single_group(g: Seq<char>) -> bool {
    g == "stage"@ || g == "p"@ || g == "size"@ || g == "lang"@ || g == "env"@ || g == "plat"@ || g == "rev"@
}

/// A text without white space.
pub open spec fn no_ws(l: Seq<char>) -> bool {
    forall|i: int| 0 <= i < l.len() ==> !is_ws(#[trigger] l[i])
}

/// A text without ':'.
pub open spec fn no_colon(g: Seq<char>) -> bool {
    forall|i: int| 0 <= i < g.len() ==> #[trigger] g[i] != ':'
}

/// A label begins with at most one group name.
proof fn lemma_groups_disjoint(x: Seq<char>, g: Seq<char>, h: Seq<char>)
    requires
        no_colon(g),
        no_colon(h),
        in_group(x, g),
        in_group(x, h),
    ensures
        g == h,
{
    let gl = g.len() as int;
    let hl = h.len() as int;
    assert(x.subrange(0, gl + 1)[gl] == ':');
    assert(x.subrange(0, hl + 1)[hl] == ':');
    if gl < hl {
        assert(x.subrange(0, hl + 1)[gl] == h[gl]);
        assert(x[gl] == ':');
    } else if hl < gl {
        assert(x.subrange(0, gl + 1)[hl] == g[hl]);
        assert(x[hl] == ':');
    } else {
        assert forall|i: int| 0 <= i < g.len() implies g[i] == h[i] by {
            assert(x.subrange(0, gl + 1)[i] == g[i]);
            assert(x.subrange(0, hl + 1)[i] == h[i]);
        }
        assert(g =~= h);
    }
}

/// A text without white space is its own trim.
proof fn lemma_trim_no_ws(s: Seq<char>)
    requires
        no_ws(s),
    ensures
        trim(s) == s,
{
    if s.len() > 0 {
        assert(!is_ws(s[0]));
        assert(!is_ws(s.last()));
    }
    assert(trim_start(s) == s);
    assert(trim_end(s) == s);
}

/// The group names are plain: no ':' and no white space.
proof fn lemma_group_names()
    ensures
        forall|g: Seq<char>| exclusive_group(g) ==> no_colon(g) && no_ws(g) && g.len() > 0,
        no_colon("auto"@),
{
    reveal_strlit("stage");
    reveal_strlit("type");
    reveal_strlit("p");
    reveal_strlit("size");
    reveal_strlit("lang");
    reveal_strlit("env");
    reveal_strlit("plat");
    reveal_strlit("rev");
    reveal_strlit("auto");
    assert forall|g: Seq<char>| exclusive_group(g) implies no_colon(g) && no_ws(g) && g.len() > 0 by {
        assert forall|i: int| 0 <= i < g.len() implies #[trigger] g[i] != ':' && !is_ws(g[i]) by {
            assert(i == 0 || i == 1 || i == 2 || i == 3 || i == 4);
        }
    }
    assert forall|i: int| 0 <= i < "auto"@.len() implies #[trigger] "auto"@[i] != ':' by {
        assert(i == 0 || i == 1 || i == 2 || i == 3);
    }
}

/// A label of an exclusive group's name has that group; a label without
/// white space has a group only where it begins with the group's name.
proof fn lemma_group_of(l: Seq<char>, g: Seq<char>)
    requires
        exclusive_group(g),
    ensures
        in_group(l, g) ==> label_group(l) == Some(g),
        no_ws(l) && label_group(l) == Some(g) ==> in_group(l, g),
{
    lemma_group_names();
    let c = seq![':'];
    let gl = g.len() as int;
    lemma_find_from(l, c, 0);
    if in_group(l, g) {
        let p = l.subrange(0, gl + 1);
        assert(p == g + c);
        assert(occurs_at(l, c, gl)) by {
            assert(l.subrange(gl, gl + 1) =~= c) by {
                assert(l.subrange(gl, gl + 1)[0] == p[gl]);
            }
        }
        let i = find_from(l, c, 0)->Some_0;
        if i < gl {
            assert(l.subrange(i, i + 1)[0] == l[i]);
            assert(p[i] == l[i]);
            assert(g[i] != ':');
        }
        assert(l.subrange(0, gl) =~= g) by {
            assert forall|k: int| 0 <= k < gl implies l.subrange(0, gl)[k] == g[k] by {
                assert(p[k] == l[k]);
            }
        }
        lemma_trim_no_ws(g);
    }
    if no_ws(l) && label_group(l) == Some(g) {
        let i = find_from(l, c, 0)->Some_0;
        let pre = l.subrange(0, i);
        assert(no_ws(pre)) by {
            assert forall|k: int| 0 <= k < pre.len() implies !is_ws(#[trigger] pre[k]) by {
                assert(pre[k] == l[k]);
            }
        }
        lemma_trim_no_ws(pre);
        assert(pre == g);
        assert(l.subrange(i, i + 1)[0] == l[i]);
        assert(l.subrange(0, gl + 1) =~= g + c) by {
            assert forall|k: int| 0 <= k < gl + 1 implies l.subrange(0, gl + 1)[k] == (g + c)[k] by {
                if k < gl {
                    assert(pre[k] == l[k]);
                }
            }
        }
    }
}

/// Adding labels one after the other keeps exactly one label of a group
/// that had one, and leaves exactly one where one of the added labels is of
/// that group (the last such one).
proof fn lemma_add_all_one(s: Set<Seq<char>>, q: Seq<Seq<char>>, g: Seq<char>)
    requires
        single_group(g),
        forall|i: int| 0 <= i < q.len() ==> no_ws(#[trigger] q[i]),
        one_in_group(s, g) || exists|i: int| 0 <= i < q.len() && in_group(#[trigger] q[i], g),
    ensures
        one_in_group(add_all(s, q), g),
    decreases q.len(),
{
    if q.len() == 0 {
        assert(add_all(s, q) == s);
    } else {
        lemma_group_names();
        let l = q.last();
        let qq = q.drop_last();
        if in_group(l, g) {
            lemma_group_of(l, g);
            let r = add_all(s, q);
            assert(r == add_exclusive_spec(add_all(s, qq), l));
            assert(r.contains(l));
            assert forall|y: Seq<char>| #[trigger] r.contains(y) && in_group(y, g) implies y == l by {}
        } else {
            assert(one_in_group(s, g) || exists|i: int| 0 <= i < qq.len() && in_group(#[trigger] qq[i], g)) by {
                if !one_in_group(s, g) {
                    let i = choose|i: int| 0 <= i < q.len() && in_group(#[trigger] q[i], g);
                    assert(i < qq.len());
                    assert(qq[i] == q[i]);
                }
            }
            assert forall|i: int| 0 <= i < qq.len() implies no_ws(#[trigger] qq[i]) by {
                assert(qq[i] == q[i]);
            }
            lemma_add_all_one(s, qq, g);
            let s1 = add_all(s, qq);
            let x = choose|x: Seq<char>|
                s1.contains(x) && in_group(x, g) && forall|y: Seq<char>| #[trigger] s1.contains(y) && in_group(y, g) ==> y == x;
            let r = add_exclusive_spec(s1, l);
            assert(r == add_all(s, q));
            match label_group(l) {
                Some(h) => {
                    if exclusive_group(h) {
                        if in_group(x, h) {
                            lemma_groups_disjoint(x, g, h);
                            assert(no_ws(l)) by {
                                assert(q[q.len() - 1] == l);
                            }
                            lemma_group_of(l, g);
                        }
                    }
                },
                None => {},
            }
            assert(r.contains(x));
            assert forall|y: Seq<char>| #[trigger] r.contains(y) && in_group(y, g) implies y == x by {
                if y != l {
                    assert(s1.contains(y));
                }
            }
        }
    }
}

/// The groups of the labels that the policy and the defaults add.
proof fn lemma_added_label_groups()
    ensures
        in_group("p:p0"@, "p"@),
        in_group("p:p1"@, "p"@),
        in_group("stage:finalize"@, "stage"@),
        in_group("stage:review"@, "stage"@),
        in_group("stage:spec"@, "stage"@),
        in_group("size:m"@, "size"@),
        in_group("auto:wait"@, "auto"@),
        in_group("type:dep"@, "type"@),
        "p:"@ == "p"@ + seq![':'],
        "stage:"@ == "stage"@ + seq![':'],
        "size:"@ == "size"@ + seq![':'],
        !single_group("auto"@),
        !single_group("type"@),
        single_group("p"@) && single_group("stage"@) && single_group("size"@),
        forall|g: Seq<char>| single_group(g) ==> exclusive_group(g),
{
    reveal_strlit("p:p0");
    reveal_strlit("p:p1");
    reveal_strlit("stage:finalize");
    reveal_strlit("stage:review");
    reveal_strlit("stage:spec");
    reveal_strlit("size:m");
    reveal_strlit("auto:wait");
    reveal_strlit("type:dep");
    reveal_strlit("p:");
    reveal_strlit("stage:");
    reveal_strlit("size:");
    reveal_strlit("p");
    reveal_strlit("stage");
    reveal_strlit("size");
    reveal_strlit("auto");
    reveal_strlit("type");
    reveal_strlit("lang");
    reveal_strlit("env");
    reveal_strlit("plat");
    reveal_strlit("rev");
    assert("p:p0"@.subrange(0, 2) =~= "p"@ + seq![':']);
    assert("p:p1"@.subrange(0, 2) =~= "p"@ + seq![':']);
    assert("stage:finalize"@.subrange(0, 6) =~= "stage"@ + seq![':']);
    assert("stage:review"@.subrange(0, 6) =~= "stage"@ + seq![':']);
    assert("stage:spec"@.subrange(0, 6) =~= "stage"@ + seq![':']);
    assert("size:m"@.subrange(0, 5) =~= "size"@ + seq![':']);
    assert("auto:wait"@.subrange(0, 5) =~= "auto"@ + seq![':']);
    assert("type:dep"@.subrange(0, 5) =~= "type"@ + seq![':']);
    assert("p:"@ =~= "p"@ + seq![':']);
    assert("stage:"@ =~= "stage"@ + seq![':']);
    assert("size:"@ =~= "size"@ + seq![':']);
    let a = "auto"@;
    assert(a != "stage"@ && a != "p"@ && a != "size"@ && a != "lang"@ && a != "env"@ && a != "plat"@
        && a != "rev"@) by {
        assert(a[0] != "stage"@[0] && a[0] != "size"@[0] && a[0] != "lang"@[0] && a[0] != "plat"@[0]);
        assert(a.len() != "p"@.len() && a.len() != "env"@.len() && a.len() != "rev"@.len());
    }
    let t = "type"@;
    assert(t != "stage"@ && t != "p"@ && t != "size"@ && t != "lang"@ && t != "env"@ && t != "plat"@
        && t != "rev"@) by {
        assert(t[0] != "stage"@[0] && t[0] != "size"@[0] && t[0] != "lang"@[0] && t[0] != "plat"@[0]);
        assert(t.len() != "p"@.len() && t.len() != "env"@.len() && t.len() != "rev"@.len());
    }
}

/// Adding a label of another group keeps exactly one label of group `g`.
proof fn lemma_insert_other(s: Set<Seq<char>>, g: Seq<char>, l: Seq<char>, h: Seq<char>)
    requires
        one_in_group(s, g),
        in_group(l, h),
        no_colon(g),
        no_colon(h),
        g != h,
    ensures
        one_in_group(s.insert(l), g),
{
    let x = choose|x: Seq<char>|
        s.contains(x) && in_group(x, g) && forall|y: Seq<char>| #[trigger] s.contains(y) && in_group(y, g) ==> y == x;
    assert(s.insert(l).contains(x));
    assert forall|y: Seq<char>| #[trigger] s.insert(l).contains(y) && in_group(y, g) implies y == x by {
        if y == l {
            lemma_groups_disjoint(l, g, h);
        }
    }
}

/// The policy keeps exactly one label of each single group that had one.
proof fn lemma_enforce_one(s: Set<Seq<char>>, files: Seq<String>, g: Seq<char>)
    requires
        single_group(g),
        one_in_group(s, g),
    ensures
        one_in_group(enforce_spec(s, files), g),
{
    lemma_group_names();
    lemma_added_label_groups();
    let p = "p"@;
    // Escalation.
    let e = escalate(s);
    assert(one_in_group(e, g)) by {
        if some_contains(s, "blocking"@) {
            let f = without_prefix(s, "p:"@);
            if g == p {
                assert(e.contains("p:p0"@));
                assert forall|y: Seq<char>| #[trigger] e.contains(y) && in_group(y, g) implies y == "p:p0"@ by {}
            } else {
                let x = choose|x: Seq<char>|
                    s.contains(x) && in_group(x, g) && forall|y: Seq<char>| #[trigger] s.contains(y) && in_group(y, g) ==> y == x;
                if in_group(x, p) {
                    lemma_groups_disjoint(x, g, p);
                }
                assert(f.contains(x));
                assert forall|y: Seq<char>| #[trigger] f.contains(y) && in_group(y, g) implies y == x by {}
                assert(one_in_group(f, g));
                lemma_insert_other(f, g, "p:p0"@, p);
            }
        }
    }
    // The guard.
    let st = "stage"@;
    let gf = guard_finalize(e, files);
    assert(one_in_group(gf, g)) by {
        if gf != e {
            let x = choose|x: Seq<char>|
                e.contains(x) && in_group(x, g) && forall|y: Seq<char>| #[trigger] e.contains(y) && in_group(y, g) ==> y == x;
            let rm = e.remove("stage:finalize"@);
            if g == st {
                assert(x == "stage:finalize"@);
                let r1 = rm.insert("stage:review"@);
                assert(r1.contains("stage:review"@));
                assert forall|y: Seq<char>| #[trigger] r1.contains(y) && in_group(y, g) implies y == "stage:review"@ by {
                    if y != "stage:review"@ {
                        assert(e.contains(y));
                    }
                }
                assert(one_in_group(r1, g));
                lemma_insert_other(r1, g, "auto:wait"@, "auto"@);
            } else {
                if x == "stage:finalize"@ {
                    lemma_groups_disjoint(x, g, st);
                }
                assert(rm.contains(x));
                assert forall|y: Seq<char>| #[trigger] rm.contains(y) && in_group(y, g) implies y == x by {}
                assert(one_in_group(rm, g));
                lemma_insert_other(rm, g, "stage:review"@, st);
                lemma_insert_other(rm.insert("stage:review"@), g, "auto:wait"@, "auto"@);
            }
        }
    }
    // The dependency mark.
    if enforce_spec(s, files) != gf {
        lemma_insert_other(gf, g, "type:dep"@, "type"@);
    }
}

/// The defaults keep exactly one label of each single group that had one.
proof fn lemma_defaults_one(s: Set<Seq<char>>, g: Seq<char>)
    requires
        single_group(g),
        one_in_group(s, g),
    ensures
        one_in_group(defaults_spec(s), g),
{
    lemma_group_names();
    lemma_added_label_groups();
    let x = choose|x: Seq<char>|
        s.contains(x) && in_group(x, g) && forall|y: Seq<char>| #[trigger] s.contains(y) && in_group(y, g) ==> y == x;
    let s1 = if !some_starts_with(s, "stage:"@) {
        s.insert("stage:spec"@)
    } else {
        s
    };
    assert(one_in_group(s1, g)) by {
        if !some_starts_with(s, "stage:"@) {
            if g == "stage"@ {
                assert(s.contains(x) && starts_with(x, "stage:"@));
            }
            lemma_insert_other(s, g, "stage:spec"@, "stage"@);
        }
    }
    let s2 = if !some_starts_with(s1, "size:"@) {
        s1.insert("size:m"@)
    } else {
        s1
    };
    assert(one_in_group(s2, g)) by {
        if !some_starts_with(s1, "size:"@) {
            if g == "size"@ {
                let x1 = choose|x: Seq<char>| s1.contains(x) && in_group(x, g);
                assert(s1.contains(x1) && starts_with(x1, "size:"@));
            }
            lemma_insert_other(s1, g, "size:m"@, "size"@);
        }
    }
    if !some_starts_with(s2, "p:"@) {
        if g == "p"@ {
            let x2 = choose|x: Seq<char>| s2.contains(x) && in_group(x, g);
            assert(s2.contains(x2) && starts_with(x2, "p:"@));
        }
        lemma_insert_other(s2, g, "p:p1"@, "p"@);
    }
}

/// The law of exclusive groups in resolving: where a detected label or one
/// added by hand belongs to one of the groups stage, p, size, lang, env,
/// plat or rev, the resolved labels hold exactly one label of that group.
/// (It holds of labels without white space; `type` is left out because the
/// policy adds `type:dep` beside a detected type.)
pub proof fn lemma_resolve_one_per_group(
    detected: Seq<Seq<char>>,
    manual_add: Seq<Seq<char>>,
    manual_remove: Seq<Seq<char>>,
    current: Seq<Seq<char>>,
    changed_files: Seq<String>,
    g: Seq<char>,
)
    requires
        single_group(g),
        forall|i: int| 0 <= i < detected.len() ==> no_ws(#[trigger] detected[i]),
        forall|i: int| 0 <= i < manual_add.len() ==> no_ws(#[trigger] manual_add[i]),
        (exists|i: int| 0 <= i < detected.len() && in_group(#[trigger] detected[i], g)) || (exists|i: int|
            0 <= i < manual_add.len() && in_group(#[trigger] manual_add[i], g)),
    ensures
        one_in_group(resolve_spec(detected, manual_add, manual_remove, current, changed_files), g),
{
    let base = current.to_set().difference(manual_remove.to_set());
    let a1 = add_all(base, detected);
    if exists|i: int| 0 <= i < detected.len() && in_group(#[trigger] detected[i], g) {
        lemma_add_all_one(base, detected, g);
    }
    lemma_add_all_one(a1, manual_add, g);
    let a2 = add_all(a1, manual_add);
    lemma_enforce_one(a2, changed_files, g);
    lemma_defaults_one(enforce_spec(a2, changed_files), g);
}

} // verus!
