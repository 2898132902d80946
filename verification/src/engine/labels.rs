use vstd::prelude::*;
use crate::text::{
    contains, lemma_seq_lt_irreflexive, lemma_seq_lt_total, lemma_seq_lt_transitive, seq_lt,
    starts_with, str_contains, str_eq, str_lt, str_starts_with,
};

verus! {

/// The texts of a list of strings.
pub open spec fn texts(v: Seq<String>) -> Seq<Seq<char>> {
    v.map_values(|s: String| s@)
}

/// The set of texts of a list of strings.
pub open spec fn text_set(v: Seq<String>) -> Set<Seq<char>> {
    Set::new(|x: Seq<char>| exists|i: int| 0 <= i < v.len() && (#[trigger] v[i])@ == x)
}

/// The texts come in strictly increasing order of strings.
pub open spec fn strictly_sorted(s: Seq<String>) -> bool {
    forall|i: int, j: int| 0 <= i < j < s.len() ==> seq_lt((#[trigger] s[i])@, (#[trigger] s[j])@)
}

/// No text occurs twice.
pub open spec fn distinct(s: Seq<String>) -> bool {
    forall|i: int, j: int| 0 <= i < j < s.len() ==> (#[trigger] s[i])@ != (#[trigger] s[j])@
}

/// A set of labels, each held once.
pub struct LabelSet {
    labels: Vec<String>,
}

impl View for LabelSet {
    type V = Set<Seq<char>>;

    closed spec fn view(&self) -> Set<Seq<char>> {
        text_set(self.labels@)
    }
}

impl LabelSet {
    #[verifier::type_invariant]
    closed spec fn held_once(&self) -> bool {
        distinct(self.labels@)
    }

    /// The empty set.
    pub fn new() -> (r: LabelSet)
        ensures
            r@ == Set::<Seq<char>>::empty(),
    {
        let r = LabelSet { labels: Vec::new() };
        assert(r@ =~= Set::<Seq<char>>::empty());
        r
    }

    /// Whether `label` is in the set.
    pub fn contains(&self, label: &str) -> (r: bool)
        ensures
            r == self@.contains(label@),
    {
        let mut i: usize = 0;
        while i < self.labels.len()
            invariant
                i <= self.labels@.len(),
                forall|k: int| 0 <= k < i ==> (#[trigger] self.labels@[k])@ != label@,
            decreases self.labels.len() - i,
        {
            if str_eq(self.labels[i].as_str(), label) {
                return true;
            }
            i = i + 1;
        }
        false
    }

    /// Adds `label`.
    pub fn insert(&mut self, label: String)
        ensures
            final(self)@ == old(self)@.insert(label@),
    {
        proof {
            use_type_invariant(&*self);
        }
        if !self.contains(label.as_str()) {
            let ghost before = self.labels@;
            let ghost l = label@;
            let mut v: Vec<String> = Vec::new();
            std::mem::swap(&mut v, &mut self.labels);
            v.push(label);
            assert(v@ == before.push(label));
            assert forall|a: int, b: int| 0 <= a < b < v@.len() implies (#[trigger] v@[a])@ != (
            #[trigger] v@[b])@ by {
                if b == before.len() {
                    assert(v@[a] == before[a]);
                    assert(text_set(before).contains(v@[a]@));
                } else {
                    assert(v@[a] == before[a] && v@[b] == before[b]);
                }
            }
            self.labels = v;
            assert(text_set(self.labels@) =~= text_set(before).insert(l)) by {
                assert forall|x: Seq<char>| text_set(self.labels@).contains(x) implies text_set(
                    before,
                ).insert(l).contains(x) by {
                    let i = choose|i: int| 0 <= i < self.labels@.len() && (#[trigger] self.labels@[i])@ == x;
                    if i < before.len() {
                        assert(before[i] == self.labels@[i]);
                    }
                }
                assert forall|x: Seq<char>| text_set(before).insert(l).contains(x) implies text_set(
                    self.labels@,
                ).contains(x) by {
                    if x == l {
                        assert(self.labels@[before.len() as int]@ == l);
                    } else {
                        let i = choose|i: int| 0 <= i < before.len() && (#[trigger] before[i])@ == x;
                        assert(self.labels@[i] == before[i]);
                    }
                }
            }
        } else {
            assert(self@ =~= old(self)@.insert(label@));
        }
    }

    /// Removes `label`.
    pub fn remove(&mut self, label: &str)
        ensures
            final(self)@ == old(self)@.remove(label@),
    {
        proof {
            use_type_invariant(&*self);
        }
        let ghost before = self.labels@;
        let mut i: usize = 0;
        while i < self.labels.len()
            invariant
                i <= self.labels@.len(),
                self.labels@ == before,
                old(self)@ == text_set(before),
                distinct(before),
                forall|k: int| 0 <= k < i ==> (#[trigger] before[k])@ != label@,
            decreases self.labels.len() - i,
        {
            if str_eq(self.labels[i].as_str(), label) {
                let mut v: Vec<String> = Vec::new();
                std::mem::swap(&mut v, &mut self.labels);
                v.remove(i);
                let ghost after = v@;
                assert forall|a: int, b: int| 0 <= a < b < after.len() implies (#[trigger] after[a])@ != (
                #[trigger] after[b])@ by {
                    let a1 = if a < i { a } else { a + 1 };
                    let b1 = if b < i { b } else { b + 1 };
                    assert(after[a] == before[a1] && after[b] == before[b1]);
                }
                self.labels = v;
                assert(after == before.remove(i as int));
                assert(text_set(after) =~= text_set(before).remove(label@)) by {
                    assert forall|x: Seq<char>| text_set(after).contains(x) implies text_set(
                        before,
                    ).remove(label@).contains(x) by {
                        let k = choose|k: int| 0 <= k < after.len() && (#[trigger] after[k])@ == x;
                        if k < i {
                            assert(after[k] == before[k]);
                        } else {
                            assert(after[k] == before[k + 1]);
                            assert(before[i as int]@ != before[k + 1]@);
                        }
                    }
                    assert forall|x: Seq<char>| text_set(before).remove(label@).contains(x) implies text_set(
                        after,
                    ).contains(x) by {
                        let k = choose|k: int| 0 <= k < before.len() && (#[trigger] before[k])@ == x;
                        if k < i {
                            assert(after[k] == before[k]);
                        } else {
                            assert(k != i);
                            assert(after[k - 1] == before[k]);
                        }
                    }
                }
                return;
            }
            i = i + 1;
        }
        assert(self@ =~= old(self)@.remove(label@));
    }

    /// Keeps only the labels that do not begin with `prefix`.
    pub fn retain_not_prefixed(&mut self, prefix: &str)
        ensures
            final(self)@ == old(self)@.filter(|x: Seq<char>| !starts_with(x, prefix@)),
    {
        proof {
            use_type_invariant(&*self);
        }
        let ghost before = self.labels@;
        let mut kept: Vec<String> = Vec::new();
        let mut i: usize = 0;
        while i < self.labels.len()
            invariant
                i <= self.labels@.len(),
                self.labels@ == before,
                distinct(before),
                distinct(kept@),
                forall|x: Seq<char>| #![trigger text_set(kept@).contains(x)]
                    text_set(kept@).contains(x) <==> (exists|k: int| 0 <= k < i && (#[trigger] before[k])@ == x)
                        && !starts_with(x, prefix@),
            decreases self.labels.len() - i,
        {
            if !str_starts_with(self.labels[i].as_str(), prefix) {
                let ghost k0 = kept@;
                kept.push(self.labels[i].clone());
                assert(kept@ == k0.push(before[i as int]));
                assert forall|a: int, b: int| 0 <= a < b < kept@.len() implies (#[trigger] kept@[a])@ != (
                #[trigger] kept@[b])@ by {
                    if b == k0.len() {
                        let x = kept@[a]@;
                        assert(text_set(k0).contains(x));
                        let k = choose|k: int| 0 <= k < i && (#[trigger] before[k])@ == x;
                        assert(before[k]@ != before[i as int]@);
                    } else {
                        assert(kept@[a] == k0[a]);
                        assert(kept@[b] == k0[b]);
                    }
                }
                assert forall|x: Seq<char>| #![trigger text_set(kept@).contains(x)] text_set(kept@).contains(x) <==> (exists|k: int|
                    0 <= k < i + 1 && (#[trigger] before[k])@ == x) && !starts_with(x, prefix@) by {
                    if text_set(kept@).contains(x) {
                        let a = choose|a: int| 0 <= a < kept@.len() && (#[trigger] kept@[a])@ == x;
                        if a < k0.len() {
                            assert(kept@[a] == k0[a]);
                            assert(text_set(k0).contains(x));
                        } else {
                            assert(before[i as int]@ == x);
                        }
                    }
                    if (exists|k: int| 0 <= k < i + 1 && (#[trigger] before[k])@ == x) && !starts_with(x, prefix@) {
                        let k = choose|k: int| 0 <= k < i + 1 && (#[trigger] before[k])@ == x;
                        if k < i {
                            assert(text_set(k0).contains(x));
                            let a = choose|a: int| 0 <= a < k0.len() && (#[trigger] k0[a])@ == x;
                            assert(kept@[a] == k0[a]);
                        } else {
                            assert(kept@[k0.len() as int]@ == x);
                        }
                    }
                }
            } else {
                assert forall|x: Seq<char>| #![trigger text_set(kept@).contains(x)] text_set(kept@).contains(x) <==> (exists|k: int|
                    0 <= k < i + 1 && (#[trigger] before[k])@ == x) && !starts_with(x, prefix@) by {
                    if (exists|k: int| 0 <= k < i + 1 && (#[trigger] before[k])@ == x) && !starts_with(x, prefix@) {
                        let k = choose|k: int| 0 <= k < i + 1 && (#[trigger] before[k])@ == x;
                        if k == i {
                            assert(false);
                        }
                    }
                }
            }
            i = i + 1;
        }
        self.labels = kept;
        assert(self@ =~= old(self)@.filter(|x: Seq<char>| !starts_with(x, prefix@)));
    }

    /// Whether some label holds `part`.
    pub fn any_contains(&self, part: &str) -> (r: bool)
        ensures
            r == exists|x: Seq<char>| self@.contains(x) && contains(x, part@),
    {
        let mut i: usize = 0;
        while i < self.labels.len()
            invariant
                i <= self.labels@.len(),
                forall|k: int| 0 <= k < i ==> !contains((#[trigger] self.labels@[k])@, part@),
            decreases self.labels.len() - i,
        {
            if str_contains(self.labels[i].as_str(), part) {
                assert(self@.contains(self.labels@[i as int]@));
                return true;
            }
            i = i + 1;
        }
        assert forall|x: Seq<char>| self@.contains(x) implies !contains(x, part@) by {
            let k = choose|k: int| 0 <= k < self.labels@.len() && (#[trigger] self.labels@[k])@ == x;
        }
        false
    }

    /// Whether some label begins with `prefix`.
    pub fn any_starts_with(&self, prefix: &str) -> (r: bool)
        ensures
            r == exists|x: Seq<char>| self@.contains(x) && starts_with(x, prefix@),
    {
        let mut i: usize = 0;
        while i < self.labels.len()
            invariant
                i <= self.labels@.len(),
                forall|k: int| 0 <= k < i ==> !starts_with((#[trigger] self.labels@[k])@, prefix@),
            decreases self.labels.len() - i,
        {
            if str_starts_with(self.labels[i].as_str(), prefix) {
                assert(self@.contains(self.labels@[i as int]@));
                return true;
            }
            i = i + 1;
        }
        assert forall|x: Seq<char>| self@.contains(x) implies !starts_with(x, prefix@) by {
            let k = choose|k: int| 0 <= k < self.labels@.len() && (#[trigger] self.labels@[k])@ == x;
        }
        false
    }

    /// The set of the texts of `v`.
    pub fn from_vec(v: Vec<String>) -> (r: LabelSet)
        ensures
            r@ == text_set(v@),
    {
        let mut r = LabelSet::new();
        let ghost all = v@;
        assert(all.len() == v.len());
        let mut rest = v;
        let mut n: usize = 0;
        assert(rest@ =~= all.subrange(0, all.len() as int));
        while rest.len() > 0
            invariant
                all.len() <= usize::MAX,
                n + rest@.len() == all.len(),
                rest@ == all.subrange(n as int, all.len() as int),
                r@ == text_set(all.subrange(0, n as int)),
            decreases rest.len(),
        {
            let ghost r0 = r@;
            let x = rest.remove(0);
            assert(x == all[n as int]);
            r.insert(x);
            assert(text_set(all.subrange(0, n + 1)) =~= r0.insert(all[n as int]@)) by {
                assert forall|y: Seq<char>| text_set(all.subrange(0, n + 1)).contains(y) implies r0.insert(
                    all[n as int]@,
                ).contains(y) by {
                    let k = choose|k: int| 0 <= k < n + 1 && (#[trigger] all.subrange(0, n + 1)[k])@ == y;
                    if k < n {
                        assert(all.subrange(0, n as int)[k] == all[k]);
                    }
                }
                assert forall|y: Seq<char>| r0.insert(all[n as int]@).contains(y) implies text_set(
                    all.subrange(0, n + 1),
                ).contains(y) by {
                    if y == all[n as int]@ {
                        assert(all.subrange(0, n + 1)[n as int] == all[n as int]);
                    } else {
                        let k = choose|k: int| 0 <= k < n && (#[trigger] all.subrange(0, n as int)[k])@ == y;
                        assert(all.subrange(0, n + 1)[k] == all[k]);
                    }
                }
            }
            n = n + 1;
            assert(rest@ =~= all.subrange(n as int, all.len() as int));
        }
        assert(all.subrange(0, n as int) =~= all);
        r
    }

    /// The labels in increasing order of strings, each once.
    pub fn into_sorted(self) -> (r: Vec<String>)
        ensures
            strictly_sorted(r@),
            text_set(r@) == self@,
    {
        proof {
            use_type_invariant(&self);
        }
        let ghost all = self.labels@;
        assert(all.len() == self.labels.len());
        let mut out: Vec<String> = Vec::new();
        let mut rest = self.labels;
        let mut n: usize = 0;
        assert(rest@ =~= all.subrange(0, all.len() as int));
        while rest.len() > 0
            invariant
                all.len() <= usize::MAX,
                distinct(all),
                n + rest@.len() == all.len(),
                rest@ == all.subrange(n as int, all.len() as int),
                strictly_sorted(out@),
                text_set(out@) == text_set(all.subrange(0, n as int)),
            decreases rest.len(),
        {
            let x = rest.remove(0);
            assert(x == all[n as int]);
            let ghost o0 = out@;
            assert(!text_set(o0).contains(x@)) by {
                if text_set(o0).contains(x@) {
                    let k = choose|k: int| 0 <= k < n && (#[trigger] all.subrange(0, n as int)[k])@ == x@;
                    assert(all.subrange(0, n as int)[k] == all[k]);
                }
            }
            // the first place whose label comes after x
            let mut j: usize = 0;
            while j < out.len() && !str_lt(x.as_str(), out[j].as_str())
                invariant
                    j <= out@.len(),
                    out@ == o0,
                    strictly_sorted(o0),
                    !text_set(o0).contains(x@),
                    forall|k: int| 0 <= k < j ==> seq_lt((#[trigger] o0[k])@, x@),
                decreases out.len() - j,
            {
                proof {
                    lemma_seq_lt_total(x@, o0[j as int]@);
                    assert(o0[j as int]@ != x@);
                }
                j = j + 1;
            }
            proof {
                if j < o0.len() {
                    assert forall|k: int| j <= k < o0.len() implies seq_lt(x@, (#[trigger] o0[k])@) by {
                        if k > j {
                            lemma_seq_lt_transitive(x@, o0[j as int]@, o0[k]@);
                        }
                    }
                }
            }
            out.insert(j, x);
            assert(out@ == o0.insert(j as int, x));
            assert(strictly_sorted(out@)) by {
                assert forall|a: int, b: int| 0 <= a < b < out@.len() implies seq_lt(
                    (#[trigger] out@[a])@,
                    (#[trigger] out@[b])@,
                ) by {
                    if a < j && b < j {
                        assert(out@[a] == o0[a] && out@[b] == o0[b]);
                    } else if a < j && b == j {
                    } else if a < j && b > j {
                        assert(out@[a] == o0[a] && out@[b] == o0[b - 1]);
                        lemma_seq_lt_transitive(o0[a]@, x@, o0[b - 1]@);
                    } else if a == j {
                        assert(out@[b] == o0[b - 1]);
                    } else {
                        assert(out@[a] == o0[a - 1] && out@[b] == o0[b - 1]);
                    }
                }
            }
            assert(text_set(out@) =~= text_set(all.subrange(0, n + 1))) by {
                assert forall|y: Seq<char>| text_set(out@).contains(y) implies text_set(
                    all.subrange(0, n + 1),
                ).contains(y) by {
                    let a = choose|a: int| 0 <= a < out@.len() && (#[trigger] out@[a])@ == y;
                    if a == j {
                        assert(all.subrange(0, n + 1)[n as int] == x);
                    } else {
                        let b = if a < j {
                            a
                        } else {
                            a - 1
                        };
                        assert(out@[a] == o0[b]);
                        assert(text_set(o0).contains(y));
                        let k = choose|k: int| 0 <= k < n && (#[trigger] all.subrange(0, n as int)[k])@ == y;
                        assert(all.subrange(0, n + 1)[k] == all.subrange(0, n as int)[k]);
                    }
                }
                assert forall|y: Seq<char>| text_set(all.subrange(0, n + 1)).contains(y) implies text_set(
                    out@,
                ).contains(y) by {
                    let k = choose|k: int| 0 <= k < n + 1 && (#[trigger] all.subrange(0, n + 1)[k])@ == y;
                    if k == n {
                        assert(out@[j as int] == x);
                    } else {
                        assert(all.subrange(0, n as int)[k] == all.subrange(0, n + 1)[k]);
                        assert(text_set(o0).contains(y));
                        let a = choose|a: int| 0 <= a < o0.len() && (#[trigger] o0[a])@ == y;
                        if a < j {
                            assert(out@[a] == o0[a]);
                        } else {
                            assert(out@[a + 1] == o0[a]);
                        }
                    }
                }
            }
            n = n + 1;
            assert(rest@ =~= all.subrange(n as int, all.len() as int));
        }
        assert(all.subrange(0, n as int) =~= all);
        out
    }
}

/// A strictly sorted list holds each text once.
pub proof fn lemma_sorted_distinct(s: Seq<String>)
    requires
        strictly_sorted(s),
    ensures
        distinct(s),
{
    assert forall|i: int, j: int| 0 <= i < j < s.len() implies (#[trigger] s[i])@ != (#[trigger] s[j])@ by {
        lemma_seq_lt_irreflexive(s[i]@);
    }
}

/// The set of texts of a list is the set of its text sequence.
pub proof fn lemma_text_set_texts(v: Seq<String>)
    ensures
        text_set(v) == texts(v).to_set(),
{
    assert forall|x: Seq<char>| text_set(v).contains(x) <==> texts(v).to_set().contains(x) by {
        if text_set(v).contains(x) {
            let i = choose|i: int| 0 <= i < v.len() && (#[trigger] v[i])@ == x;
            assert(texts(v)[i] == x);
        }
        if texts(v).to_set().contains(x) {
            let i = choose|i: int| 0 <= i < texts(v).len() && texts(v)[i] == x;
            assert(v[i]@ == x);
        }
    }
    assert(text_set(v) =~= texts(v).to_set());
}

} // verus!
