use vstd::prelude::*;
use crate::text::str_eq;

verus! {

/// Items that carry a text by which merging tells them apart.
pub trait Texted {
    spec fn text_of(&self) -> Seq<char>;

    fn text(&self) -> (r: &str)
        ensures
            r@ == self.text_of(),
    ;
}

/// Some item of `acc` carries the text `t`.
pub open spec fn has_text<T: Texted>(acc: Seq<T>, t: Seq<char>) -> bool {
    exists|k: int| 0 <= k < acc.len() && (#[trigger] acc[k]).text_of() == t
}

/// `acc` with `x` appended, unless an item of `acc` already carries its text.
pub open spec fn add_unique<T: Texted>(acc: Seq<T>, x: T) -> Seq<T> {
    if has_text(acc, x.text_of()) {
        acc
    } else {
        acc.push(x)
    }
}

/// The items of `new`, in order, appended to `acc`, each unless an item
/// already there carries its text.
pub open spec fn merge_by_text<T: Texted>(acc: Seq<T>, new: Seq<T>) -> Seq<T>
    decreases new.len(),
{
    if new.len() == 0 {
        acc
    } else {
        merge_by_text(add_unique(acc, new[0]), new.subrange(1, new.len() as int))
    }
}

/// Appends to `existing` each item of `new` whose text no item before it
/// carries.
pub fn merge_unique_text<T: Texted>(existing: Vec<T>, new_items: Vec<T>) -> (r: Vec<T>)
    ensures
        r@ == merge_by_text(existing@, new_items@),
{
    let mut merged = existing;
    let mut rest = new_items;
    assert(rest@ =~= new_items@);
    while rest.len() > 0
        invariant
            merge_by_text(existing@, new_items@) == merge_by_text(merged@, rest@),
        decreases rest.len(),
    {
        let ghost r0 = rest@;
        let x = rest.remove(0);
        assert(rest@ =~= r0.subrange(1, r0.len() as int));
        let mut found = false;
        let mut j: usize = 0;
        while j < merged.len()
            invariant
                j <= merged@.len(),
                found <==> exists|k: int| 0 <= k < j && (#[trigger] merged@[k]).text_of() == x.text_of(),
            decreases merged.len() - j,
        {
            if str_eq(merged[j].text(), x.text()) {
                found = true;
            }
            j = j + 1;
        }
        if !found {
            merged.push(x);
        }
    }
    merged
}

/// A rule's binding strength.
#[derive(Debug, Clone, Copy, PartialEq, Eq, Structural)]
pub enum RuleTag {
    Must,
    Should,
    Avoid,
}

impl RuleTag {
    /// The number a tag is stored under: its place in declaration order.
    pub fn code(self) -> (r: i32)
        ensures
            r == match self {
                RuleTag::Must => 0i32,
                RuleTag::Should => 1i32,
                RuleTag::Avoid => 2i32,
            },
    {
        match self {
            RuleTag::Must => 0,
            RuleTag::Should => 1,
            RuleTag::Avoid => 2,
        }
    }
}

/// A rule as the rule processor reads it: its text and the number of its tag.
#[derive(Debug, Clone)]
pub struct Rule {
    pub text: String,
    pub tag: i32,
}

impl Texted for Rule {
    open spec fn text_of(&self) -> Seq<char> {
        self.text@
    }

    fn text(&self) -> (r: &str) {
        self.text.as_str()
    }
}

/// The length of a text in bytes, as UTF-8 stores it (and as `str::len`
/// reports it).
pub open spec fn byte_len(s: Seq<char>) -> usize {
    vstd::utf8::encode_utf8(s).len() as usize
}

/// What rule validation answers: an empty text is refused; a `MUST` rule
/// (tag 0) shorter than ten bytes is refused; every other rule passes.
pub open spec fn rule_check(text: Seq<char>, tag: i32) -> Result<bool, Seq<char>> {
    if text.len() == 0 {
        Err("Rule text cannot be empty"@)
    } else if tag == 0 && byte_len(text) < 10 {
        Err("Critical rules (MUST) must have detailed description"@)
    } else {
        Ok(true)
    }
}

/// Checks rules and merges rule sets.
pub struct RuleProcessor;

impl RuleProcessor {
    /// Checks a rule against the standard: it has a text, and a `MUST` rule
    /// describes itself in at least ten bytes.
    pub fn validate_rule(rule: &Rule) -> (r: Result<bool, String>)
        ensures
            match r {
                Ok(b) => rule_check(rule.text@, rule.tag) == Ok::<bool, Seq<char>>(b),
                Err(e) => rule_check(rule.text@, rule.tag) == Err::<bool, Seq<char>>(e@),
            },
    {
        if rule.text.as_str().is_empty() {
            return Err("Rule text cannot be empty".to_string());
        }
        if rule.tag == RuleTag::Must.code() && rule.text.as_str().len() < 10 {
            return Err("Critical rules (MUST) must have detailed description".to_string());
        }
        Ok(true)
    }

    /// Merges rules from several sources: the existing rules stay, in order,
    /// and each new rule is appended unless a rule with the same text is
    /// already there.
    pub fn merge_rules(existing: Vec<Rule>, new_rules: Vec<Rule>) -> (r: Vec<Rule>)
        ensures
            r@ == merge_by_text(existing@, new_rules@),
    {
        merge_unique_text(existing, new_rules)
    }
}

/// The items of `s` carry pairwise different texts.
pub open spec fn distinct_texts<T: Texted>(s: Seq<T>) -> bool {
    forall|i: int, j: int|
        0 <= i < j < s.len() ==> (#[trigger] s[i]).text_of() != (#[trigger] s[j]).text_of()
}

/// The laws of merging: what was there stays in front, in order; every text of
/// the new items is carried by the result; nothing comes from elsewhere; and
/// items with pairwise different texts stay so.
pub proof fn lemma_merge_by_text<T: Texted>(acc: Seq<T>, new: Seq<T>)
    ensures
        merge_by_text(acc, new).len() >= acc.len(),
        merge_by_text(acc, new).subrange(0, acc.len() as int) == acc,
        forall|i: int| 0 <= i < new.len() ==> has_text(merge_by_text(acc, new), #[trigger] new[i].text_of()),
        forall|k: int|
            0 <= k < merge_by_text(acc, new).len() ==> (exists|i: int| 0 <= i < acc.len() && acc[i]
                == #[trigger] merge_by_text(acc, new)[k]) || (exists|i: int| 0 <= i < new.len()
                && new[i] == merge_by_text(acc, new)[k]),
        distinct_texts(acc) ==> distinct_texts(merge_by_text(acc, new)),
    decreases new.len(),
{
    if new.len() == 0 {
        assert(acc.subrange(0, acc.len() as int) =~= acc);
        assert forall|k: int| 0 <= k < acc.len() implies (exists|i: int| 0 <= i < acc.len() && acc[i]
            == #[trigger] merge_by_text(acc, new)[k]) || (exists|i: int| 0 <= i < new.len() && new[i]
            == merge_by_text(acc, new)[k]) by {
            assert(acc[k] == merge_by_text(acc, new)[k]);
        }
    } else {
        let a1 = add_unique(acc, new[0]);
        let rest = new.subrange(1, new.len() as int);
        lemma_merge_by_text(a1, rest);
        let m = merge_by_text(acc, new);
        assert(m == merge_by_text(a1, rest));
        assert(a1.subrange(0, acc.len() as int) =~= acc);
        assert(m.subrange(0, acc.len() as int) =~= acc) by {
            assert(m.subrange(0, a1.len() as int) == a1);
            assert forall|k: int| 0 <= k < acc.len() implies m.subrange(0, acc.len() as int)[k] == acc[k] by {
                assert(m.subrange(0, a1.len() as int)[k] == a1[k]);
            }
        }
        // every new text is carried
        assert forall|i: int| 0 <= i < new.len() implies has_text(m, #[trigger] new[i].text_of()) by {
            if i == 0 {
                if has_text(acc, new[0].text_of()) {
                    let k = choose|k: int| 0 <= k < acc.len() && (#[trigger] acc[k]).text_of() == new[0].text_of();
                    assert(m.subrange(0, a1.len() as int)[k] == a1[k]);
                    assert(m[k] == acc[k]);
                } else {
                    let k = acc.len() as int;
                    assert(a1[k] == new[0]);
                    assert(m.subrange(0, a1.len() as int)[k] == a1[k]);
                    assert(m[k] == new[0]);
                }
            } else {
                assert(rest[i - 1] == new[i]);
            }
        }
        // every item comes from acc or new
        assert forall|k: int| 0 <= k < m.len() implies (exists|i: int| 0 <= i < acc.len() && acc[i]
            == #[trigger] m[k]) || (exists|i: int| 0 <= i < new.len() && new[i] == m[k]) by {
            if exists|i: int| 0 <= i < a1.len() && a1[i] == m[k] {
                let i = choose|i: int| 0 <= i < a1.len() && a1[i] == m[k];
                if i < acc.len() {
                    assert(acc[i] == m[k]);
                } else {
                    assert(new[0] == m[k]);
                }
            } else {
                let i = choose|i: int| 0 <= i < rest.len() && rest[i] == m[k];
                assert(new[i + 1] == m[k]);
            }
        }
        if distinct_texts(acc) {
            assert(distinct_texts(a1)) by {
                if !has_text(acc, new[0].text_of()) {
                    assert forall|i: int, j: int| 0 <= i < j < a1.len() implies (#[trigger] a1[i]).text_of()
                        != (#[trigger] a1[j]).text_of() by {
                        if j == acc.len() {
                            assert(a1[i] == acc[i]);
                        } else {
                            assert(a1[i] == acc[i]);
                            assert(a1[j] == acc[j]);
                        }
                    }
                }
            }
        }
    }
}

/// Merging items whose texts are all already carried adds nothing.
proof fn lemma_merge_carried<T: Texted>(acc: Seq<T>, new: Seq<T>)
    requires
        forall|i: int| 0 <= i < new.len() ==> has_text(acc, #[trigger] new[i].text_of()),
    ensures
        merge_by_text(acc, new) == acc,
    decreases new.len(),
{
    if new.len() > 0 {
        let rest = new.subrange(1, new.len() as int);
        assert(has_text(acc, new[0].text_of()));
        assert forall|i: int| 0 <= i < rest.len() implies has_text(acc, #[trigger] rest[i].text_of()) by {
            assert(rest[i] == new[i + 1]);
        }
        lemma_merge_carried(acc, rest);
    }
}

/// The items that merging appends carry texts that no earlier item carries.
proof fn lemma_merge_appended_unique<T: Texted>(acc: Seq<T>, new: Seq<T>)
    ensures
        forall|k: int, j: int|
            acc.len() <= k < merge_by_text(acc, new).len() && 0 <= j < k ==> (#[trigger] merge_by_text(
                acc,
                new,
            )[j]).text_of() != (#[trigger] merge_by_text(acc, new)[k]).text_of(),
    decreases new.len(),
{
    if new.len() > 0 {
        let a1 = add_unique(acc, new[0]);
        let rest = new.subrange(1, new.len() as int);
        lemma_merge_appended_unique(a1, rest);
        lemma_merge_by_text(a1, rest);
        let m = merge_by_text(acc, new);
        assert(m == merge_by_text(a1, rest));
        assert forall|k: int, j: int| acc.len() <= k < m.len() && 0 <= j < k implies (#[trigger] m[j]).text_of()
            != (#[trigger] m[k]).text_of() by {
            if k < a1.len() {
                assert(k == acc.len());
                assert(m.subrange(0, a1.len() as int)[k] == a1[k]);
                assert(m.subrange(0, a1.len() as int)[j] == a1[j]);
                assert(a1[k] == new[0]);
                assert(a1[j] == acc[j]);
                if m[j].text_of() == m[k].text_of() {
                    assert(has_text(acc, new[0].text_of()));
                }
            }
        }
    }
}

/// Merging appends at most the new items.
proof fn lemma_merge_len<T: Texted>(acc: Seq<T>, new: Seq<T>)
    ensures
        merge_by_text(acc, new).len() <= acc.len() + new.len(),
    decreases new.len(),
{
    if new.len() > 0 {
        lemma_merge_len(add_unique(acc, new[0]), new.subrange(1, new.len() as int));
    }
}

/// The laws of merging rule (and tier) sets: merging nothing leaves the rules
/// as they are; merging the same new rules again changes nothing; each rule
/// that merging appends carries a text that no rule before it carries; and
/// at most the new rules are appended.
pub proof fn lemma_merge_laws<T: Texted>(acc: Seq<T>, new: Seq<T>)
    ensures
        merge_by_text(acc, new).len() <= acc.len() + new.len(),
        merge_by_text(acc, Seq::<T>::empty()) == acc,
        merge_by_text(merge_by_text(acc, new), new) == merge_by_text(acc, new),
        forall|k: int, j: int|
            acc.len() <= k < merge_by_text(acc, new).len() && 0 <= j < k ==> (#[trigger] merge_by_text(
                acc,
                new,
            )[j]).text_of() != (#[trigger] merge_by_text(acc, new)[k]).text_of(),
{
    lemma_merge_by_text(acc, new);
    lemma_merge_carried(merge_by_text(acc, new), new);
    lemma_merge_appended_unique(acc, new);
    lemma_merge_len(acc, new);
}

} // verus!
