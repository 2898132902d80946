use vstd::prelude::*;
use crate::text::{contains, lowercase, str_contains};

verus! {

/// A label that blocks progress: in lower case it mentions "blocking",
/// "conflict" or "rev:expert".
pub open spec fn is_blocker(l: Seq<char>) -> bool {
    let t = lowercase(l);
    contains(t, "blocking"@) || contains(t, "conflict"@) || contains(t, "rev:expert"@)
}

/// Whether some label blocks progress ("blocking", "conflict" or
/// "rev:expert", in any case).
pub fn detect_blockers(labels: &Vec<String>) -> (r: bool)
    ensures
        r == exists|i: int| 0 <= i < labels@.len() && is_blocker((#[trigger] labels@[i])@),
{
    let mut i: usize = 0;
    while i < labels.len()
        invariant
            i <= labels@.len(),
            forall|k: int| 0 <= k < i ==> !is_blocker((#[trigger] labels@[k])@),
        decreases labels.len() - i,
    {
        let low = labels[i].as_str().to_lowercase();
        let l = low.as_str();
        if str_contains(l, "blocking") || str_contains(l, "conflict") || str_contains(l, "rev:expert") {
            return true;
        }
        i = i + 1;
    }
    false
}

} // verus!
