use vstd::prelude::*;
use crate::text::{contains, lowercase, str_contains};

verus! {

/// The size of a change of `total` lines.
pub open spec fn pr_size(total: int) -> Seq<char> {
    if total <= 50 {
        "xs"@
    } else if total <= 150 {
        "s"@
    } else if total <= 300 {
        "m"@
    } else if total <= 600 {
        "l"@
    } else if total <= 1200 {
        "xl"@
    } else if total <= 3000 {
        "xxl"@
    } else {
        "xxxl"@
    }
}

/// The size an issue's text asks for, by its words (compared in lower case),
/// the largest first.
pub open spec fn issue_size(text: Seq<char>) -> Option<Seq<char>> {
    let t = lowercase(text);
    if contains(t, "xxl"@) || contains(t, "massive"@) || contains(t, "epic"@) {
        Some("xxl"@)
    } else if contains(t, "xl"@) || contains(t, "extra-large"@) || contains(t, "huge"@) {
        Some("xl"@)
    } else if contains(t, "large"@) || contains(t, "big"@) || contains(t, "major"@) {
        Some("l"@)
    } else if contains(t, "medium"@) || contains(t, "mid"@) || contains(t, "moderate"@) {
        Some("m"@)
    } else if contains(t, "small"@) || contains(t, "minor"@) || contains(t, "quick"@) {
        Some("s"@)
    } else if contains(t, "xs"@) || contains(t, "tiny"@) || contains(t, "trivial"@) {
        Some("xs"@)
    } else {
        None
    }
}

/// Sizes of changes and issues.
pub struct SizeCalculator;

impl SizeCalculator {
    /// The size of a pull request by its changed lines: up to 50 `xs`, 150
    /// `s`, 300 `m`, 600 `l`, 1200 `xl`, 3000 `xxl`, beyond `xxxl`.
    pub fn calculate_pr_size(additions: i32, deletions: i32) -> (r: String)
        requires
            i32::MIN <= additions + deletions <= i32::MAX,
        ensures
            r@ == pr_size(additions + deletions),
    {
        let total = additions + deletions;
        if total <= 50 {
            "xs".to_string()
        } else if total <= 150 {
            "s".to_string()
        } else if total <= 300 {
            "m".to_string()
        } else if total <= 600 {
            "l".to_string()
        } else if total <= 1200 {
            "xl".to_string()
        } else if total <= 3000 {
            "xxl".to_string()
        } else {
            "xxxl".to_string()
        }
    }

    /// The size an issue's text asks for: the first of `xxl` (xxl, massive,
    /// epic), `xl` (xl, extra-large, huge), `l` (large, big, major), `m`
    /// (medium, mid, moderate), `s` (small, minor, quick), `xs` (xs, tiny,
    /// trivial) whose words occur in the text in lower case.
    pub fn detect_issue_size(text: &str) -> (r: Option<String>)
        ensures
            match r {
                Some(s) => issue_size(text@) == Some(s@),
                None => issue_size(text@) is None,
            },
    {
        let low = text.to_lowercase();
        let t = low.as_str();
        if str_contains(t, "xxl") || str_contains(t, "massive") || str_contains(t, "epic") {
            Some("xxl".to_string())
        } else if str_contains(t, "xl") || str_contains(t, "extra-large") || str_contains(t, "huge") {
            Some("xl".to_string())
        } else if str_contains(t, "large") || str_contains(t, "big") || str_contains(t, "major") {
            Some("l".to_string())
        } else if str_contains(t, "medium") || str_contains(t, "mid") || str_contains(t, "moderate") {
            Some("m".to_string())
        } else if str_contains(t, "small") || str_contains(t, "minor") || str_contains(t, "quick") {
            Some("s".to_string())
        } else if str_contains(t, "xs") || str_contains(t, "tiny") || str_contains(t, "trivial") {
            Some("xs".to_string())
        } else {
            None
        }
    }
}

/// The place of a size in the order xs, s, m, l, xl, xxl, xxxl.
pub open spec fn size_rank(s: Seq<char>) -> int {
    if s == "xs"@ {
        0
    } else if s == "s"@ {
        1
    } else if s == "m"@ {
        2
    } else if s == "l"@ {
        3
    } else if s == "xl"@ {
        4
    } else if s == "xxl"@ {
        5
    } else {
        6
    }
}

/// The law of change sizes: a larger change never gets a smaller size.
pub proof fn lemma_pr_size_monotonic(a: int, b: int)
    requires
        a <= b,
    ensures
        size_rank(pr_size(a)) <= size_rank(pr_size(b)),
{
    reveal_strlit("xs");
    reveal_strlit("s");
    reveal_strlit("m");
    reveal_strlit("l");
    reveal_strlit("xl");
    reveal_strlit("xxl");
    reveal_strlit("xxxl");
    assert("xs"@.len() == 2 && "s"@.len() == 1 && "m"@.len() == 1 && "l"@.len() == 1);
    assert("xl"@.len() == 2 && "xxl"@.len() == 3 && "xxxl"@.len() == 4);
    assert("s"@[0] == 's' && "m"@[0] == 'm' && "l"@[0] == 'l');
    assert("xs"@[1] == 's' && "xl"@[1] == 'l');
}

/// The sizes, smallest first.
pub open spec fn size_names() -> Seq<Seq<char>> {
    seq!["xs"@, "s"@, "m"@, "l"@, "xl"@, "xxl"@, "xxxl"@]
}

/// How many of the band limits 50, 150, 300, 600, 1200 and 3000 a change of
/// `total` lines goes beyond.
pub open spec fn limits_passed(total: int) -> int {
    (if total > 50 { 1int } else { 0int }) + (if total > 150 { 1int } else { 0int }) + (if total > 300 {
        1int
    } else {
        0int
    }) + (if total > 600 { 1int } else { 0int }) + (if total > 1200 { 1int } else { 0int }) + (if total
        > 3000 {
        1int
    } else {
        0int
    })
}

/// The law of size bands: a pull request gets the size whose place among xs,
/// s, m, l, xl, xxl, xxxl is the number of band limits (50, 150, 300, 600,
/// 1200, 3000 lines) that its added and deleted lines together go beyond;
/// so each band has its own size and every size is reached.
pub proof fn lemma_pr_size_bands(additions: int, deletions: int)
    ensures
        0 <= limits_passed(additions + deletions) < 7,
        pr_size(additions + deletions) == size_names()[limits_passed(additions + deletions)],
        forall|k: int| #![trigger size_names()[k]] 0 <= k < 7 ==> exists|t: int| #[trigger] pr_size(t) == size_names()[k],
{
    assert(pr_size(0) == size_names()[0]);
    assert(pr_size(100) == size_names()[1]);
    assert(pr_size(200) == size_names()[2]);
    assert(pr_size(400) == size_names()[3]);
    assert(pr_size(1000) == size_names()[4]);
    assert(pr_size(2000) == size_names()[5]);
    assert(pr_size(4000) == size_names()[6]);
}

/// The sizes that an issue's words ask for, the largest first, and the
/// words of each.
pub open spec fn issue_bands() -> Seq<(Seq<char>, Seq<Seq<char>>)> {
    seq![
        ("xxl"@, seq!["xxl"@, "massive"@, "epic"@]),
        ("xl"@, seq!["xl"@, "extra-large"@, "huge"@]),
        ("l"@, seq!["large"@, "big"@, "major"@]),
        ("m"@, seq!["medium"@, "mid"@, "moderate"@]),
        ("s"@, seq!["small"@, "minor"@, "quick"@]),
        ("xs"@, seq!["xs"@, "tiny"@, "trivial"@]),
    ]
}

/// Some word of band `k` occurs in a text.
pub open spec fn band_hit(t: Seq<char>, k: int) -> bool {
    exists|j: int| 0 <= j < 3 && contains(t, #[trigger] issue_bands()[k].1[j])
}

/// The law of issue sizes: an issue gets the size of the largest band one of
/// whose words occurs in its text, in lower case; and no size where no word
/// of any band occurs.
pub proof fn lemma_issue_size_bands(text: Seq<char>)
    ensures
        issue_size(text) is None <==> forall|k: int| 0 <= k < 6 ==> !#[trigger] band_hit(lowercase(text), k),
        forall|k: int|
            0 <= k < 6 && #[trigger] band_hit(lowercase(text), k) && (forall|j: int|
                0 <= j < k ==> !band_hit(lowercase(text), j)) ==> issue_size(text) == Some(issue_bands()[k].0),
{
    let t = lowercase(text);
    let b = issue_bands();
    assert(b[0].1[0] == "xxl"@ && b[0].1[1] == "massive"@ && b[0].1[2] == "epic"@);
    assert(b[1].1[0] == "xl"@ && b[1].1[1] == "extra-large"@ && b[1].1[2] == "huge"@);
    assert(b[2].1[0] == "large"@ && b[2].1[1] == "big"@ && b[2].1[2] == "major"@);
    assert(b[3].1[0] == "medium"@ && b[3].1[1] == "mid"@ && b[3].1[2] == "moderate"@);
    assert(b[4].1[0] == "small"@ && b[4].1[1] == "minor"@ && b[4].1[2] == "quick"@);
    assert(b[5].1[0] == "xs"@ && b[5].1[1] == "tiny"@ && b[5].1[2] == "trivial"@);
    assert(band_hit(t, 0) == (contains(t, "xxl"@) || contains(t, "massive"@) || contains(t, "epic"@)));
    assert(band_hit(t, 1) == (contains(t, "xl"@) || contains(t, "extra-large"@) || contains(t, "huge"@)));
    assert(band_hit(t, 2) == (contains(t, "large"@) || contains(t, "big"@) || contains(t, "major"@)));
    assert(band_hit(t, 3) == (contains(t, "medium"@) || contains(t, "mid"@) || contains(t, "moderate"@)));
    assert(band_hit(t, 4) == (contains(t, "small"@) || contains(t, "minor"@) || contains(t, "quick"@)));
    assert(band_hit(t, 5) == (contains(t, "xs"@) || contains(t, "tiny"@) || contains(t, "trivial"@)));
}

} // verus!
