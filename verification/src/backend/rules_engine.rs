use vstd::prelude::*;
use crate::models::{Tier, TierTag};
use crate::rules_engine::{Texted, byte_len, merge_by_text, merge_unique_text};

verus! {

impl Texted for Tier {
    open spec fn text_of(&self) -> Seq<char> {
        self.text@
    }

    fn text(&self) -> (r: &str) {
        self.text.as_str()
    }
}

/// What tier validation answers: an empty text is refused; a `MUST` tier
/// shorter than ten bytes is refused; every other tier passes.
pub open spec fn tier_check(text: Seq<char>, tag: TierTag) -> Result<bool, Seq<char>> {
    if text.len() == 0 {
        Err("Tier text cannot be empty"@)
    } else if tag == TierTag::Must && byte_len(text) < 10 {
        Err("Critical tiers (MUST) must have detailed description"@)
    } else {
        Ok(true)
    }
}

/// Checks tiers and merges tier sets.
pub struct TierProcessor;

impl TierProcessor {
    /// Checks a tier against the standard: it has a text, and a `MUST` tier
    /// describes itself in at least ten bytes.
    pub fn validate_tier(tier: &Tier) -> (r: Result<bool, String>)
        ensures
            match r {
                Ok(b) => tier_check(tier.text@, tier.tag) == Ok::<bool, Seq<char>>(b),
                Err(e) => tier_check(tier.text@, tier.tag) == Err::<bool, Seq<char>>(e@),
            },
    {
        if tier.text.as_str().is_empty() {
            return Err("Tier text cannot be empty".to_string());
        }
        if tier.tag == TierTag::Must && tier.text.as_str().len() < 10 {
            return Err("Critical tiers (MUST) must have detailed description".to_string());
        }
        Ok(true)
    }

    /// Merges tiers from several sources: the existing tiers stay, in order,
    /// and each new tier is appended unless a tier with the same text is
    /// already there.
    pub fn merge_tiers(existing: Vec<Tier>, new_tiers: Vec<Tier>) -> (r: Vec<Tier>)
        ensures
            r@ == merge_by_text(existing@, new_tiers@),
    {
        merge_unique_text(existing, new_tiers)
    }
}

} // verus!
