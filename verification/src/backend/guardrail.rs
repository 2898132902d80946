use vstd::prelude::*;
use crate::text::{push_str, str_eq, string_of};

verus! {

#[derive(Debug)]
/// The rules a guardrail pack enforces. The minimum test coverage is held in
/// whole percent (80 for 0.8).
pub struct GuardrailRules {
    pub response_language: String,
    pub doc_language: String,
    pub required_markers: Vec<String>,
    pub memory_topics: Vec<String>,
    pub min_test_coverage_percent: u32,
    pub allow_auto_approval: bool,
    pub forbidden_patterns: Vec<String>,
}

/// A named set of guardrail rules.
#[derive(Debug)]
pub struct GuardrailPack {
    pub name: String,
    pub description: String,
    pub rules: GuardrailRules,
}

/// The model of guardrail rules.
pub struct RulesV {
    pub response_language: Seq<char>,
    pub doc_language: Seq<char>,
    pub required_markers: Seq<Seq<char>>,
    pub memory_topics: Seq<Seq<char>>,
    pub min_test_coverage_percent: u32,
    pub allow_auto_approval: bool,
    pub forbidden_patterns: Seq<Seq<char>>,
}

pub open spec fn strs(v: Seq<String>) -> Seq<Seq<char>> {
    v.map_values(|s: String| s@)
}

impl GuardrailRules {
    pub open spec fn model(&self) -> RulesV {
        RulesV {
            response_language: self.response_language@,
            doc_language: self.doc_language@,
            required_markers: strs(self.required_markers@),
            memory_topics: strs(self.memory_topics@),
            min_test_coverage_percent: self.min_test_coverage_percent,
            allow_auto_approval: self.allow_auto_approval,
            forbidden_patterns: strs(self.forbidden_patterns@),
        }
    }
}

/// The default rules: answers and documents in Thai, the four markers, the
/// six memory topics, 80% test coverage, no auto-approval, and two forbidden
/// patterns.
pub open spec fn default_rules_spec() -> RulesV {
    RulesV {
        response_language: "th"@,
        doc_language: "th"@,
        required_markers: seq!["[FIX]"@, "[TODO]"@, "[REF]"@, "[NOTE]"@],
        memory_topics: seq!["LEARN"@, "WORK"@, "TOOL"@, "INTEREST"@, "PROJECT"@, "IDENTIFY"@],
        min_test_coverage_percent: 80,
        allow_auto_approval: false,
        forbidden_patterns: seq!["any"@, "TODO: fixme"@],
    }
}

/// The built-in packs: each one's name, description and rules.
pub open spec fn builtin_packs_spec() -> Seq<(Seq<char>, Seq<char>, RulesV)> {
    seq![
        ("default"@, "Standard engineering guardrails with Thai language enforcement"@, default_rules_spec()),
        (
            "strict"@,
            "No auto-approvals, full markers required, 100% test coverage"@,
            RulesV { min_test_coverage_percent: 100, ..default_rules_spec() },
        ),
        (
            "fast"@,
            "Minimal gates, allows auto-approval for non-critical changes"@,
            RulesV { allow_auto_approval: true, min_test_coverage_percent: 0, ..default_rules_spec() },
        ),
        (
            "security"@,
            "Extra focus on security review and pattern rejection"@,
            RulesV { forbidden_patterns: seq!["api_key"@, "password"@, "secret"@], ..default_rules_spec() },
        ),
        (
            "migration"@,
            "Rules for safe schema migrations and rollback plans"@,
            RulesV { required_markers: seq!["[MIGRATION]"@, "[ROLLBACK]"@], ..default_rules_spec() },
        ),
    ]
}

fn strings(items: &[&str]) -> (r: Vec<String>)
    ensures
        strs(r@) == items@.map_values(|s: &str| s@),
{
    let mut out: Vec<String> = Vec::new();
    let mut i: usize = 0;
    while i < items.len()
        invariant
            i <= items@.len(),
            strs(out@) == items@.subrange(0, i as int).map_values(|s: &str| s@),
        decreases items.len() - i,
    {
        let ghost o0 = strs(out@);
        out.push(items[i].to_string());
        assert(strs(out@) =~= o0.push(items@[i as int]@));
        assert(items@.subrange(0, i + 1).map_values(|s: &str| s@) =~= items@.subrange(0, i as int).map_values(
            |s: &str| s@,
        ).push(items@[i as int]@));
        i = i + 1;
    }
    assert(items@.subrange(0, items@.len() as int) =~= items@);
    out
}

impl GuardrailRules {
    /// The default rules (see `default_rules_spec`).
    pub fn default_rules() -> (r: GuardrailRules)
        ensures
            r.model() == default_rules_spec(),
    {
        let markers = strings(&["[FIX]", "[TODO]", "[REF]", "[NOTE]"]);
        let topics = strings(&["LEARN", "WORK", "TOOL", "INTEREST", "PROJECT", "IDENTIFY"]);
        let forbidden = strings(&["any", "TODO: fixme"]);
        let r = GuardrailRules {
            response_language: "th".to_string(),
            doc_language: "th".to_string(),
            required_markers: markers,
            memory_topics: topics,
            min_test_coverage_percent: 80,
            allow_auto_approval: false,
            forbidden_patterns: forbidden,
        };
        assert(r.model().required_markers =~= default_rules_spec().required_markers);
        assert(r.model().memory_topics =~= default_rules_spec().memory_topics);
        assert(r.model().forbidden_patterns =~= default_rules_spec().forbidden_patterns);
        r
    }
}

fn pack(name: &str, description: &str, rules: GuardrailRules) -> (r: GuardrailPack)
    ensures
        r.name@ == name@,
        r.description@ == description@,
        r.rules.model() == rules.model(),
{
    GuardrailPack { name: name.to_string(), description: description.to_string(), rules }
}

/// The built-in packs: `default`, `strict` (full coverage), `fast`
/// (auto-approval, no coverage gate), `security` (secrets forbidden) and
/// `migration` (migration and rollback markers).
pub fn get_builtin_packs() -> (r: Vec<GuardrailPack>)
    ensures
        r@.len() == builtin_packs_spec().len(),
        forall|i: int|
            0 <= i < r@.len() ==> (#[trigger] r@[i]).name@ == builtin_packs_spec()[i].0
                && r@[i].description@ == builtin_packs_spec()[i].1 && r@[i].rules.model()
                == builtin_packs_spec()[i].2,
{
    let mut strict = GuardrailRules::default_rules();
    strict.min_test_coverage_percent = 100;
    let mut fast = GuardrailRules::default_rules();
    fast.allow_auto_approval = true;
    fast.min_test_coverage_percent = 0;
    let mut security = GuardrailRules::default_rules();
    security.forbidden_patterns = strings(&["api_key", "password", "secret"]);
    let mut migration = GuardrailRules::default_rules();
    migration.required_markers = strings(&["[MIGRATION]", "[ROLLBACK]"]);
    assert(security.model().forbidden_patterns =~= seq!["api_key"@, "password"@, "secret"@]);
    assert(migration.model().required_markers =~= seq!["[MIGRATION]"@, "[ROLLBACK]"@]);
    let mut r: Vec<GuardrailPack> = Vec::new();
    r.push(pack("default", "Standard engineering guardrails with Thai language enforcement", GuardrailRules::default_rules()));
    r.push(pack("strict", "No auto-approvals, full markers required, 100% test coverage", strict));
    r.push(pack("fast", "Minimal gates, allows auto-approval for non-critical changes", fast));
    r.push(pack("security", "Extra focus on security review and pattern rejection", security));
    r.push(pack("migration", "Rules for safe schema migrations and rollback plans", migration));
    r
}

/// The built-in pack with the given name, or the error `Pack '<name>' not
/// found`.
pub fn find_pack(name: &str) -> (r: Result<GuardrailPack, String>)
    ensures
        match r {
            Ok(p) => p.name@ == name@ && exists|i: int|
                0 <= i < builtin_packs_spec().len() && builtin_packs_spec()[i].0 == name@
                    && p.description@ == builtin_packs_spec()[i].1
                    && p.rules.model() == (#[trigger] builtin_packs_spec()[i]).2,
            Err(e) => e@ == "Pack '"@ + name@ + "' not found"@ && forall|i: int|
                0 <= i < builtin_packs_spec().len() ==> (#[trigger] builtin_packs_spec()[i]).0 != name@,
        },
{
    let mut packs = get_builtin_packs();
    let ghost all = packs@;
    let mut i: usize = 0;
    while i < packs.len()
        invariant
            i <= packs@.len(),
            packs@ == all,
            all.len() == builtin_packs_spec().len(),
            forall|k: int|
                0 <= k < all.len() ==> (#[trigger] all[k]).name@ == builtin_packs_spec()[k].0
                    && all[k].description@ == builtin_packs_spec()[k].1 && all[k].rules.model()
                    == builtin_packs_spec()[k].2,
            forall|k: int| 0 <= k < i ==> (#[trigger] builtin_packs_spec()[k]).0 != name@,
        decreases packs.len() - i,
    {
        if str_eq(packs[i].name.as_str(), name) {
            let p = packs.remove(i);
            assert(p == all[i as int]);
            return Ok(p);
        }
        i = i + 1;
    }
    let mut m: Vec<char> = Vec::new();
    push_str(&mut m, "Pack '");
    push_str(&mut m, name);
    push_str(&mut m, "' not found");
    Err(string_of(&m))
}

} // verus!
