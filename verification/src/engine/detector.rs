use vstd::prelude::*;
use crate::text::str_eq;

verus! {

/// What `regex::Regex::new(pattern)` and then `is_match(text)` answer: whether
/// the pattern matches somewhere in the text, `None` where the pattern does
/// not compile.
pub uninterp spec fn regex_match(pattern: Seq<char>, text: Seq<char>) -> Option<bool>;

/// Compiles `pattern` with `regex::Regex::new` and tests it on `text` with
/// `Regex::is_match`; the answer is the one that `regex_match` names.
#[verifier::external_body]
fn regex_is_match(pattern: &str, text: &str) -> (r: Option<bool>)
    ensures
        r == regex_match(pattern@, text@),
{
    regex::Regex::new(pattern).ok().map(|re| re.is_match(text))
}

/// The patterns of the detector: for each category, its labels in order of
/// precedence, each with the pattern that finds it.
pub open spec fn detector_table() -> Seq<(Seq<char>, Seq<(Seq<char>, Seq<char>)>)> {
    seq![
        (
            "type"@,
            seq![
                ("feat"@, r"(?i)\b(feature|add|new|implement)\b"@),
                ("fix"@, r"(?i)\b(fix|bug|hotfix|patch)\b"@),
                ("refactor"@, r"(?i)\b(refactor|cleanup|optimize)\b"@),
                ("docs"@, r"(?i)\b(doc|docs|documentation|readme)\b"@),
                ("ui"@, r"(?i)\b(ui|ux|design|style|component)\b"@),
                ("migration"@, r"(?i)\b(migration|migrate|upgrade)\b"@),
                ("db"@, r"(?i)\b(db|database|schema|query)\b"@),
                ("sec"@, r"(?i)\b(security|sec|auth|encrypt)\b"@),
                ("task"@, r"(?i)\b(task|chore)\b"@),
                ("stat"@, r"(?i)\b(report|stat|analytics|metric)\b"@),
            ],
        ),
        (
            "stage"@,
            seq![
                ("plan"@, r"(?i)\b(plan|planning|spec|specification)\b"@),
                ("act"@, r"(?i)\b(act|implement|doing|development)\b"@),
                ("test"@, r"(?i)\b(test|testing|qa)\b"@),
                ("doc"@, r"(?i)\b(doc|document|documentation)\b"@),
                ("review"@, r"(?i)\b(review|reviewing)\b"@),
                ("finalize"@, r"(?i)\b(finalize|finalized|done)\b"@),
            ],
        ),
        (
            "p"@,
            seq![
                ("p0"@, r"(?i)\b(p0|critical|urgent|blocker|asap)\b"@),
                ("p1"@, r"(?i)\b(p1|high|important|soon)\b"@),
                ("p2"@, r"(?i)\b(p2|low|minor|later)\b"@),
                ("p3"@, r"(?i)\b(p3|backlog|someday)\b"@),
            ],
        ),
        (
            "lang"@,
            seq![
                ("node"@, r"(?i)\b(node|nodejs)\b"@),
                ("js"@, r"(?i)\b(javascript|js)\b"@),
                ("ts"@, r"(?i)\b(typescript|ts)\b"@),
                ("rust"@, r"(?i)\b(rust|rs)\b"@),
                ("python"@, r"(?i)\b(python|py)\b"@),
            ],
        ),
        (
            "env"@,
            seq![
                ("dev"@, r"(?i)\b(dev|development|local|staging)\b"@),
                ("prod"@, r"(?i)\b(prod|production|live)\b"@),
                ("local"@, r"(?i)\b(local|localhost)\b"@),
            ],
        ),
        (
            "constraint"@,
            seq![
                ("mobile"@, r"(?i)\b(mobile|mobile-first|responsive|ios|android)\b"@),
            ],
        ),
        (
            "plat"@,
            seq![
                ("vercel"@, r"(?i)\b(vercel|deploy|preview)\b"@),
                ("ci"@, r"(?i)\b(ci|continuous integration|github actions|jenkins)\b"@),
                ("github"@, r"(?i)\b(github|gh)\b"@),
                ("gitlab"@, r"(?i)\b(gitlab|gl)\b"@),
            ],
        ),
    ]
}

/// The model of a list of (label, pattern) pairs.
pub open spec fn rules_view(v: Seq<(String, String)>) -> Seq<(Seq<char>, Seq<char>)> {
    v.map_values(|e: (String, String)| (e.0@, e.1@))
}

/// The first label of `rules`, from `i` on, whose pattern matches `text`.
pub open spec fn first_match(rules: Seq<(Seq<char>, Seq<char>)>, text: Seq<char>, i: int) -> Option<
    Seq<char>,
>
    decreases rules.len() - i,
{
    if i < 0 || i >= rules.len() {
        None
    } else if regex_match(rules[i].1, text) == Some(true) {
        Some(rules[i].0)
    } else {
        first_match(rules, text, i + 1)
    }
}

/// The rules of the first category named `category`, from `i` on.
pub open spec fn category_rules(
    table: Seq<(Seq<char>, Seq<(Seq<char>, Seq<char>)>)>,
    category: Seq<char>,
    i: int,
) -> Option<Seq<(Seq<char>, Seq<char>)>>
    decreases table.len() - i,
{
    if i < 0 || i >= table.len() {
        None
    } else if table[i].0 == category {
        Some(table[i].1)
    } else {
        category_rules(table, category, i + 1)
    }
}

/// What the detector finds in `text` for `category`: the first label of the
/// category whose pattern matches.
pub open spec fn detect_spec(
    table: Seq<(Seq<char>, Seq<(Seq<char>, Seq<char>)>)>,
    text: Seq<char>,
    category: Seq<char>,
) -> Option<Seq<char>> {
    match category_rules(table, category, 0) {
        Some(rules) => first_match(rules, text, 0),
        None => None,
    }
}

fn rule(label: &str, pattern: &str) -> (r: (String, String))
    ensures
        r.0@ == label@,
        r.1@ == pattern@,
{
    (label.to_string(), pattern.to_string())
}

/// Finds labels of a category in free text by keyword patterns.
pub struct Detector {
    patterns: Vec<(String, Vec<(String, String)>)>,
}

impl Detector {
    /// The categories with their (label, pattern) pairs.
    pub closed spec fn table(&self) -> Seq<(Seq<char>, Seq<(Seq<char>, Seq<char>)>)> {
        self.patterns@.map_values(|c: (String, Vec<(String, String)>)| (c.0@, rules_view(c.1@)))
    }

    /// The detector with its fixed patterns (see `detector_table`).
    pub fn new() -> (r: Detector)
        ensures
            r.table() == detector_table(),
    {
        let mut patterns: Vec<(String, Vec<(String, String)>)> = Vec::new();
        let mut g0: Vec<(String, String)> = Vec::new();
        g0.push(rule("feat", r"(?i)\b(feature|add|new|implement)\b"));
        g0.push(rule("fix", r"(?i)\b(fix|bug|hotfix|patch)\b"));
        g0.push(rule("refactor", r"(?i)\b(refactor|cleanup|optimize)\b"));
        g0.push(rule("docs", r"(?i)\b(doc|docs|documentation|readme)\b"));
        g0.push(rule("ui", r"(?i)\b(ui|ux|design|style|component)\b"));
        g0.push(rule("migration", r"(?i)\b(migration|migrate|upgrade)\b"));
        g0.push(rule("db", r"(?i)\b(db|database|schema|query)\b"));
        g0.push(rule("sec", r"(?i)\b(security|sec|auth|encrypt)\b"));
        g0.push(rule("task", r"(?i)\b(task|chore)\b"));
        g0.push(rule("stat", r"(?i)\b(report|stat|analytics|metric)\b"));
        assert(rules_view(g0@) =~= detector_table()[0].1);
        patterns.push(("type".to_string(), g0));
        let mut g1: Vec<(String, String)> = Vec::new();
        g1.push(rule("plan", r"(?i)\b(plan|planning|spec|specification)\b"));
        g1.push(rule("act", r"(?i)\b(act|implement|doing|development)\b"));
        g1.push(rule("test", r"(?i)\b(test|testing|qa)\b"));
        g1.push(rule("doc", r"(?i)\b(doc|document|documentation)\b"));
        g1.push(rule("review", r"(?i)\b(review|reviewing)\b"));
        g1.push(rule("finalize", r"(?i)\b(finalize|finalized|done)\b"));
        assert(rules_view(g1@) =~= detector_table()[1].1);
        patterns.push(("stage".to_string(), g1));
        let mut g2: Vec<(String, String)> = Vec::new();
        g2.push(rule("p0", r"(?i)\b(p0|critical|urgent|blocker|asap)\b"));
        g2.push(rule("p1", r"(?i)\b(p1|high|important|soon)\b"));
        g2.push(rule("p2", r"(?i)\b(p2|low|minor|later)\b"));
        g2.push(rule("p3", r"(?i)\b(p3|backlog|someday)\b"));
        assert(rules_view(g2@) =~= detector_table()[2].1);
        patterns.push(("p".to_string(), g2));
        let mut g3: Vec<(String, String)> = Vec::new();
        g3.push(rule("node", r"(?i)\b(node|nodejs)\b"));
        g3.push(rule("js", r"(?i)\b(javascript|js)\b"));
        g3.push(rule("ts", r"(?i)\b(typescript|ts)\b"));
        g3.push(rule("rust", r"(?i)\b(rust|rs)\b"));
        g3.push(rule("python", r"(?i)\b(python|py)\b"));
        assert(rules_view(g3@) =~= detector_table()[3].1);
        patterns.push(("lang".to_string(), g3));
        let mut g4: Vec<(String, String)> = Vec::new();
        g4.push(rule("dev", r"(?i)\b(dev|development|local|staging)\b"));
        g4.push(rule("prod", r"(?i)\b(prod|production|live)\b"));
        g4.push(rule("local", r"(?i)\b(local|localhost)\b"));
        assert(rules_view(g4@) =~= detector_table()[4].1);
        patterns.push(("env".to_string(), g4));
        let mut g5: Vec<(String, String)> = Vec::new();
        g5.push(rule("mobile", r"(?i)\b(mobile|mobile-first|responsive|ios|android)\b"));
        assert(rules_view(g5@) =~= detector_table()[5].1);
        patterns.push(("constraint".to_string(), g5));
        let mut g6: Vec<(String, String)> = Vec::new();
        g6.push(rule("vercel", r"(?i)\b(vercel|deploy|preview)\b"));
        g6.push(rule("ci", r"(?i)\b(ci|continuous integration|github actions|jenkins)\b"));
        g6.push(rule("github", r"(?i)\b(github|gh)\b"));
        g6.push(rule("gitlab", r"(?i)\b(gitlab|gl)\b"));
        assert(rules_view(g6@) =~= detector_table()[6].1);
        patterns.push(("plat".to_string(), g6));
        let r = Detector { patterns };
        assert(r.table() =~= detector_table());
        r
    }

    /// The first label of `category` whose pattern matches `text`, if any.
    pub fn detect(&self, text: &str, category: &str) -> (r: Option<String>)
        ensures
            match r {
                Some(l) => detect_spec(self.table(), text@, category@) == Some(l@),
                None => detect_spec(self.table(), text@, category@) is None,
            },
    {
        let ghost t = self.table();
        let mut c: usize = 0;
        while c < self.patterns.len()
            invariant
                c <= self.patterns@.len(),
                t == self.table(),
                category_rules(t, category@, 0) == category_rules(t, category@, c as int),
            decreases self.patterns.len() - c,
        {
            if str_eq(self.patterns[c].0.as_str(), category) {
                let rules = &self.patterns[c].1;
                let ghost rv = rules_view(rules@);
                assert(t[c as int].1 == rv);
                assert(category_rules(t, category@, 0) == Some(rv));
                let mut i: usize = 0;
                while i < rules.len()
                    invariant
                        i <= rules@.len(),
                        rv == rules_view(rules@),
                        t == self.table(),
                        category_rules(t, category@, 0) == Some(rv),
                        first_match(rv, text@, 0) == first_match(rv, text@, i as int),
                    decreases rules.len() - i,
                {
                    if regex_is_match(rules[i].1.as_str(), text) == Some(true) {
                        assert(rv[i as int] == (rules@[i as int].0@, rules@[i as int].1@));
                        return Some(rules[i].0.clone());
                    }
                    i = i + 1;
                }
                return None;
            }
            c = c + 1;
        }
        None
    }
}

} // verus!
