use specgen::engine::constraint_engine::detect_blockers;
use specgen::engine::detector::Detector;
use specgen::engine::file_detector::FileDetector;
use specgen::engine::label_parser::{build_timeline_event, normalize_labels, resolve_state};
use specgen::engine::labels::LabelSet;
use specgen::engine::policy::PolicyEngine;
use specgen::engine::resolve_full_state;
use specgen::engine::resolver::Resolver;
use specgen::engine::size_calc::SizeCalculator;

fn strings(v: &[&str]) -> Vec<String> {
    v.iter().map(|s| s.to_string()).collect()
}

#[test]
fn test_file_aware_and_policy() {
    let title = "update stuff".to_string();
    let changed_files = vec!["src/main.rs".to_string(), "Cargo.toml".to_string()];
    let result = resolve_full_state(title, "".to_string(), 10, 5, changed_files, vec![], vec![], vec![]);
    assert!(result.contains(&"lang:rust".to_string()));
    assert!(result.contains(&"type:dep".to_string()));
}

#[test]
fn test_policy_guardrail() {
    let title = "finish work".to_string();
    let changed_files = vec!["src/lib.rs".to_string()];
    let manual_add = vec!["stage:finalize".to_string()];
    let result = resolve_full_state(title, "".to_string(), 10, 5, changed_files, vec![], manual_add, vec![]);
    assert!(result.contains(&"stage:review".to_string()));
    assert!(result.contains(&"auto:wait".to_string()));
    assert!(!result.contains(&"stage:finalize".to_string()));
}

#[test]
fn resolve_output_is_sorted_unique_with_defaults() {
    let r = Resolver::resolve(
        strings(&["type:fix", "lang:rust"]),
        strings(&["type:feat"]),
        strings(&["old"]),
        strings(&["old", "keep", "keep"]),
        vec![],
    );
    assert_eq!(r, strings(&["keep", "lang:rust", "p:p1", "size:m", "stage:spec", "type:feat"]));
}

#[test]
fn blocking_label_escalates_priority() {
    let mut labels = LabelSet::from_vec(strings(&["p:p2", "auto:blocking", "x"]));
    PolicyEngine::enforce(&mut labels, &vec![]);
    assert!(labels.contains("p:p0"));
    assert!(!labels.contains("p:p2"));
    assert!(labels.contains("auto:blocking"));
}

#[test]
fn approved_code_change_may_finalize() {
    let mut labels = LabelSet::from_vec(strings(&["stage:finalize", "rev:ready"]));
    PolicyEngine::enforce(&mut labels, &strings(&["a.py"]));
    assert!(labels.contains("stage:finalize"));
    assert!(!labels.contains("auto:wait"));
}

#[test]
fn exclusive_groups_replace_each_other() {
    let mut labels = LabelSet::from_vec(strings(&["stage:plan", "stage:act", "other:1"]));
    Resolver::add_exclusive(&mut labels, " stage :test".to_string());
    assert!(!labels.contains("stage:plan"));
    assert!(labels.contains("other:1"));
    assert!(labels.contains(" stage :test"));
    Resolver::add_exclusive(&mut labels, "other:2".to_string());
    assert!(labels.contains("other:1") && labels.contains("other:2"));
    let mut d = LabelSet::new();
    Resolver::ensure_defaults(&mut d);
    assert_eq!(d.into_sorted(), strings(&["p:p1", "size:m", "stage:spec"]));
}

#[test]
fn file_labels_from_paths() {
    let r = FileDetector::detect(&strings(&["tests/a.rs", "docs/x.md", "web/app.ts", "package.json"]));
    assert_eq!(
        r,
        strings(&["lang:node", "lang:rust", "stage:test", "type:dep", "type:docs", "type:test"])
    );
}

#[test]
fn pr_and_issue_sizes() {
    assert_eq!(SizeCalculator::calculate_pr_size(20, 30), "xs");
    assert_eq!(SizeCalculator::calculate_pr_size(100, 51), "m");
    assert_eq!(SizeCalculator::calculate_pr_size(3000, 1), "xxxl");
    assert_eq!(SizeCalculator::detect_issue_size("An EPIC change"), Some("xxl".to_string()));
    assert_eq!(SizeCalculator::detect_issue_size("a quick fix"), Some("s".to_string()));
    assert_eq!(SizeCalculator::detect_issue_size("nothing said"), None);
}

#[test]
fn blockers_found_in_any_case() {
    assert!(detect_blockers(&strings(&["ok", "Merge CONFLICT"])));
    assert!(detect_blockers(&strings(&["rev:expert"])));
    assert!(!detect_blockers(&strings(&["fine"])));
}

#[test]
fn detector_finds_first_matching_label() {
    let d = Detector::new();
    assert_eq!(d.detect("Fix the login bug", "type"), Some("fix".to_string()));
    assert_eq!(d.detect("urgent please", "p"), Some("p0".to_string()));
    assert_eq!(d.detect("nothing here", "type"), None);
    assert_eq!(d.detect("fix", "unknown"), None);
}

#[test]
fn labels_normalize_into_state() {
    let mut s = normalize_labels(strings(&["agent: bot ", "state:doing", "p:p1", "team:a", "team:b", "nocolon"]));
    assert_eq!(s.agent.as_deref(), Some("bot"));
    assert_eq!(s.priority.as_deref(), Some("p1"));
    assert_eq!(s.extra, vec![("team".to_string(), "b".to_string())]);
    resolve_state(&mut s);
    assert_eq!(s.status.as_deref(), Some("in-progress"));
    let e = build_timeline_event("label".to_string(), strings(&["a"]), "me".to_string(), "t0".to_string());
    assert_eq!(e.actor, "me");
    assert!(e.metadata.is_empty());
}
