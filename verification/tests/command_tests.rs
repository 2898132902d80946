use specgen::cron::{cron_entry, crontab_with};
use specgen::generate::{output_content, with_output_content};
use specgen::json::{compact_json, parse_json, Json};
use specgen::renderer::{render_markdown, RenderContext};
use specgen::sync::SyncManager;
use specgen::craft::{import_title, parse_markdown_to_blocks, RawBlock};
use specgen::memory::insert_timestamps;
use specgen::engine::labels::LabelSet;
use specgen::engine::policy::PolicyEngine;
use specgen::rules_engine::{Rule, RuleProcessor};
use specgen::backend::guardrail::{find_pack, get_builtin_packs};

#[test]
fn cron_entry_puts_minute_before_hour() {
    assert_eq!(cron_entry("backup.sh", "08:30"), Ok("30 08 * * * backup.sh".to_string()));
    assert_eq!(cron_entry("echo hi", "+7:5"), Ok("5 +7 * * * echo hi".to_string()));
}

#[test]
fn cron_entry_needs_exactly_one_colon() {
    let invalid = Err("Invalid time format. Use HH:MM".to_string());
    assert_eq!(cron_entry("x", "0830"), invalid);
    assert_eq!(cron_entry("x", "08:30:00"), invalid);
}

#[test]
fn cron_entry_needs_numbers() {
    let numbers = Err("Hour and minute must be numbers".to_string());
    assert_eq!(cron_entry("x", "aa:30"), numbers);
    assert_eq!(cron_entry("x", ":30"), numbers);
    assert_eq!(cron_entry("x", "08:"), numbers);
    assert_eq!(cron_entry("x", "-1:30"), numbers);
    assert_eq!(cron_entry("x", "+:30"), numbers);
    assert_eq!(cron_entry("x", "4294967296:0"), numbers);
    assert_eq!(cron_entry("x", "4294967295:0"), Ok("0 4294967295 * * * x".to_string()));
}

#[test]
fn crontab_gets_the_entry_as_last_line() {
    assert_eq!(crontab_with("", "0 8 * * * a"), Ok("0 8 * * * a\n".to_string()));
    assert_eq!(crontab_with("0 9 * * * b", "0 8 * * * a"), Ok("0 9 * * * b\n0 8 * * * a\n".to_string()));
    assert_eq!(crontab_with("0 9 * * * b\n", "0 8 * * * a"), Ok("0 9 * * * b\n0 8 * * * a\n".to_string()));
}

#[test]
fn crontab_refuses_a_present_entry() {
    let dup = Err("This cron entry already exists".to_string());
    assert_eq!(crontab_with("x\n  0 8 * * * a \r\ny\n", "0 8 * * * a"), dup);
    assert_eq!(crontab_with("0 8 * * * a", "0 8 * * * a"), dup);
    assert_eq!(crontab_with("0 8 * * * ab\n", "0 8 * * * a"), Ok("0 8 * * * ab\n0 8 * * * a\n".to_string()));
}

#[test]
fn adding_an_entry_twice_is_refused() {
    let entry = cron_entry("backup.sh", "23:59").unwrap();
    let once = crontab_with("# jobs\n0 1 * * * other", &entry).unwrap();
    assert_eq!(crontab_with(&once, &entry), Err("This cron entry already exists".to_string()));
}

fn json(text: &str) -> Json {
    parse_json(text).unwrap()
}

#[test]
fn output_content_reads_the_template_text() {
    let t = json(r#"{"output_template":{"format":"markdown","content":"Hello, {{name}}!"}}"#);
    assert_eq!(output_content(&t), Ok("Hello, {{name}}!"));
    let missing = Err("output_template.content must be a string".to_string());
    assert_eq!(output_content(&json(r#"{"output_template":{"content":3}}"#)), missing);
    assert_eq!(output_content(&json(r#"{"workflow":{}}"#)), missing);
    assert_eq!(output_content(&json("[1]")), missing);
}

#[test]
fn generated_json_holds_the_rendered_content() {
    let t = json(r#"{"output_template":{"content":"Hello, {{name}}!","format":"markdown"},"workflow":{"title":"W"}}"#);
    let ctx = RenderContext::new().with_var("name", "Ada");
    let rendered = render_markdown(output_content(&t).unwrap(), &ctx).unwrap();
    let updated = with_output_content(t, rendered);
    assert_eq!(
        compact_json(&updated),
        r#"{"output_template":{"content":"Hello, Ada!","format":"markdown"},"workflow":{"title":"W"}}"#
    );
}

#[test]
fn output_content_is_added_where_missing() {
    assert_eq!(
        compact_json(&with_output_content(Json::Null, "x".to_string())),
        r#"{"output_template":{"content":"x"}}"#
    );
    assert_eq!(
        compact_json(&with_output_content(json(r#"{"output_template":{"a":1}}"#), "x".to_string())),
        r#"{"output_template":{"a":1,"content":"x"}}"#
    );
    assert_eq!(
        compact_json(&with_output_content(json(r#"{"output_template":null}"#), "x".to_string())),
        r#"{"output_template":{"content":"x"}}"#
    );
}

#[test]
fn sync_endpoint_prefers_the_given_one() {
    assert_eq!(SyncManager::endpoint(Some("http://a/x"), Some("http://b/y".to_string())), "http://a/x");
    assert_eq!(SyncManager::endpoint(None, Some("http://b/y".to_string())), "http://b/y");
    assert_eq!(SyncManager::endpoint(None, None), "http://localhost:8000/sync");
}

#[test]
fn sync_payload_carries_the_patch() {
    let p = SyncManager::payload("diff --git a b", "2024-01-01T00:00:00+00:00").unwrap();
    assert_eq!(
        compact_json(&p),
        r#"{"patch":"diff --git a b","source":"specgen-cli","timestamp":"2024-01-01T00:00:00+00:00"}"#
    );
    assert_eq!(
        SyncManager::payload("", "t").map(|_| ()),
        Err("No changes to sync - patch is empty".to_string())
    );
}

#[test]
fn placeholder_gives_way_to_its_value() {
    let ctx = RenderContext::new().with_var("who", "the world");
    assert_eq!(render_markdown("Hello, {{who}}! }", &ctx), Ok("Hello, the world! }".to_string()));
    assert_eq!(
        render_markdown("Hello, {{whom}}!", &ctx),
        Err("Missing required variable: 'whom'".to_string())
    );
}

#[test]
fn optional_block_shows_only_when_its_variable_is_set() {
    let set = RenderContext::new().with_var("extra", "yes");
    let unset = RenderContext::new();
    let t = "Intro. {{?extra}}Extra notes.{{/extra}} End.";
    assert_eq!(render_markdown(t, &set), Ok("Intro. Extra notes. End.".to_string()));
    assert_eq!(render_markdown(t, &unset), Ok("Intro.  End.".to_string()));
}

fn check_ids(blocks: &[RawBlock]) {
    for b in blocks {
        assert_eq!(b.id.len(), 32);
        assert!(b.id.chars().all(|c| c.is_ascii_digit() || ('a'..='f').contains(&c)));
        check_ids(&b.children);
    }
}

#[test]
fn block_ids_are_hex() {
    let blocks = parse_markdown_to_blocks("# Title\n\nSome text.\n\n- one\n- two\n");
    assert!(!blocks.is_empty());
    check_ids(&blocks);
}

#[test]
fn import_title_prefers_front_matter() {
    assert_eq!(import_title("---\ntitle: Plan\n---\n# Heading\n"), "Plan");
    assert_eq!(import_title("---\nauthor: me\n---\n# Heading\nbody"), "Heading");
    assert_eq!(import_title("# # Deep\nrest"), "Deep");
    assert_eq!(import_title(""), "Untitled");
}

#[test]
fn insert_times_are_never_before_now() {
    assert_eq!(insert_timestamps(0, 50, 10), (10, 50));
    assert_eq!(insert_timestamps(20, 5, 10), (20, 10));
}

fn labels(items: &[&str]) -> LabelSet {
    LabelSet::from_vec(items.iter().map(|s| s.to_string()).collect())
}

#[test]
fn policy_applied_twice_changes_nothing() {
    let files = vec!["src/lib.rs".to_string(), "Cargo.toml".to_string()];
    let mut l = labels(&["auto:blocking", "p:p2", "stage:finalize", "area:x"]);
    PolicyEngine::enforce(&mut l, &files);
    let once = l.into_sorted();
    let mut again = LabelSet::from_vec(once.clone());
    PolicyEngine::enforce(&mut again, &files);
    assert_eq!(again.into_sorted(), once);
    assert!(once.contains(&"area:x".to_string()));
    assert!(once.contains(&"p:p0".to_string()));
    assert!(!once.contains(&"p:p2".to_string()));
}

fn rule(t: &str) -> Rule {
    Rule { text: t.to_string(), tag: 1 }
}

fn texts(v: &[Rule]) -> Vec<String> {
    v.iter().map(|r| r.text.clone()).collect()
}

#[test]
fn merging_rules_twice_changes_nothing() {
    let existing = vec![rule("a"), rule("a"), rule("b")];
    let new = vec![rule("c"), rule("b"), rule("c"), rule("d")];
    let m = RuleProcessor::merge_rules(existing.clone(), new.clone());
    assert_eq!(texts(&m), vec!["a", "a", "b", "c", "d"]);
    let again = RuleProcessor::merge_rules(m.clone(), new);
    assert_eq!(texts(&again), texts(&m));
    assert_eq!(texts(&RuleProcessor::merge_rules(existing.clone(), vec![])), texts(&existing));
}

#[test]
fn context_last_setting_counts() {
    let c = RenderContext::default().with_var("k", "1").with_var("k", "2");
    assert_eq!(c.get("k"), Some("2"));
    assert_eq!(RenderContext::new().get("k"), None);
    let d = RenderContext::new().with_vars(&[("k", "1"), ("j", "2")]);
    assert_eq!(d.get("k"), Some("1"));
    assert_eq!(d.get("j"), Some("2"));
    let e = d.clone().with_var("k", "3");
    assert_eq!(e.get("k"), Some("3"));
    assert_eq!(d.get("k"), Some("1"));
}

#[test]
fn packs_carry_their_descriptions() {
    let packs = get_builtin_packs();
    assert_eq!(packs[1].name, "strict");
    assert_eq!(packs[1].description, "No auto-approvals, full markers required, 100% test coverage");
    assert_eq!(find_pack("migration").unwrap().description, "Rules for safe schema migrations and rollback plans");
}

#[test]
fn front_matter_becomes_json_metadata() {
    assert_eq!(specgen::craft::import_metadata("---\ntitle: Plan\n---\nbody"), Ok(r#"{"title":"Plan"}"#.to_string()));
    assert_eq!(specgen::craft::import_metadata("no front matter"), Ok("null".to_string()));
}

#[test]
fn sync_stops_at_the_first_failure() {
    use_sync_steps();
}

fn use_sync_steps() {
    let cmds = specgen::sandbox::sync_commands("main", "msg");
    assert_eq!(specgen::sandbox::sync_start(&cmds), specgen::sandbox::SyncAction::Run("git add .".to_string()));
    assert_eq!(
        specgen::sandbox::sync_step(&cmds, 0, true),
        specgen::sandbox::SyncAction::Run("git commit -m \"msg\"".to_string())
    );
    assert_eq!(
        specgen::sandbox::sync_step(&cmds, 1, false),
        specgen::sandbox::SyncAction::Failed("command failed: git commit -m \"msg\"".to_string())
    );
    assert_eq!(specgen::sandbox::sync_step(&cmds, 2, true), specgen::sandbox::SyncAction::Done);
}

#[test]
fn generated_yaml_holds_the_rendered_content() {
    let t = json(r#"{"output_template":{"content":"x"}}"#);
    let out = specgen::generate::generate_output(t, "Hi".to_string(), specgen::generate::OutputKind::Yaml).unwrap();
    assert!(out.contains("content: Hi"));
    let t2 = json(r#"{"output_template":{"content":"x"}}"#);
    assert_eq!(
        specgen::generate::generate_output(t2, "Hi".to_string(), specgen::generate::OutputKind::Markdown),
        Ok("Hi".to_string())
    );
}

#[test]
fn resolving_leaves_one_label_per_group_asked_for() {
    let v = |items: &[&str]| items.iter().map(|s| s.to_string()).collect::<Vec<String>>();
    let r = specgen::engine::resolver::Resolver::resolve(
        v(&["stage:test", "lang:rust"]),
        v(&["p:p2", "lang:python"]),
        v(&[]),
        v(&["stage:spec", "stage:review", "p:p1", "lang:go"]),
        v(&["src/main.rs"]),
    );
    for g in ["stage:", "p:", "lang:"] {
        assert_eq!(r.iter().filter(|l| l.starts_with(g)).count(), 1, "group {}", g);
    }
    assert!(r.contains(&"lang:python".to_string()));
    assert!(r.contains(&"stage:test".to_string()));
}

#[test]
fn sync_reply_outcomes() {
    let ok = SyncManager::reply(200, "200 OK", "{\"status\":\"ok\"}").unwrap();
    assert_eq!(specgen::json::compact_json(&ok), "{\"status\":\"ok\"}");
    assert_eq!(
        SyncManager::reply(404, "404 Not Found", "missing").unwrap_err(),
        "Server returned 404 Not Found: missing"
    );
    assert_eq!(
        SyncManager::reply(201, "201 Created", "not json").unwrap_err(),
        "Failed to parse JSON response: error decoding response body"
    );
    assert!(SyncManager::reply(299, "299", "[1]").is_ok());
    assert!(SyncManager::reply(300, "300 Multiple Choices", "[1]").is_err());
}
