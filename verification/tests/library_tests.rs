use specgen::backend::guardrail::{find_pack, get_builtin_packs, GuardrailRules};
use specgen::backend::memory as unified;
use specgen::backend::rules_engine::TierProcessor;
use specgen::cli::parse_keyval;
use specgen::craft::{document_title, parse_markdown_to_blocks, split_frontmatter};
use specgen::distiller::SkillDistiller;
use specgen::ids::{compact_id, new_id};
use specgen::json::parse_json;
use specgen::memory::{
    build_memory_query, category_to_string, check_insert_scope, current_timestamp, scope_to_string,
    string_to_memory_category, string_to_memory_scope, LinkDirection, QueryFilter, SqlArg,
};
use specgen::models::{MemoryCategory, MemoryScope, Tier, TierTag};
use specgen::rules_engine::{Rule, RuleProcessor, RuleTag};
use specgen::sandbox::{exec_status, sandbox_path, sync_commands, Daytona, Modal};
use specgen::task_delegator::TaskStatus;
use specgen::validator::{validate_template, ValidationErrorType};
use specgen::{json_template_from_text, serialize_template};
use specgen::parser::TemplateFormat;

fn test_schema() -> specgen::json::Json {
    parse_json(
        r#"{
        "type": "object",
        "required": ["workflow", "output_template"],
        "properties": {
            "workflow": {
                "type": "object",
                "required": ["title", "steps"],
                "properties": {
                    "title": { "type": "string" },
                    "steps": {
                        "type": "array",
                        "items": {
                            "type": "object",
                            "required": ["id", "critical", "content"],
                            "properties": {
                                "id": { "type": "string" },
                                "critical": { "type": "boolean" },
                                "content": { "type": "string" }
                            }
                        }
                    }
                }
            },
            "output_template": {
                "type": "object",
                "required": ["format", "content"],
                "properties": {
                    "format": { "type": "string", "enum": ["markdown", "yaml", "json"] },
                    "content": { "type": "string" }
                }
            }
        }
    }"#,
    )
    .unwrap()
}

fn valid_template() -> specgen::json::Json {
    parse_json(
        r#"{
        "workflow": {
            "title": "Test Workflow",
            "steps": [
                { "id": "0", "critical": true, "content": "First step" },
                { "id": "1", "critical": false, "content": "Second step" }
            ]
        },
        "output_template": {
            "format": "markdown",
            "content": "Hello"
        }
    }"#,
    )
    .unwrap()
}

#[test]
fn test_valid_template_passes() {
    assert!(validate_template(&test_schema(), &valid_template()).is_ok());
}

#[test]
fn test_invalid_template_fails() {
    let instance = parse_json(
        r#"{
        "workflow": { "title": "Invalid", "steps": [ { "id": "0", "critical": true } ] },
        "output_template": { "format": "unknown", "content": "test" }
    }"#,
    )
    .unwrap();
    let result = validate_template(&test_schema(), &instance);
    assert!(result.is_err());
    let errors = result.unwrap_err();
    assert!(!errors.is_empty());
    assert!(errors.iter().all(|e| matches!(e, ValidationErrorType::Validation { .. })));
}

#[test]
fn test_schema_compile_error_handling() {
    let bad_schema = parse_json(r#""not an object""#).unwrap();
    let result = validate_template(&bad_schema, &valid_template());
    assert!(result.is_err());
}

#[test]
fn tier_tag_numbers_round_trip() {
    for t in [TierTag::Must, TierTag::Should, TierTag::Avoid] {
        assert_eq!(TierTag::from(i32::from(t)), t);
    }
    assert_eq!(TierTag::from(7), TierTag::Must);
    assert_eq!(MemoryScope::try_from(5), Ok(MemoryScope::ScopeIdentity));
    assert_eq!(MemoryScope::try_from(6), Err(()));
    assert_eq!(MemoryCategory::try_from(4), Ok(MemoryCategory::CategoryInference));
}

#[test]
fn scope_and_category_names_round_trip() {
    for v in 0..6 {
        let name = scope_to_string(v).unwrap();
        assert_eq!(string_to_memory_scope(&name).map(|s| s.code()), Some(v));
    }
    assert_eq!(scope_to_string(9).unwrap_err(), "Invalid MemoryScope value: 9");
    assert_eq!(category_to_string(-1).unwrap_err(), "Invalid MemoryCategory value: -1");
    assert_eq!(category_to_string(2).unwrap(), "history");
    assert_eq!(string_to_memory_category("inference"), Some(MemoryCategory::CategoryInference));
    assert_eq!(string_to_memory_category("Fact"), None);
}

#[test]
fn unified_store_names() {
    assert_eq!(unified::topic_to_string(7).unwrap(), "FM25");
    assert_eq!(unified::topic_to_string(8).unwrap_err(), "Invalid Topic ID: 8");
    assert_eq!(unified::string_to_topic("INTEST"), Some(unified::MemoryTopic::TopicIntest));
    assert_eq!(unified::scope_to_string(-3).unwrap_err(), "Invalid Scope ID: -3");
    assert_eq!(unified::string_to_scope("policy"), Some(MemoryScope::ScopePolicy));
    assert_eq!(unified::string_to_memory_category("fact"), Some(MemoryCategory::CategoryFact));
    assert!(unified::check_insert_scope(5).is_err());
    assert!(unified::check_insert_scope(1).is_ok());
    assert!(unified::current_timestamp().unwrap() > 0);
}

#[test]
fn identity_entries_cannot_be_inserted() {
    assert!(check_insert_scope(MemoryScope::ScopeIdentity.code()).unwrap_err().contains("protected"));
    assert!(check_insert_scope(MemoryScope::ScopeProject.code()).is_ok());
    assert!(current_timestamp().unwrap() > 1_600_000_000);
}

#[test]
fn memory_query_text_and_arguments() {
    let f = QueryFilter {
        scope: Some("project".to_string()),
        category: None,
        has_min_confidence: true,
        tags: vec!["a".to_string(), "b".to_string()],
        owner: None,
        status: Some("active".to_string()),
        limit: Some(10),
        offset: Some(5),
    };
    let (sql, args) = build_memory_query(&f);
    assert!(sql.ends_with(
        "WHERE 1=1 AND scope = ? AND confidence >= ? AND status = ? AND tags LIKE ? AND tags LIKE ? ORDER BY confidence DESC, created_at DESC LIMIT ? OFFSET ?"
    ));
    assert_eq!(
        args,
        vec![
            SqlArg::Text("project".to_string()),
            SqlArg::MinConfidence,
            SqlArg::Text("active".to_string()),
            SqlArg::Text("%a%".to_string()),
            SqlArg::Text("%b%".to_string()),
            SqlArg::Int(10),
            SqlArg::Int(5),
        ]
    );
    let g = unified::QueryFilter {
        scope: None,
        category: None,
        topic: Some("WORK".to_string()),
        has_min_confidence: false,
        owner: None,
        limit: Some(3),
    };
    let (sql2, args2) = unified::build_memory_query(&g);
    assert!(sql2.ends_with("WHERE status = 'active' AND topic = ? ORDER BY confidence DESC, updated_at DESC LIMIT 3"));
    assert_eq!(args2, vec![SqlArg::Text("WORK".to_string())]);
    assert!(LinkDirection::Incoming.select_sql().contains("WHERE to_entry_id = ?1"));
}

fn tier(text: &str, tag: TierTag) -> Tier {
    Tier { id: 1, section_id: 1, text: text.to_string(), tag, code: None, order_index: 0, is_custom: false, user_id: None }
}

#[test]
fn tiers_validate_and_merge() {
    assert_eq!(TierProcessor::validate_tier(&tier("", TierTag::Should)).unwrap_err(), "Tier text cannot be empty");
    assert_eq!(
        TierProcessor::validate_tier(&tier("short", TierTag::Must)).unwrap_err(),
        "Critical tiers (MUST) must have detailed description"
    );
    assert_eq!(TierProcessor::validate_tier(&tier("short", TierTag::Avoid)), Ok(true));
    let merged = TierProcessor::merge_tiers(
        vec![tier("a", TierTag::Must), tier("b", TierTag::Must)],
        vec![tier("b", TierTag::Avoid), tier("c", TierTag::Avoid), tier("c", TierTag::Should)],
    );
    let texts: Vec<&str> = merged.iter().map(|t| t.text.as_str()).collect();
    assert_eq!(texts, vec!["a", "b", "c"]);
    assert_eq!(merged[1].tag, TierTag::Must);
    assert_eq!(merged[2].tag, TierTag::Avoid);
}

#[test]
fn rules_validate_and_merge() {
    let must = RuleTag::Must.code();
    assert_eq!(
        RuleProcessor::validate_rule(&Rule { text: "ไทย".to_string(), tag: must }).unwrap_err(),
        "Critical rules (MUST) must have detailed description"
    );
    assert_eq!(RuleProcessor::validate_rule(&Rule { text: "ไทยไทย".to_string(), tag: must }), Ok(true));
    let merged = RuleProcessor::merge_rules(
        vec![Rule { text: "x".to_string(), tag: 1 }],
        vec![Rule { text: "x".to_string(), tag: 2 }, Rule { text: "y".to_string(), tag: 2 }],
    );
    assert_eq!(merged.len(), 2);
    assert_eq!(merged[0].tag, 1);
}

#[test]
fn keyval_splits_at_first_equals() {
    assert_eq!(parse_keyval("a=b=c"), Ok(("a".to_string(), "b=c".to_string())));
    assert_eq!(parse_keyval("=v"), Ok(("".to_string(), "v".to_string())));
    assert_eq!(parse_keyval("novalue"), Err("KEY=VALUE format required".to_string()));
}

#[test]
fn ids_have_no_dashes() {
    assert_eq!(compact_id("a-b--c"), "abc");
    let id = new_id();
    assert_eq!(id.len(), 32);
    assert!(!id.contains('-'));
    assert!(id.chars().all(|c| c.is_ascii_digit() || ('a'..='f').contains(&c)));
    assert_eq!(id.chars().nth(12), Some('4'));
    assert!(matches!(id.chars().nth(16), Some('8' | '9' | 'a' | 'b')));
    assert_ne!(new_id(), id);
}

#[test]
fn task_status_names() {
    assert_eq!(TaskStatus::Todo.as_str(), "todo");
    assert_eq!(TaskStatus::InProgress.as_str(), "in_progress");
    assert_eq!(TaskStatus::Failed.as_str(), "failed");
}

#[test]
fn distiller_is_disabled() {
    let d = SkillDistiller::new("scripts/x.py").unwrap();
    let m = d.analyze_file("SKILL.md").unwrap();
    assert_eq!(m.name, "Disabled");
    assert!(m.is_slop);
}

#[test]
fn sandbox_headers_and_commands() {
    let d = Daytona::from_values("k1".to_string(), None);
    assert_eq!(d.base_url(), "https://api.daytona.io");
    assert_eq!(d.auth_header().unwrap(), "Bearer k1");
    let m = Modal::from_values("id".to_string(), "secret".to_string());
    assert_eq!(m.auth_header().unwrap(), "Basic aWQ6c2VjcmV0");
    assert_eq!(sandbox_path("abc", "/exec"), "/sandbox/abc/exec");
    assert_eq!(exec_status(0), (true, None));
    assert_eq!(exec_status(2), (false, Some("exit code 2".to_string())));
    let cmds = sync_commands("main", "say \"hi\"");
    assert_eq!(cmds, vec!["git add .", "git commit -m \"say \\\"hi\\\"\"", "git push origin main"]);
}

#[test]
fn modal_auth_header_padding() {
    let m = Modal::from_values("ab".to_string(), "c".to_string());
    assert_eq!(m.auth_header().unwrap(), "Basic YWI6Yw==");
    let m = Modal::from_values("ab".to_string(), "cd".to_string());
    assert_eq!(m.auth_header().unwrap(), "Basic YWI6Y2Q=");
    let m = Modal::from_values("\u{e9}".to_string(), "x".to_string());
    assert_eq!(m.auth_header().unwrap(), "Basic w6k6eA==");
}

#[test]
fn guardrail_packs() {
    let packs = get_builtin_packs();
    let names: Vec<&str> = packs.iter().map(|p| p.name.as_str()).collect();
    assert_eq!(names, vec!["default", "strict", "fast", "security", "migration"]);
    assert_eq!(packs[1].rules.min_test_coverage_percent, 100);
    assert!(packs[2].rules.allow_auto_approval);
    assert_eq!(GuardrailRules::default_rules().min_test_coverage_percent, 80);
    assert_eq!(find_pack("security").unwrap().rules.forbidden_patterns.len(), 3);
    assert_eq!(find_pack("nope").unwrap_err(), "Pack 'nope' not found");
}

#[test]
fn markdown_blocks_nest() {
    let blocks = parse_markdown_to_blocks("# Title\n\nSome text\n\n- one\n- two\n");
    assert_eq!(blocks.len(), 3);
    assert_eq!(blocks[0].block_type, "heading");
    assert_eq!(blocks[0].content, "Title");
    assert_eq!(blocks[1].block_type, "text");
    assert_eq!(blocks[2].block_type, "bulleted_list");
    assert_eq!(blocks[2].children.len(), 2);
    assert_eq!(blocks[2].children[0].block_type, "list_item");
    assert!(!blocks[0].id.contains('-'));
}

#[test]
fn frontmatter_and_title() {
    let (fm, body) = split_frontmatter("---\ntitle: T\n---\n# Body\n");
    assert!(fm.is_some());
    assert_eq!(body, "# Body");
    let (fm2, body2) = split_frontmatter("no front matter");
    assert!(fm2.is_none());
    assert_eq!(body2, "no front matter");
    assert_eq!(document_title(None, "# # Heading\nrest"), "Heading");
    assert_eq!(document_title(None, ""), "Untitled");
    assert_eq!(document_title(Some("Given".to_string()), "# x"), "Given");
}

#[test]
fn templates_serialize_in_each_format() {
    let v = parse_json(r#"{"workflow": {"title": "T", "steps": [], "x": null}, "output_template": {"format": "markdown", "content": "c"}}"#).unwrap();
    let toml = serialize_template(&v, TemplateFormat::Toml).unwrap();
    assert!(toml.contains("title = \"T\""));
    assert!(!toml.contains("x ="));
    let json = serialize_template(&v, TemplateFormat::Json).unwrap();
    assert!(json.contains("\"title\": \"T\""));
    let md = serialize_template(&v, TemplateFormat::Markdown).unwrap();
    assert!(md.starts_with("<workflow"));
    assert!(json_template_from_text("t.json", "{").unwrap_err().starts_with("Invalid JSON in t.json: "));
}

#[test]
fn schemas_with_ref_are_told_apart() {
    assert!(specgen::validator::is_ref_free(&test_schema()));
    let with_ref = parse_json(r##"{"type":"object","properties":{"a":{"items":[{"$ref":"#"}]}}}"##).unwrap();
    assert!(!specgen::validator::is_ref_free(&with_ref));
    let top = parse_json(r##"{"$ref":"#"}"##).unwrap();
    assert!(!specgen::validator::is_ref_free(&top));
}

#[test]
fn schemas_with_local_refs_are_taken() {
    let ok = parse_json(r##"{"definitions":{"step":{"type":"object"}},"type":"array","items":{"$ref":"#/definitions/step"}}"##).unwrap();
    assert!(specgen::validator::is_schema_ok(&ok));
    assert!(validate_template(&ok, &parse_json("[{}]").unwrap()).is_ok());
    assert!(validate_template(&ok, &parse_json("[1]").unwrap()).is_err());
    let cyclic = parse_json(r##"{"definitions":{"a":{"$ref":"#/definitions/a"}},"$ref":"#/definitions/a"}"##).unwrap();
    assert!(!specgen::validator::is_schema_ok(&cyclic));
    let top = parse_json(r##"{"$ref":"#"}"##).unwrap();
    assert!(!specgen::validator::is_schema_ok(&top));
    let with_id = parse_json(r##"{"$id":"http://x/s","definitions":{"a":{}},"$ref":"#/definitions/a"}"##).unwrap();
    assert!(!specgen::validator::is_schema_ok(&with_id));
    assert!(specgen::validator::is_schema_ok(&test_schema()));
}
