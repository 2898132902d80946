use specgen::json::{parse_json, Json};
use specgen::parser::markdown::{parse_markdown_template, serialize_markdown_template};
use specgen::parser::toml::parse_toml_template;
use specgen::parser::{parse_template_str, parse_template_text, TemplateFormat};

fn at<'a>(j: &'a Json, path: &[&str]) -> &'a Json {
    let mut cur = j;
    for k in path {
        cur = cur.get(k).unwrap_or_else(|| panic!("missing member {}", k));
    }
    cur
}

fn str_at<'a>(j: &'a Json, path: &[&str]) -> &'a str {
    at(j, path).as_str().expect("a string")
}

fn steps(j: &Json) -> &Vec<Json> {
    at(j, &["workflow", "steps"]).as_array().expect("an array")
}

#[test]
fn test_format_detection() {
    assert_eq!(TemplateFormat::from_path("test.json"), Some(TemplateFormat::Json));
    assert_eq!(TemplateFormat::from_path("test.md"), Some(TemplateFormat::Markdown));
    assert_eq!(TemplateFormat::from_path("test.toml"), Some(TemplateFormat::Toml));
    assert_eq!(TemplateFormat::from_path("test.txt"), Some(TemplateFormat::Json));
}

#[test]
fn test_auto_detect_from_path() {
    let md_path = "../templates/spec-workflow.md";
    let toml_path = "../templates/spec-workflow.toml";
    let json_path = "../templates/spec-workflow.json";
    assert_eq!(TemplateFormat::from_path(md_path), Some(TemplateFormat::Markdown));
    assert_eq!(TemplateFormat::from_path(toml_path), Some(TemplateFormat::Toml));
    assert_eq!(TemplateFormat::from_path(json_path), Some(TemplateFormat::Json));
}

#[test]
fn format_detection_ignores_case_and_needs_an_extension() {
    assert_eq!(TemplateFormat::from_path("NOTES.MD"), Some(TemplateFormat::Markdown));
    assert_eq!(TemplateFormat::from_path("a.Markdown"), Some(TemplateFormat::Markdown));
    assert_eq!(TemplateFormat::from_path("dir/plain"), None);
    assert_eq!(TemplateFormat::from_extension(Some("TOML")), Some(TemplateFormat::Toml));
    assert_eq!(TemplateFormat::from_extension(None), None);
}

#[test]
fn test_parse_simple_markdown_workflow() {
    let input = r#"<workflow title="Test" restart="0">
<rules>
These are the rules.
</rules>
<step id="0" critical="true">
**Step 0: Check**
- Do this
</step>
<output_template>
# {{Project Name}}
</output_template>
</workflow>"#;

    let result = parse_markdown_template(input).unwrap();
    assert_eq!(str_at(&result, &["workflow", "title"]), "Test");
    assert_eq!(str_at(&result, &["workflow", "restart"]), "0");
    assert!(str_at(&result, &["workflow", "rules"]).contains("rules"));
    assert_eq!(steps(&result).len(), 1);
    assert_eq!(steps(&result)[0].get("id").unwrap().as_str(), Some("0"));
    assert!(steps(&result)[0].get("critical").unwrap().as_bool().unwrap());
    assert!(steps(&result)[0].get("content").unwrap().as_str().unwrap().contains("Check"));
    assert!(str_at(&result, &["output_template", "content"]).contains("Project Name"));
}

#[test]
fn test_parse_multiple_steps() {
    let input = r#"<workflow title="Multi-Step" restart="0">
<step id="1" critical="false">Step 1 content</step>
<step id="2" critical="true">Step 2 content</step>
<step id="3">Step 3 content</step>
</workflow>"#;

    let result = parse_markdown_template(input).unwrap();
    let steps = steps(&result);
    assert_eq!(steps.len(), 3);
    assert_eq!(steps[0].get("id").unwrap().as_str(), Some("1"));
    assert!(!steps[0].get("critical").unwrap().as_bool().unwrap());
    assert_eq!(steps[1].get("id").unwrap().as_str(), Some("2"));
    assert!(steps[1].get("critical").unwrap().as_bool().unwrap());
    assert_eq!(steps[2].get("id").unwrap().as_str(), Some("3"));
    assert!(!steps[2].get("critical").unwrap().as_bool().unwrap());
}

#[test]
fn test_parse_with_special_characters() {
    let input = r#"<workflow title="测试" restart="0">
<rules>
- Rule with "quotes" and <angle brackets>
</rules>
<step id="0" critical="true">
Content with & ampersand and Thai: สวัสดี
</step>
</workflow>"#;

    let result = parse_markdown_template(input).unwrap();
    assert_eq!(str_at(&result, &["workflow", "title"]), "测试");
    assert!(str_at(&result, &["workflow", "rules"]).contains("quotes"));
    assert!(steps(&result)[0].get("content").unwrap().as_str().unwrap().contains("สวัสดี"));
}

#[test]
fn test_parse_unterminated_tag_auto_close() {
    let input = r#"<workflow title="Incomplete">
<step id="0">Content
</step>"#;

    let result = parse_markdown_template(input);
    assert!(result.is_ok());
    let val = result.unwrap();
    assert_eq!(str_at(&val, &["workflow", "title"]), "Incomplete");
    assert_eq!(steps(&val).len(), 1);
}

#[test]
fn test_parse_with_entities() {
    let input = r#"<workflow title="Entity Test">
<rules>
&lt;script&gt;alert()&lt;/script&gt;
</rules>
<step id="0">Content &amp; more</step>
</workflow>"#;

    let result = parse_markdown_template(input).unwrap();
    let rules = str_at(&result, &["workflow", "rules"]);
    assert!(rules.contains("<script>"));
    assert!(rules.contains("</script>"));
    let content = steps(&result)[0].get("content").unwrap().as_str().unwrap();
    assert!(content.contains("&"));
}

#[test]
fn test_serialize_markdown() {
    let input = parse_json(
        r##"{
            "workflow": {
                "title": "Test Serial",
                "restart": "1",
                "rules": "Rule 1",
                "steps": [
                    { "id": "0", "critical": true, "content": "Step 0" }
                ],
                "loop_restart": "Restart info"
            },
            "output_template": {
                "format": "markdown",
                "content": "# Output"
            }
        }"##,
    )
    .unwrap();

    let serialized = serialize_markdown_template(&input).unwrap();
    assert!(serialized.contains("<workflow title=\"Test Serial\" restart=\"1\">"));
    assert!(serialized.contains("<rules>\nRule 1\n</rules>"));
    assert!(serialized.contains("<step id=\"0\" critical=\"true\">\nStep 0\n</step>"));
    assert!(serialized.contains("<output_template format=\"markdown\">\n# Output\n</output_template>"));
}

#[test]
fn serialize_markdown_without_workflow_is_refused() {
    let input = parse_json(r#"{"output_template": {"content": "x"}}"#).unwrap();
    assert_eq!(serialize_markdown_template(&input).unwrap_err(), "Missing 'workflow' object");
}

#[test]
fn markdown_step_without_id_is_refused() {
    let input = "<workflow title=\"T\">\n<step critical=\"true\">x</step>\n</workflow>";
    assert!(parse_markdown_template(input).is_err());
}

#[test]
fn test_parse_simple_toml() {
    let input = r##"
[workflow]
title = "Test Workflow"
restart = "0"

[workflow.rules]
text = """
- Rule 1
- Rule 2
"""

[[workflow.steps]]
id = "0"
critical = true
content = "Step 0 content"

[[workflow.steps]]
id = "1"
critical = false
content = "Step 1 content"

[workflow.loop_restart]
text = "Restart from Step 0"

[output_template]
format = "markdown"
content = "# {{Project Name}}"
"##;

    let result = parse_toml_template(input).unwrap();
    assert_eq!(str_at(&result, &["workflow", "title"]), "Test Workflow");
    assert_eq!(str_at(&result, &["workflow", "restart"]), "0");
    assert!(str_at(&result, &["workflow", "rules"]).contains("Rule 1"));
    let steps = steps(&result);
    assert_eq!(steps.len(), 2);
    assert_eq!(steps[0].get("id").unwrap().as_str(), Some("0"));
    assert!(steps[0].get("critical").unwrap().as_bool().unwrap());
    assert_eq!(steps[1].get("id").unwrap().as_str(), Some("1"));
    assert!(!steps[1].get("critical").unwrap().as_bool().unwrap());
    assert!(str_at(&result, &["workflow", "loop_restart"]).contains("Restart"));
    assert_eq!(str_at(&result, &["output_template", "format"]), "markdown");
}

#[test]
fn test_parse_toml_minimal() {
    let input = r##"
[workflow]
title = "Minimal"
restart = "0"

[workflow.rules]
text = "Rules"

[[workflow.steps]]
id = "0"
critical = false
content = "Content"

[workflow.loop_restart]
text = ""

[output_template]
format = "json"
content = "{}"
"##;

    let result = parse_toml_template(input).unwrap();
    assert_eq!(str_at(&result, &["workflow", "title"]), "Minimal");
    assert_eq!(str_at(&result, &["output_template", "format"]), "json");
}

#[test]
fn test_parse_toml_with_thai() {
    let input = r##"
[workflow]
title = "การจัดการไฟล์ README.md"
restart = "0"

[workflow.rules]
text = """
        ขั้นตอน: ตรวจสอบการทำงาน
"""

[[workflow.steps]]
id = "0"
critical = true
content = """
**Step 0: ตรวจสอบ Git Directory**
- รัน `git rev-parse --is-inside-work-tree`
"""

[workflow.loop_restart]
text = "เริ่มใหม่ที่ Step 0"

[output_template]
format = "markdown"
content = """
# {{Project Name}}
"""
"##;

    let result = parse_toml_template(input).unwrap();
    assert_eq!(str_at(&result, &["workflow", "title"]), "การจัดการไฟล์ README.md");
    assert!(str_at(&result, &["workflow", "rules"]).contains("ขั้นตอน"));
    assert!(steps(&result)[0].get("content").unwrap().as_str().unwrap().contains("ตรวจสอบ Git"));
}

#[test]
fn test_parse_toml_missing_required() {
    let input = r##"
[workflow]
title = "Broken"

[output_template]
format = "markdown"
content = "test"
"##;
    let result = parse_toml_template(input);
    assert!(result.is_err());
    assert!(result.unwrap_err().contains("steps"));
}

#[test]
fn test_parse_toml_with_meta() {
    let input = r##"
[workflow]
title = "With Meta"
restart = "0"

[workflow.rules]
text = "Rules"

[[workflow.steps]]
id = "0"
critical = false
content = "Content"

[workflow.loop_restart]
text = "Restart"

[output_template]
format = "markdown"
content = "Output"

[meta]
version = "1.0.0"
author = "Test Author"
created_at = "2026-05-08T00:00:00Z"
"##;

    let result = parse_toml_template(input).unwrap();
    assert!(result.get("meta").is_some());
    let meta = result.get("meta").unwrap();
    assert_eq!(meta.get("version").and_then(|v| v.as_str()), Some("1.0.0"));
    assert_eq!(meta.get("author").and_then(|v| v.as_str()), Some("Test Author"));
}

#[test]
fn toml_errors_name_their_cause() {
    assert_eq!(
        parse_toml_template("[output_template]\nformat = \"json\"\n").unwrap_err(),
        "Missing [workflow] table"
    );
    assert_eq!(
        parse_toml_template("[workflow]\ntitle = \"T\"\n[[workflow.steps]]\nid = \"0\"\ncontent = \"c\"\n").unwrap_err(),
        "Missing [output_template] table"
    );
    assert_eq!(
        parse_toml_template("[workflow]\n[[workflow.steps]]\nid = \"0\"\n[[workflow.steps]]\ncontent = \"c\"\n[output_template]\n")
            .unwrap_err(),
        "Step 0 missing required 'content' field"
    );
    assert_eq!(
        parse_toml_template("[workflow]\nsteps = [1]\n[output_template]\n").unwrap_err(),
        "workflow.steps[0] must be a table"
    );
    assert!(parse_toml_template("this is = = not toml").unwrap_err().starts_with("TOML parse error: "));
}

#[test]
fn toml_defaults_apply() {
    let input = "[workflow]\n[[workflow.steps]]\nid = \"a\"\ncontent = \"c\"\nnext = \"b\"\n[output_template]\n";
    let result = parse_toml_template(input).unwrap();
    assert_eq!(str_at(&result, &["workflow", "title"]), "");
    assert_eq!(str_at(&result, &["workflow", "restart"]), "0");
    assert_eq!(str_at(&result, &["output_template", "format"]), "markdown");
    assert_eq!(steps(&result)[0].get("critical").unwrap().as_bool(), Some(false));
    assert_eq!(steps(&result)[0].get("next").unwrap().as_str(), Some("b"));
    assert!(result.get("meta").unwrap().is_null());
}

#[test]
fn template_str_dispatches_on_format() {
    let j = parse_template_str(r#"{"workflow": {"title": "J"}}"#, TemplateFormat::Json).unwrap();
    assert_eq!(str_at(&j, &["workflow", "title"]), "J");
    assert!(parse_template_str("{", TemplateFormat::Json).unwrap_err().starts_with("Invalid JSON: "));
    let m = parse_template_str("<workflow title=\"M\"></workflow>", TemplateFormat::Markdown).unwrap();
    assert_eq!(str_at(&m, &["workflow", "title"]), "M");
}

#[test]
fn template_text_detects_format_or_fails() {
    let m = parse_template_text("x/flow.md", "<workflow title=\"M\"></workflow>", None).unwrap();
    assert_eq!(str_at(&m, &["workflow", "title"]), "M");
    assert_eq!(
        parse_template_text("noext", "{}", None).unwrap_err(),
        "Cannot detect format from path: noext"
    );
}

#[test]
fn format_of_plain_file_names() {
    assert_eq!(TemplateFormat::from_path(".md"), None);
    assert_eq!(TemplateFormat::from_path("notes"), None);
    assert_eq!(TemplateFormat::from_path("a."), Some(TemplateFormat::Json));
    assert_eq!(TemplateFormat::from_path("archive.tar.toml"), Some(TemplateFormat::Toml));
    assert_eq!(TemplateFormat::from_path("..md"), Some(TemplateFormat::Markdown));
}

#[test]
fn format_of_paths_with_directories() {
    assert_eq!(TemplateFormat::from_path("../templates/spec-workflow.md"), Some(TemplateFormat::Markdown));
    assert_eq!(TemplateFormat::from_path("A.MARKDOWN"), Some(TemplateFormat::Markdown));
    assert_eq!(TemplateFormat::from_path("Makefile"), None);
    assert_eq!(TemplateFormat::from_path("dir.d/Makefile"), None);
    assert_eq!(TemplateFormat::from_path("/tmp/x/.toml"), None);
}
