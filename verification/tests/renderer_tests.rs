use specgen::renderer::{render_markdown, RenderContext};

#[test]
fn test_simple_required() {
    let tpl = "Hello, {{name}}!";
    let ctx = RenderContext::new().with_var("name", "World");
    assert_eq!(render_markdown(tpl, &ctx).unwrap(), "Hello, World!");
}

#[test]
fn test_multiple_placeholders() {
    let tpl = "{{greeting}}, {{name}}! Today is {{day}}.";
    let ctx = RenderContext::new()
        .with_var("greeting", "Hi")
        .with_var("name", "Alice")
        .with_var("day", "Monday");
    assert_eq!(render_markdown(tpl, &ctx).unwrap(), "Hi, Alice! Today is Monday.");
}

#[test]
fn test_missing_required_returns_error() {
    let tpl = "Hello, {{name}}!";
    let ctx = RenderContext::new();
    let res = render_markdown(tpl, &ctx);
    assert!(res.is_err());
    assert!(res.unwrap_err().contains("Missing required variable"));
}

#[test]
fn test_optional_present() {
    let tpl = "Start{{?opt}} and {{opt}}{{/opt}} End";
    let ctx = RenderContext::new().with_var("opt", "YES");
    assert_eq!(render_markdown(tpl, &ctx).unwrap(), "Start and YES End");
}

#[test]
fn test_optional_absent() {
    let tpl = "Start{{?opt}} and {{opt}}{{/opt}} End";
    let ctx = RenderContext::new();
    assert_eq!(render_markdown(tpl, &ctx).unwrap(), "Start End");
}

#[test]
fn test_optional_nested_required() {
    let tpl = "{{?show}}Hello, {{name}}!{{/show}}";
    let ctx = RenderContext::new().with_var("name", "Bob");
    assert_eq!(render_markdown(tpl, &ctx).unwrap(), "");
}

#[test]
fn test_each_simple() {
    let tpl = "Items: {{#each items}}{{name}}, {{/each}}done.";
    let ctx = RenderContext::new().with_var("items", r#"[{"name":"A"},{"name":"B"}]"#);
    assert_eq!(render_markdown(tpl, &ctx).unwrap(), "Items: A, B, done.");
}

#[test]
fn test_each_with_index() {
    let tpl = "{{#each items}}{{index}}: {{name}}\n{{/each}}";
    let ctx = RenderContext::new().with_var("items", r#"[{"name":"X"},{"name":"Y"}]"#);
    assert_eq!(render_markdown(tpl, &ctx).unwrap(), "0: X\n1: Y\n");
}

#[test]
fn test_each_item_alias() {
    let tpl = "{{#each items}}raw: {{item}}\n{{/each}}";
    let ctx = RenderContext::new().with_var("items", r#"[{"a":1},{"a":2}]"#);
    let out = render_markdown(tpl, &ctx).unwrap();
    assert!(out.contains("a"));
}

#[test]
fn test_nested_each() {
    let tpl = "{{#outer}}[{{#inner}}{{name}}{{/inner}}]{{/outer}}";
    let ctx = RenderContext::new()
        .with_var("outer", r#"[{"inner":[{"name":"A"},{"name":"B"}]},{"inner":[{"name":"C"}]}]"#)
        .with_var("inner", r#"[{"name":"X"}]"#);
    let out = render_markdown(tpl, &ctx).unwrap();
    assert_eq!(out, "[AB][C]");
}

#[test]
fn test_helpers() {
    let tpl = "{{uppercase name}} | {{lowercase city}} | {{trim spaced}}";
    let ctx = RenderContext::new()
        .with_var("name", "bob")
        .with_var("city", "PARIS")
        .with_var("spaced", "  word  ");
    assert_eq!(render_markdown(tpl, &ctx).unwrap(), "BOB | paris | word");
}

#[test]
fn set_variable_reads_back_and_later_wins() {
    let ctx = RenderContext::new().with_var("a", "1").with_var("b", "2").with_var("a", "3");
    assert_eq!(ctx.get("a"), Some("3"));
    assert_eq!(ctx.get("b"), Some("2"));
    assert_eq!(ctx.get("c"), None);
    let ctx2 = RenderContext::new().with_vars(&[("x", "1"), ("y", "2"), ("x", "9")]);
    assert_eq!(ctx2.get("x"), Some("9"));
    assert_eq!(ctx2.get("y"), Some("2"));
}

#[test]
fn plain_text_renders_as_itself() {
    let ctx = RenderContext::new();
    assert_eq!(render_markdown("no braces here } at all", &ctx).unwrap(), "no braces here } at all");
    assert_eq!(render_markdown("", &ctx).unwrap(), "");
}

#[test]
fn each_errors_name_the_list() {
    let ctx = RenderContext::new().with_var("xs", "not json").with_var("obj", r#"{"a":1}"#);
    assert_eq!(
        render_markdown("{{#each ys}}x{{/each}}", &ctx).unwrap_err(),
        "Missing list variable for each: 'ys'"
    );
    assert!(render_markdown("{{#each xs}}x{{/each}}", &ctx)
        .unwrap_err()
        .starts_with("Invalid JSON array for 'xs': "));
    assert_eq!(
        render_markdown("{{#each obj}}x{{/each}}", &ctx).unwrap_err(),
        "'obj' must be a JSON array"
    );
}

#[test]
fn helper_without_variable_is_an_error() {
    let ctx = RenderContext::new();
    assert_eq!(
        render_markdown("{{uppercase who}}", &ctx).unwrap_err(),
        "Missing variable for helper 'uppercase': 'who'"
    );
}

#[test]
fn deep_nesting_is_refused() {
    let mut tpl = String::new();
    for _ in 0..200 {
        tpl.push_str("{{?k}}");
    }
    tpl.push_str("x");
    for _ in 0..200 {
        tpl.push_str("{{/k}}");
    }
    let ctx = RenderContext::new().with_var("k", "v");
    let r = render_markdown(&tpl, &ctx);
    assert!(r.is_ok() || r.unwrap_err() == "template nesting too deep");
}
