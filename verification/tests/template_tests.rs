use serde_json::Value;
use wm_core::error::ToolError;
use wm_core::json::{JsonMap, JsonNumber, JsonValue};
use wm_core::template_engine::{
    apply_helper, parse_template_ref, render, resolve_variable, to_camel_case, to_kebab_case,
    to_pascal_case, to_snake_case, to_start_case, RenderResult,
};

fn to_json(v: &Value) -> JsonValue {
    match v {
        Value::Null => JsonValue::Null,
        Value::Bool(b) => JsonValue::Bool(*b),
        Value::Number(n) => JsonValue::Number(JsonNumber {
            text: n.to_string(),
            nonzero: n.as_f64().map(|f| f != 0.0).unwrap_or(true),
        }),
        Value::String(s) => JsonValue::String(s.clone()),
        Value::Array(a) => JsonValue::Array(a.iter().map(to_json).collect(), v.to_string()),
        Value::Object(m) => JsonValue::Object(
            m.iter().map(|(k, x)| (k.clone(), to_json(x))).collect(),
            v.to_string(),
        ),
    }
}

fn obj(pairs: &[(&str, Value)]) -> Value {
    let mut m = serde_json::Map::new();
    for (k, v) in pairs {
        m.insert(k.to_string(), v.clone());
    }
    Value::Object(m)
}

fn vars(pairs: &[(&str, Value)]) -> JsonMap {
    let mut m = JsonMap::new();
    for (k, v) in pairs {
        m.insert(k.to_string(), to_json(v));
    }
    m
}

fn noop_resolver(name: &str) -> Result<String, ToolError> {
    Err(ToolError::not_found("template", name))
}

fn number_truth(s: &str) -> Option<bool> {
    s.parse::<f64>().ok().map(|n| n.is_finite() && n != 0.0)
}

fn run(template: &str, v: &JsonMap) -> Result<RenderResult, ToolError> {
    render(template, v, &noop_resolver, &number_truth, 0)
}

fn as_str(v: Option<&JsonValue>) -> Option<&str> {
    match v {
        Some(JsonValue::String(s)) => Some(s.as_str()),
        _ => None,
    }
}

#[test]
fn test_simple_variable() {
    let v = vars(&[("name", Value::from("World"))]);
    let result = run("Hello {{name}}!", &v).unwrap();
    assert_eq!(result.output, "Hello World!");
}

#[test]
fn test_unknown_variable_empty() {
    let v = JsonMap::new();
    let result = run("Hello {{unknown}}!", &v).unwrap();
    assert_eq!(result.output, "Hello !");
}

#[test]
fn test_if_truthy() {
    let v = vars(&[("show", Value::from(true))]);
    let result = run("{{#if show}}visible{{/if}}", &v).unwrap();
    assert_eq!(result.output, "visible");
}

#[test]
fn test_if_falsy() {
    let v = vars(&[("show", Value::from(false))]);
    let result = run("{{#if show}}visible{{/if}}", &v).unwrap();
    assert_eq!(result.output, "");
}

#[test]
fn test_each_array() {
    let items = Value::Array(vec![Value::from("a"), Value::from("b"), Value::from("c")]);
    let v = vars(&[("items", items)]);
    let result = run("{{#each items}}{{this}}{{/each}}", &v).unwrap();
    assert_eq!(result.output, "abc");
}

#[test]
fn test_each_objects() {
    let items = Value::Array(vec![
        obj(&[("name", Value::from("Alice"))]),
        obj(&[("name", Value::from("Bob"))]),
    ]);
    let v = vars(&[("items", items)]);
    let result = run("{{#each items}}{{name}}{{/each}}", &v).unwrap();
    assert_eq!(result.output, "AliceBob");
}

#[test]
fn test_pascal_case_helper() {
    let v = vars(&[("var", Value::from("hello_world"))]);
    let result = run("{{pascalCase var}}", &v).unwrap();
    assert_eq!(result.output, "HelloWorld");
}

#[test]
fn test_camel_case_helper() {
    let v = vars(&[("var", Value::from("hello_world"))]);
    let result = run("{{camelCase var}}", &v).unwrap();
    assert_eq!(result.output, "helloWorld");
}

#[test]
fn test_kebab_case_helper() {
    let v = vars(&[("var", Value::from("helloWorld"))]);
    let result = run("{{kebabCase var}}", &v).unwrap();
    assert_eq!(result.output, "hello-world");
}

#[test]
fn test_snake_case_helper() {
    let v = vars(&[("var", Value::from("helloWorld"))]);
    let result = run("{{snakeCase var}}", &v).unwrap();
    assert_eq!(result.output, "hello_world");
}

#[test]
fn test_dot_notation() {
    let v = vars(&[("user", obj(&[("name", Value::from("Alice"))]))]);
    let result = run("Hello {{user.name}}!", &v).unwrap();
    assert_eq!(result.output, "Hello Alice!");
}

#[test]
fn test_depth_limit() {
    let v = JsonMap::new();
    let nested = "{{#if true}}".repeat(15) + "deep" + &"{{/if}}".repeat(15);
    let result = run(&nested, &v);
    assert!(result.is_err(), "Expected depth limit error, got: {:?}", result);
}

#[test]
fn test_unless() {
    let v = vars(&[("hidden", Value::from(false))]);
    let result = run("{{#unless hidden}}visible{{/unless}}", &v).unwrap();
    assert_eq!(result.output, "visible");
}

#[test]
fn test_if_else() {
    let v = vars(&[("show", Value::from(false))]);
    let result = run("{{#if show}}yes{{else}}no{{/if}}", &v).unwrap();
    assert_eq!(result.output, "no");
}

#[test]
fn test_render_with_all_helpers() {
    let v = vars(&[("raw", Value::from("hello_world_test"))]);
    let tpl = "Pascal: {{pascalCase raw}}\nCamel: {{camelCase raw}}\nKebab: {{kebabCase raw}}\nSnake: {{snakeCase raw}}\nUpper: {{upperCase raw}}\nLower: {{lowerCase raw}}";
    let result = run(tpl, &v).unwrap();
    assert!(result.output.contains("Pascal: HelloWorldTest"));
    assert!(result.output.contains("Camel: helloWorldTest"));
    assert!(result.output.contains("Kebab: hello-world-test"));
    assert!(result.output.contains("Snake: hello_world_test"));
}

#[test]
fn test_template_ref_parsing() {
    let (name, args) = parse_template_ref("my-template key1=val1 key2=val2");
    assert_eq!(name, "my-template");
    assert_eq!(as_str(args.get("key1")), Some("val1"));
    assert_eq!(as_str(args.get("key2")), Some("val2"));
}

// ─── Further cases ─────────────────────────────────────────

#[test]
fn template_reference_is_rendered_with_its_arguments() {
    let resolver = |name: &str| -> Result<String, ToolError> {
        if name == "greet" {
            Ok("Hi {{who}}".to_string())
        } else {
            Err(ToolError::not_found("template", name))
        }
    };
    let v = JsonMap::new();
    let result = render("[{{@template/greet who=\"Ann\"}}]", &v, &resolver, &number_truth, 0).unwrap();
    assert_eq!(result.output, "[Hi Ann]");
    assert_eq!(result.referenced_templates, vec!["greet".to_string()]);
}

#[test]
fn missing_template_reference_is_an_error() {
    let v = JsonMap::new();
    let err = run("{{@template/nope}}", &v).unwrap_err();
    assert_eq!(err.code, "NOT_FOUND");
    assert_eq!(err.message, "template not found: nope");
}

#[test]
fn unclosed_block_error_names_the_tag() {
    let v = JsonMap::new();
    let err = run("{{#if x}}never closed", &v).unwrap_err();
    assert_eq!(err.code, "INTERNAL_ERROR");
    assert_eq!(err.message, "Unclosed block 'if' — missing {/if}");
}

#[test]
fn stray_closing_tag_is_an_error() {
    let v = JsonMap::new();
    let err = run("a{{/each}}b", &v).unwrap_err();
    assert_eq!(err.message, "Unexpected closing tag '/each' with no matching opening tag");
}

#[test]
fn depth_error_message() {
    let v = JsonMap::new();
    let err = render("x", &v, &noop_resolver, &number_truth, 11).unwrap_err();
    assert_eq!(err.message, "Template recursion depth exceeded (max 10)");
}

#[test]
fn nested_blocks_of_the_same_kind() {
    let v = vars(&[("a", Value::from(true)), ("b", Value::from(false))]);
    let result = run("{{#if a}}1{{#if b}}2{{/if}}3{{/if}}4", &v).unwrap();
    assert_eq!(result.output, "134");
}

#[test]
fn truthy_if_renders_the_part_before_else() {
    let v = vars(&[("show", Value::from(true))]);
    let result = run("{{#if show}}yes{{else}}no{{/if}}", &v).unwrap();
    assert_eq!(result.output, "yes");
}

#[test]
fn else_of_a_nested_if_belongs_to_the_nested_block() {
    let tpl = "{{#if a}}{{#if b}}x{{else}}y{{/if}}z{{else}}w{{/if}}";
    let tt = vars(&[("a", Value::from(true)), ("b", Value::from(true))]);
    assert_eq!(run(tpl, &tt).unwrap().output, "xz");
    let tf = vars(&[("a", Value::from(true)), ("b", Value::from(false))]);
    assert_eq!(run(tpl, &tf).unwrap().output, "yz");
    let f = vars(&[("a", Value::from(false)), ("b", Value::from(true))]);
    assert_eq!(run(tpl, &f).unwrap().output, "w");
}

#[test]
fn number_literals_as_conditions() {
    let v = JsonMap::new();
    assert_eq!(run("{{#if 0}}a{{else}}b{{/if}}", &v).unwrap().output, "b");
    assert_eq!(run("{{#if 2.5}}a{{/if}}", &v).unwrap().output, "a");
    assert_eq!(run("{{#unless nil}}c{{/unless}}", &v).unwrap().output, "c");
}

#[test]
fn values_that_are_not_strings_print_as_json() {
    let v = vars(&[
        ("n", Value::from(42)),
        ("flag", Value::from(true)),
        ("list", Value::Array(vec![Value::from(1), Value::from(2)])),
        ("none", Value::Null),
    ]);
    let result = run("{{n}} {{flag}} {{list}} [{{none}}]", &v).unwrap();
    assert_eq!(result.output, "42 true [1,2] []");
}

#[test]
fn each_over_a_non_array_renders_once() {
    let v = vars(&[("item", Value::from("solo"))]);
    let result = run("{{#each item}}<{{this}}>{{/each}}", &v).unwrap();
    assert_eq!(result.output, "<solo>");
}

#[test]
fn unterminated_and_empty_tags_are_kept() {
    let v = JsonMap::new();
    assert_eq!(run("a {{ b", &v).unwrap().output, "a {{ b");
    assert_eq!(run("x{{  }}y", &v).unwrap().output, "x{{}}y");
}

#[test]
fn case_helpers_directly() {
    assert_eq!(to_pascal_case("my-cool name"), "MyCoolName");
    assert_eq!(to_camel_case("My_thing"), "myThing");
    assert_eq!(to_snake_case("HelloBigWorld"), "hello_big_world");
    assert_eq!(to_kebab_case("some value"), "some-value");
    assert_eq!(to_start_case("hello_world-x"), "Hello World X");
    assert_eq!(apply_helper("upperCase", "abc"), "ABC");
    assert_eq!(apply_helper("lowercase", "AbC"), "abc");
    assert_eq!(apply_helper("mystery", "as is"), "as is");
}

#[test]
fn resolve_variable_paths() {
    let v = vars(&[("a", obj(&[("b", obj(&[("c", Value::from("deep"))]))])), ("s", Value::from("x"))]);
    assert!(matches!(resolve_variable("a.b.c", &v), JsonValue::String(ref s) if s == "deep"));
    assert!(matches!(resolve_variable("a.z", &v), JsonValue::Null));
    assert!(matches!(resolve_variable("s.t", &v), JsonValue::Null));
}

#[test]
fn template_ref_arguments_strip_quotes_and_skip_bare_words() {
    let (name, args) = parse_template_ref("  card  title=\"Big\" flag size=3 ");
    assert_eq!(name, "card");
    assert_eq!(as_str(args.get("title")), Some("Big"));
    assert_eq!(as_str(args.get("size")), Some("3"));
    assert!(args.get("flag").is_none());
}
