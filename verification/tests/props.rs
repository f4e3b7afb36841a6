use prevue::hydrate::{AttrAction, decide_arg_action, entry_value};
use prevue::json::JsonKind;
use prevue::{adjust_text_indent, render};
use serde_json::Value;

fn data() -> Value {
    serde_json::from_str(r#"{"list":[1,2,3],"flag":true,"name":"A"}"#).unwrap()
}

// A template with no directives and no mustaches renders to the
// parser's canonical form of the input.
#[test]
fn test_canonical_form_without_directives() {
    let input = "<div>plain <em>text</em></div>";
    let output = render(input.to_string(), Value::Null).unwrap();
    let expected = "<html><head></head><body><div>plain <em>text</em></div></body></html>";
    assert_eq!(output, expected);
}

// Rendering a directive-free document twice gives the same text as
// rendering it once.
#[test]
fn test_render_idempotent_without_directives() {
    let input = r#"
    <div>
        <p class="a">one</p>
        <p>two</p>
    </div>
    "#;
    let once = render(input.to_string(), data()).unwrap();
    let twice = render(once.clone(), data()).unwrap();
    assert_eq!(once, twice);
}

// A substituted value is not scanned again: braces coming from the data
// stay literal in the output.
#[test]
fn test_substituted_braces_stay_literal() {
    let payload: Value =
        serde_json::from_str(r#"{"a":"{{x}}","x":"y"}"#).unwrap();
    let input = r#"<div>{{ a }}</div>"#;
    let output = render(input.to_string(), payload).unwrap();
    let expected = "<html><head></head><body><div>{{x}}</div></body></html>";
    assert_eq!(output, expected);
}

// An empty array and an empty object are truthy; the empty string is
// falsy.
#[test]
fn test_truthiness_of_empty_collections() {
    let input = r#"
    <div>
        <p v-if="[]">ARR</p>
        <p v-if="({})">OBJ</p>
        <p v-if="''">STR</p>
    </div>
    "#;
    let output = render(input.to_string(), data()).unwrap();
    let expected = r#"<html><head></head><body><div>
        <p>ARR</p>
        <p>OBJ</p>
    </div>
    </body></html>"#;
    assert_eq!(output, expected);
}

// A binding set by one loop is not visible after the loop has exited
// its scopes.
#[test]
fn test_loop_binding_not_visible_after() {
    let input = r#"
    <div>
        <p v-for="x in [7]">{{ x }}</p>
        <em>{{ x }}</em>
    </div>
    "#;
    let output = render(input.to_string(), data()).unwrap();
    let expected = r#"<html><head></head><body><div>
        <p>7</p>
        <em></em>
    </div>
    </body></html>"#;
    assert_eq!(output, expected);
}

// Between two expansions of the same host, the host's leading indent
// reappears as a separating text node.
#[test]
fn test_separator_is_host_indent() {
    let input = "<div>\n  <i v-for=\"n in 2\">{{ n }}</i>\n</div>";
    let output = render(input.to_string(), data()).unwrap();
    let expected =
        "<html><head></head><body><div>\n  <i>1</i>\n  <i>2</i>\n</div></body></html>";
    assert_eq!(output, expected);
}

// The indent adjustment leaves the first line alone, pads later lines,
// and clamps removal at column zero.
#[test]
fn test_adjust_text_indent_pads_later_lines() {
    let text: Vec<char> = "a\n    b\nc".chars().collect();
    let wider: String = adjust_text_indent(&text, true, 2).into_iter().collect();
    assert_eq!(wider, "a\n      b\n  c");
    let narrower: String = adjust_text_indent(&text, false, 2).into_iter().collect();
    assert_eq!(narrower, "a\n  b\nc");
    let clamped: String = adjust_text_indent(&text, false, 9).into_iter().collect();
    assert_eq!(clamped, "a\nb\nc");
    let unchanged: String = adjust_text_indent(&text, true, 0).into_iter().collect();
    assert_eq!(unchanged, "a\n    b\nc");
}

// A `v-for` whose subject evaluates to something that is not iterable
// removes the host with no output.
#[test]
fn test_for_non_iterable_subject() {
    let input = r#"
    <div>
        <p v-for="v in null">X</p>
    </div>
    "#;
    let output = render(input.to_string(), data()).unwrap();
    let expected = r#"<html><head></head><body><div>
    </div>
    </body></html>"#;
    assert_eq!(output, expected);
}

// In an if-chain, the first true branch wins even when later branches
// are also true.
#[test]
fn test_chain_first_true_branch_wins() {
    let input = r#"
    <div>
        <p v-if="flag">A</p>
        <p v-else-if="flag">B</p>
        <p v-else>C</p>
    </div>
    "#;
    let output = render(input.to_string(), data()).unwrap();
    let expected = r#"<html><head></head><body><div>
        <p>A</p>
    </div>
    </body></html>"#;
    assert_eq!(output, expected);
}

// Interpolation, a condition, and a loop working together on one
// template.
#[test]
fn test_interpolation_if_and_for() {
    let payload: Value =
        serde_json::from_str(r#"{"u":{"name":"A","age":28},"xs":["a","b"]}"#).unwrap();
    let input = r#"<div><p v-if="u.age>=18">{{u.name}} adult</p><ul><li v-for="i in xs">{{i}}</li></ul></div>"#;
    let output = render(input.to_string(), payload).unwrap();
    let expected = "<html><head></head><body><div><p>A adult</p><ul><li>a</li><li>b</li></ul></div></body></html>";
    assert_eq!(output, expected);
}

// A dynamic bind resolves its attribute name from the data; a missing
// name or value drops the attribute.
#[test]
fn test_dynamic_bind_resolution_and_drop() {
    let payload: Value = serde_json::from_str(r#"{"k":"href","v":"/p"}"#).unwrap();
    let input = r#"<a :[k]="v">t</a>"#;
    let output = render(input.to_string(), payload).unwrap();
    assert_eq!(
        output,
        r#"<html><head></head><body><a href="/p">t</a></body></html>"#
    );

    let null_name: Value = serde_json::from_str(r#"{"k":null,"v":"/p"}"#).unwrap();
    let output = render(input.to_string(), null_name).unwrap();
    assert_eq!(output, "<html><head></head><body><a>t</a></body></html>");

    let null_value: Value = serde_json::from_str(r#"{"k":"href","v":null}"#).unwrap();
    let output = render(input.to_string(), null_value).unwrap();
    assert_eq!(output, "<html><head></head><body><a>t</a></body></html>");
}

// A repeated template disappears, leaving one copy of its body per
// iteration and no surrounding tag.
#[test]
fn test_template_for_unwraps_inline() {
    let input = r#"<div><template v-for="i in [1,2]"><em>{{i}}</em></template></div>"#;
    let output = render(input.to_string(), Value::Null).unwrap();
    let expected =
        "<html><head></head><body><div><em>1</em><em>2</em></div></body></html>";
    assert_eq!(output, expected);
}

// The argument-form decision table: a dynamic argument with an empty
// value, or with a missing name or value reply, is dropped; otherwise
// it is renamed; a static argument renames to itself.
#[test]
fn test_arg_action_decision_table() {
    let dynamic: Vec<char> = "[k]".chars().collect();
    let stat: Vec<char> = "href".chars().collect();
    let empty: Vec<char> = Vec::new();
    let expr: Vec<char> = "v".chars().collect();
    let name: Vec<char> = "href".chars().collect();
    let value: Vec<char> = "/p".chars().collect();

    assert!(matches!(
        decide_arg_action(dynamic.clone(), &empty, None, None),
        AttrAction::Drop
    ));
    assert!(matches!(
        decide_arg_action(dynamic.clone(), &expr, None, None),
        AttrAction::Drop
    ));
    assert!(matches!(
        decide_arg_action(dynamic.clone(), &expr, Some(name.clone()), None),
        AttrAction::Drop
    ));
    match decide_arg_action(dynamic, &expr, Some(name.clone()), Some(value.clone())) {
        AttrAction::Rename(n, v) => {
            assert_eq!(n, name);
            assert_eq!(v, value);
        },
        _ => panic!("a resolved dynamic argument renames"),
    }
    match decide_arg_action(stat.clone(), &expr, None, Some(value.clone())) {
        AttrAction::Rename(n, v) => {
            assert_eq!(n, stat);
            assert_eq!(v, value);
        },
        _ => panic!("a resolved static argument renames to itself"),
    }
    assert!(matches!(
        decide_arg_action(stat, &expr, None, None),
        AttrAction::Drop
    ));
}

// The object-form field stringification: null fields are skipped, a
// string field keeps its raw text, any other field takes its JSON
// serialization.
#[test]
fn test_entry_value_stringification() {
    let raw: Vec<char> = "hello".chars().collect();
    let text: Vec<char> = "123".chars().collect();
    assert!(entry_value(JsonKind::Null, Some(raw.clone()), text.clone()).is_none());
    assert_eq!(entry_value(JsonKind::Str, Some(raw.clone()), text.clone()), Some(raw));
    assert_eq!(entry_value(JsonKind::Number, None, text.clone()), Some(text));
}
