use snaglord::json_highlight::style;
use snaglord::json_highlight::{indent_fits, json_to_text, JsonValue};
use snaglord::styled::{Color, Style, Text};

fn spans(text: &Text) -> Vec<Vec<(String, Style)>> {
    text.lines
        .iter()
        .map(|l| l.spans.iter().map(|s| (s.content.clone(), s.style)).collect())
        .collect()
}

fn plain(s: &str) -> (String, Style) {
    (s.to_string(), Style { fg: None })
}

fn st(s: &str, style: Style) -> (String, Style) {
    (s.to_string(), style)
}

#[test]
fn styles_have_their_colours() {
    assert_eq!(style::key(), Style { fg: Some(Color::Cyan) });
    assert_eq!(style::string(), Style { fg: Some(Color::Green) });
    assert_eq!(style::number(), Style { fg: Some(Color::Yellow) });
    assert_eq!(style::boolean(), Style { fg: Some(Color::Magenta) });
    assert_eq!(style::null(), Style { fg: Some(Color::Red) });
    assert_eq!(style::bracket(), Style { fg: Some(Color::White) });
    assert_eq!(style::punctuation(), Style { fg: Some(Color::DarkGray) });
}

#[test]
fn scalars_take_one_line() {
    let t = json_to_text(&JsonValue::Null, 2);
    assert_eq!(spans(&t), vec![vec![plain(""), st("null", style::null())]]);
    let t = json_to_text(&JsonValue::Bool(false), 2);
    assert_eq!(spans(&t), vec![vec![plain(""), st("false", style::boolean())]]);
    let t = json_to_text(&JsonValue::Number("-1.5e3".to_string()), 2);
    assert_eq!(spans(&t), vec![vec![plain(""), st("-1.5e3", style::number())]]);
}

#[test]
fn strings_are_quoted_and_escaped() {
    let t = json_to_text(&JsonValue::String("say \"hi\" \\ bye".to_string()), 4);
    assert_eq!(
        spans(&t),
        vec![vec![plain(""), st("\"say \\\"hi\\\" \\\\ bye\"", style::string())]]
    );
}

#[test]
fn empty_containers_take_one_line() {
    let t = json_to_text(&JsonValue::Array(Vec::new()), 2);
    assert_eq!(spans(&t), vec![vec![plain(""), st("[]", style::bracket())]]);
    let t = json_to_text(&JsonValue::Object(Vec::new()), 2);
    assert_eq!(spans(&t), vec![vec![plain(""), st("{}", style::bracket())]]);
}

#[test]
fn arrays_put_commas_after_all_but_last_item() {
    let v = JsonValue::Array(vec![
        JsonValue::Number("1".to_string()),
        JsonValue::Bool(true),
        JsonValue::Null,
    ]);
    let t = json_to_text(&v, 2);
    let p = style::punctuation();
    assert_eq!(
        spans(&t),
        vec![
            vec![plain(""), st("[", style::bracket())],
            vec![plain("  "), st("1", style::number()), st(",", p)],
            vec![plain("  "), st("true", style::boolean()), st(",", p)],
            vec![plain("  "), st("null", style::null())],
            vec![plain(""), st("]", style::bracket())],
        ]
    );
}

#[test]
fn objects_put_keys_and_nested_brackets_on_one_line() {
    let v = JsonValue::Object(vec![
        ("name".to_string(), JsonValue::String("snag".to_string())),
        (
            "tags".to_string(),
            JsonValue::Array(vec![JsonValue::String("a".to_string())]),
        ),
        ("empty".to_string(), JsonValue::Object(Vec::new())),
        (
            "inner".to_string(),
            JsonValue::Object(vec![("n".to_string(), JsonValue::Null)]),
        ),
        ("none".to_string(), JsonValue::Array(Vec::new())),
    ]);
    let t = json_to_text(&v, 2);
    let p = style::punctuation();
    let b = style::bracket();
    let k = style::key();
    assert_eq!(
        spans(&t),
        vec![
            vec![plain(""), st("{", b)],
            vec![plain("  "), st("\"name\"", k), st(": ", p), st("\"snag\"", style::string()), st(",", p)],
            vec![plain("  "), st("\"tags\"", k), st(": ", p), st("[", b)],
            vec![plain("    "), st("\"a\"", style::string())],
            vec![plain("  "), st("]", b), st(",", p)],
            vec![plain("  "), st("\"empty\"", k), st(": ", p), st("{}", b), st(",", p)],
            vec![plain("  "), st("\"inner\"", k), st(": ", p), st("{", b)],
            vec![plain("    "), st("\"n\"", k), st(": ", p), st("null", style::null())],
            vec![plain("  "), st("}", b), st(",", p)],
            vec![plain("  "), st("\"none\"", k), st(": ", p), st("[]", b)],
            vec![plain(""), st("}", b)],
        ]
    );
}

#[test]
fn nested_arrays_indent_per_level() {
    let v = JsonValue::Array(vec![JsonValue::Array(vec![JsonValue::Null])]);
    let t = json_to_text(&v, 3);
    let b = style::bracket();
    assert_eq!(
        spans(&t),
        vec![
            vec![plain(""), st("[", b)],
            vec![plain("   "), st("[", b)],
            vec![plain("      "), st("null", style::null())],
            vec![plain("   "), st("]", b)],
            vec![plain(""), st("]", b)],
        ]
    );
}

#[test]
fn every_line_starts_with_indentation() {
    let v = JsonValue::Object(vec![
        ("a".to_string(), JsonValue::Array(vec![JsonValue::Null, JsonValue::Bool(true)])),
        ("b".to_string(), JsonValue::Number("2".to_string())),
    ]);
    let t = json_to_text(&v, 2);
    for line in &t.lines {
        let first = &line.spans[0];
        assert_eq!(first.style, Style { fg: None });
        assert!(first.content.chars().all(|c| c == ' '));
    }
}

#[test]
fn keys_are_not_escaped() {
    let v = JsonValue::Object(vec![("q\"k".to_string(), JsonValue::Null)]);
    let t = json_to_text(&v, 0);
    assert_eq!(spans(&t)[1][1], st("\"q\"k\"", style::key()));
}

fn from_serde(v: &serde_json::Value) -> JsonValue {
    match v {
        serde_json::Value::Null => JsonValue::Null,
        serde_json::Value::Bool(b) => JsonValue::Bool(*b),
        serde_json::Value::Number(n) => JsonValue::Number(n.to_string()),
        serde_json::Value::String(s) => JsonValue::String(s.clone()),
        serde_json::Value::Array(a) => JsonValue::Array(a.iter().map(from_serde).collect()),
        serde_json::Value::Object(o) => JsonValue::Object(
            o.iter().map(|(k, v)| (k.clone(), from_serde(v))).collect(),
        ),
    }
}

fn joined(t: &Text) -> String {
    t.lines
        .iter()
        .map(|l| l.spans.iter().map(|s| s.content.as_str()).collect::<String>())
        .collect::<Vec<_>>()
        .join("\n")
}

#[test]
fn text_matches_serde_json_pretty_printing() {
    let src = r#"{"name":"snag \"q\" \\ x","n":-12.5,"ok":true,"none":null,
        "list":[1,[],{},{"a":[false]}],"empty":{},"nested":{"b":{"c":[2,3]}}}"#;
    let value: serde_json::Value = serde_json::from_str(src).unwrap();
    let t = json_to_text(&from_serde(&value), 2);
    assert_eq!(joined(&t), serde_json::to_string_pretty(&value).unwrap());
}

#[test]
fn indentation_fit_check() {
    let v = JsonValue::Array(vec![JsonValue::Array(vec![JsonValue::Null])]);
    assert!(indent_fits(&v, 2));
    assert!(indent_fits(&v, 0));
    assert!(!indent_fits(&v, usize::MAX));
    assert!(indent_fits(&JsonValue::Null, usize::MAX));
    assert!(!indent_fits(&v, (isize::MAX as usize) / 2 + 1));
    assert!(indent_fits(&v, (isize::MAX as usize) / 2));
}
