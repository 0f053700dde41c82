//! The JSON value model: canonical serialization and the parser that
//! inverts it.

use mcp_sdk::json::{to_json_chars, Json};
use mcp_sdk::parse::parse_json;

fn to_text(j: &Json) -> String {
    to_json_chars(j).into_iter().collect()
}

fn parse_text(s: &str) -> Option<Json> {
    let chars: Vec<char> = s.chars().collect();
    parse_json(&chars)
}

fn obj(members: Vec<(&str, Json)>) -> Json {
    Json::Obj(
        members
            .into_iter()
            .map(|(k, v)| (k.to_string(), v))
            .collect(),
    )
}

#[test]
fn serializer_emits_canonical_text() {
    assert_eq!(to_text(&Json::Null), "null");
    assert_eq!(to_text(&Json::Bool(true)), "true");
    assert_eq!(to_text(&Json::Bool(false)), "false");
    assert_eq!(to_text(&Json::Int(0)), "0");
    assert_eq!(to_text(&Json::Int(-42)), "-42");
    assert_eq!(to_text(&Json::Int(i64::MAX)), "9223372036854775807");
    assert_eq!(to_text(&Json::Int(i64::MIN)), "-9223372036854775808");
    assert_eq!(to_text(&Json::Str("hi".to_string())), "\"hi\"");
    assert_eq!(
        to_text(&Json::Arr(vec![Json::Int(1), Json::Int(2), Json::Int(3)])),
        "[1,2,3]"
    );
    assert_eq!(
        to_text(&obj(vec![("a", Json::Int(1)), ("b", Json::Null)])),
        "{\"a\":1,\"b\":null}"
    );
    assert_eq!(to_text(&Json::Arr(Vec::new())), "[]");
    assert_eq!(to_text(&obj(vec![])), "{}");
}

#[test]
fn serializer_escapes_strings() {
    let tricky = "a\"b\\c\nd\te\rf".to_string();
    assert_eq!(
        to_text(&Json::Str(tricky.clone())),
        "\"a\\\"b\\\\c\\nd\\te\\rf\""
    );
    // a control character outside the named escapes
    let ctl = "x\u{01}y".to_string();
    assert_eq!(to_text(&Json::Str(ctl.clone())), "\"x\\u0001y\"");
    // both survive the trip back
    assert_eq!(
        parse_text(&to_text(&Json::Str(tricky.clone()))),
        Some(Json::Str(tricky))
    );
    assert_eq!(
        parse_text(&to_text(&Json::Str(ctl.clone()))),
        Some(Json::Str(ctl))
    );
}

#[test]
fn parser_inverts_the_serializer() {
    let value = obj(vec![
        ("id", Json::Int(-7)),
        (
            "items",
            Json::Arr(vec![
                Json::Str("α and β".to_string()),
                Json::Bool(false),
                Json::Null,
                obj(vec![("nested", Json::Arr(vec![obj(vec![])]))]),
            ]),
        ),
        ("note", Json::Str("line1\nline2".to_string())),
    ]);
    let text = to_text(&value);
    assert_eq!(parse_text(&text), Some(value));
}

#[test]
fn parser_reads_standard_escapes() {
    assert_eq!(parse_text("\"\\u0041\""), Some(Json::Str("A".to_string())));
    assert_eq!(parse_text("\"\\/\""), Some(Json::Str("/".to_string())));
    assert_eq!(
        parse_text("\"\\b\\f\""),
        Some(Json::Str("\u{8}\u{c}".to_string()))
    );
    // an unknown escape is rejected
    assert_eq!(parse_text("\"\\q\""), None);
}

#[test]
fn parser_reads_surrogate_pairs() {
    // an escaped pair denotes one supplementary-plane character
    assert_eq!(
        parse_text("\"\\ud83d\\ude00\""),
        Some(Json::Str("\u{1F600}".to_string()))
    );
    assert_eq!(
        parse_text("\"a\\uD83D\\uDE00b\""),
        Some(Json::Str("a\u{1F600}b".to_string()))
    );
    // a lone high surrogate, a lone low one, and a malformed pair fail
    assert_eq!(parse_text("\"\\ud800\""), None);
    assert_eq!(parse_text("\"\\ude00\""), None);
    assert_eq!(parse_text("\"\\ud83dxx\""), None);
    assert_eq!(parse_text("\"\\ud83d\\u0041\""), None);
}

#[test]
fn pretty_serializer_indents_nested_values() {
    let value = obj(vec![
        ("type", Json::Str("object".to_string())),
        (
            "properties",
            obj(vec![("a", obj(vec![("type", Json::Str("integer".to_string()))]))]),
        ),
    ]);
    let pretty: String = mcp_sdk::json::to_json_chars_pretty(&value)
        .into_iter()
        .collect();
    let expected = "{\n  \"type\": \"object\",\n  \"properties\": {\n    \"a\": {\n      \"type\": \"integer\"\n    }\n  }\n}";
    assert_eq!(pretty, expected);
    assert_eq!(
        mcp_sdk::json::to_json_chars_pretty(&Json::Arr(Vec::new()))
            .into_iter()
            .collect::<String>(),
        "[]"
    );
}

#[test]
fn parser_handles_integer_limits() {
    assert_eq!(
        parse_text("9223372036854775807"),
        Some(Json::Int(i64::MAX))
    );
    assert_eq!(
        parse_text("-9223372036854775808"),
        Some(Json::Int(i64::MIN))
    );
    assert_eq!(parse_text("9223372036854775808"), None);
    assert_eq!(parse_text("-9223372036854775809"), None);
}

#[test]
fn parser_rejects_malformed_frames() {
    assert_eq!(parse_text(""), None);
    assert_eq!(parse_text("nul"), None);
    assert_eq!(parse_text("true false"), None);
    assert_eq!(parse_text("{\"a\":}"), None);
    assert_eq!(parse_text("[1,2"), None);
    assert_eq!(parse_text("\"unterminated"), None);
    assert_eq!(parse_text("{\"a\":1}garbage"), None);
    assert_eq!(parse_text("-"), None);
}

#[test]
fn deep_nesting_round_trips() {
    let mut value = Json::Int(1);
    for _ in 0..40 {
        value = Json::Arr(vec![value]);
    }
    let text = to_text(&value);
    assert_eq!(parse_text(&text), Some(value));
}
