use mimo_asr::error::AsrError;
use mimo_asr::response::{
    content_to_text, extract_text, is_truncated, JsonMember, JsonValue, MimoAsrResponse, MimoChoice,
    MimoError, MimoResponseMessage,
};
use serde_json::Value;

fn json(value: &Value) -> JsonValue {
    match value {
        Value::Null => JsonValue::Null,
        Value::Bool(b) => JsonValue::Bool(*b),
        Value::Number(n) => JsonValue::Number(n.to_string()),
        Value::String(s) => JsonValue::String(s.clone()),
        Value::Array(items) => JsonValue::Array(items.iter().map(json).collect()),
        Value::Object(members) => JsonValue::Object(
            members
                .iter()
                .map(|(name, value)| JsonMember { name: name.clone(), value: json(value) })
                .collect(),
        ),
    }
}

fn present(value: Option<&Value>) -> Option<&Value> {
    value.filter(|v| !v.is_null())
}

fn choice(value: &Value) -> MimoChoice {
    MimoChoice {
        message: present(value.get("message")).map(|message| MimoResponseMessage {
            content: present(message.get("content")).map(json),
        }),
        finish_reason: present(value.get("finish_reason"))
            .map(|reason| reason.as_str().unwrap().to_string()),
    }
}

fn parse(body: &str) -> MimoAsrResponse {
    let value: Value = serde_json::from_str(body).unwrap();
    MimoAsrResponse {
        choices: present(value.get("choices"))
            .map(|choices| choices.as_array().unwrap().iter().map(choice).collect()),
        error: present(value.get("error")).map(|error| MimoError {
            message: present(error.get("message")).map(|m| m.as_str().unwrap().to_string()),
        }),
    }
}

fn server_message(r: Result<String, AsrError>) -> String {
    match r {
        Err(AsrError::ServerError(m)) => m,
        other => panic!("expected a server error, got {:?}", other),
    }
}

fn text_part(text: &str) -> JsonValue {
    JsonValue::Object(vec![
        JsonMember { name: "type".to_string(), value: JsonValue::String("text".to_string()) },
        JsonMember { name: "text".to_string(), value: JsonValue::String(text.to_string()) },
    ])
}

#[test]
fn extracts_transcript_from_string_content() {
    let response = parse(
        r#"{"choices":[{"message":{"role":"assistant","content":"你好，世界。"}}]}"#,
    );
    assert_eq!(extract_text(response).unwrap(), "你好，世界。");
}

#[test]
fn extracts_transcript_from_array_content() {
    let content = JsonValue::Array(vec![text_part("你好"), text_part("，世界。")]);
    assert_eq!(content_to_text(&content), "你好，世界。");
}

#[test]
fn surfaces_server_error() {
    let response = parse(r#"{"error":{"message":"bad request"}}"#);
    let err = extract_text(response).unwrap_err();
    assert!(err.message().contains("bad request"));
}

#[test]
fn empty_transcript_is_an_error() {
    let response = parse(r#"{"choices":[{"message":{"content":"   "}}]}"#);
    assert!(extract_text(response).is_err());
}

#[test]
fn server_errors_are_quoted() {
    assert_eq!(
        server_message(extract_text(parse(r#"{"error":{"message":"bad request"}}"#))),
        "MiMo error: bad request"
    );
    assert_eq!(
        server_message(extract_text(parse(r#"{"error":{}}"#))),
        "MiMo error: unknown error"
    );
    assert_eq!(
        server_message(extract_text(parse(r#"{"error":{"message":""}}"#))),
        "MiMo error: "
    );
}

#[test]
fn error_prevails_over_choices() {
    let body = r#"{"error":{"message":"late"},"choices":[{"message":{"content":"text"}}]}"#;
    assert_eq!(server_message(extract_text(parse(body))), "MiMo error: late");
}

#[test]
fn reply_without_text_is_reported() {
    let expected = "MiMo returned an empty transcript";
    for body in [
        r#"{}"#,
        r#"{"choices":[]}"#,
        r#"{"choices":[{}]}"#,
        r#"{"choices":[{"message":{}}]}"#,
        r#"{"choices":[{"message":{"content":42}}]}"#,
        r#"{"choices":[{"message":{"content":[]}}]}"#,
        r#"{"choices":[{"message":{"content":"\n\t　"}}]}"#,
    ] {
        assert_eq!(server_message(extract_text(parse(body))), expected, "{}", body);
    }
}

#[test]
fn choices_are_joined_by_lines() {
    let body = r#"{"choices":[{"message":{"content":" one "}},{"finish_reason":"stop"},
        {"message":{"content":null}},{"message":{"content":[{"text":"two"}]}},
        {"message":{"content":" three\n"}}]}"#;
    assert_eq!(extract_text(parse(body)).unwrap(), "one \ntwo\n three");
}

#[test]
fn parts_without_text_are_skipped() {
    let value: Value = serde_json::from_str(
        r#"["loose",{"text":"a"},{"text":7},{"type":"text"},[{"text":"deep"}],null,{"text":"b"}]"#,
    )
    .unwrap();
    assert_eq!(content_to_text(&json(&value)), "ab");
}

#[test]
fn other_content_has_no_text() {
    for value in [
        JsonValue::Null,
        JsonValue::Bool(true),
        JsonValue::Number("1".to_string()),
        text_part("inside an object"),
    ] {
        assert_eq!(content_to_text(&value), "");
    }
}

#[test]
fn part_reads_as_the_string_does() {
    let string = JsonValue::String("same".to_string());
    let parts = JsonValue::Array(vec![text_part("same")]);
    assert_eq!(content_to_text(&string), content_to_text(&parts));
}

#[test]
fn members_are_found_by_name() {
    let object = text_part("t");
    assert_eq!(object.get("type").unwrap().as_str(), Some("text"));
    assert_eq!(object.get("text").unwrap().as_str(), Some("t"));
    assert!(object.get("role").is_none());
    assert!(JsonValue::Array(vec![text_part("t")]).get("text").is_none());
    assert!(JsonValue::Bool(true).as_str().is_none());
}

#[test]
fn truncation_is_noticed() {
    assert!(is_truncated(&parse(
        r#"{"choices":[{"finish_reason":"stop"},{"finish_reason":"length"}]}"#
    )));
    assert!(!is_truncated(&parse(r#"{"choices":[{"finish_reason":"stop"},{}]}"#)));
    assert!(!is_truncated(&parse(r#"{}"#)));
    assert!(!is_truncated(&parse(
        r#"{"error":{},"choices":[{"finish_reason":"length"}]}"#
    )));
}

#[test]
fn texts_of_parts_follow_each_other() {
    let whole = JsonValue::Array(vec![
        text_part("one "),
        JsonValue::Null,
        text_part("two"),
        text_part(" three"),
    ]);
    let front = JsonValue::Array(vec![text_part("one "), JsonValue::Null]);
    let back = JsonValue::Array(vec![text_part("two"), text_part(" three")]);
    assert_eq!(content_to_text(&front), "one ");
    assert_eq!(content_to_text(&back), "two three");
    assert_eq!(content_to_text(&whole), "one two three");
}
