use qwen_client::{build_headers, build_request, ApiConfig, ApiError, FieldValue, Message, Role};

fn msg(role: Role, content: &str) -> Message {
    Message { role, content: content.to_string() }
}

fn config(body: Vec<(&str, serde_json::Value)>) -> ApiConfig {
    ApiConfig {
        body: body.into_iter().map(|(k, v)| (k.to_string(), v)).collect(),
        headers: Vec::new(),
    }
}

#[test]
fn system_messages_are_left_out() {
    let messages = vec![
        msg(Role::System, "be brief"),
        msg(Role::User, "hi"),
        msg(Role::Assistant, "hello"),
        msg(Role::System, "again"),
    ];
    let r = build_request(messages, false, &config(vec![]));
    let roles: Vec<Option<String>> = r.messages.iter().map(|m| m.role.clone()).collect();
    assert_eq!(roles, vec![Some("user".to_string()), Some("assistant".to_string())]);
    let contents: Vec<Option<String>> = r.messages.iter().map(|m| m.content.clone()).collect();
    assert_eq!(contents, vec![Some("hi".to_string()), Some("hello".to_string())]);
}

#[test]
fn model_defaults_when_absent() {
    let r = build_request(vec![], true, &config(vec![]));
    assert!(matches!(r.model, FieldValue::Text(ref s) if s == "qwen-plus"));
    assert!(matches!(r.max_tokens, FieldValue::Integer(8192)));
    assert!(r.stream);
}

#[test]
fn model_comes_from_configuration() {
    let cfg = config(vec![
        ("model", serde_json::Value::from("qwen-max")),
        ("max_tokens", serde_json::Value::from(100)),
    ]);
    let r = build_request(vec![], false, &cfg);
    assert!(matches!(r.model, FieldValue::Json(ref v) if v.as_str() == Some("qwen-max")));
    assert!(matches!(r.max_tokens, FieldValue::Json(ref v) if v.as_u64() == Some(100)));
    assert!(r.extra.is_empty());
}

#[test]
fn reserved_keys_cannot_be_overridden() {
    let cfg = config(vec![
        ("stream", serde_json::Value::from(true)),
        ("messages", serde_json::Value::from("x")),
        ("system", serde_json::Value::from("y")),
        ("temperature", serde_json::Value::from(1)),
    ]);
    let r = build_request(vec![msg(Role::User, "hi")], false, &cfg);
    assert!(!r.stream);
    assert_eq!(r.messages.len(), 1);
    let keys: Vec<String> = r.extra.iter().map(|(k, _)| k.clone()).collect();
    assert_eq!(keys, vec!["temperature".to_string()]);
}

#[test]
fn headers_carry_credential_then_custom_ones() {
    let custom = vec![("X-Trace".to_string(), "abc".to_string())];
    let h = build_headers("tok", Some(&custom)).unwrap();
    assert_eq!(
        h,
        vec![
            ("Authorization".to_string(), "Bearer tok".to_string()),
            ("Content-Type".to_string(), "application/json".to_string()),
            ("X-Trace".to_string(), "abc".to_string()),
        ]
    );
}

#[test]
fn control_character_in_token_is_rejected() {
    let r = build_headers("bad\ntoken", None);
    assert!(matches!(r, Err(ApiError::Internal { .. })));
    assert!(build_headers("tab\tok", None).is_ok());
    assert!(build_headers("ünïcode", None).is_ok());
}

#[test]
fn invalid_custom_header_is_rejected() {
    let bad_name = vec![("bad name".to_string(), "v".to_string())];
    assert!(matches!(build_headers("t", Some(&bad_name)), Err(ApiError::Internal { .. })));
    let bad_value = vec![("X-Ok".to_string(), "a\u{7f}".to_string())];
    assert!(matches!(build_headers("t", Some(&bad_value)), Err(ApiError::Internal { .. })));
}
