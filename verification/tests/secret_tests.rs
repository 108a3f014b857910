use crow_config::json::JsonValue;
use crow_config::secret::{secret_state, SecretValue, REDACTED};

#[test]
fn never_prints_or_serializes_the_value() {
    let s = SecretValue::new("tok-123");
    assert_eq!(s.to_text(), "[secret]");
    assert_eq!(REDACTED, "[secret]");
    assert_eq!(s.duplicate().to_text(), "[secret]");
    assert_eq!(s.expose(), "tok-123");
}

#[test]
fn deserializes_from_a_plain_string() {
    let s = SecretValue::new(&String::from("tok-123"));
    assert_eq!(s.expose(), "tok-123");
    assert!(!s.is_empty());
    assert!(SecretValue::new("").is_empty());
}

#[test]
fn secret_state_says_only_whether_it_is_set() {
    assert_eq!(secret_state(true), JsonValue::Object(vec![("set".to_string(), JsonValue::Bool(true))]));
    assert_eq!(secret_state(false), JsonValue::Object(vec![("set".to_string(), JsonValue::Bool(false))]));
}
