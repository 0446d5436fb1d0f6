use disk_monitor::notify::{warning_message_string, webhook_body};

#[test]
fn warning_text_names_filesystem_and_percentage() {
    let message = warning_message_string("testfs", "95%");
    assert_eq!(message, "WARNING: testfs: used 95%");
}

#[test]
fn body_is_the_expected_json_object() {
    let body = webhook_body("testfs", "95%");
    assert_eq!(body, "{\"text\":\"WARNING: testfs: used 95%\"}");
}

#[test]
fn body_parses_as_json_with_the_warning_text() {
    let body = webhook_body("/dev/sda1", "85%");
    let value: serde_json::Value = serde_json::from_str(&body).unwrap();
    let text = value.get("text").unwrap().as_str().unwrap();
    assert_eq!(text, "WARNING: /dev/sda1: used 85%");
}

#[test]
fn special_characters_are_escaped() {
    let body = webhook_body("a\"b\\c", "9%");
    let value: serde_json::Value = serde_json::from_str(&body).unwrap();
    let text = value.get("text").unwrap().as_str().unwrap();
    assert_eq!(text, "WARNING: a\"b\\c: used 9%");
}

#[test]
fn control_characters_are_escaped() {
    let body = webhook_body("a\nb\tc\u{1}d", "9%");
    assert!(body.contains("\\n"));
    assert!(body.contains("\\t"));
    assert!(body.contains("\\u0001"));
    let value: serde_json::Value = serde_json::from_str(&body).unwrap();
    let text = value.get("text").unwrap().as_str().unwrap();
    assert_eq!(text, "WARNING: a\nb\tc\u{1}d: used 9%");
}
