use sekkrit::classify::Sensitivity;
use sekkrit::item::{Login, LoginField};

fn round_trips(doc: &str) {
    let first = Login::decode_text(doc).expect("first decode");
    let encoded = first.encode();
    let second = Login::decode_text(&encoded).expect("second decode");
    let re_encoded = second.encode();
    assert_eq!(encoded, re_encoded);
}

#[test]
fn round_trip_minimal() {
    round_trips(r#"{"fields":[{"type":"T","value":"a","name":"n"}]}"#);
}

#[test]
fn round_trip_full_form() {
    round_trips(
        r#"{"htmlForm":{"htmlId":"id1","htmlName":"login","htmlMethod":"post"},"fields":[{"type":"P","value":"s","name":"pw","designation":"Password"},{"type":"C","value":"yes","name":"remember"}]}"#,
    );
}

#[test]
fn round_trip_empty_fields() {
    round_trips(r#"{"fields":[]}"#);
}

#[test]
fn round_trip_with_escapes_and_whitespace() {
    round_trips(
        " { \"fields\" : [ { \"type\": \"I\", \"value\": \"line\\nbreak \\\"q\\\" \\u0001\", \"name\": \"x\\\\y\" } ] } ",
    );
}

#[test]
fn round_trip_preserves_field_order() {
    let doc = r#"{"fields":[{"type":"T","value":"1","name":"a"},{"type":"B","value":"2","name":"b"}]}"#;
    let first = Login::decode_text(doc).unwrap();
    let second = Login::decode_text(&first.encode()).unwrap();
    assert_eq!(second.fields.len(), 2);
    assert_eq!(second.fields[0].name().as_str(), "a");
    assert_eq!(second.fields[1].name().as_str(), "b");
    assert!(matches!(second.fields[0], LoginField::Text { .. }));
    assert!(matches!(second.fields[1], LoginField::Button { .. }));
}

#[test]
fn end_to_end_password_detail() {
    let doc = r#"{"htmlForm":{"htmlMethod":"post"},"fields":[{"type":"P","value":"s3cr3t","name":"pwd","designation":"Password"}]}"#;
    let login = Login::decode_text(doc).expect("decode");
    assert_eq!(login.fields.len(), 1);
    let field = &login.fields[0];
    assert!(matches!(field, LoginField::Password { .. }));
    let directive = field.classify();
    assert_eq!(directive.label, "Password");
    assert_eq!(directive.sensitivity, Sensitivity::Secret);
}
