use sekkrit::error::{DecodeError, JsonKind};
use sekkrit::item::{Login, LoginField};

fn decode(text: &str) -> Result<Login, DecodeError> {
    Login::decode_text(text)
}

fn single_field(doc: &str) -> LoginField {
    let login = decode(doc).expect("decode should succeed");
    assert!(login.html_form.is_none());
    assert_eq!(login.fields.len(), 1);
    login.fields.into_iter().next().unwrap()
}

#[test]
fn minimal_text_field() {
    let f = single_field(r#"{"fields":[{"type":"T","value":"a","name":"n"}]}"#);
    match f {
        LoginField::Text { value, name, designation } => {
            assert_eq!(value, "a");
            assert_eq!(name, "n");
            assert!(designation.is_none());
        }
        _ => panic!("expected Text"),
    }
}

#[test]
fn minimal_password_field() {
    let f = single_field(r#"{"fields":[{"type":"P","value":"a","name":"n"}]}"#);
    match f {
        LoginField::Password { designation, .. } => assert!(designation.is_none()),
        _ => panic!("expected Password"),
    }
}

#[test]
fn minimal_info_field() {
    let f = single_field(r#"{"fields":[{"type":"I","value":"a","name":"n"}]}"#);
    assert!(matches!(f, LoginField::Info { .. }));
}

#[test]
fn minimal_checkbox_field() {
    let f = single_field(r#"{"fields":[{"type":"C","value":"a","name":"n"}]}"#);
    assert!(matches!(f, LoginField::Checkbox { .. }));
}

#[test]
fn minimal_button_field() {
    let f = single_field(r#"{"fields":[{"type":"B","value":"a","name":"n"}]}"#);
    assert!(matches!(f, LoginField::Button { .. }));
}

#[test]
fn duplicate_key_fails() {
    let r = decode(r#"{"fields":[{"type":"T","type":"T","value":"a","name":"n"}]}"#);
    match r {
        Err(DecodeError::DuplicateField(k)) => assert_eq!(k, "type"),
        _ => panic!("expected DuplicateField(type)"),
    }
}

#[test]
fn unknown_key_fails() {
    let r = decode(r#"{"fields":[{"type":"T","value":"a","name":"n","extra":"x"}]}"#);
    match r {
        Err(DecodeError::UnknownField(k)) => assert_eq!(k, "extra"),
        _ => panic!("expected UnknownField(extra)"),
    }
}

#[test]
fn missing_key_fails() {
    let r = decode(r#"{"fields":[{"type":"T","value":"a"}]}"#);
    match r {
        Err(DecodeError::MissingField(k)) => assert_eq!(k, "name"),
        _ => panic!("expected MissingField(name)"),
    }
}

#[test]
fn invalid_discriminator_fails() {
    let r = decode(r#"{"fields":[{"type":"X","value":"a","name":"n"}]}"#);
    match r {
        Err(DecodeError::InvalidDiscriminator(v)) => assert_eq!(v, "X"),
        _ => panic!("expected InvalidDiscriminator(X)"),
    }
}

#[test]
fn missing_fields_key_fails() {
    let r = decode(r#"{}"#);
    match r {
        Err(DecodeError::MissingField(k)) => assert_eq!(k, "fields"),
        _ => panic!("expected MissingField(fields)"),
    }
}

#[test]
fn empty_fields_array_decodes() {
    let login = decode(r#"{"fields":[]}"#).unwrap();
    assert!(login.fields.is_empty());
    assert!(login.html_form.is_none());
}

#[test]
fn html_form_decodes() {
    let login =
        decode(r#"{"htmlForm":{"htmlId":"i","htmlName":"m","htmlMethod":"post"},"fields":[]}"#)
            .unwrap();
    let form = login.html_form.expect("form expected");
    assert_eq!(form.html_id.as_deref(), Some("i"));
    assert_eq!(form.html_name.as_deref(), Some("m"));
    assert_eq!(form.html_method, "post");
}

#[test]
fn html_form_optional_members_absent() {
    let login = decode(r#"{"htmlForm":{"htmlMethod":"get"},"fields":[]}"#).unwrap();
    let form = login.html_form.unwrap();
    assert!(form.html_id.is_none());
    assert!(form.html_name.is_none());
    assert_eq!(form.html_method, "get");
}

#[test]
fn html_form_missing_method_fails() {
    let r = decode(r#"{"htmlForm":{"htmlId":"i"},"fields":[]}"#);
    match r {
        Err(DecodeError::MissingField(k)) => assert_eq!(k, "htmlMethod"),
        _ => panic!("expected MissingField(htmlMethod)"),
    }
}

#[test]
fn number_where_string_expected_fails() {
    let r = decode(r#"{"fields":[{"type":"T","value":1,"name":"n"}]}"#);
    match r {
        Err(DecodeError::TypeMismatch(k, kind)) => {
            assert_eq!(k, "value");
            assert_eq!(kind, JsonKind::Text);
        }
        _ => panic!("expected TypeMismatch(value, Text)"),
    }
}

#[test]
fn string_where_array_expected_fails() {
    let r = decode(r#"{"fields":"x"}"#);
    match r {
        Err(DecodeError::TypeMismatch(k, kind)) => {
            assert_eq!(k, "fields");
            assert_eq!(kind, JsonKind::Array);
        }
        _ => panic!("expected TypeMismatch(fields, Array)"),
    }
}

#[test]
fn number_where_form_expected_fails() {
    let r = decode(r#"{"htmlForm":7,"fields":[]}"#);
    match r {
        Err(DecodeError::TypeMismatch(k, kind)) => {
            assert_eq!(k, "htmlForm");
            assert_eq!(kind, JsonKind::Object);
        }
        _ => panic!("expected TypeMismatch(htmlForm, Object)"),
    }
}

#[test]
fn garbage_is_malformed() {
    assert!(matches!(decode("hello"), Err(DecodeError::MalformedJson)));
    assert!(matches!(decode(""), Err(DecodeError::MalformedJson)));
    assert!(matches!(decode(r#"{"fields":[}"#), Err(DecodeError::MalformedJson)));
    assert!(matches!(decode(r#"{"fields":[]}trailing"#), Err(DecodeError::MalformedJson)));
}

#[test]
fn invalid_utf8_is_malformed() {
    let r = Login::from_slice(&[0x7b, 0xff, 0xfe]);
    assert!(matches!(r, Err(DecodeError::MalformedJson)));
}

#[test]
fn from_slice_decodes_bytes() {
    let login =
        Login::from_slice(br#"{"fields":[{"type":"T","value":"a","name":"n"}]}"#).unwrap();
    assert_eq!(login.fields.len(), 1);
}

#[test]
fn whitespace_is_tolerated() {
    let login = decode(
        " {\n\t\"fields\" : [ { \"type\" : \"T\" , \"value\" : \"a\" , \"name\" : \"n\" } ] } \r\n",
    )
    .unwrap();
    assert_eq!(login.fields.len(), 1);
}

#[test]
fn string_escapes_decode() {
    let f = single_field(
        r#"{"fields":[{"type":"T","value":"a\"b\\c\/d\n\tA\u00e9","name":"n"}]}"#,
    );
    match f {
        LoginField::Text { value, .. } => {
            assert_eq!(value, "a\"b\\c/d\n\tA\u{e9}");
        }
        _ => panic!("expected Text"),
    }
}

#[test]
fn surrogate_pair_escape_decodes() {
    let f = single_field(r#"{"fields":[{"type":"T","value":"\ud83d\ude00","name":"n"}]}"#);
    match f {
        LoginField::Text { value, .. } => assert_eq!(value, "\u{1f600}"),
        _ => panic!("expected Text"),
    }
}

#[test]
fn lone_surrogate_escape_is_malformed() {
    let r = decode(r#"{"fields":[{"type":"T","value":"\ud83d","name":"n"}]}"#);
    assert!(matches!(r, Err(DecodeError::MalformedJson)));
}

#[test]
fn field_order_is_preserved() {
    let login = decode(
        r#"{"fields":[{"type":"T","value":"1","name":"a"},{"type":"P","value":"2","name":"b"},{"type":"I","value":"3","name":"c"}]}"#,
    )
    .unwrap();
    assert_eq!(login.fields.len(), 3);
    assert_eq!(login.fields[0].name().as_str(), "a");
    assert_eq!(login.fields[1].name().as_str(), "b");
    assert_eq!(login.fields[2].name().as_str(), "c");
    assert!(matches!(login.fields[0], LoginField::Text { .. }));
    assert!(matches!(login.fields[1], LoginField::Password { .. }));
    assert!(matches!(login.fields[2], LoginField::Info { .. }));
}

#[test]
fn duplicate_top_level_key_fails() {
    let r = decode(r#"{"fields":[],"fields":[]}"#);
    match r {
        Err(DecodeError::DuplicateField(k)) => assert_eq!(k, "fields"),
        _ => panic!("expected DuplicateField(fields)"),
    }
}

#[test]
fn unknown_top_level_key_fails() {
    let r = decode(r#"{"fields":[],"other":1}"#);
    match r {
        Err(DecodeError::UnknownField(k)) => assert_eq!(k, "other"),
        _ => panic!("expected UnknownField(other)"),
    }
}

#[test]
fn describe_names_the_error() {
    let e = decode("nope").unwrap_err();
    assert_eq!(e.describe(), "malformed JSON");
}
