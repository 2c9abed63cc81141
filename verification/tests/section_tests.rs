use sekkrit::error::DecodeError;
use sekkrit::section::{Section, SectionKind};

fn decode(text: &str) -> Result<Section, DecodeError> {
    Section::decode_text(text)
}

#[test]
fn section_decodes() {
    let s = decode(
        r#"{"name":"main","title":"Main","sections":[{"k":"string","n":"user","v":"alice","t":"User"},{"k":"concealed","n":"pin","v":"1234","t":"PIN"}]}"#,
    )
    .unwrap();
    assert_eq!(s.name, "main");
    assert_eq!(s.title, "Main");
    assert_eq!(s.sections.len(), 2);
    assert_eq!(s.sections[0].k, SectionKind::String);
    assert_eq!(s.sections[0].n, "user");
    assert_eq!(s.sections[0].v, "alice");
    assert_eq!(s.sections[0].t, "User");
    assert_eq!(s.sections[1].k, SectionKind::Concealed);
}

#[test]
fn section_empty_fields() {
    let s = decode(r#"{"name":"a","title":"b","sections":[]}"#).unwrap();
    assert!(s.sections.is_empty());
}

#[test]
fn section_missing_title_fails() {
    let r = decode(r#"{"name":"a","sections":[]}"#);
    match r {
        Err(DecodeError::MissingField(k)) => assert_eq!(k, "title"),
        _ => panic!("expected MissingField(title)"),
    }
}

#[test]
fn section_field_missing_value_fails() {
    let r = decode(r#"{"name":"a","title":"b","sections":[{"k":"string","n":"x","t":"X"}]}"#);
    match r {
        Err(DecodeError::MissingField(k)) => assert_eq!(k, "v"),
        _ => panic!("expected MissingField(v)"),
    }
}

#[test]
fn section_bad_kind_fails() {
    let r = decode(
        r#"{"name":"a","title":"b","sections":[{"k":"secret","n":"x","v":"y","t":"X"}]}"#,
    );
    match r {
        Err(DecodeError::InvalidDiscriminator(v)) => assert_eq!(v, "secret"),
        _ => panic!("expected InvalidDiscriminator(secret)"),
    }
}

#[test]
fn section_duplicate_key_fails() {
    let r = decode(
        r#"{"name":"a","title":"b","sections":[{"k":"string","k":"string","n":"x","v":"y","t":"X"}]}"#,
    );
    match r {
        Err(DecodeError::DuplicateField(k)) => assert_eq!(k, "k"),
        _ => panic!("expected DuplicateField(k)"),
    }
}

#[test]
fn section_unknown_key_fails() {
    let r = decode(r#"{"name":"a","title":"b","sections":[],"zzz":"1"}"#);
    match r {
        Err(DecodeError::UnknownField(k)) => assert_eq!(k, "zzz"),
        _ => panic!("expected UnknownField(zzz)"),
    }
}

#[test]
fn section_from_slice() {
    let s = Section::from_slice(br#"{"name":"a","title":"b","sections":[]}"#).unwrap();
    assert_eq!(s.name, "a");
}
