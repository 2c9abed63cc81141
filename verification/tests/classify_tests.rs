use sekkrit::classify::{DisplayKind, Sensitivity};
use sekkrit::item::LoginField;

fn text(value: &str, name: &str, designation: Option<&str>) -> LoginField {
    LoginField::Text {
        value: value.to_owned(),
        name: name.to_owned(),
        designation: designation.map(|d| d.to_owned()),
    }
}

#[test]
fn text_named_password_is_secret() {
    let d = text("hunter2", "password", None).classify();
    assert_eq!(d.sensitivity, Sensitivity::Secret);
    assert_eq!(d.kind, DisplayKind::MaskedSecret);
    let d2 = text("hunter2", "password", Some("Passphrase")).classify();
    assert_eq!(d2.sensitivity, Sensitivity::Secret);
    assert_eq!(d2.label, "Passphrase");
}

#[test]
fn text_with_other_name_is_public() {
    for name in ["user", "Password", "password1", "PASSWORD", ""] {
        let d = text("v", name, None).classify();
        assert_eq!(d.sensitivity, Sensitivity::Public);
        assert_eq!(d.kind, DisplayKind::LabeledValue);
    }
}

#[test]
fn password_variant_is_always_secret_and_masked() {
    for value in ["", "x", "long secret value"] {
        let f = LoginField::Password {
            value: value.to_owned(),
            name: "anything".to_owned(),
            designation: None,
        };
        let d = f.classify();
        assert_eq!(d.sensitivity, Sensitivity::Secret);
        assert_eq!(d.kind, DisplayKind::MaskedSecret);
    }
}

#[test]
fn label_falls_back_to_name() {
    let d = text("v", "username", None).classify();
    assert_eq!(d.label, "username");
    let d2 = text("v", "username", Some("")).classify();
    assert_eq!(d2.label, "username");
    let d3 = text("v", "username", Some("User name")).classify();
    assert_eq!(d3.label, "User name");
}

#[test]
fn checkbox_and_button_are_structural() {
    let c = LoginField::Checkbox {
        value: "on".to_owned(),
        name: "remember".to_owned(),
        designation: None,
    };
    let b = LoginField::Button {
        value: "go".to_owned(),
        name: "submit".to_owned(),
        designation: None,
    };
    assert_eq!(c.classify().kind, DisplayKind::StructuralOnly);
    assert_eq!(b.classify().kind, DisplayKind::StructuralOnly);
    assert_eq!(c.classify().sensitivity, Sensitivity::Public);
}

#[test]
fn info_is_labeled_value() {
    let f = LoginField::Info {
        value: "note".to_owned(),
        name: "info".to_owned(),
        designation: None,
    };
    assert_eq!(f.classify().kind, DisplayKind::LabeledValue);
    assert_eq!(f.classify().sensitivity, Sensitivity::Public);
}

#[test]
fn classify_is_deterministic() {
    let f = text("v", "password", Some("L"));
    let a = f.classify();
    let b = f.classify();
    assert_eq!(a.label, b.label);
    assert_eq!(a.sensitivity, b.sensitivity);
    assert_eq!(a.kind, b.kind);
}
