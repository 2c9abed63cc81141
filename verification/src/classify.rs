use vstd::prelude::*;

use crate::item::{designation_of, name_of, LoginField, LoginFieldV};

verus! {

/// Whether a field's value must be treated as a secret.
#[derive(Clone, Copy, PartialEq, Eq, Structural, Debug)]
pub enum Sensitivity {
    /// The value must stay masked and may only be revealed by an explicit
    /// caller-controlled action.
    Secret,
    /// The value is safe to display.
    Public,
}

/// How a field is presented.
#[derive(Clone, Copy, PartialEq, Eq, Structural, Debug)]
pub enum DisplayKind {
    /// A plain label/value pair.
    LabeledValue,
    /// No user-facing row at all: the field is structural (a checkbox or a
    /// button) and must not be rendered as a key/value pair.
    StructuralOnly,
    /// A masked, copy-only control that never shows the raw value.
    MaskedSecret,
}

/// What the presentation layer is told about one decoded field.
pub struct PresentationDirective {
    /// The human-facing label: the field's designation when present and
    /// non-empty, its underlying name otherwise.
    pub label: String,
    pub sensitivity: Sensitivity,
    pub kind: DisplayKind,
}

/// A field is secret exactly when it is a password field, or a text field
/// whose underlying name is exactly the string `password` (case-sensitive).
/// The second arm exists because some vault exports carry password-like
/// fields as generic text fields told apart only by their name.
pub open spec fn spec_sensitivity(f: LoginFieldV) -> Sensitivity {
    if f is Password || (f is Text && name_of(f) == "password"@) {
        Sensitivity::Secret
    } else {
        Sensitivity::Public
    }
}

/// The label is the designation when present and non-empty, else the name.
pub open spec fn spec_label(f: LoginFieldV) -> Seq<char> {
    match designation_of(f) {
        Some(d) => if d.len() > 0 {
            d
        } else {
            name_of(f)
        },
        None => name_of(f),
    }
}

/// Secret fields are masked; checkboxes and buttons are structural only;
/// everything else is a plain label/value pair.
pub open spec fn spec_display_kind(f: LoginFieldV) -> DisplayKind {
    if spec_sensitivity(f) == Sensitivity::Secret {
        DisplayKind::MaskedSecret
    } else if f is Checkbox || f is Button {
        DisplayKind::StructuralOnly
    } else {
        DisplayKind::LabeledValue
    }
}

impl LoginField {
    /// Decides how this field is presented: its label, whether its value is a
    /// secret, and the kind of control that shows it. Pure and total: every
    /// decoded field gets a directive.
    pub fn classify(&self) -> (r: PresentationDirective)
        ensures
            r.label@ == spec_label(self@),
            r.sensitivity == spec_sensitivity(self@),
            r.kind == spec_display_kind(self@),
    {
        let is_password_variant = matches!(self, LoginField::Password { .. });
        let is_text_variant = matches!(self, LoginField::Text { .. });
        let pw: String = "password".to_owned();
        let secret = is_password_variant || (is_text_variant && *self.name() == pw);
        let label: String = match self.designation() {
            Some(d) => {
                if d.as_str().is_empty() {
                    self.name().clone()
                } else {
                    d.clone()
                }
            },
            None => self.name().clone(),
        };
        let sensitivity = if secret {
            Sensitivity::Secret
        } else {
            Sensitivity::Public
        };
        let kind = if secret {
            DisplayKind::MaskedSecret
        } else if matches!(self, LoginField::Checkbox { .. } | LoginField::Button { .. }) {
            DisplayKind::StructuralOnly
        } else {
            DisplayKind::LabeledValue
        };
        PresentationDirective { label, sensitivity, kind }
    }
}

/// A text field named exactly `password` is classified secret, whatever its
/// designation; a text field with any other name is public.
pub proof fn lemma_text_password_secret(f: LoginFieldV)
    requires
        f is Text,
    ensures
        name_of(f) == "password"@ ==> spec_sensitivity(f) == Sensitivity::Secret,
        name_of(f) != "password"@ ==> spec_sensitivity(f) == Sensitivity::Public,
{
}

/// A password field is always secret and always masked, whatever its value,
/// its name, or its designation.
pub proof fn lemma_password_masked(f: LoginFieldV)
    requires
        f is Password,
    ensures
        spec_sensitivity(f) == Sensitivity::Secret,
        spec_display_kind(f) == DisplayKind::MaskedSecret,
{
}

} // verus!
