use vstd::prelude::*;

use crate::error::{DecodeError, DecodeErrorV, JsonKind};
use crate::json::{
    enc_string, lemma_string_len, lemma_string_rt, lemma_ws_len, lemma_ws_nop, p_string, p_ws,
    push_enc_string, sp_string, sp_ws,
};
use crate::text::{bytes_to_str, chars_of, chars_to_string};

verus! {

broadcast use vstd::seq_lib::group_seq_lib_default, vstd::seq::group_seq_axioms, vstd::string::group_string_axioms;

/// One decoded field of a login form, discriminated by the single-character
/// code carried in the source JSON: `"T"`, `"P"`, `"I"`, `"C"` or `"B"`.
#[derive(Debug)]
pub enum LoginField {
    /// A plain text field (`"T"`).
    Text { value: String, name: String, designation: Option<String> },
    /// A password field (`"P"`).
    Password { value: String, name: String, designation: Option<String> },
    /// An informational field (`"I"`).
    Info { value: String, name: String, designation: Option<String> },
    /// A checkbox (`"C"`).
    Checkbox { value: String, name: String, designation: Option<String> },
    /// A button (`"B"`).
    Button { value: String, name: String, designation: Option<String> },
}

/// The descriptor of the HTML form a login belongs to.
#[derive(Debug)]
pub struct HtmlForm {
    pub html_id: Option<String>,
    pub html_name: Option<String>,
    pub html_method: String,
}

/// A decoded login record: an optional form descriptor and the fields in
/// their source order.
#[derive(Debug)]
pub struct Login {
    pub html_form: Option<HtmlForm>,
    pub fields: Vec<LoginField>,
}

/// The mathematical model of a `LoginField`.
pub enum LoginFieldV {
    Text { value: Seq<char>, name: Seq<char>, designation: Option<Seq<char>> },
    Password { value: Seq<char>, name: Seq<char>, designation: Option<Seq<char>> },
    Info { value: Seq<char>, name: Seq<char>, designation: Option<Seq<char>> },
    Checkbox { value: Seq<char>, name: Seq<char>, designation: Option<Seq<char>> },
    Button { value: Seq<char>, name: Seq<char>, designation: Option<Seq<char>> },
}

/// The mathematical model of an `HtmlForm`.
pub struct HtmlFormV {
    pub html_id: Option<Seq<char>>,
    pub html_name: Option<Seq<char>>,
    pub html_method: Seq<char>,
}

/// The mathematical model of a `Login`.
pub struct LoginV {
    pub html_form: Option<HtmlFormV>,
    pub fields: Seq<LoginFieldV>,
}

/// The model of a sequence of fields.
pub open spec fn fields_v(s: Seq<LoginField>) -> Seq<LoginFieldV> {
    Seq::new(s.len(), |i: int| s[i]@)
}

/// The model of an optional string.
pub open spec fn opt_view(o: Option<String>) -> Option<Seq<char>> {
    match o {
        Some(s) => Some(s@),
        None => None,
    }
}

impl View for LoginField {
    type V = LoginFieldV;

    open spec fn view(&self) -> LoginFieldV {
        match self {
            LoginField::Text { value, name, designation } => LoginFieldV::Text {
                value: value@,
                name: name@,
                designation: opt_view(*designation),
            },
            LoginField::Password { value, name, designation } => LoginFieldV::Password {
                value: value@,
                name: name@,
                designation: opt_view(*designation),
            },
            LoginField::Info { value, name, designation } => LoginFieldV::Info {
                value: value@,
                name: name@,
                designation: opt_view(*designation),
            },
            LoginField::Checkbox { value, name, designation } => LoginFieldV::Checkbox {
                value: value@,
                name: name@,
                designation: opt_view(*designation),
            },
            LoginField::Button { value, name, designation } => LoginFieldV::Button {
                value: value@,
                name: name@,
                designation: opt_view(*designation),
            },
        }
    }
}

impl View for HtmlForm {
    type V = HtmlFormV;

    open spec fn view(&self) -> HtmlFormV {
        HtmlFormV {
            html_id: opt_view(self.html_id),
            html_name: opt_view(self.html_name),
            html_method: self.html_method@,
        }
    }
}

impl View for Login {
    type V = LoginV;

    open spec fn view(&self) -> LoginV {
        LoginV {
            html_form: match self.html_form {
                Some(h) => Some(h@),
                None => None,
            },
            fields: fields_v(self.fields@),
        }
    }
}

/// True of characters that can begin a JSON value. Used to tell a value of
/// the wrong kind (a type mismatch) from text that is not JSON at all.
pub open spec fn starts_value(c: char) -> bool {
    c == '"' || c == '{' || c == '[' || c == 't' || c == 'f' || c == 'n' || c == '-' || (48
        <= c as u32 && c as u32 <= 57)
}

/// A string value for key `key`: a JSON string is decoded; any other JSON
/// value is rejected as a type mismatch; anything else is malformed.
pub open spec fn sp_expect_string(s: Seq<char>, key: Seq<char>) -> Result<
    (Seq<char>, Seq<char>),
    DecodeErrorV,
> {
    if s.len() == 0 {
        Err(DecodeErrorV::MalformedJson)
    } else if s[0] == '"' {
        sp_string(s)
    } else if starts_value(s[0]) {
        Err(DecodeErrorV::TypeMismatch(key, JsonKind::Text))
    } else {
        Err(DecodeErrorV::MalformedJson)
    }
}

/// The builder for one field object: one optional slot per recognized key,
/// filled during the scan and checked only after it.
pub struct FieldSlotsV {
    pub type_: Option<Seq<char>>,
    pub value: Option<Seq<char>>,
    pub name: Option<Seq<char>>,
    pub designation: Option<Seq<char>>,
}

/// The empty field builder.
pub open spec fn field_slots_empty() -> FieldSlotsV {
    FieldSlotsV { type_: None, value: None, name: None, designation: None }
}

/// Finishing a field scan: the required keys must have been seen, and the
/// discriminator must be one of the five recognized codes.
pub open spec fn sp_field_finish(b: FieldSlotsV) -> Result<LoginFieldV, DecodeErrorV> {
    if b.type_ is None {
        Err(DecodeErrorV::MissingField("type"@))
    } else if b.value is None {
        Err(DecodeErrorV::MissingField("value"@))
    } else if b.name is None {
        Err(DecodeErrorV::MissingField("name"@))
    } else {
        let t = b.type_->Some_0;
        let value = b.value->Some_0;
        let name = b.name->Some_0;
        let designation = b.designation;
        if t == "T"@ {
            Ok(LoginFieldV::Text { value, name, designation })
        } else if t == "P"@ {
            Ok(LoginFieldV::Password { value, name, designation })
        } else if t == "I"@ {
            Ok(LoginFieldV::Info { value, name, designation })
        } else if t == "C"@ {
            Ok(LoginFieldV::Checkbox { value, name, designation })
        } else if t == "B"@ {
            Ok(LoginFieldV::Button { value, name, designation })
        } else {
            Err(DecodeErrorV::InvalidDiscriminator(t))
        }
    }
}

/// Stores a recognized key's value into the field builder.
pub open spec fn sp_field_put(b: FieldSlotsV, key: Seq<char>, val: Seq<char>) -> FieldSlotsV {
    if key == "type"@ {
        FieldSlotsV { type_: Some(val), ..b }
    } else if key == "value"@ {
        FieldSlotsV { value: Some(val), ..b }
    } else if key == "name"@ {
        FieldSlotsV { name: Some(val), ..b }
    } else {
        FieldSlotsV { designation: Some(val), ..b }
    }
}

/// The members of one field object, from just after its `{` (or after a
/// comma, when `first` is false) to just after its `}`.
pub open spec fn sp_field_members(s: Seq<char>, b: FieldSlotsV, first: bool) -> Result<
    (LoginFieldV, Seq<char>),
    DecodeErrorV,
>
    decreases s.len(),
{
    let s0 = sp_ws(s);
    if s0.len() == 0 {
        Err(DecodeErrorV::MalformedJson)
    } else if first && s0[0] == '}' {
        match sp_field_finish(b) {
            Ok(f) => Ok((f, s0.skip(1))),
            Err(e) => Err(e),
        }
    } else {
        match sp_string(s0) {
            Err(_) => Err(DecodeErrorV::MalformedJson),
            Ok((key, s1)) => {
                let s2 = sp_ws(s1);
                if s2.len() == 0 || s2[0] != ':' {
                    Err(DecodeErrorV::MalformedJson)
                } else {
                    let s3 = sp_ws(s2.skip(1));
                    if !(key == "type"@ || key == "value"@ || key == "name"@ || key
                        == "designation"@) {
                        Err(DecodeErrorV::UnknownField(key))
                    } else if (key == "type"@ && b.type_ is Some) || (key == "value"@
                        && b.value is Some) || (key == "name"@ && b.name is Some) || (key
                        == "designation"@ && b.designation is Some) {
                        Err(DecodeErrorV::DuplicateField(key))
                    } else {
                        match sp_expect_string(s3, key) {
                            Err(e) => Err(e),
                            Ok((val, s4)) => {
                                let b2 = sp_field_put(b, key, val);
                                let s5 = sp_ws(s4);
                                if s5.len() == 0 {
                                    Err(DecodeErrorV::MalformedJson)
                                } else if s5[0] == '}' {
                                    match sp_field_finish(b2) {
                                        Ok(f) => Ok((f, s5.skip(1))),
                                        Err(e) => Err(e),
                                    }
                                } else if s5[0] == ',' {
                                    proof {
                                        lemma_ws_len(s);
                                        lemma_string_len(s0);
                                        lemma_ws_len(s1);
                                        lemma_ws_len(s2.skip(1));
                                        lemma_expect_string_len(s3, key);
                                        lemma_ws_len(s4);
                                    }
                                    sp_field_members(s5.skip(1), b2, false)
                                } else {
                                    Err(DecodeErrorV::MalformedJson)
                                }
                            },
                        }
                    }
                }
            },
        }
    }
}

/// An expected string value leaves strictly less input than it was given.
pub proof fn lemma_expect_string_len(s: Seq<char>, key: Seq<char>)
    ensures
        sp_expect_string(s, key) matches Ok(p) ==> p.1.len() < s.len(),
{
    lemma_string_len(s);
}

/// One whole field object, `{` through `}`.
pub open spec fn sp_field_obj(s: Seq<char>) -> Result<(LoginFieldV, Seq<char>), DecodeErrorV> {
    if s.len() == 0 || s[0] != '{' {
        Err(DecodeErrorV::MalformedJson)
    } else {
        sp_field_members(s.skip(1), field_slots_empty(), true)
    }
}

/// A parsed field object leaves strictly less input than it was given.
pub proof fn lemma_field_members_len(s: Seq<char>, b: FieldSlotsV, first: bool)
    ensures
        sp_field_members(s, b, first) matches Ok(p) ==> p.1.len() < s.len(),
    decreases s.len(),
{
    let s0 = sp_ws(s);
    lemma_ws_len(s);
    if s0.len() == 0 {
    } else if first && s0[0] == '}' {
    } else if sp_string(s0) is Ok {
        let key = sp_string(s0)->Ok_0.0;
        let s1 = sp_string(s0)->Ok_0.1;
        lemma_string_len(s0);
        let s2 = sp_ws(s1);
        lemma_ws_len(s1);
        if s2.len() > 0 && s2[0] == ':' {
            let s3 = sp_ws(s2.skip(1));
            lemma_ws_len(s2.skip(1));
            if sp_expect_string(s3, key) is Ok {
                let val = sp_expect_string(s3, key)->Ok_0.0;
                let s4 = sp_expect_string(s3, key)->Ok_0.1;
                lemma_expect_string_len(s3, key);
                let s5 = sp_ws(s4);
                lemma_ws_len(s4);
                if s5.len() > 0 && s5[0] == ',' {
                    let b2 = if key == "type"@ {
                        FieldSlotsV { type_: Some(val), ..b }
                    } else if key == "value"@ {
                        FieldSlotsV { value: Some(val), ..b }
                    } else if key == "name"@ {
                        FieldSlotsV { name: Some(val), ..b }
                    } else {
                        FieldSlotsV { designation: Some(val), ..b }
                    };
                    lemma_field_members_len(s5.skip(1), b2, false);
                }
            }
        }
    }
}

/// A parsed field object leaves strictly less input than it was given.
pub proof fn lemma_field_obj_len(s: Seq<char>)
    ensures
        sp_field_obj(s) matches Ok(p) ==> p.1.len() < s.len(),
{
    if s.len() > 0 && s[0] == '{' {
        lemma_field_members_len(s.skip(1), field_slots_empty(), true);
    }
}

/// The elements of the `fields` array, from just after its `[` (or after a
/// comma, when `first` is false) to just after its `]`. Every element must be
/// an object.
pub open spec fn sp_field_elems(s: Seq<char>, acc: Seq<LoginFieldV>, first: bool) -> Result<
    (Seq<LoginFieldV>, Seq<char>),
    DecodeErrorV,
>
    decreases s.len(),
{
    let s0 = sp_ws(s);
    if s0.len() == 0 {
        Err(DecodeErrorV::MalformedJson)
    } else if first && s0[0] == ']' {
        Ok((acc, s0.skip(1)))
    } else {
        match sp_field_obj(s0) {
            Err(e) => Err(e),
            Ok((f, s1)) => {
                let s2 = sp_ws(s1);
                if s2.len() == 0 {
                    Err(DecodeErrorV::MalformedJson)
                } else if s2[0] == ']' {
                    Ok((acc.push(f), s2.skip(1)))
                } else if s2[0] == ',' {
                    proof {
                        lemma_ws_len(s);
                        lemma_field_obj_len(s0);
                        lemma_ws_len(s1);
                    }
                    sp_field_elems(s2.skip(1), acc.push(f), false)
                } else {
                    Err(DecodeErrorV::MalformedJson)
                }
            },
        }
    }
}

/// A parsed fields array leaves strictly less input than it was given.
pub proof fn lemma_field_elems_len(s: Seq<char>, acc: Seq<LoginFieldV>, first: bool)
    ensures
        sp_field_elems(s, acc, first) matches Ok(p) ==> p.1.len() < s.len(),
    decreases s.len(),
{
    let s0 = sp_ws(s);
    lemma_ws_len(s);
    if s0.len() == 0 {
    } else if first && s0[0] == ']' {
    } else if sp_field_obj(s0) is Ok {
        let f = sp_field_obj(s0)->Ok_0.0;
        let s1 = sp_field_obj(s0)->Ok_0.1;
        lemma_field_obj_len(s0);
        let s2 = sp_ws(s1);
        lemma_ws_len(s1);
        if s2.len() > 0 && s2[0] == ',' {
            lemma_field_elems_len(s2.skip(1), acc.push(f), false);
        }
    }
}

/// The builder for the form descriptor object.
pub struct FormSlotsV {
    pub html_id: Option<Seq<char>>,
    pub html_name: Option<Seq<char>>,
    pub html_method: Option<Seq<char>>,
}

/// The empty form builder.
pub open spec fn form_slots_empty() -> FormSlotsV {
    FormSlotsV { html_id: None, html_name: None, html_method: None }
}

/// Finishing a form scan: `htmlMethod` is required, the other two keys are
/// optional and absence means `None`.
pub open spec fn sp_form_finish(b: FormSlotsV) -> Result<HtmlFormV, DecodeErrorV> {
    if b.html_method is None {
        Err(DecodeErrorV::MissingField("htmlMethod"@))
    } else {
        Ok(
            HtmlFormV {
                html_id: b.html_id,
                html_name: b.html_name,
                html_method: b.html_method->Some_0,
            },
        )
    }
}

/// Stores a recognized key's value into the form builder.
pub open spec fn sp_form_put(b: FormSlotsV, key: Seq<char>, val: Seq<char>) -> FormSlotsV {
    if key == "htmlId"@ {
        FormSlotsV { html_id: Some(val), ..b }
    } else if key == "htmlName"@ {
        FormSlotsV { html_name: Some(val), ..b }
    } else {
        FormSlotsV { html_method: Some(val), ..b }
    }
}

/// The members of the form descriptor object, from just after its `{`.
pub open spec fn sp_form_members(s: Seq<char>, b: FormSlotsV, first: bool) -> Result<
    (HtmlFormV, Seq<char>),
    DecodeErrorV,
>
    decreases s.len(),
{
    let s0 = sp_ws(s);
    if s0.len() == 0 {
        Err(DecodeErrorV::MalformedJson)
    } else if first && s0[0] == '}' {
        match sp_form_finish(b) {
            Ok(h) => Ok((h, s0.skip(1))),
            Err(e) => Err(e),
        }
    } else {
        match sp_string(s0) {
            Err(_) => Err(DecodeErrorV::MalformedJson),
            Ok((key, s1)) => {
                let s2 = sp_ws(s1);
                if s2.len() == 0 || s2[0] != ':' {
                    Err(DecodeErrorV::MalformedJson)
                } else {
                    let s3 = sp_ws(s2.skip(1));
                    if !(key == "htmlId"@ || key == "htmlName"@ || key == "htmlMethod"@) {
                        Err(DecodeErrorV::UnknownField(key))
                    } else if (key == "htmlId"@ && b.html_id is Some) || (key == "htmlName"@
                        && b.html_name is Some) || (key == "htmlMethod"@
                        && b.html_method is Some) {
                        Err(DecodeErrorV::DuplicateField(key))
                    } else {
                        match sp_expect_string(s3, key) {
                            Err(e) => Err(e),
                            Ok((val, s4)) => {
                                let b2 = sp_form_put(b, key, val);
                                let s5 = sp_ws(s4);
                                if s5.len() == 0 {
                                    Err(DecodeErrorV::MalformedJson)
                                } else if s5[0] == '}' {
                                    match sp_form_finish(b2) {
                                        Ok(h) => Ok((h, s5.skip(1))),
                                        Err(e) => Err(e),
                                    }
                                } else if s5[0] == ',' {
                                    proof {
                                        lemma_ws_len(s);
                                        lemma_string_len(s0);
                                        lemma_ws_len(s1);
                                        lemma_ws_len(s2.skip(1));
                                        lemma_expect_string_len(s3, key);
                                        lemma_ws_len(s4);
                                    }
                                    sp_form_members(s5.skip(1), b2, false)
                                } else {
                                    Err(DecodeErrorV::MalformedJson)
                                }
                            },
                        }
                    }
                }
            },
        }
    }
}

/// A parsed form object leaves strictly less input than it was given.
pub proof fn lemma_form_members_len(s: Seq<char>, b: FormSlotsV, first: bool)
    ensures
        sp_form_members(s, b, first) matches Ok(p) ==> p.1.len() < s.len(),
    decreases s.len(),
{
    let s0 = sp_ws(s);
    lemma_ws_len(s);
    if s0.len() == 0 {
    } else if first && s0[0] == '}' {
    } else if sp_string(s0) is Ok {
        let key = sp_string(s0)->Ok_0.0;
        let s1 = sp_string(s0)->Ok_0.1;
        lemma_string_len(s0);
        let s2 = sp_ws(s1);
        lemma_ws_len(s1);
        if s2.len() > 0 && s2[0] == ':' {
            let s3 = sp_ws(s2.skip(1));
            lemma_ws_len(s2.skip(1));
            if sp_expect_string(s3, key) is Ok {
                let val = sp_expect_string(s3, key)->Ok_0.0;
                let s4 = sp_expect_string(s3, key)->Ok_0.1;
                lemma_expect_string_len(s3, key);
                let s5 = sp_ws(s4);
                lemma_ws_len(s4);
                if s5.len() > 0 && s5[0] == ',' {
                    let b2 = if key == "htmlId"@ {
                        FormSlotsV { html_id: Some(val), ..b }
                    } else if key == "htmlName"@ {
                        FormSlotsV { html_name: Some(val), ..b }
                    } else {
                        FormSlotsV { html_method: Some(val), ..b }
                    };
                    lemma_form_members_len(s5.skip(1), b2, false);
                }
            }
        }
    }
}

/// The builder for the top-level object.
pub struct TopSlotsV {
    pub html_form: Option<HtmlFormV>,
    pub fields: Option<Seq<LoginFieldV>>,
}

/// The empty top-level builder.
pub open spec fn top_slots_empty() -> TopSlotsV {
    TopSlotsV { html_form: None, fields: None }
}

/// Finishing the top-level scan: `fields` is required, `htmlForm` optional.
pub open spec fn sp_top_finish(b: TopSlotsV) -> Result<LoginV, DecodeErrorV> {
    if b.fields is None {
        Err(DecodeErrorV::MissingField("fields"@))
    } else {
        Ok(LoginV { html_form: b.html_form, fields: b.fields->Some_0 })
    }
}

/// The members of the top-level object, from just after its `{`. The value of
/// `htmlForm` must be an object and the value of `fields` an array; a value
/// of any other JSON kind there is a type mismatch.
pub open spec fn sp_top_members(s: Seq<char>, b: TopSlotsV, first: bool) -> Result<
    (LoginV, Seq<char>),
    DecodeErrorV,
>
    decreases s.len(),
{
    let s0 = sp_ws(s);
    if s0.len() == 0 {
        Err(DecodeErrorV::MalformedJson)
    } else if first && s0[0] == '}' {
        match sp_top_finish(b) {
            Ok(l) => Ok((l, s0.skip(1))),
            Err(e) => Err(e),
        }
    } else {
        match sp_string(s0) {
            Err(_) => Err(DecodeErrorV::MalformedJson),
            Ok((key, s1)) => {
                let s2 = sp_ws(s1);
                if s2.len() == 0 || s2[0] != ':' {
                    Err(DecodeErrorV::MalformedJson)
                } else {
                    let s3 = sp_ws(s2.skip(1));
                    if !(key == "htmlForm"@ || key == "fields"@) {
                        Err(DecodeErrorV::UnknownField(key))
                    } else if (key == "htmlForm"@ && b.html_form is Some) || (key == "fields"@
                        && b.fields is Some) {
                        Err(DecodeErrorV::DuplicateField(key))
                    } else if key == "htmlForm"@ {
                        if s3.len() == 0 {
                            Err(DecodeErrorV::MalformedJson)
                        } else if s3[0] != '{' {
                            if starts_value(s3[0]) {
                                Err(DecodeErrorV::TypeMismatch(key, JsonKind::Object))
                            } else {
                                Err(DecodeErrorV::MalformedJson)
                            }
                        } else {
                            match sp_form_members(s3.skip(1), form_slots_empty(), true) {
                                Err(e) => Err(e),
                                Ok((h, s4)) => {
                                    let b2 = TopSlotsV { html_form: Some(h), ..b };
                                    let s5 = sp_ws(s4);
                                    if s5.len() == 0 {
                                        Err(DecodeErrorV::MalformedJson)
                                    } else if s5[0] == '}' {
                                        match sp_top_finish(b2) {
                                            Ok(l) => Ok((l, s5.skip(1))),
                                            Err(e) => Err(e),
                                        }
                                    } else if s5[0] == ',' {
                                        proof {
                                            lemma_ws_len(s);
                                            lemma_string_len(s0);
                                            lemma_ws_len(s1);
                                            lemma_ws_len(s2.skip(1));
                                            lemma_form_members_len(
                                                s3.skip(1),
                                                form_slots_empty(),
                                                true,
                                            );
                                            lemma_ws_len(s4);
                                        }
                                        sp_top_members(s5.skip(1), b2, false)
                                    } else {
                                        Err(DecodeErrorV::MalformedJson)
                                    }
                                },
                            }
                        }
                    } else {
                        if s3.len() == 0 {
                            Err(DecodeErrorV::MalformedJson)
                        } else if s3[0] != '[' {
                            if starts_value(s3[0]) {
                                Err(DecodeErrorV::TypeMismatch(key, JsonKind::Array))
                            } else {
                                Err(DecodeErrorV::MalformedJson)
                            }
                        } else {
                            match sp_field_elems(s3.skip(1), Seq::empty(), true) {
                                Err(e) => Err(e),
                                Ok((fs, s4)) => {
                                    let b2 = TopSlotsV { fields: Some(fs), ..b };
                                    let s5 = sp_ws(s4);
                                    if s5.len() == 0 {
                                        Err(DecodeErrorV::MalformedJson)
                                    } else if s5[0] == '}' {
                                        match sp_top_finish(b2) {
                                            Ok(l) => Ok((l, s5.skip(1))),
                                            Err(e) => Err(e),
                                        }
                                    } else if s5[0] == ',' {
                                        proof {
                                            lemma_ws_len(s);
                                            lemma_string_len(s0);
                                            lemma_ws_len(s1);
                                            lemma_ws_len(s2.skip(1));
                                            lemma_field_elems_len(s3.skip(1), Seq::empty(), true);
                                            lemma_ws_len(s4);
                                        }
                                        sp_top_members(s5.skip(1), b2, false)
                                    } else {
                                        Err(DecodeErrorV::MalformedJson)
                                    }
                                },
                            }
                        }
                    }
                }
            },
        }
    }
}

/// The whole decode: one top-level object and nothing but whitespace after
/// it. This is the contract of `Login::decode_text`.
pub open spec fn sp_login(s: Seq<char>) -> Result<LoginV, DecodeErrorV> {
    let s0 = sp_ws(s);
    if s0.len() == 0 || s0[0] != '{' {
        Err(DecodeErrorV::MalformedJson)
    } else {
        match sp_top_members(s0.skip(1), top_slots_empty(), true) {
            Err(e) => Err(e),
            Ok((l, rest)) => {
                if sp_ws(rest).len() == 0 {
                    Ok(l)
                } else {
                    Err(DecodeErrorV::MalformedJson)
                }
            },
        }
    }
}

/// The whole decode from bytes: the buffer must be valid UTF-8, whose
/// characters then decode as `sp_login`. This is the contract of
/// `Login::from_slice`.
pub open spec fn sp_login_bytes(b: Seq<u8>) -> Result<LoginV, DecodeErrorV> {
    if !vstd::utf8::valid_utf8(b) {
        Err(DecodeErrorV::MalformedJson)
    } else {
        sp_login(vstd::utf8::decode_utf8(b))
    }
}


/// The executable field builder.
pub struct FieldSlots {
    pub type_: Option<String>,
    pub value: Option<String>,
    pub name: Option<String>,
    pub designation: Option<String>,
}

impl View for FieldSlots {
    type V = FieldSlotsV;

    open spec fn view(&self) -> FieldSlotsV {
        FieldSlotsV {
            type_: opt_view(self.type_),
            value: opt_view(self.value),
            name: opt_view(self.name),
            designation: opt_view(self.designation),
        }
    }
}

/// The executable form builder.
pub struct FormSlots {
    pub html_id: Option<String>,
    pub html_name: Option<String>,
    pub html_method: Option<String>,
}

impl View for FormSlots {
    type V = FormSlotsV;

    open spec fn view(&self) -> FormSlotsV {
        FormSlotsV {
            html_id: opt_view(self.html_id),
            html_name: opt_view(self.html_name),
            html_method: opt_view(self.html_method),
        }
    }
}

/// The executable top-level builder.
pub struct TopSlots {
    pub html_form: Option<HtmlForm>,
    pub fields: Option<Vec<LoginField>>,
}

impl View for TopSlots {
    type V = TopSlotsV;

    open spec fn view(&self) -> TopSlotsV {
        TopSlotsV {
            html_form: match self.html_form {
                Some(h) => Some(h@),
                None => None,
            },
            fields: match self.fields {
                Some(fs) => Some(fields_v(fs@)),
                None => None,
            },
        }
    }
}

/// Parses a string value for `key` at `i`, applying the type-mismatch rule of
/// `sp_expect_string`.
pub(crate) fn p_expect_string(t: &Vec<char>, i: usize, key: &String) -> (r: Result<
    (String, usize),
    DecodeError,
>)
    requires
        i <= t.len(),
    ensures
        r matches Ok(p) ==> i < p.1 <= t.len() && sp_expect_string(t@.skip(i as int), key@) == Ok::<
            _,
            DecodeErrorV,
        >((p.0@, t@.skip(p.1 as int))),
        r matches Err(e) ==> sp_expect_string(t@.skip(i as int), key@) == Err::<
            (Seq<char>, Seq<char>),
            _,
        >(e@),
{
    if i >= t.len() {
        return Err(DecodeError::MalformedJson);
    }
    let c = t[i];
    proof {
        assert(t@.skip(i as int)[0] == t@[i as int]);
    }
    if c == '"' {
        p_string(t, i)
    } else if c == '{' || c == '[' || c == 't' || c == 'f' || c == 'n' || c == '-' || (48
        <= c as u32 && c as u32 <= 57) {
        Err(DecodeError::TypeMismatch(key.clone(), JsonKind::Text))
    } else {
        Err(DecodeError::MalformedJson)
    }
}

/// Finishes a field scan; mirrors `sp_field_finish`.
fn field_finish(b: FieldSlots) -> (r: Result<LoginField, DecodeError>)
    ensures
        r matches Ok(f) ==> sp_field_finish(b@) == Ok::<_, DecodeErrorV>(f@),
        r matches Err(e) ==> sp_field_finish(b@) == Err::<LoginFieldV, _>(e@),
{
    let t = match b.type_ {
        Some(t) => t,
        None => {
            return Err(DecodeError::MissingField("type".to_owned()));
        },
    };
    let value = match b.value {
        Some(v) => v,
        None => {
            return Err(DecodeError::MissingField("value".to_owned()));
        },
    };
    let name = match b.name {
        Some(n) => n,
        None => {
            return Err(DecodeError::MissingField("name".to_owned()));
        },
    };
    let designation = b.designation;
    if t == "T".to_owned() {
        Ok(LoginField::Text { value, name, designation })
    } else if t == "P".to_owned() {
        Ok(LoginField::Password { value, name, designation })
    } else if t == "I".to_owned() {
        Ok(LoginField::Info { value, name, designation })
    } else if t == "C".to_owned() {
        Ok(LoginField::Checkbox { value, name, designation })
    } else if t == "B".to_owned() {
        Ok(LoginField::Button { value, name, designation })
    } else {
        Err(DecodeError::InvalidDiscriminator(t))
    }
}

/// Parses the members of one field object; mirrors `sp_field_members`.
fn p_field_members(t: &Vec<char>, i: usize, b: FieldSlots, first: bool) -> (r: Result<
    (LoginField, usize),
    DecodeError,
>)
    requires
        i <= t.len(),
    ensures
        r matches Ok(p) ==> i < p.1 <= t.len() && sp_field_members(t@.skip(i as int), b@, first)
            == Ok::<_, DecodeErrorV>((p.0@, t@.skip(p.1 as int))),
        r matches Err(e) ==> sp_field_members(t@.skip(i as int), b@, first) == Err::<
            (LoginFieldV, Seq<char>),
            _,
        >(e@),
    decreases t.len() - i,
{
    let j0 = p_ws(t, i);
    if j0 >= t.len() {
        return Err(DecodeError::MalformedJson);
    }
    proof {
        assert(t@.skip(j0 as int)[0] == t@[j0 as int]);
    }
    if first && t[j0] == '}' {
        proof {
            assert(t@.skip(j0 as int).skip(1) =~= t@.skip(j0 + 1 as int));
        }
        return match field_finish(b) {
            Ok(f) => Ok((f, j0 + 1)),
            Err(e) => Err(e),
        };
    }
    let (key, j1) = match p_string(t, j0) {
        Ok(p) => p,
        Err(_) => {
            return Err(DecodeError::MalformedJson);
        },
    };
    let j2 = p_ws(t, j1);
    if j2 >= t.len() || t[j2] != ':' {
        proof {
            if j2 < t.len() {
                assert(t@.skip(j2 as int)[0] == t@[j2 as int]);
            }
        }
        return Err(DecodeError::MalformedJson);
    }
    proof {
        assert(t@.skip(j2 as int)[0] == t@[j2 as int]);
        assert(t@.skip(j2 as int).skip(1) =~= t@.skip(j2 + 1 as int));
    }
    let j3 = p_ws(t, j2 + 1);
    let k_type: String = "type".to_owned();
    let k_value: String = "value".to_owned();
    let k_name: String = "name".to_owned();
    let k_designation: String = "designation".to_owned();
    if !(key == k_type || key == k_value || key == k_name || key == k_designation) {
        return Err(DecodeError::UnknownField(key));
    }
    if (key == k_type && b.type_.is_some()) || (key == k_value && b.value.is_some()) || (key
        == k_name && b.name.is_some()) || (key == k_designation && b.designation.is_some()) {
        return Err(DecodeError::DuplicateField(key));
    }
    let (val, j4) = match p_expect_string(t, j3, &key) {
        Ok(p) => p,
        Err(e) => {
            return Err(e);
        },
    };
    let b2 = if key == k_type {
        FieldSlots { type_: Some(val), value: b.value, name: b.name, designation: b.designation }
    } else if key == k_value {
        FieldSlots { type_: b.type_, value: Some(val), name: b.name, designation: b.designation }
    } else if key == k_name {
        FieldSlots { type_: b.type_, value: b.value, name: Some(val), designation: b.designation }
    } else {
        FieldSlots { type_: b.type_, value: b.value, name: b.name, designation: Some(val) }
    };
    let j5 = p_ws(t, j4);
    if j5 >= t.len() {
        return Err(DecodeError::MalformedJson);
    }
    proof {
        assert(t@.skip(j5 as int)[0] == t@[j5 as int]);
        assert(t@.skip(j5 as int).skip(1) =~= t@.skip(j5 + 1 as int));
    }
    if t[j5] == '}' {
        match field_finish(b2) {
            Ok(f) => Ok((f, j5 + 1)),
            Err(e) => Err(e),
        }
    } else if t[j5] == ',' {
        p_field_members(t, j5 + 1, b2, false)
    } else {
        Err(DecodeError::MalformedJson)
    }
}

/// Parses one whole field object; mirrors `sp_field_obj`.
fn p_field_obj(t: &Vec<char>, i: usize) -> (r: Result<(LoginField, usize), DecodeError>)
    requires
        i <= t.len(),
    ensures
        r matches Ok(p) ==> i < p.1 <= t.len() && sp_field_obj(t@.skip(i as int)) == Ok::<
            _,
            DecodeErrorV,
        >((p.0@, t@.skip(p.1 as int))),
        r matches Err(e) ==> sp_field_obj(t@.skip(i as int)) == Err::<
            (LoginFieldV, Seq<char>),
            _,
        >(e@),
{
    if i >= t.len() || t[i] != '{' {
        proof {
            if i < t.len() {
                assert(t@.skip(i as int)[0] == t@[i as int]);
            }
        }
        return Err(DecodeError::MalformedJson);
    }
    proof {
        assert(t@.skip(i as int)[0] == t@[i as int]);
        assert(t@.skip(i as int).skip(1) =~= t@.skip(i + 1 as int));
    }
    let empty = FieldSlots { type_: None, value: None, name: None, designation: None };
    p_field_members(t, i + 1, empty, true)
}

/// Parses the elements of the `fields` array; mirrors `sp_field_elems`.
fn p_field_elems(t: &Vec<char>, i: usize, acc: Vec<LoginField>, first: bool) -> (r: Result<
    (Vec<LoginField>, usize),
    DecodeError,
>)
    requires
        i <= t.len(),
    ensures
        r matches Ok(p) ==> i < p.1 <= t.len() && sp_field_elems(
            t@.skip(i as int),
            fields_v(acc@),
            first,
        ) == Ok::<_, DecodeErrorV>((fields_v(p.0@), t@.skip(p.1 as int))),
        r matches Err(e) ==> sp_field_elems(t@.skip(i as int), fields_v(acc@), first) == Err::<
            (Seq<LoginFieldV>, Seq<char>),
            _,
        >(e@),
    decreases t.len() - i,
{
    let ghost accv = fields_v(acc@);
    let j0 = p_ws(t, i);
    if j0 >= t.len() {
        return Err(DecodeError::MalformedJson);
    }
    proof {
        assert(t@.skip(j0 as int)[0] == t@[j0 as int]);
        assert(t@.skip(j0 as int).skip(1) =~= t@.skip(j0 + 1 as int));
    }
    if first && t[j0] == ']' {
        return Ok((acc, j0 + 1));
    }
    let (f, j1) = match p_field_obj(t, j0) {
        Ok(p) => p,
        Err(e) => {
            return Err(e);
        },
    };
    let mut acc = acc;
    acc.push(f);
    proof {
        assert(fields_v(acc@) =~= accv.push(f@));
    }
    let j2 = p_ws(t, j1);
    if j2 >= t.len() {
        return Err(DecodeError::MalformedJson);
    }
    proof {
        assert(t@.skip(j2 as int)[0] == t@[j2 as int]);
        assert(t@.skip(j2 as int).skip(1) =~= t@.skip(j2 + 1 as int));
    }
    if t[j2] == ']' {
        Ok((acc, j2 + 1))
    } else if t[j2] == ',' {
        p_field_elems(t, j2 + 1, acc, false)
    } else {
        Err(DecodeError::MalformedJson)
    }
}

/// Finishes a form scan; mirrors `sp_form_finish`.
fn form_finish(b: FormSlots) -> (r: Result<HtmlForm, DecodeError>)
    ensures
        r matches Ok(h) ==> sp_form_finish(b@) == Ok::<_, DecodeErrorV>(h@),
        r matches Err(e) ==> sp_form_finish(b@) == Err::<HtmlFormV, _>(e@),
{
    match b.html_method {
        Some(m) => Ok(HtmlForm { html_id: b.html_id, html_name: b.html_name, html_method: m }),
        None => Err(DecodeError::MissingField("htmlMethod".to_owned())),
    }
}

/// Parses the members of the form descriptor object; mirrors
/// `sp_form_members`.
fn p_form_members(t: &Vec<char>, i: usize, b: FormSlots, first: bool) -> (r: Result<
    (HtmlForm, usize),
    DecodeError,
>)
    requires
        i <= t.len(),
    ensures
        r matches Ok(p) ==> i < p.1 <= t.len() && sp_form_members(t@.skip(i as int), b@, first)
            == Ok::<_, DecodeErrorV>((p.0@, t@.skip(p.1 as int))),
        r matches Err(e) ==> sp_form_members(t@.skip(i as int), b@, first) == Err::<
            (HtmlFormV, Seq<char>),
            _,
        >(e@),
    decreases t.len() - i,
{
    let j0 = p_ws(t, i);
    if j0 >= t.len() {
        return Err(DecodeError::MalformedJson);
    }
    proof {
        assert(t@.skip(j0 as int)[0] == t@[j0 as int]);
    }
    if first && t[j0] == '}' {
        proof {
            assert(t@.skip(j0 as int).skip(1) =~= t@.skip(j0 + 1 as int));
        }
        return match form_finish(b) {
            Ok(h) => Ok((h, j0 + 1)),
            Err(e) => Err(e),
        };
    }
    let (key, j1) = match p_string(t, j0) {
        Ok(p) => p,
        Err(_) => {
            return Err(DecodeError::MalformedJson);
        },
    };
    let j2 = p_ws(t, j1);
    if j2 >= t.len() || t[j2] != ':' {
        proof {
            if j2 < t.len() {
                assert(t@.skip(j2 as int)[0] == t@[j2 as int]);
            }
        }
        return Err(DecodeError::MalformedJson);
    }
    proof {
        assert(t@.skip(j2 as int)[0] == t@[j2 as int]);
        assert(t@.skip(j2 as int).skip(1) =~= t@.skip(j2 + 1 as int));
    }
    let j3 = p_ws(t, j2 + 1);
    let k_id: String = "htmlId".to_owned();
    let k_name: String = "htmlName".to_owned();
    let k_method: String = "htmlMethod".to_owned();
    if !(key == k_id || key == k_name || key == k_method) {
        return Err(DecodeError::UnknownField(key));
    }
    if (key == k_id && b.html_id.is_some()) || (key == k_name && b.html_name.is_some()) || (key
        == k_method && b.html_method.is_some()) {
        return Err(DecodeError::DuplicateField(key));
    }
    let (val, j4) = match p_expect_string(t, j3, &key) {
        Ok(p) => p,
        Err(e) => {
            return Err(e);
        },
    };
    let b2 = if key == k_id {
        FormSlots { html_id: Some(val), html_name: b.html_name, html_method: b.html_method }
    } else if key == k_name {
        FormSlots { html_id: b.html_id, html_name: Some(val), html_method: b.html_method }
    } else {
        FormSlots { html_id: b.html_id, html_name: b.html_name, html_method: Some(val) }
    };
    let j5 = p_ws(t, j4);
    if j5 >= t.len() {
        return Err(DecodeError::MalformedJson);
    }
    proof {
        assert(t@.skip(j5 as int)[0] == t@[j5 as int]);
        assert(t@.skip(j5 as int).skip(1) =~= t@.skip(j5 + 1 as int));
    }
    if t[j5] == '}' {
        match form_finish(b2) {
            Ok(h) => Ok((h, j5 + 1)),
            Err(e) => Err(e),
        }
    } else if t[j5] == ',' {
        p_form_members(t, j5 + 1, b2, false)
    } else {
        Err(DecodeError::MalformedJson)
    }
}

/// Finishes the top-level scan; mirrors `sp_top_finish`.
fn top_finish(b: TopSlots) -> (r: Result<Login, DecodeError>)
    ensures
        r matches Ok(l) ==> sp_top_finish(b@) == Ok::<_, DecodeErrorV>(l@),
        r matches Err(e) ==> sp_top_finish(b@) == Err::<LoginV, _>(e@),
{
    match b.fields {
        Some(fs) => Ok(Login { html_form: b.html_form, fields: fs }),
        None => Err(DecodeError::MissingField("fields".to_owned())),
    }
}

/// Parses the members of the top-level object; mirrors `sp_top_members`.
fn p_top_members(t: &Vec<char>, i: usize, b: TopSlots, first: bool) -> (r: Result<
    (Login, usize),
    DecodeError,
>)
    requires
        i <= t.len(),
    ensures
        r matches Ok(p) ==> i < p.1 <= t.len() && sp_top_members(t@.skip(i as int), b@, first)
            == Ok::<_, DecodeErrorV>((p.0@, t@.skip(p.1 as int))),
        r matches Err(e) ==> sp_top_members(t@.skip(i as int), b@, first) == Err::<
            (LoginV, Seq<char>),
            _,
        >(e@),
    decreases t.len() - i,
{
    let j0 = p_ws(t, i);
    if j0 >= t.len() {
        return Err(DecodeError::MalformedJson);
    }
    proof {
        assert(t@.skip(j0 as int)[0] == t@[j0 as int]);
    }
    if first && t[j0] == '}' {
        proof {
            assert(t@.skip(j0 as int).skip(1) =~= t@.skip(j0 + 1 as int));
        }
        return match top_finish(b) {
            Ok(l) => Ok((l, j0 + 1)),
            Err(e) => Err(e),
        };
    }
    let (key, j1) = match p_string(t, j0) {
        Ok(p) => p,
        Err(_) => {
            return Err(DecodeError::MalformedJson);
        },
    };
    let j2 = p_ws(t, j1);
    if j2 >= t.len() || t[j2] != ':' {
        proof {
            if j2 < t.len() {
                assert(t@.skip(j2 as int)[0] == t@[j2 as int]);
            }
        }
        return Err(DecodeError::MalformedJson);
    }
    proof {
        assert(t@.skip(j2 as int)[0] == t@[j2 as int]);
        assert(t@.skip(j2 as int).skip(1) =~= t@.skip(j2 + 1 as int));
    }
    let j3 = p_ws(t, j2 + 1);
    let k_form: String = "htmlForm".to_owned();
    let k_fields: String = "fields".to_owned();
    if !(key == k_form || key == k_fields) {
        return Err(DecodeError::UnknownField(key));
    }
    if (key == k_form && b.html_form.is_some()) || (key == k_fields && b.fields.is_some()) {
        return Err(DecodeError::DuplicateField(key));
    }
    if j3 < t.len() {
        proof {
            assert(t@.skip(j3 as int)[0] == t@[j3 as int]);
        }
    }
    let b2: TopSlots;
    let j4: usize;
    if key == k_form {
        if j3 >= t.len() {
            return Err(DecodeError::MalformedJson);
        }
        let c = t[j3];
        if c != '{' {
            if c == '"' || c == '[' || c == 't' || c == 'f' || c == 'n' || c == '-' || (48
                <= c as u32 && c as u32 <= 57) {
                return Err(DecodeError::TypeMismatch(key, JsonKind::Object));
            } else {
                return Err(DecodeError::MalformedJson);
            }
        }
        proof {
            assert(t@.skip(j3 as int).skip(1) =~= t@.skip(j3 + 1 as int));
        }
        let empty = FormSlots { html_id: None, html_name: None, html_method: None };
        let (h, j) = match p_form_members(t, j3 + 1, empty, true) {
            Ok(p) => p,
            Err(e) => {
                return Err(e);
            },
        };
        b2 = TopSlots { html_form: Some(h), fields: b.fields };
        j4 = j;
    } else {
        if j3 >= t.len() {
            return Err(DecodeError::MalformedJson);
        }
        let c = t[j3];
        if c != '[' {
            if c == '"' || c == '{' || c == 't' || c == 'f' || c == 'n' || c == '-' || (48
                <= c as u32 && c as u32 <= 57) {
                return Err(DecodeError::TypeMismatch(key, JsonKind::Array));
            } else {
                return Err(DecodeError::MalformedJson);
            }
        }
        proof {
            assert(t@.skip(j3 as int).skip(1) =~= t@.skip(j3 + 1 as int));
        }
        let empty_fields: Vec<LoginField> = Vec::new();
        proof {
            assert(fields_v(empty_fields@) =~= Seq::<LoginFieldV>::empty());
        }
        let (fs, j) = match p_field_elems(t, j3 + 1, empty_fields, true) {
            Ok(p) => p,
            Err(e) => {
                return Err(e);
            },
        };
        b2 = TopSlots { html_form: b.html_form, fields: Some(fs) };
        j4 = j;
    }
    let j5 = p_ws(t, j4);
    if j5 >= t.len() {
        return Err(DecodeError::MalformedJson);
    }
    proof {
        assert(t@.skip(j5 as int)[0] == t@[j5 as int]);
        assert(t@.skip(j5 as int).skip(1) =~= t@.skip(j5 + 1 as int));
    }
    if t[j5] == '}' {
        match top_finish(b2) {
            Ok(l) => Ok((l, j5 + 1)),
            Err(e) => Err(e),
        }
    } else if t[j5] == ',' {
        p_top_members(t, j5 + 1, b2, false)
    } else {
        Err(DecodeError::MalformedJson)
    }
}

impl Login {
    /// Decodes a login record from the characters of a JSON document.
    pub fn decode_chars(t: &Vec<char>) -> (r: Result<Login, DecodeError>)
        ensures
            r matches Ok(l) ==> sp_login(t@) == Ok::<_, DecodeErrorV>(l@),
            r matches Err(e) ==> sp_login(t@) == Err::<LoginV, _>(e@),
    {
        proof {
            assert(t@.skip(0) =~= t@);
        }
        let j0 = p_ws(t, 0);
        if j0 >= t.len() {
            return Err(DecodeError::MalformedJson);
        }
        proof {
            assert(t@.skip(j0 as int)[0] == t@[j0 as int]);
            assert(t@.skip(j0 as int).skip(1) =~= t@.skip(j0 + 1 as int));
        }
        if t[j0] != '{' {
            return Err(DecodeError::MalformedJson);
        }
        let empty = TopSlots { html_form: None, fields: None };
        let (l, j1) = match p_top_members(t, j0 + 1, empty, true) {
            Ok(p) => p,
            Err(e) => {
                return Err(e);
            },
        };
        let j2 = p_ws(t, j1);
        if j2 < t.len() {
            return Err(DecodeError::MalformedJson);
        }
        proof {
            assert(t@.skip(j2 as int).len() == 0);
        }
        Ok(l)
    }

    /// Decodes a login record from the text of a JSON document.
    pub fn decode_text(s: &str) -> (r: Result<Login, DecodeError>)
        ensures
            r matches Ok(l) ==> sp_login(s@) == Ok::<_, DecodeErrorV>(l@),
            r matches Err(e) ==> sp_login(s@) == Err::<LoginV, _>(e@),
    {
        let t = chars_of(s);
        Login::decode_chars(&t)
    }

    /// Decodes a login record from the bytes of a JSON document, which must
    /// be UTF-8 text.
    pub fn from_slice(s: &[u8]) -> (r: Result<Login, DecodeError>)
        ensures
            r matches Ok(l) ==> sp_login_bytes(s@) == Ok::<_, DecodeErrorV>(l@),
            r matches Err(e) ==> sp_login_bytes(s@) == Err::<LoginV, _>(e@),
    {
        match bytes_to_str(s) {
            Some(text) => Login::decode_text(text),
            None => Err(DecodeError::MalformedJson),
        }
    }
}


/// The discriminator code the encoder writes for a field.
pub open spec fn code_of(f: LoginFieldV) -> Seq<char> {
    match f {
        LoginFieldV::Text { .. } => "T"@,
        LoginFieldV::Password { .. } => "P"@,
        LoginFieldV::Info { .. } => "I"@,
        LoginFieldV::Checkbox { .. } => "C"@,
        LoginFieldV::Button { .. } => "B"@,
    }
}

/// The value carried by a field, whatever its variant.
pub open spec fn value_of(f: LoginFieldV) -> Seq<char> {
    match f {
        LoginFieldV::Text { value, .. } => value,
        LoginFieldV::Password { value, .. } => value,
        LoginFieldV::Info { value, .. } => value,
        LoginFieldV::Checkbox { value, .. } => value,
        LoginFieldV::Button { value, .. } => value,
    }
}

/// The form-field name carried by a field, whatever its variant.
pub open spec fn name_of(f: LoginFieldV) -> Seq<char> {
    match f {
        LoginFieldV::Text { name, .. } => name,
        LoginFieldV::Password { name, .. } => name,
        LoginFieldV::Info { name, .. } => name,
        LoginFieldV::Checkbox { name, .. } => name,
        LoginFieldV::Button { name, .. } => name,
    }
}

/// The optional human-facing label carried by a field.
pub open spec fn designation_of(f: LoginFieldV) -> Option<Seq<char>> {
    match f {
        LoginFieldV::Text { designation, .. } => designation,
        LoginFieldV::Password { designation, .. } => designation,
        LoginFieldV::Info { designation, .. } => designation,
        LoginFieldV::Checkbox { designation, .. } => designation,
        LoginFieldV::Button { designation, .. } => designation,
    }
}

impl LoginField {
    /// The value this field carries.
    pub fn value(&self) -> (r: &String)
        ensures
            r@ == value_of(self@),
    {
        match self {
            LoginField::Text { value, .. } => value,
            LoginField::Password { value, .. } => value,
            LoginField::Info { value, .. } => value,
            LoginField::Checkbox { value, .. } => value,
            LoginField::Button { value, .. } => value,
        }
    }

    /// The underlying form-field name of this field.
    pub fn name(&self) -> (r: &String)
        ensures
            r@ == name_of(self@),
    {
        match self {
            LoginField::Text { name, .. } => name,
            LoginField::Password { name, .. } => name,
            LoginField::Info { name, .. } => name,
            LoginField::Checkbox { name, .. } => name,
            LoginField::Button { name, .. } => name,
        }
    }

    /// The optional human-facing label of this field.
    pub fn designation(&self) -> (r: &Option<String>)
        ensures
            opt_view(*r) == designation_of(self@),
    {
        match self {
            LoginField::Text { designation, .. } => designation,
            LoginField::Password { designation, .. } => designation,
            LoginField::Info { designation, .. } => designation,
            LoginField::Checkbox { designation, .. } => designation,
            LoginField::Button { designation, .. } => designation,
        }
    }

    /// The discriminator code of this field.
    pub fn type_code(&self) -> (r: &'static str)
        ensures
            r@ == code_of(self@),
    {
        match self {
            LoginField::Text { .. } => "T",
            LoginField::Password { .. } => "P",
            LoginField::Info { .. } => "I",
            LoginField::Checkbox { .. } => "C",
            LoginField::Button { .. } => "B",
        }
    }
}

/// One encoded object member: an encoded key, a colon, an encoded value.
pub open spec fn enc_member(k: Seq<char>, v: Seq<char>) -> Seq<char> {
    enc_string(k) + seq![':'] + enc_string(v)
}

/// One encoded field object, keys in the fixed order `type`, `value`, `name`,
/// then `designation` when present.
pub open spec fn enc_field(f: LoginFieldV) -> Seq<char> {
    seq!['{'] + enc_member("type"@, code_of(f)) + seq![','] + enc_member("value"@, value_of(f))
        + seq![','] + enc_member("name"@, name_of(f)) + (match designation_of(f) {
        Some(d) => seq![','] + enc_member("designation"@, d),
        None => Seq::empty(),
    }) + seq!['}']
}

/// The encoded continuation of a fields array: a comma before each further
/// element.
pub open spec fn enc_fields_more(fs: Seq<LoginFieldV>) -> Seq<char>
    decreases fs.len(),
{
    if fs.len() == 0 {
        Seq::empty()
    } else {
        seq![','] + enc_field(fs[0]) + enc_fields_more(fs.skip(1))
    }
}

/// The encoded elements of a fields array, commas between them.
pub open spec fn enc_fields_body(fs: Seq<LoginFieldV>) -> Seq<char> {
    if fs.len() == 0 {
        Seq::empty()
    } else {
        enc_field(fs[0]) + enc_fields_more(fs.skip(1))
    }
}

/// The encoded fields array.
pub open spec fn enc_fields(fs: Seq<LoginFieldV>) -> Seq<char> {
    seq!['['] + enc_fields_body(fs) + seq![']']
}

/// The encoded form descriptor, optional members first, `htmlMethod` last.
pub open spec fn enc_form(h: HtmlFormV) -> Seq<char> {
    seq!['{'] + (match h.html_id {
        Some(v) => enc_member("htmlId"@, v) + seq![','],
        None => Seq::empty(),
    }) + (match h.html_name {
        Some(v) => enc_member("htmlName"@, v) + seq![','],
        None => Seq::empty(),
    }) + enc_member("htmlMethod"@, h.html_method) + seq!['}']
}

/// The encoded login record: the form descriptor when present, then the
/// fields array. This is the contract of `Login::encode`.
pub open spec fn enc_login(l: LoginV) -> Seq<char> {
    seq!['{'] + (match l.html_form {
        Some(h) => enc_string("htmlForm"@) + seq![':'] + enc_form(h) + seq![','],
        None => Seq::empty(),
    }) + enc_string("fields"@) + seq![':'] + enc_fields(l.fields) + seq!['}']
}

/// Appends one encoded member to `out`.
fn push_member(out: &mut Vec<char>, k: &str, v: &str)
    ensures
        final(out)@ == old(out)@ + enc_member(k@, v@),
{
    push_enc_string(out, k);
    out.push(':');
    push_enc_string(out, v);
    proof {
        assert(final(out)@ =~= old(out)@ + enc_member(k@, v@));
    }
}

/// Appends one encoded field object to `out`.
fn push_field(out: &mut Vec<char>, f: &LoginField)
    ensures
        final(out)@ == old(out)@ + enc_field(f@),
{
    out.push('{');
    push_member(out, "type", f.type_code());
    out.push(',');
    push_member(out, "value", f.value().as_str());
    out.push(',');
    push_member(out, "name", f.name().as_str());
    match f.designation() {
        Some(d) => {
            out.push(',');
            push_member(out, "designation", d.as_str());
        },
        None => {},
    }
    out.push('}');
    proof {
        assert(final(out)@ =~= old(out)@ + enc_field(f@));
    }
}

/// Appends the encoded continuation of the fields array from index `k` on.
fn push_fields_more(out: &mut Vec<char>, fields: &Vec<LoginField>, k: usize)
    requires
        k <= fields.len(),
    ensures
        final(out)@ == old(out)@ + enc_fields_more(fields_v(fields@).skip(k as int)),
    decreases fields.len() - k,
{
    if k >= fields.len() {
        proof {
            assert(fields_v(fields@).skip(k as int) =~= Seq::<LoginFieldV>::empty());
        }
        return ;
    }
    out.push(',');
    push_field(out, &fields[k]);
    push_fields_more(out, fields, k + 1);
    proof {
        let fv = fields_v(fields@);
        assert(fv.skip(k as int)[0] == fields@[k as int]@);
        assert(fv.skip(k as int).skip(1) =~= fv.skip(k + 1 as int));
        assert(final(out)@ =~= old(out)@ + enc_fields_more(fv.skip(k as int)));
    }
}

/// Appends the encoded fields array to `out`.
fn push_fields(out: &mut Vec<char>, fields: &Vec<LoginField>)
    ensures
        final(out)@ == old(out)@ + enc_fields(fields_v(fields@)),
{
    out.push('[');
    if fields.len() > 0 {
        push_field(out, &fields[0]);
        push_fields_more(out, fields, 1);
        proof {
            let fv = fields_v(fields@);
            assert(fv[0] == fields@[0]@);
            assert(fv.skip(1) =~= fields_v(fields@).skip(1));
        }
    }
    out.push(']');
    proof {
        let fv = fields_v(fields@);
        if fields@.len() == 0 {
            assert(final(out)@ =~= old(out)@ + enc_fields(fv));
        } else {
            assert(final(out)@ =~= old(out)@ + enc_fields(fv));
        }
    }
}

/// Appends the encoded form descriptor to `out`.
fn push_form(out: &mut Vec<char>, h: &HtmlForm)
    ensures
        final(out)@ == old(out)@ + enc_form(h@),
{
    out.push('{');
    match &h.html_id {
        Some(v) => {
            push_member(out, "htmlId", v.as_str());
            out.push(',');
        },
        None => {},
    }
    match &h.html_name {
        Some(v) => {
            push_member(out, "htmlName", v.as_str());
            out.push(',');
        },
        None => {},
    }
    push_member(out, "htmlMethod", h.html_method.as_str());
    out.push('}');
    proof {
        assert(final(out)@ =~= old(out)@ + enc_form(h@));
    }
}

impl Login {
    /// Encodes this record back to JSON text. Decoding the result yields this
    /// record again (see `lemma_decode_encode`).
    pub fn encode(&self) -> (r: String)
        ensures
            r@ == enc_login(self@),
    {
        let mut out: Vec<char> = Vec::new();
        out.push('{');
        match &self.html_form {
            Some(h) => {
                push_enc_string(&mut out, "htmlForm");
                out.push(':');
                push_form(&mut out, h);
                out.push(',');
            },
            None => {},
        }
        push_enc_string(&mut out, "fields");
        out.push(':');
        push_fields(&mut out, &self.fields);
        out.push('}');
        proof {
            assert(out@ =~= enc_login(self@));
        }
        chars_to_string(&out)
    }
}


/// Parsing one encoded member at the front of the input: the key string, the
/// colon, and the string value come back exactly as encoded.
proof fn lemma_member_parse(k: Seq<char>, v: Seq<char>, rest: Seq<char>)
    ensures
        sp_string(enc_member(k, v) + rest) == Ok::<_, DecodeErrorV>(
            (k, seq![':'] + enc_string(v) + rest),
        ),
        sp_ws(seq![':'] + enc_string(v) + rest) == seq![':'] + enc_string(v) + rest,
        (seq![':'] + enc_string(v) + rest)[0] == ':',
        sp_ws((seq![':'] + enc_string(v) + rest).skip(1)) == enc_string(v) + rest,
        sp_expect_string(enc_string(v) + rest, k) == Ok::<_, DecodeErrorV>((v, rest)),
        (enc_member(k, v) + rest)[0] == '"',
{
    let tail = seq![':'] + enc_string(v) + rest;
    assert(enc_member(k, v) + rest =~= enc_string(k) + tail);
    lemma_string_rt(k, tail);
    assert(tail[0] == ':');
    lemma_ws_nop(tail);
    assert(tail.skip(1) =~= enc_string(v) + rest);
    assert((enc_string(v) + rest)[0] == '"');
    lemma_ws_nop(enc_string(v) + rest);
    lemma_string_rt(v, rest);
    assert((enc_member(k, v) + rest)[0] == '"');
}

/// One member step of a field-object scan on encoded input: the builder gains
/// the member's value and the scan continues after the comma, or finishes at
/// the closing brace.
proof fn lemma_field_member_step(
    k: Seq<char>,
    v: Seq<char>,
    nxt: Seq<char>,
    b: FieldSlotsV,
    first: bool,
)
    requires
        k == "type"@ || k == "value"@ || k == "name"@ || k == "designation"@,
        k == "type"@ ==> b.type_ is None,
        k == "value"@ ==> b.value is None,
        k == "name"@ ==> b.name is None,
        k == "designation"@ ==> b.designation is None,
        nxt.len() > 0,
        nxt[0] == ',' || nxt[0] == '}',
    ensures
        nxt[0] == '}' ==> sp_field_members(enc_member(k, v) + nxt, b, first) == (
        match sp_field_finish(sp_field_put(b, k, v)) {
            Ok(f) => Ok::<_, DecodeErrorV>((f, nxt.skip(1))),
            Err(e) => Err(e),
        }),
        nxt[0] == ',' ==> sp_field_members(enc_member(k, v) + nxt, b, first) == sp_field_members(
            nxt.skip(1),
            sp_field_put(b, k, v),
            false,
        ),
{
    let s = enc_member(k, v) + nxt;
    lemma_member_parse(k, v, nxt);
    assert(s[0] == '"');
    lemma_ws_nop(s);
    lemma_ws_nop(nxt);
}

/// The lengths and leading characters of the schema's literal keys and
/// discriminator codes: enough to tell any two of them apart.
proof fn lemma_schema_literals()
    ensures
        "type"@.len() == 4 && "type"@[0] == 't',
        "value"@.len() == 5,
        "name"@.len() == 4 && "name"@[0] == 'n',
        "designation"@.len() == 11,
        "htmlId"@.len() == 6,
        "htmlName"@.len() == 8,
        "htmlMethod"@.len() == 10,
        "htmlForm"@.len() == 8 && "htmlForm"@[0] == 'h',
        "fields"@.len() == 6 && "fields"@[0] == 'f',
        "T"@.len() == 1 && "T"@[0] == 'T',
        "P"@.len() == 1 && "P"@[0] == 'P',
        "I"@.len() == 1 && "I"@[0] == 'I',
        "C"@.len() == 1 && "C"@[0] == 'C',
        "B"@.len() == 1 && "B"@[0] == 'B',
{
    reveal_strlit("type");
    reveal_strlit("value");
    reveal_strlit("name");
    reveal_strlit("designation");
    reveal_strlit("htmlId");
    reveal_strlit("htmlName");
    reveal_strlit("htmlMethod");
    reveal_strlit("htmlForm");
    reveal_strlit("fields");
    reveal_strlit("T");
    reveal_strlit("P");
    reveal_strlit("I");
    reveal_strlit("C");
    reveal_strlit("B");
}

/// A builder filled with exactly a field's own code, value, name and
/// designation finishes as that field.
proof fn lemma_field_finish_built(f: LoginFieldV)
    ensures
        sp_field_finish(
            FieldSlotsV {
                type_: Some(code_of(f)),
                value: Some(value_of(f)),
                name: Some(name_of(f)),
                designation: designation_of(f),
            },
        ) == Ok::<_, DecodeErrorV>(f),
{
    lemma_schema_literals();
    match f {
        LoginFieldV::Text { .. } => {
            assert(code_of(f) == "T"@);
        },
        LoginFieldV::Password { .. } => {
            assert(code_of(f) == "P"@);
            assert(code_of(f) != "T"@);
        },
        LoginFieldV::Info { .. } => {
            assert(code_of(f) == "I"@);
        },
        LoginFieldV::Checkbox { .. } => {
            assert(code_of(f) == "C"@);
        },
        LoginFieldV::Button { .. } => {
            assert(code_of(f) == "B"@);
        },
    }
}

/// The tail of a field-object scan, from its `name` member on, with the
/// `type` and `value` members already in the builder.
#[verifier::rlimit(100)]
#[verifier::spinoff_prover]
proof fn lemma_field_rt_tail(f: LoginFieldV, rest: Seq<char>)
    ensures
        sp_field_members(
            enc_member("name"@, name_of(f)) + ((match designation_of(f) {
                Some(d) => seq![','] + enc_member("designation"@, d),
                None => Seq::<char>::empty(),
            }) + seq!['}'] + rest),
            sp_field_put(
                sp_field_put(field_slots_empty(), "type"@, code_of(f)),
                "value"@,
                value_of(f),
            ),
            false,
        ) == Ok::<_, DecodeErrorV>((f, rest)),
{
    lemma_schema_literals();
    let m_d = match designation_of(f) {
        Some(d) => seq![','] + enc_member("designation"@, d),
        None => Seq::<char>::empty(),
    };
    let r3 = m_d + seq!['}'] + rest;
    let b2 = sp_field_put(
        sp_field_put(field_slots_empty(), "type"@, code_of(f)),
        "value"@,
        value_of(f),
    );
    let b3 = sp_field_put(b2, "name"@, name_of(f));
    lemma_field_finish_built(f);
    match designation_of(f) {
        Some(d) => {
            assert(r3[0] == ',');
            lemma_field_member_step("name"@, name_of(f), r3, b2, false);
            let r4 = seq!['}'] + rest;
            assert(r3.skip(1) =~= enc_member("designation"@, d) + r4);
            assert(r4[0] == '}');
            lemma_field_member_step("designation"@, d, r4, b3, false);
            let b4 = sp_field_put(b3, "designation"@, d);
            assert(r4.skip(1) =~= rest);
            assert(b4 == FieldSlotsV {
                type_: Some(code_of(f)),
                value: Some(value_of(f)),
                name: Some(name_of(f)),
                designation: Some(d),
            });
        },
        None => {
            assert(r3 =~= seq!['}'] + rest);
            assert(r3[0] == '}');
            lemma_field_member_step("name"@, name_of(f), r3, b2, false);
            assert(r3.skip(1) =~= rest);
            assert(b3 == FieldSlotsV {
                type_: Some(code_of(f)),
                value: Some(value_of(f)),
                name: Some(name_of(f)),
                designation: None,
            });
        },
    }
}

/// Parsing an encoded field object yields the field back and consumes exactly
/// through its closing brace.
#[verifier::rlimit(100)]
#[verifier::spinoff_prover]
proof fn lemma_field_rt(f: LoginFieldV, rest: Seq<char>)
    ensures
        sp_field_obj(enc_field(f) + rest) == Ok::<_, DecodeErrorV>((f, rest)),
{
    lemma_schema_literals();
    let s = enc_field(f) + rest;
    let m_t = enc_member("type"@, code_of(f));
    let m_v = enc_member("value"@, value_of(f));
    let m_n = enc_member("name"@, name_of(f));
    let m_d = match designation_of(f) {
        Some(d) => seq![','] + enc_member("designation"@, d),
        None => Seq::<char>::empty(),
    };
    let r1 = seq![','] + m_v + seq![','] + m_n + m_d + seq!['}'] + rest;
    let r2 = seq![','] + m_n + m_d + seq!['}'] + rest;
    assert(s[0] == '{');
    assert(s.skip(1) =~= m_t + r1);
    let b0 = field_slots_empty();
    assert(r1[0] == ',');
    lemma_field_member_step("type"@, code_of(f), r1, b0, true);
    let b1 = sp_field_put(b0, "type"@, code_of(f));
    assert(r1.skip(1) =~= m_v + r2);
    assert(r2[0] == ',');
    lemma_field_member_step("value"@, value_of(f), r2, b1, false);
    let b2 = sp_field_put(b1, "value"@, value_of(f));
    assert(r2.skip(1) =~= m_n + (m_d + seq!['}'] + rest));
    lemma_field_rt_tail(f, rest);
}

/// One element step of a fields-array scan on encoded input.
#[verifier::rlimit(100)]
#[verifier::spinoff_prover]
proof fn lemma_fields_elem_step(
    f0: LoginFieldV,
    after: Seq<char>,
    acc: Seq<LoginFieldV>,
    first: bool,
)
    requires
        after.len() > 0,
        after[0] == ',' || after[0] == ']',
    ensures
        after[0] == ']' ==> sp_field_elems(enc_field(f0) + after, acc, first) == Ok::<
            _,
            DecodeErrorV,
        >((acc.push(f0), after.skip(1))),
        after[0] == ',' ==> sp_field_elems(enc_field(f0) + after, acc, first) == sp_field_elems(
            after.skip(1),
            acc.push(f0),
            false,
        ),
{
    let s = enc_field(f0) + after;
    assert(s[0] == '{');
    lemma_ws_nop(s);
    lemma_field_rt(f0, after);
    lemma_ws_nop(after);
}

/// Parsing the encoded elements of a fields array appends exactly those
/// fields to the accumulator and consumes through the closing bracket.
#[verifier::rlimit(100)]
#[verifier::spinoff_prover]
proof fn lemma_fields_elems_rt(
    fs: Seq<LoginFieldV>,
    acc: Seq<LoginFieldV>,
    rest: Seq<char>,
    first: bool,
)
    ensures
        fs.len() == 0 && first ==> sp_field_elems(seq![']'] + rest, acc, true) == Ok::<
            _,
            DecodeErrorV,
        >((acc, rest)),
        fs.len() > 0 ==> sp_field_elems(
            enc_field(fs[0]) + enc_fields_more(fs.skip(1)) + seq![']'] + rest,
            acc,
            first,
        ) == Ok::<_, DecodeErrorV>((acc + fs, rest)),
    decreases fs.len(),
{
    if fs.len() == 0 && first {
        let s = seq![']'] + rest;
        assert(s[0] == ']');
        lemma_ws_nop(s);
        assert(s.skip(1) =~= rest);
    }
    if fs.len() > 0 {
        let after = enc_fields_more(fs.skip(1)) + seq![']'] + rest;
        assert(enc_field(fs[0]) + enc_fields_more(fs.skip(1)) + seq![']'] + rest =~= enc_field(
            fs[0],
        ) + after);
        if fs.len() == 1 {
            assert(enc_fields_more(fs.skip(1)) =~= Seq::<char>::empty());
            assert(after =~= seq![']'] + rest);
            assert(after[0] == ']');
            lemma_fields_elem_step(fs[0], after, acc, first);
            assert(after.skip(1) =~= rest);
            assert(acc.push(fs[0]) =~= acc + fs);
        } else {
            let gs = fs.skip(1);
            assert(gs.len() > 0);
            assert(enc_fields_more(gs) == seq![','] + enc_field(gs[0]) + enc_fields_more(
                gs.skip(1),
            ));
            assert(after[0] == ',');
            lemma_fields_elem_step(fs[0], after, acc, first);
            lemma_fields_elems_rt(gs, acc.push(fs[0]), rest, false);
            assert(after.skip(1) =~= enc_field(gs[0]) + enc_fields_more(gs.skip(1)) + seq![']']
                + rest);
            assert(acc.push(fs[0]) + gs =~= acc + fs);
        }
    }
}

/// One member step of a form-object scan on encoded input.
proof fn lemma_form_member_step(
    k: Seq<char>,
    v: Seq<char>,
    nxt: Seq<char>,
    b: FormSlotsV,
    first: bool,
)
    requires
        k == "htmlId"@ || k == "htmlName"@ || k == "htmlMethod"@,
        k == "htmlId"@ ==> b.html_id is None,
        k == "htmlName"@ ==> b.html_name is None,
        k == "htmlMethod"@ ==> b.html_method is None,
        nxt.len() > 0,
        nxt[0] == ',' || nxt[0] == '}',
    ensures
        nxt[0] == '}' ==> sp_form_members(enc_member(k, v) + nxt, b, first) == (
        match sp_form_finish(sp_form_put(b, k, v)) {
            Ok(h) => Ok::<_, DecodeErrorV>((h, nxt.skip(1))),
            Err(e) => Err(e),
        }),
        nxt[0] == ',' ==> sp_form_members(enc_member(k, v) + nxt, b, first) == sp_form_members(
            nxt.skip(1),
            sp_form_put(b, k, v),
            false,
        ),
{
    let s = enc_member(k, v) + nxt;
    lemma_member_parse(k, v, nxt);
    assert(s[0] == '"');
    lemma_ws_nop(s);
    lemma_ws_nop(nxt);
}

/// Parsing an encoded form descriptor yields the descriptor back and
/// consumes exactly through its closing brace.
#[verifier::rlimit(100)]
#[verifier::spinoff_prover]
proof fn lemma_form_rt(h: HtmlFormV, rest: Seq<char>)
    ensures
        (enc_form(h) + rest)[0] == '{',
        sp_form_members((enc_form(h) + rest).skip(1), form_slots_empty(), true) == Ok::<
            _,
            DecodeErrorV,
        >((h, rest)),
{
    lemma_schema_literals();
    let s = enc_form(h) + rest;
    let m_m = enc_member("htmlMethod"@, h.html_method);
    let p_id = match h.html_id {
        Some(v) => enc_member("htmlId"@, v) + seq![','],
        None => Seq::<char>::empty(),
    };
    let p_nm = match h.html_name {
        Some(v) => enc_member("htmlName"@, v) + seq![','],
        None => Seq::<char>::empty(),
    };
    let r_end = seq!['}'] + rest;
    assert(s[0] == '{');
    assert(s.skip(1) =~= p_id + p_nm + m_m + r_end);
    assert(r_end[0] == '}');
    let b0 = form_slots_empty();
    let b_id = match h.html_id {
        Some(v) => sp_form_put(b0, "htmlId"@, v),
        None => b0,
    };
    let b_nm = match h.html_name {
        Some(v) => sp_form_put(b_id, "htmlName"@, v),
        None => b_id,
    };
    let b_m = sp_form_put(b_nm, "htmlMethod"@, h.html_method);
    match h.html_id {
        Some(v) => {
            let nxt1 = seq![','] + p_nm + m_m + r_end;
            assert(p_id + p_nm + m_m + r_end =~= enc_member("htmlId"@, v) + nxt1);
            assert(nxt1[0] == ',');
            lemma_form_member_step("htmlId"@, v, nxt1, b0, true);
            assert(nxt1.skip(1) =~= p_nm + m_m + r_end);
        },
        None => {
            assert(p_id + p_nm + m_m + r_end =~= p_nm + m_m + r_end);
        },
    }
    match h.html_name {
        Some(v) => {
            let nxt2 = seq![','] + m_m + r_end;
            assert(p_nm + m_m + r_end =~= enc_member("htmlName"@, v) + nxt2);
            assert(nxt2[0] == ',');
            lemma_form_member_step("htmlName"@, v, nxt2, b_id, h.html_id is None);
            assert(nxt2.skip(1) =~= m_m + r_end);
        },
        None => {
            assert(p_nm + m_m + r_end =~= m_m + r_end);
        },
    }
    assert(m_m + r_end =~= enc_member("htmlMethod"@, h.html_method) + r_end);
    lemma_form_member_step(
        "htmlMethod"@,
        h.html_method,
        r_end,
        b_nm,
        h.html_id is None && h.html_name is None,
    );
    assert(r_end.skip(1) =~= rest);
    assert(b_m == FormSlotsV {
        html_id: h.html_id,
        html_name: h.html_name,
        html_method: Some(h.html_method),
    });
    assert(sp_form_finish(b_m) == Ok::<_, DecodeErrorV>(h));
}

/// Decoding an encoded login record yields an identical record: the decoder
/// and the encoder are mutually inverse on every record, so a decode, a
/// re-encode and a re-decode always agree. This is the round-trip law for
/// `Login::encode` and `Login::decode_text`.
#[verifier::rlimit(100)]
#[verifier::spinoff_prover]
pub proof fn lemma_decode_encode(l: LoginV)
    ensures
        sp_login(enc_login(l)) == Ok::<_, DecodeErrorV>(l),
{
    lemma_schema_literals();
    let s = enc_login(l);
    let m_fields = enc_string("fields"@) + seq![':'] + enc_fields(l.fields) + seq!['}'];
    assert(s[0] == '{');
    lemma_ws_nop(s);
    let b0 = top_slots_empty();
    let b_form = match l.html_form {
        Some(h) => TopSlotsV { html_form: Some(h), fields: None },
        None => b0,
    };
    // After the optional htmlForm member the scan stands at the fields
    // member, with `first` exactly when no form member was read.
    match l.html_form {
        Some(h) => {
            let tail1 = seq![':'] + enc_form(h) + seq![','] + m_fields;
            assert(s.skip(1) =~= enc_string("htmlForm"@) + tail1);
            lemma_string_rt("htmlForm"@, tail1);
            lemma_ws_nop(enc_string("htmlForm"@) + tail1);
            assert((enc_string("htmlForm"@) + tail1)[0] == '"');
            assert(tail1[0] == ':');
            lemma_ws_nop(tail1);
            let after_colon = enc_form(h) + (seq![','] + m_fields);
            assert(tail1.skip(1) =~= after_colon);
            lemma_ws_nop(after_colon);
            lemma_form_rt(h, seq![','] + m_fields);
            assert(after_colon[0] == '{');
            assert(after_colon.skip(1) =~= (enc_form(h) + (seq![','] + m_fields)).skip(1));
            assert((seq![','] + m_fields)[0] == ',');
            lemma_ws_nop(seq![','] + m_fields);
            assert((seq![','] + m_fields).skip(1) =~= m_fields);
            assert(sp_top_members(s.skip(1), b0, true) == sp_top_members(m_fields, b_form, false));
        },
        None => {
            assert(s.skip(1) =~= m_fields);
        },
    }
    // The fields member.
    let tail2 = seq![':'] + enc_fields(l.fields) + seq!['}'];
    assert(m_fields =~= enc_string("fields"@) + tail2);
    lemma_string_rt("fields"@, tail2);
    lemma_ws_nop(enc_string("fields"@) + tail2);
    assert((enc_string("fields"@) + tail2)[0] == '"');
    assert(tail2[0] == ':');
    lemma_ws_nop(tail2);
    let arr = enc_fields(l.fields) + seq!['}'];
    assert(tail2.skip(1) =~= arr);
    lemma_ws_nop(arr);
    assert(arr[0] == '[');
    let fs = l.fields;
    if fs.len() == 0 {
        assert(arr.skip(1) =~= seq![']'] + seq!['}']);
        lemma_fields_elems_rt(fs, Seq::empty(), seq!['}'], true);
        assert(seq![']'] + seq!['}'] =~= seq![']'] + seq!['}']);
    } else {
        assert(arr.skip(1) =~= enc_field(fs[0]) + enc_fields_more(fs.skip(1)) + seq![']']
            + seq!['}']);
        lemma_fields_elems_rt(fs, Seq::empty(), seq!['}'], true);
    }
    assert(Seq::<LoginFieldV>::empty() + fs =~= fs);
    let endb = seq!['}'];
    assert(endb[0] == '}');
    lemma_ws_nop(endb);
    assert(endb.skip(1) =~= Seq::<char>::empty());
    let b_done = TopSlotsV { html_form: b_form.html_form, fields: Some(fs) };
    assert(sp_top_finish(b_done) == Ok::<_, DecodeErrorV>(l));
    assert(sp_ws(Seq::<char>::empty()).len() == 0);
}

} // verus!
