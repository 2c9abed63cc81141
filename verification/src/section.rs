use vstd::prelude::*;

use crate::error::{DecodeError, DecodeErrorV, JsonKind};
use crate::item::{sp_expect_string, starts_value};
use crate::json::{lemma_string_len, p_string, p_ws, sp_string, sp_ws};
use crate::text::{bytes_to_str, chars_of};

verus! {

broadcast use vstd::seq_lib::group_seq_lib_default, vstd::seq::group_seq_axioms;

/// The kind tag of a section field: a plain string or a concealed value.
#[derive(Clone, Copy, PartialEq, Eq, Structural, Debug)]
pub enum SectionKind {
    /// A plain string field (`"string"`).
    String,
    /// A concealed field (`"concealed"`).
    Concealed,
}

/// One key/value field of a generic-detail section: its kind tag `k`, its
/// name `n`, its value `v` and its title `t`.
#[derive(Debug)]
pub struct SectionField {
    pub k: SectionKind,
    pub n: String,
    pub v: String,
    pub t: String,
}

/// A named, titled collection of section fields from a generic detail blob.
#[derive(Debug)]
pub struct Section {
    pub name: String,
    pub title: String,
    pub sections: Vec<SectionField>,
}

/// The mathematical model of a `SectionField`.
pub struct SectionFieldV {
    pub k: SectionKind,
    pub n: Seq<char>,
    pub v: Seq<char>,
    pub t: Seq<char>,
}

/// The mathematical model of a `Section`.
pub struct SectionV {
    pub name: Seq<char>,
    pub title: Seq<char>,
    pub sections: Seq<SectionFieldV>,
}

impl View for SectionField {
    type V = SectionFieldV;

    open spec fn view(&self) -> SectionFieldV {
        SectionFieldV { k: self.k, n: self.n@, v: self.v@, t: self.t@ }
    }
}

/// The model of a sequence of section fields.
pub open spec fn sec_fields_v(s: Seq<SectionField>) -> Seq<SectionFieldV> {
    Seq::new(s.len(), |i: int| s[i]@)
}

impl View for Section {
    type V = SectionV;

    open spec fn view(&self) -> SectionV {
        SectionV { name: self.name@, title: self.title@, sections: sec_fields_v(self.sections@) }
    }
}

/// The builder for one section field object.
pub struct SecFieldSlotsV {
    pub k: Option<Seq<char>>,
    pub n: Option<Seq<char>>,
    pub v: Option<Seq<char>>,
    pub t: Option<Seq<char>>,
}

/// The empty section-field builder.
pub open spec fn sec_field_slots_empty() -> SecFieldSlotsV {
    SecFieldSlotsV { k: None, n: None, v: None, t: None }
}

/// Finishing a section-field scan: all four keys are required, and the kind
/// tag must be one of the two recognized words.
pub open spec fn sp_sec_field_finish(b: SecFieldSlotsV) -> Result<SectionFieldV, DecodeErrorV> {
    if b.k is None {
        Err(DecodeErrorV::MissingField("k"@))
    } else if b.n is None {
        Err(DecodeErrorV::MissingField("n"@))
    } else if b.v is None {
        Err(DecodeErrorV::MissingField("v"@))
    } else if b.t is None {
        Err(DecodeErrorV::MissingField("t"@))
    } else {
        let kw = b.k->Some_0;
        if kw == "string"@ {
            Ok(
                SectionFieldV {
                    k: SectionKind::String,
                    n: b.n->Some_0,
                    v: b.v->Some_0,
                    t: b.t->Some_0,
                },
            )
        } else if kw == "concealed"@ {
            Ok(
                SectionFieldV {
                    k: SectionKind::Concealed,
                    n: b.n->Some_0,
                    v: b.v->Some_0,
                    t: b.t->Some_0,
                },
            )
        } else {
            Err(DecodeErrorV::InvalidDiscriminator(kw))
        }
    }
}

/// Stores a recognized key's value into the section-field builder.
pub open spec fn sp_sec_field_put(b: SecFieldSlotsV, key: Seq<char>, val: Seq<char>) -> SecFieldSlotsV {
    if key == "k"@ {
        SecFieldSlotsV { k: Some(val), ..b }
    } else if key == "n"@ {
        SecFieldSlotsV { n: Some(val), ..b }
    } else if key == "v"@ {
        SecFieldSlotsV { v: Some(val), ..b }
    } else {
        SecFieldSlotsV { t: Some(val), ..b }
    }
}

/// The members of one section field object, from just after its `{` (or
/// after a comma, when `first` is false) to just after its `}`.
pub open spec fn sp_sec_field_members(s: Seq<char>, b: SecFieldSlotsV, first: bool) -> Result<
    (SectionFieldV, Seq<char>),
    DecodeErrorV,
>
    decreases s.len(),
{
    let s0 = sp_ws(s);
    if s0.len() == 0 {
        Err(DecodeErrorV::MalformedJson)
    } else if first && s0[0] == '}' {
        match sp_sec_field_finish(b) {
            Ok(f) => Ok((f, s0.skip(1))),
            Err(e) => Err(e),
        }
    } else {
        match sp_string(s0) {
            Err(_) => Err(DecodeErrorV::MalformedJson),
            Ok((key, s1)) => {
                let s2 = sp_ws(s1);
                if s2.len() == 0 || s2[0] != ':' {
                    Err(DecodeErrorV::MalformedJson)
                } else {
                    let s3 = sp_ws(s2.skip(1));
                    if !(key == "k"@ || key == "n"@ || key == "v"@ || key == "t"@) {
                        Err(DecodeErrorV::UnknownField(key))
                    } else if (key == "k"@ && b.k is Some) || (key == "n"@ && b.n is Some) || (key
                        == "v"@ && b.v is Some) || (key == "t"@ && b.t is Some) {
                        Err(DecodeErrorV::DuplicateField(key))
                    } else {
                        match sp_expect_string(s3, key) {
                            Err(e) => Err(e),
                            Ok((val, s4)) => {
                                let b2 = sp_sec_field_put(b, key, val);
                                let s5 = sp_ws(s4);
                                if s5.len() == 0 {
                                    Err(DecodeErrorV::MalformedJson)
                                } else if s5[0] == '}' {
                                    match sp_sec_field_finish(b2) {
                                        Ok(f) => Ok((f, s5.skip(1))),
                                        Err(e) => Err(e),
                                    }
                                } else if s5[0] == ',' {
                                    proof {
                                        crate::json::lemma_ws_len(s);
                                        lemma_string_len(s0);
                                        crate::json::lemma_ws_len(s1);
                                        crate::json::lemma_ws_len(s2.skip(1));
                                        lemma_string_len(s3);
                                        crate::json::lemma_ws_len(s4);
                                    }
                                    sp_sec_field_members(s5.skip(1), b2, false)
                                } else {
                                    Err(DecodeErrorV::MalformedJson)
                                }
                            },
                        }
                    }
                }
            },
        }
    }
}

/// One whole section field object, `{` through `}`.
pub open spec fn sp_sec_field_obj(s: Seq<char>) -> Result<(SectionFieldV, Seq<char>), DecodeErrorV> {
    if s.len() == 0 || s[0] != '{' {
        Err(DecodeErrorV::MalformedJson)
    } else {
        sp_sec_field_members(s.skip(1), sec_field_slots_empty(), true)
    }
}

/// A parsed section field object leaves strictly less input than given.
pub proof fn lemma_sec_field_members_len(s: Seq<char>, b: SecFieldSlotsV, first: bool)
    ensures
        sp_sec_field_members(s, b, first) matches Ok(p) ==> p.1.len() < s.len(),
    decreases s.len(),
{
    let s0 = sp_ws(s);
    crate::json::lemma_ws_len(s);
    if s0.len() == 0 {
    } else if first && s0[0] == '}' {
    } else if sp_string(s0) is Ok {
        let key = sp_string(s0)->Ok_0.0;
        let s1 = sp_string(s0)->Ok_0.1;
        lemma_string_len(s0);
        let s2 = sp_ws(s1);
        crate::json::lemma_ws_len(s1);
        if s2.len() > 0 && s2[0] == ':' {
            let s3 = sp_ws(s2.skip(1));
            crate::json::lemma_ws_len(s2.skip(1));
            if sp_expect_string(s3, key) is Ok {
                let val = sp_expect_string(s3, key)->Ok_0.0;
                let s4 = sp_expect_string(s3, key)->Ok_0.1;
                lemma_string_len(s3);
                let s5 = sp_ws(s4);
                crate::json::lemma_ws_len(s4);
                if s5.len() > 0 && s5[0] == ',' {
                    lemma_sec_field_members_len(s5.skip(1), sp_sec_field_put(b, key, val), false);
                }
            }
        }
    }
}

/// A parsed section field object leaves strictly less input than given.
pub proof fn lemma_sec_field_obj_len(s: Seq<char>)
    ensures
        sp_sec_field_obj(s) matches Ok(p) ==> p.1.len() < s.len(),
{
    if s.len() > 0 && s[0] == '{' {
        lemma_sec_field_members_len(s.skip(1), sec_field_slots_empty(), true);
    }
}

/// The elements of the `sections` array; every element must be an object.
pub open spec fn sp_sec_elems(s: Seq<char>, acc: Seq<SectionFieldV>, first: bool) -> Result<
    (Seq<SectionFieldV>, Seq<char>),
    DecodeErrorV,
>
    decreases s.len(),
{
    let s0 = sp_ws(s);
    if s0.len() == 0 {
        Err(DecodeErrorV::MalformedJson)
    } else if first && s0[0] == ']' {
        Ok((acc, s0.skip(1)))
    } else {
        match sp_sec_field_obj(s0) {
            Err(e) => Err(e),
            Ok((f, s1)) => {
                let s2 = sp_ws(s1);
                if s2.len() == 0 {
                    Err(DecodeErrorV::MalformedJson)
                } else if s2[0] == ']' {
                    Ok((acc.push(f), s2.skip(1)))
                } else if s2[0] == ',' {
                    proof {
                        crate::json::lemma_ws_len(s);
                        lemma_sec_field_obj_len(s0);
                        crate::json::lemma_ws_len(s1);
                    }
                    sp_sec_elems(s2.skip(1), acc.push(f), false)
                } else {
                    Err(DecodeErrorV::MalformedJson)
                }
            },
        }
    }
}

/// A parsed sections array leaves strictly less input than given.
pub proof fn lemma_sec_elems_len(s: Seq<char>, acc: Seq<SectionFieldV>, first: bool)
    ensures
        sp_sec_elems(s, acc, first) matches Ok(p) ==> p.1.len() < s.len(),
    decreases s.len(),
{
    let s0 = sp_ws(s);
    crate::json::lemma_ws_len(s);
    if s0.len() == 0 {
    } else if first && s0[0] == ']' {
    } else if sp_sec_field_obj(s0) is Ok {
        let f = sp_sec_field_obj(s0)->Ok_0.0;
        let s1 = sp_sec_field_obj(s0)->Ok_0.1;
        lemma_sec_field_obj_len(s0);
        let s2 = sp_ws(s1);
        crate::json::lemma_ws_len(s1);
        if s2.len() > 0 && s2[0] == ',' {
            lemma_sec_elems_len(s2.skip(1), acc.push(f), false);
        }
    }
}

/// The builder for the section object.
pub struct SecSlotsV {
    pub name: Option<Seq<char>>,
    pub title: Option<Seq<char>>,
    pub sections: Option<Seq<SectionFieldV>>,
}

/// The empty section builder.
pub open spec fn sec_slots_empty() -> SecSlotsV {
    SecSlotsV { name: None, title: None, sections: None }
}

/// Finishing a section scan: all three keys are required.
pub open spec fn sp_sec_finish(b: SecSlotsV) -> Result<SectionV, DecodeErrorV> {
    if b.name is None {
        Err(DecodeErrorV::MissingField("name"@))
    } else if b.title is None {
        Err(DecodeErrorV::MissingField("title"@))
    } else if b.sections is None {
        Err(DecodeErrorV::MissingField("sections"@))
    } else {
        Ok(
            SectionV {
                name: b.name->Some_0,
                title: b.title->Some_0,
                sections: b.sections->Some_0,
            },
        )
    }
}

/// The members of the section object, from just after its `{`. The values of
/// `name` and `title` must be strings and the value of `sections` an array.
pub open spec fn sp_sec_members(s: Seq<char>, b: SecSlotsV, first: bool) -> Result<
    (SectionV, Seq<char>),
    DecodeErrorV,
>
    decreases s.len(),
{
    let s0 = sp_ws(s);
    if s0.len() == 0 {
        Err(DecodeErrorV::MalformedJson)
    } else if first && s0[0] == '}' {
        match sp_sec_finish(b) {
            Ok(v) => Ok((v, s0.skip(1))),
            Err(e) => Err(e),
        }
    } else {
        match sp_string(s0) {
            Err(_) => Err(DecodeErrorV::MalformedJson),
            Ok((key, s1)) => {
                let s2 = sp_ws(s1);
                if s2.len() == 0 || s2[0] != ':' {
                    Err(DecodeErrorV::MalformedJson)
                } else {
                    let s3 = sp_ws(s2.skip(1));
                    if !(key == "name"@ || key == "title"@ || key == "sections"@) {
                        Err(DecodeErrorV::UnknownField(key))
                    } else if (key == "name"@ && b.name is Some) || (key == "title"@
                        && b.title is Some) || (key == "sections"@ && b.sections is Some) {
                        Err(DecodeErrorV::DuplicateField(key))
                    } else if key == "sections"@ {
                        if s3.len() == 0 {
                            Err(DecodeErrorV::MalformedJson)
                        } else if s3[0] != '[' {
                            if starts_value(s3[0]) {
                                Err(DecodeErrorV::TypeMismatch(key, JsonKind::Array))
                            } else {
                                Err(DecodeErrorV::MalformedJson)
                            }
                        } else {
                            match sp_sec_elems(s3.skip(1), Seq::empty(), true) {
                                Err(e) => Err(e),
                                Ok((fs, s4)) => {
                                    let b2 = SecSlotsV { sections: Some(fs), ..b };
                                    let s5 = sp_ws(s4);
                                    if s5.len() == 0 {
                                        Err(DecodeErrorV::MalformedJson)
                                    } else if s5[0] == '}' {
                                        match sp_sec_finish(b2) {
                                            Ok(v) => Ok((v, s5.skip(1))),
                                            Err(e) => Err(e),
                                        }
                                    } else if s5[0] == ',' {
                                        proof {
                                            crate::json::lemma_ws_len(s);
                                            lemma_string_len(s0);
                                            crate::json::lemma_ws_len(s1);
                                            crate::json::lemma_ws_len(s2.skip(1));
                                            lemma_sec_elems_len(s3.skip(1), Seq::empty(), true);
                                            crate::json::lemma_ws_len(s4);
                                        }
                                        sp_sec_members(s5.skip(1), b2, false)
                                    } else {
                                        Err(DecodeErrorV::MalformedJson)
                                    }
                                },
                            }
                        }
                    } else {
                        match sp_expect_string(s3, key) {
                            Err(e) => Err(e),
                            Ok((val, s4)) => {
                                let b2 = if key == "name"@ {
                                    SecSlotsV { name: Some(val), ..b }
                                } else {
                                    SecSlotsV { title: Some(val), ..b }
                                };
                                let s5 = sp_ws(s4);
                                if s5.len() == 0 {
                                    Err(DecodeErrorV::MalformedJson)
                                } else if s5[0] == '}' {
                                    match sp_sec_finish(b2) {
                                        Ok(v) => Ok((v, s5.skip(1))),
                                        Err(e) => Err(e),
                                    }
                                } else if s5[0] == ',' {
                                    proof {
                                        crate::json::lemma_ws_len(s);
                                        lemma_string_len(s0);
                                        crate::json::lemma_ws_len(s1);
                                        crate::json::lemma_ws_len(s2.skip(1));
                                        lemma_string_len(s3);
                                        crate::json::lemma_ws_len(s4);
                                    }
                                    sp_sec_members(s5.skip(1), b2, false)
                                } else {
                                    Err(DecodeErrorV::MalformedJson)
                                }
                            },
                        }
                    }
                }
            },
        }
    }
}

/// The whole section decode: one object and nothing but whitespace after it.
/// This is the contract of `Section::decode_text`.
pub open spec fn sp_section(s: Seq<char>) -> Result<SectionV, DecodeErrorV> {
    let s0 = sp_ws(s);
    if s0.len() == 0 || s0[0] != '{' {
        Err(DecodeErrorV::MalformedJson)
    } else {
        match sp_sec_members(s0.skip(1), sec_slots_empty(), true) {
            Err(e) => Err(e),
            Ok((v, rest)) => {
                if sp_ws(rest).len() == 0 {
                    Ok(v)
                } else {
                    Err(DecodeErrorV::MalformedJson)
                }
            },
        }
    }
}

/// The whole section decode from bytes; the contract of
/// `Section::from_slice`.
pub open spec fn sp_section_bytes(b: Seq<u8>) -> Result<SectionV, DecodeErrorV> {
    if !vstd::utf8::valid_utf8(b) {
        Err(DecodeErrorV::MalformedJson)
    } else {
        sp_section(vstd::utf8::decode_utf8(b))
    }
}

/// The executable section-field builder.
pub struct SecFieldSlots {
    pub k: Option<String>,
    pub n: Option<String>,
    pub v: Option<String>,
    pub t: Option<String>,
}

impl View for SecFieldSlots {
    type V = SecFieldSlotsV;

    open spec fn view(&self) -> SecFieldSlotsV {
        SecFieldSlotsV {
            k: crate::item::opt_view(self.k),
            n: crate::item::opt_view(self.n),
            v: crate::item::opt_view(self.v),
            t: crate::item::opt_view(self.t),
        }
    }
}

/// Finishes a section-field scan; mirrors `sp_sec_field_finish`.
fn sec_field_finish(b: SecFieldSlots) -> (r: Result<SectionField, DecodeError>)
    ensures
        r matches Ok(f) ==> sp_sec_field_finish(b@) == Ok::<_, DecodeErrorV>(f@),
        r matches Err(e) ==> sp_sec_field_finish(b@) == Err::<SectionFieldV, _>(e@),
{
    let kw = match b.k {
        Some(k) => k,
        None => {
            return Err(DecodeError::MissingField("k".to_owned()));
        },
    };
    let n = match b.n {
        Some(n) => n,
        None => {
            return Err(DecodeError::MissingField("n".to_owned()));
        },
    };
    let v = match b.v {
        Some(v) => v,
        None => {
            return Err(DecodeError::MissingField("v".to_owned()));
        },
    };
    let t = match b.t {
        Some(t) => t,
        None => {
            return Err(DecodeError::MissingField("t".to_owned()));
        },
    };
    if kw == "string".to_owned() {
        Ok(SectionField { k: SectionKind::String, n, v, t })
    } else if kw == "concealed".to_owned() {
        Ok(SectionField { k: SectionKind::Concealed, n, v, t })
    } else {
        Err(DecodeError::InvalidDiscriminator(kw))
    }
}

/// Parses the members of one section field object; mirrors
/// `sp_sec_field_members`.
fn p_sec_field_members(t: &Vec<char>, i: usize, b: SecFieldSlots, first: bool) -> (r: Result<
    (SectionField, usize),
    DecodeError,
>)
    requires
        i <= t.len(),
    ensures
        r matches Ok(p) ==> i < p.1 <= t.len() && sp_sec_field_members(
            t@.skip(i as int),
            b@,
            first,
        ) == Ok::<_, DecodeErrorV>((p.0@, t@.skip(p.1 as int))),
        r matches Err(e) ==> sp_sec_field_members(t@.skip(i as int), b@, first) == Err::<
            (SectionFieldV, Seq<char>),
            _,
        >(e@),
    decreases t.len() - i,
{
    let j0 = p_ws(t, i);
    if j0 >= t.len() {
        return Err(DecodeError::MalformedJson);
    }
    proof {
        assert(t@.skip(j0 as int)[0] == t@[j0 as int]);
    }
    if first && t[j0] == '}' {
        proof {
            assert(t@.skip(j0 as int).skip(1) =~= t@.skip(j0 + 1 as int));
        }
        return match sec_field_finish(b) {
            Ok(f) => Ok((f, j0 + 1)),
            Err(e) => Err(e),
        };
    }
    let (key, j1) = match p_string(t, j0) {
        Ok(p) => p,
        Err(_) => {
            return Err(DecodeError::MalformedJson);
        },
    };
    let j2 = p_ws(t, j1);
    if j2 >= t.len() || t[j2] != ':' {
        proof {
            if j2 < t.len() {
                assert(t@.skip(j2 as int)[0] == t@[j2 as int]);
            }
        }
        return Err(DecodeError::MalformedJson);
    }
    proof {
        assert(t@.skip(j2 as int)[0] == t@[j2 as int]);
        assert(t@.skip(j2 as int).skip(1) =~= t@.skip(j2 + 1 as int));
    }
    let j3 = p_ws(t, j2 + 1);
    let k_k: String = "k".to_owned();
    let k_n: String = "n".to_owned();
    let k_v: String = "v".to_owned();
    let k_t: String = "t".to_owned();
    if !(key == k_k || key == k_n || key == k_v || key == k_t) {
        return Err(DecodeError::UnknownField(key));
    }
    if (key == k_k && b.k.is_some()) || (key == k_n && b.n.is_some()) || (key == k_v
        && b.v.is_some()) || (key == k_t && b.t.is_some()) {
        return Err(DecodeError::DuplicateField(key));
    }
    let (val, j4) = match crate::item::p_expect_string(t, j3, &key) {
        Ok(p) => p,
        Err(e) => {
            return Err(e);
        },
    };
    let b2 = if key == k_k {
        SecFieldSlots { k: Some(val), n: b.n, v: b.v, t: b.t }
    } else if key == k_n {
        SecFieldSlots { k: b.k, n: Some(val), v: b.v, t: b.t }
    } else if key == k_v {
        SecFieldSlots { k: b.k, n: b.n, v: Some(val), t: b.t }
    } else {
        SecFieldSlots { k: b.k, n: b.n, v: b.v, t: Some(val) }
    };
    let j5 = p_ws(t, j4);
    if j5 >= t.len() {
        return Err(DecodeError::MalformedJson);
    }
    proof {
        assert(t@.skip(j5 as int)[0] == t@[j5 as int]);
        assert(t@.skip(j5 as int).skip(1) =~= t@.skip(j5 + 1 as int));
    }
    if t[j5] == '}' {
        match sec_field_finish(b2) {
            Ok(f) => Ok((f, j5 + 1)),
            Err(e) => Err(e),
        }
    } else if t[j5] == ',' {
        p_sec_field_members(t, j5 + 1, b2, false)
    } else {
        Err(DecodeError::MalformedJson)
    }
}

/// Parses one whole section field object; mirrors `sp_sec_field_obj`.
fn p_sec_field_obj(t: &Vec<char>, i: usize) -> (r: Result<(SectionField, usize), DecodeError>)
    requires
        i <= t.len(),
    ensures
        r matches Ok(p) ==> i < p.1 <= t.len() && sp_sec_field_obj(t@.skip(i as int)) == Ok::<
            _,
            DecodeErrorV,
        >((p.0@, t@.skip(p.1 as int))),
        r matches Err(e) ==> sp_sec_field_obj(t@.skip(i as int)) == Err::<
            (SectionFieldV, Seq<char>),
            _,
        >(e@),
{
    if i >= t.len() || t[i] != '{' {
        proof {
            if i < t.len() {
                assert(t@.skip(i as int)[0] == t@[i as int]);
            }
        }
        return Err(DecodeError::MalformedJson);
    }
    proof {
        assert(t@.skip(i as int)[0] == t@[i as int]);
        assert(t@.skip(i as int).skip(1) =~= t@.skip(i + 1 as int));
    }
    let empty = SecFieldSlots { k: None, n: None, v: None, t: None };
    p_sec_field_members(t, i + 1, empty, true)
}

/// Parses the elements of the `sections` array; mirrors `sp_sec_elems`.
fn p_sec_elems(t: &Vec<char>, i: usize, acc: Vec<SectionField>, first: bool) -> (r: Result<
    (Vec<SectionField>, usize),
    DecodeError,
>)
    requires
        i <= t.len(),
    ensures
        r matches Ok(p) ==> i < p.1 <= t.len() && sp_sec_elems(
            t@.skip(i as int),
            sec_fields_v(acc@),
            first,
        ) == Ok::<_, DecodeErrorV>((sec_fields_v(p.0@), t@.skip(p.1 as int))),
        r matches Err(e) ==> sp_sec_elems(t@.skip(i as int), sec_fields_v(acc@), first) == Err::<
            (Seq<SectionFieldV>, Seq<char>),
            _,
        >(e@),
    decreases t.len() - i,
{
    let ghost accv = sec_fields_v(acc@);
    let j0 = p_ws(t, i);
    if j0 >= t.len() {
        return Err(DecodeError::MalformedJson);
    }
    proof {
        assert(t@.skip(j0 as int)[0] == t@[j0 as int]);
        assert(t@.skip(j0 as int).skip(1) =~= t@.skip(j0 + 1 as int));
    }
    if first && t[j0] == ']' {
        return Ok((acc, j0 + 1));
    }
    let (f, j1) = match p_sec_field_obj(t, j0) {
        Ok(p) => p,
        Err(e) => {
            return Err(e);
        },
    };
    let mut acc = acc;
    acc.push(f);
    proof {
        assert(sec_fields_v(acc@) =~= accv.push(f@));
    }
    let j2 = p_ws(t, j1);
    if j2 >= t.len() {
        return Err(DecodeError::MalformedJson);
    }
    proof {
        assert(t@.skip(j2 as int)[0] == t@[j2 as int]);
        assert(t@.skip(j2 as int).skip(1) =~= t@.skip(j2 + 1 as int));
    }
    if t[j2] == ']' {
        Ok((acc, j2 + 1))
    } else if t[j2] == ',' {
        p_sec_elems(t, j2 + 1, acc, false)
    } else {
        Err(DecodeError::MalformedJson)
    }
}

/// The executable section builder.
pub struct SecSlots {
    pub name: Option<String>,
    pub title: Option<String>,
    pub sections: Option<Vec<SectionField>>,
}

impl View for SecSlots {
    type V = SecSlotsV;

    open spec fn view(&self) -> SecSlotsV {
        SecSlotsV {
            name: crate::item::opt_view(self.name),
            title: crate::item::opt_view(self.title),
            sections: match self.sections {
                Some(fs) => Some(sec_fields_v(fs@)),
                None => None,
            },
        }
    }
}

/// Finishes a section scan; mirrors `sp_sec_finish`.
fn sec_finish(b: SecSlots) -> (r: Result<Section, DecodeError>)
    ensures
        r matches Ok(v) ==> sp_sec_finish(b@) == Ok::<_, DecodeErrorV>(v@),
        r matches Err(e) ==> sp_sec_finish(b@) == Err::<SectionV, _>(e@),
{
    let name = match b.name {
        Some(n) => n,
        None => {
            return Err(DecodeError::MissingField("name".to_owned()));
        },
    };
    let title = match b.title {
        Some(tl) => tl,
        None => {
            return Err(DecodeError::MissingField("title".to_owned()));
        },
    };
    let sections = match b.sections {
        Some(ss) => ss,
        None => {
            return Err(DecodeError::MissingField("sections".to_owned()));
        },
    };
    Ok(Section { name, title, sections })
}

/// Parses the members of the section object; mirrors `sp_sec_members`.
fn p_sec_members(t: &Vec<char>, i: usize, b: SecSlots, first: bool) -> (r: Result<
    (Section, usize),
    DecodeError,
>)
    requires
        i <= t.len(),
    ensures
        r matches Ok(p) ==> i < p.1 <= t.len() && sp_sec_members(t@.skip(i as int), b@, first)
            == Ok::<_, DecodeErrorV>((p.0@, t@.skip(p.1 as int))),
        r matches Err(e) ==> sp_sec_members(t@.skip(i as int), b@, first) == Err::<
            (SectionV, Seq<char>),
            _,
        >(e@),
    decreases t.len() - i,
{
    let j0 = p_ws(t, i);
    if j0 >= t.len() {
        return Err(DecodeError::MalformedJson);
    }
    proof {
        assert(t@.skip(j0 as int)[0] == t@[j0 as int]);
    }
    if first && t[j0] == '}' {
        proof {
            assert(t@.skip(j0 as int).skip(1) =~= t@.skip(j0 + 1 as int));
        }
        return match sec_finish(b) {
            Ok(v) => Ok((v, j0 + 1)),
            Err(e) => Err(e),
        };
    }
    let (key, j1) = match p_string(t, j0) {
        Ok(p) => p,
        Err(_) => {
            return Err(DecodeError::MalformedJson);
        },
    };
    let j2 = p_ws(t, j1);
    if j2 >= t.len() || t[j2] != ':' {
        proof {
            if j2 < t.len() {
                assert(t@.skip(j2 as int)[0] == t@[j2 as int]);
            }
        }
        return Err(DecodeError::MalformedJson);
    }
    proof {
        assert(t@.skip(j2 as int)[0] == t@[j2 as int]);
        assert(t@.skip(j2 as int).skip(1) =~= t@.skip(j2 + 1 as int));
    }
    let j3 = p_ws(t, j2 + 1);
    let k_name: String = "name".to_owned();
    let k_title: String = "title".to_owned();
    let k_sections: String = "sections".to_owned();
    if !(key == k_name || key == k_title || key == k_sections) {
        return Err(DecodeError::UnknownField(key));
    }
    if (key == k_name && b.name.is_some()) || (key == k_title && b.title.is_some()) || (key
        == k_sections && b.sections.is_some()) {
        return Err(DecodeError::DuplicateField(key));
    }
    if j3 < t.len() {
        proof {
            assert(t@.skip(j3 as int)[0] == t@[j3 as int]);
        }
    }
    let b2: SecSlots;
    let j4: usize;
    if key == k_sections {
        if j3 >= t.len() {
            return Err(DecodeError::MalformedJson);
        }
        let c = t[j3];
        if c != '[' {
            if c == '"' || c == '{' || c == 't' || c == 'f' || c == 'n' || c == '-' || (48
                <= c as u32 && c as u32 <= 57) {
                return Err(DecodeError::TypeMismatch(key, JsonKind::Array));
            } else {
                return Err(DecodeError::MalformedJson);
            }
        }
        proof {
            assert(t@.skip(j3 as int).skip(1) =~= t@.skip(j3 + 1 as int));
        }
        let empty_fields: Vec<SectionField> = Vec::new();
        proof {
            assert(sec_fields_v(empty_fields@) =~= Seq::<SectionFieldV>::empty());
        }
        let (fs, j) = match p_sec_elems(t, j3 + 1, empty_fields, true) {
            Ok(p) => p,
            Err(e) => {
                return Err(e);
            },
        };
        b2 = SecSlots { name: b.name, title: b.title, sections: Some(fs) };
        j4 = j;
    } else {
        let (val, j) = match crate::item::p_expect_string(t, j3, &key) {
            Ok(p) => p,
            Err(e) => {
                return Err(e);
            },
        };
        if key == k_name {
            b2 = SecSlots { name: Some(val), title: b.title, sections: b.sections };
        } else {
            b2 = SecSlots { name: b.name, title: Some(val), sections: b.sections };
        }
        j4 = j;
    }
    let j5 = p_ws(t, j4);
    if j5 >= t.len() {
        return Err(DecodeError::MalformedJson);
    }
    proof {
        assert(t@.skip(j5 as int)[0] == t@[j5 as int]);
        assert(t@.skip(j5 as int).skip(1) =~= t@.skip(j5 + 1 as int));
    }
    if t[j5] == '}' {
        match sec_finish(b2) {
            Ok(v) => Ok((v, j5 + 1)),
            Err(e) => Err(e),
        }
    } else if t[j5] == ',' {
        p_sec_members(t, j5 + 1, b2, false)
    } else {
        Err(DecodeError::MalformedJson)
    }
}

impl Section {
    /// Decodes a section record from the characters of a JSON document.
    pub fn decode_chars(t: &Vec<char>) -> (r: Result<Section, DecodeError>)
        ensures
            r matches Ok(v) ==> sp_section(t@) == Ok::<_, DecodeErrorV>(v@),
            r matches Err(e) ==> sp_section(t@) == Err::<SectionV, _>(e@),
    {
        proof {
            assert(t@.skip(0) =~= t@);
        }
        let j0 = p_ws(t, 0);
        if j0 >= t.len() {
            return Err(DecodeError::MalformedJson);
        }
        proof {
            assert(t@.skip(j0 as int)[0] == t@[j0 as int]);
            assert(t@.skip(j0 as int).skip(1) =~= t@.skip(j0 + 1 as int));
        }
        if t[j0] != '{' {
            return Err(DecodeError::MalformedJson);
        }
        let empty = SecSlots { name: None, title: None, sections: None };
        let (v, j1) = match p_sec_members(t, j0 + 1, empty, true) {
            Ok(p) => p,
            Err(e) => {
                return Err(e);
            },
        };
        let j2 = p_ws(t, j1);
        if j2 < t.len() {
            return Err(DecodeError::MalformedJson);
        }
        proof {
            assert(t@.skip(j2 as int).len() == 0);
        }
        Ok(v)
    }

    /// Decodes a section record from the text of a JSON document.
    pub fn decode_text(s: &str) -> (r: Result<Section, DecodeError>)
        ensures
            r matches Ok(v) ==> sp_section(s@) == Ok::<_, DecodeErrorV>(v@),
            r matches Err(e) ==> sp_section(s@) == Err::<SectionV, _>(e@),
    {
        let t = chars_of(s);
        Section::decode_chars(&t)
    }

    /// Decodes a section record from the bytes of a JSON document, which
    /// must be UTF-8 text.
    pub fn from_slice(s: &[u8]) -> (r: Result<Section, DecodeError>)
        ensures
            r matches Ok(v) ==> sp_section_bytes(s@) == Ok::<_, DecodeErrorV>(v@),
            r matches Err(e) ==> sp_section_bytes(s@) == Err::<SectionV, _>(e@),
    {
        match bytes_to_str(s) {
            Some(text) => Section::decode_text(text),
            None => Err(DecodeError::MalformedJson),
        }
    }
}

} // verus!
