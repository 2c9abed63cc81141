use vstd::prelude::*;

verus! {

/// The kind of JSON value a decoder expected at some position; reported in
/// `DecodeError::TypeMismatch`.
#[derive(Clone, Copy, PartialEq, Eq, Structural, Debug)]
pub enum JsonKind {
    /// A JSON string was expected.
    Text,
    /// A JSON object was expected.
    Object,
    /// A JSON array was expected.
    Array,
}

/// Why a decode failed. The decoder is fail-fast: the first error encountered
/// in a left-to-right scan of the input is returned and no partial record is
/// produced.
#[derive(Debug)]
pub enum DecodeError {
    /// The input is not well-formed JSON, or is not an object or array where
    /// the schema requires one.
    MalformedJson,
    /// An object contained a key outside the closed schema.
    UnknownField(String),
    /// A recognized key appeared more than once in one object.
    DuplicateField(String),
    /// A required key was absent after a full scan of its object.
    MissingField(String),
    /// The discriminator value was not one of the recognized codes.
    InvalidDiscriminator(String),
    /// A key's value was not of the expected JSON kind.
    TypeMismatch(String, JsonKind),
}

/// The mathematical model of a `DecodeError`.
pub enum DecodeErrorV {
    MalformedJson,
    UnknownField(Seq<char>),
    DuplicateField(Seq<char>),
    MissingField(Seq<char>),
    InvalidDiscriminator(Seq<char>),
    TypeMismatch(Seq<char>, JsonKind),
}

impl View for DecodeError {
    type V = DecodeErrorV;

    open spec fn view(&self) -> DecodeErrorV {
        match self {
            DecodeError::MalformedJson => DecodeErrorV::MalformedJson,
            DecodeError::UnknownField(k) => DecodeErrorV::UnknownField(k@),
            DecodeError::DuplicateField(k) => DecodeErrorV::DuplicateField(k@),
            DecodeError::MissingField(k) => DecodeErrorV::MissingField(k@),
            DecodeError::InvalidDiscriminator(v) => DecodeErrorV::InvalidDiscriminator(v@),
            DecodeError::TypeMismatch(k, e) => DecodeErrorV::TypeMismatch(k@, *e),
        }
    }
}

impl DecodeError {
    /// A short human-readable description of the error.
    pub fn describe(&self) -> (r: &'static str)
        ensures
            r@ == spec_describe(self@),
    {
        match self {
            DecodeError::MalformedJson => "malformed JSON",
            DecodeError::UnknownField(_) => "unknown field",
            DecodeError::DuplicateField(_) => "duplicate field",
            DecodeError::MissingField(_) => "missing field",
            DecodeError::InvalidDiscriminator(_) => "invalid field type discriminator",
            DecodeError::TypeMismatch(_, _) => "value of unexpected JSON kind",
        }
    }
}

/// The description `DecodeError::describe` returns for each error.
pub open spec fn spec_describe(e: DecodeErrorV) -> Seq<char> {
    match e {
        DecodeErrorV::MalformedJson => "malformed JSON"@,
        DecodeErrorV::UnknownField(_) => "unknown field"@,
        DecodeErrorV::DuplicateField(_) => "duplicate field"@,
        DecodeErrorV::MissingField(_) => "missing field"@,
        DecodeErrorV::InvalidDiscriminator(_) => "invalid field type discriminator"@,
        DecodeErrorV::TypeMismatch(_, _) => "value of unexpected JSON kind"@,
    }
}

} // verus!
