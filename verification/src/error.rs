//! The failures that the library reports.

use vstd::prelude::*;

verus! {

/// The error that `toml` gives for a text that it cannot read. Nothing in
/// it is read here but its message.
#[verifier::external_type_specification]
#[verifier::external_body]
pub struct ExTomlError(toml::de::Error);

/// What a function of the library gives: its result, or the error.
pub type OozeResult<T> = Result<T, OozeError>;

/// What can go wrong in the library.
#[derive(Debug)]
pub enum OozeError {
    /// The sprite sheet's metadata is no TOML document.
    TomlDeserializeError(toml::de::Error),
    /// A colour with a channel outside of [0.0, 1.0]; it holds the colour.
    BadColorError([u32; 4]),
    /// A point or a rectangle outside of the panel that it was meant for.
    OutOfBoundsError,
    /// A sprite that is not known, or metadata without a field that is
    /// needed.
    GenericError,
}

/// The message that `toml` writes for its error.
pub uninterp spec fn toml_error_text(err: toml::de::Error) -> Seq<char>;

/// Formats the error of `toml` by its `Display` impl, which writes a
/// message from the error's own fields and from nothing else.
#[verifier::external_body]
fn toml_error_message(err: &toml::de::Error) -> (text: String)
    ensures
        text@ == toml_error_text(*err),
{
    format!("{}", err)
}

impl OozeError {
    /// The sentence for each error.
    pub open spec fn spec_message(self) -> Seq<char> {
        match self {
            OozeError::TomlDeserializeError(err) => toml_error_text(err),
            OozeError::BadColorError(_) => "A color was badly formatted."@,
            OozeError::OutOfBoundsError => "Something was out of bounds."@,
            OozeError::GenericError => "Generic error occured with ooze."@,
        }
    }

    /// The sentence that describes this error to a user.
    pub fn message(&self) -> (text: String)
        ensures
            text@ == self.spec_message(),
    {
        match self {
            OozeError::TomlDeserializeError(err) => toml_error_message(err),
            OozeError::BadColorError(_) => "A color was badly formatted.".to_owned(),
            OozeError::OutOfBoundsError => "Something was out of bounds.".to_owned(),
            OozeError::GenericError => "Generic error occured with ooze.".to_owned(),
        }
    }

    /// The short name for each kind of error.
    pub open spec fn spec_description(self) -> Seq<char> {
        match self {
            OozeError::TomlDeserializeError(_) => "A badly formatted document"@,
            OozeError::BadColorError(_) => "A badly formatted color"@,
            OozeError::OutOfBoundsError => "Out of bounds"@,
            OozeError::GenericError => "Generic ooze error"@,
        }
    }

    /// A short name for the kind of this error.
    pub fn description(&self) -> (text: &'static str)
        ensures
            text@ == self.spec_description(),
    {
        match self {
            OozeError::TomlDeserializeError(_) => "A badly formatted document",
            OozeError::BadColorError(_) => "A badly formatted color",
            OozeError::OutOfBoundsError => "Out of bounds",
            OozeError::GenericError => "Generic ooze error",
        }
    }
}

} // verus!
