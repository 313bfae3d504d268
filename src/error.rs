//! Errors of the library, and their abstract form.
use vstd::prelude::*;

verus! {

/// What can go wrong while reading or writing a field of a document.
#[derive(Debug, PartialEq, Eq)]
pub enum TomlExtractError {
    /// The named file does not exist.
    FileNotFound(String),
    /// The document text is not valid TOML.
    InvalidToml {
        /// The file the text came from.
        file: String,
        /// What the parser reported.
        error: String,
    },
    /// A table has no entry under this key.
    FieldNotFound(String),
    /// An index is not below the length of the array it addresses.
    ArrayIndexOutOfBounds {
        /// The key under which the array stands.
        path: String,
        /// The index that was asked for.
        index: usize,
        /// The length of the array.
        length: usize,
    },
    /// The entry under this key is not an array.
    NotAnArray(String),
    /// The text between brackets is not a non-negative integer.
    InvalidArrayIndex(String),
    /// A table was needed where another kind of value stands; carries the key
    /// that was to be looked up.
    NotATable(String),
    /// The path is empty, has an empty segment, or unmatched brackets.
    InvalidFieldPath(String),
    /// The text does not read as a value of the requested type.
    InvalidValueType(String),
    /// Rendering as JSON failed; carries the message.
    JsonError(String),
}

/// The abstract form of [`TomlExtractError`], with text as character
/// sequences.
pub enum Fault {
    FileNotFound(Seq<char>),
    InvalidToml(Seq<char>, Seq<char>),
    FieldNotFound(Seq<char>),
    ArrayIndexOutOfBounds(Seq<char>, nat, nat),
    NotAnArray(Seq<char>),
    InvalidArrayIndex(Seq<char>),
    NotATable(Seq<char>),
    InvalidFieldPath(Seq<char>),
    InvalidValueType(Seq<char>),
    JsonError(Seq<char>),
}

impl View for TomlExtractError {
    type V = Fault;

    open spec fn view(&self) -> Fault {
        match self {
            TomlExtractError::FileNotFound(s) => Fault::FileNotFound(s@),
            TomlExtractError::InvalidToml { file, error } => Fault::InvalidToml(file@, error@),
            TomlExtractError::FieldNotFound(s) => Fault::FieldNotFound(s@),
            TomlExtractError::ArrayIndexOutOfBounds { path, index, length } => {
                Fault::ArrayIndexOutOfBounds(path@, *index as nat, *length as nat)
            },
            TomlExtractError::NotAnArray(s) => Fault::NotAnArray(s@),
            TomlExtractError::InvalidArrayIndex(s) => Fault::InvalidArrayIndex(s@),
            TomlExtractError::NotATable(s) => Fault::NotATable(s@),
            TomlExtractError::InvalidFieldPath(s) => Fault::InvalidFieldPath(s@),
            TomlExtractError::InvalidValueType(s) => Fault::InvalidValueType(s@),
            TomlExtractError::JsonError(s) => Fault::JsonError(s@),
        }
    }
}

} // verus!
