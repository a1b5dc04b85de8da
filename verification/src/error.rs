//! What can go wrong, one type for each operation, and the models that the
//! contracts speak of.

use vstd::prelude::*;
use vstd::string::StringExecFns;

verus! {

/// A place in a text: both numbers count from one, and `line` zero means that
/// the place is unknown.
#[derive(Clone, Copy, Debug, PartialEq, Eq, Structural)]
pub struct Position {
    pub line: usize,
    pub column: usize,
}

/// Why a text is not a JSON document.
#[derive(Clone, Copy, Debug, PartialEq, Eq, Structural)]
pub enum ParseErrorKind {
    /// The text breaks the JSON grammar.
    Syntax,
    /// The text ends inside a value.
    UnexpectedEof,
}

/// A text that could not be parsed: why, where, and a sentence for a reader.
#[derive(Clone, Debug, PartialEq, Eq)]
pub struct ParseError {
    pub kind: ParseErrorKind,
    pub position: Position,
    pub message: String,
}

/// The model of a `ParseError`.
pub struct ParseFailure {
    pub kind: ParseErrorKind,
    pub position: Position,
    pub message: Seq<char>,
}

impl View for ParseError {
    type V = ParseFailure;

    open spec fn view(&self) -> ParseFailure {
        ParseFailure { kind: self.kind, position: self.position, message: self.message@ }
    }
}

/// A document that does not fit its schema.
#[derive(Clone, Copy, Debug, PartialEq, Eq, Structural)]
pub enum ValidationError {
    /// The document or the schema is no object, or the document has a key that
    /// the schema lacks.
    StructuralMismatch,
}

/// A document that cannot be edited by key.
#[derive(Clone, Copy, Debug, PartialEq, Eq, Structural)]
pub enum EditError {
    /// Only an object has members to set.
    NotAnObject,
}

/// A conversion that gave no text.
#[derive(Clone, Debug, PartialEq, Eq)]
pub enum ConversionError {
    /// The target format, as it was asked for, is none that is known.
    UnsupportedFormat(String),
    /// The serializer of the target format refused the document.
    SerializationFailed,
}

/// The model of a `ConversionError`.
pub enum ConversionFailure {
    UnsupportedFormat(Seq<char>),
    SerializationFailed,
}

impl View for ConversionError {
    type V = ConversionFailure;

    open spec fn view(&self) -> ConversionFailure {
        match self {
            ConversionError::UnsupportedFormat(format) => ConversionFailure::UnsupportedFormat(
                format@,
            ),
            ConversionError::SerializationFailed => ConversionFailure::SerializationFailed,
        }
    }
}

/// Any failure of the toolkit, for callers that pass them all up one way.
#[derive(Clone, Debug, PartialEq, Eq)]
pub enum ParserError {
    /// A file could not be read; the text is the platform's own.
    FileReadError(String),
    /// A text was no JSON document.
    JsonParseError(ParseError),
    /// A document did not fit its schema.
    SchemaValidationError,
}

impl ParserError {
    /// The sentence that describes this failure.
    pub fn message(&self) -> (text: String)
        ensures
            text@ == match self {
                ParserError::FileReadError(cause) => "File read error: "@ + cause@,
                ParserError::JsonParseError(cause) => "JSON parse error: "@ + cause.message@,
                ParserError::SchemaValidationError => "Schema validation failed"@,
            },
    {
        match self {
            ParserError::FileReadError(cause) => String::from_str("File read error: ").concat(
                cause.as_str(),
            ),
            ParserError::JsonParseError(cause) => String::from_str("JSON parse error: ").concat(
                cause.message.as_str(),
            ),
            ParserError::SchemaValidationError => String::from_str("Schema validation failed"),
        }
    }
}

impl From<ParseError> for ParserError {
    fn from(cause: ParseError) -> (r: ParserError) {
        ParserError::JsonParseError(cause)
    }
}

impl vstd::std_specs::convert::FromSpecImpl<ParseError> for ParserError {
    open spec fn obeys_from_spec() -> bool {
        true
    }

    open spec fn from_spec(cause: ParseError) -> ParserError {
        ParserError::JsonParseError(cause)
    }
}

impl From<ValidationError> for ParserError {
    fn from(cause: ValidationError) -> (r: ParserError) {
        ParserError::SchemaValidationError
    }
}

impl vstd::std_specs::convert::FromSpecImpl<ValidationError> for ParserError {
    open spec fn obeys_from_spec() -> bool {
        true
    }

    open spec fn from_spec(cause: ValidationError) -> ParserError {
        ParserError::SchemaValidationError
    }
}

impl EditError {
    /// The sentence that describes this failure.
    pub fn message(&self) -> (text: String)
        ensures
            text@ == "Invalid JSON structure for editing"@,
    {
        String::from_str("Invalid JSON structure for editing")
    }
}

impl ConversionError {
    /// The sentence that describes this failure.
    pub fn message(&self) -> (text: String)
        ensures
            text@ == match self {
                ConversionError::UnsupportedFormat(format) => "Unsupported format: "@ + format@,
                ConversionError::SerializationFailed => "Serialization failed"@,
            },
    {
        match self {
            ConversionError::UnsupportedFormat(format) => String::from_str(
                "Unsupported format: ",
            ).concat(format.as_str()),
            ConversionError::SerializationFailed => String::from_str("Serialization failed"),
        }
    }
}

} // verus!
