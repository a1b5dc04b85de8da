//! A JSON toolkit: key-presence validation against a shallow schema, lookup and
//! replacement of a top-level member, conversion to YAML and XML, and decoding
//! of streams of concatenated documents.

pub mod access;
pub mod backend;
pub mod convert;
pub mod edit;
pub mod error;
pub mod parse;
pub mod schema;
pub mod stream;
pub mod value;

pub use access::parse_partial_json;
pub use convert::{convert_to_format, serialize_json};
pub use edit::edit_json;
pub use error::{
    ConversionError, EditError, ParseError, ParseErrorKind, ParserError, Position,
    ValidationError,
};
pub use parse::parse_json;
pub use schema::validate_json_schema;
pub use stream::{handle_large_json, Rest, Scan, Scanner, StreamDecoder};
pub use value::{JsonModel, JsonValue};
