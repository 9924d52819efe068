//! TAML (Tab Accessible Markup Language): a minimalist hierarchical data
//! format that uses only tabs and newlines for structure. This crate parses
//! TAML text into a [`Value`] tree, serializes a tree back to text, and
//! validates text against the format's structural rules, with machine-checked
//! contracts describing each operation.

pub mod error;
pub mod laws;
pub mod num;
pub mod parser;
pub mod roundtrip;
pub mod serializer;
pub mod text;
pub mod validator;
pub mod value;

pub use error::TAMLError;
pub use error::TAMLResult;
pub use value::Value;
pub use value::ValueModel;
pub use parser::parse;
pub use parser::parse_strict;
pub use parser::parse_with_options;
pub use parser::ParseOptions;
pub use serializer::stringify_with_options;
pub use serializer::SerializeOptions;
pub use validator::validate;
pub use validator::ValidationError;
pub use validator::ErrorType;
