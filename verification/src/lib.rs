//! A codec between a tree-structured value model (null, booleans, numbers,
//! strings, arrays, ordered-key objects) and a compact, indentation- and
//! delimiter-sensitive text notation.
//!
//! The decode pipeline is a tokenizer feeding a recursive-descent parser with
//! indentation tracking and delimiter auto-detection; the encode pipeline is a
//! structural classifier driving a writer with quoting and escaping rules.

pub mod chars;
pub mod constants;
pub mod decode;
pub mod encode;
pub mod error;
pub mod numbers;
pub mod parser;
pub mod quoting;
pub mod scanner;
pub mod strutil;
pub mod types;
pub mod validation;
pub mod value;
pub mod writer;

pub use constants::is_keyword;
pub use constants::is_structural_char;
pub use decode::decode;
pub use decode::decode_default;
pub use decode::decode_no_coerce;
pub use decode::decode_no_coerce_with_options;
pub use decode::decode_strict;
pub use decode::decode_strict_with_options;
pub use encode::encode;
pub use encode::encode_array;
pub use encode::encode_default;
pub use encode::encode_object;
pub use error::ToonError;
pub use error::ToonResult;
pub use quoting::is_literal_like;
pub use strutil::escape_string;
pub use strutil::needs_quoting;
pub use types::DecodeOptions;
pub use types::Delimiter;
pub use types::EncodeOptions;
pub use value::normalize;
pub use value::Value;
