//! The error type shared by both pipelines. Every failure is reported
//! synchronously as a function's error result; nothing is retried or
//! swallowed.

use vstd::prelude::*;

use crate::chars::chars_to_string;
use crate::numbers::dec_digits;
use crate::numbers::push_dec_digits;
use crate::quoting::push_str_chars;

verus! {

/// An error of the codec.
#[derive(Debug, Clone, PartialEq, Eq)]
pub enum ToonError {
    /// Malformed input, with a free-form description.
    InvalidInput(String),
    /// A structured parse error carrying the position and an expectation
    /// message.
    ParseError { line: usize, column: usize, message: String },
    /// An invalid character at a given offset.
    InvalidCharacter { ch: char, position: usize },
    /// The input ended inside a quoted string or nested structure.
    UnexpectedEof,
    /// The caller requested an encoding of a value of the wrong shape.
    TypeMismatch { expected: String, found: String },
    /// A delimiter configuration that cannot be honored.
    InvalidDelimiter(String),
    /// A declared array length that does not match the element count found.
    LengthMismatch { expected: usize, found: usize },
    /// A structural rule broken: the depth ceiling, or an empty field name.
    InvalidStructure(String),
    /// A failure while converting a typed value into the tree model.
    SerializationError(String),
    /// A failure while converting the tree model into a typed value.
    DeserializationError(String),
}

pub type ToonResult<T> = Result<T, ToonError>;

/// The describing text of an error, mirroring how each variant is displayed.
pub open spec fn spec_message(e: ToonError) -> Seq<char> {
    match e {
        ToonError::InvalidInput(m) => "Invalid input: "@ + m@,
        ToonError::ParseError { line, column, message } => "Parse error at line "@ + dec_digits(
            line as nat,
        ) + ", column "@ + dec_digits(column as nat) + ": "@ + message@,
        ToonError::InvalidCharacter { ch, position } => "Invalid character '"@ + seq![ch]
            + "' at position "@ + dec_digits(position as nat),
        ToonError::UnexpectedEof => "Unexpected end of input"@,
        ToonError::TypeMismatch { expected, found } => "Type mismatch: expected "@ + expected@
            + ", found "@ + found@,
        ToonError::InvalidDelimiter(m) => "Invalid delimiter: "@ + m@,
        ToonError::LengthMismatch { expected, found } => "Array length mismatch: expected "@
            + dec_digits(expected as nat) + ", found "@ + dec_digits(found as nat),
        ToonError::InvalidStructure(m) => "Invalid structure: "@ + m@,
        ToonError::SerializationError(m) => "Serialization error: "@ + m@,
        ToonError::DeserializationError(m) => "Deserialization error: "@ + m@,
    }
}

impl ToonError {
    /// Build a structured parse error at a line and column.
    pub fn parse_error(line: usize, column: usize, message: String) -> (r: Self)
        ensures
            r == (ToonError::ParseError { line, column, message }),
    {
        ToonError::ParseError { line, column, message }
    }

    /// Build an invalid-character error at an offset.
    pub fn invalid_char(ch: char, position: usize) -> (r: Self)
        ensures
            r == (ToonError::InvalidCharacter { ch, position }),
    {
        ToonError::InvalidCharacter { ch, position }
    }

    /// Build a type-mismatch error from the expected and found shapes.
    pub fn type_mismatch(expected: String, found: String) -> (r: Self)
        ensures
            r == (ToonError::TypeMismatch { expected, found }),
    {
        ToonError::TypeMismatch { expected, found }
    }

    /// Build an array-length-mismatch error.
    pub fn length_mismatch(expected: usize, found: usize) -> (r: Self)
        ensures
            r == (ToonError::LengthMismatch { expected, found }),
    {
        ToonError::LengthMismatch { expected, found }
    }

    /// The describing text of this error.
    pub fn message(&self) -> (r: String)
        ensures
            r@ == spec_message(*self),
    {
        let mut out: Vec<char> = Vec::new();
        match self {
            ToonError::InvalidInput(m) => {
                push_str_chars(&mut out, "Invalid input: ");
                push_str_chars(&mut out, m.as_str());
            },
            ToonError::ParseError { line, column, message } => {
                push_str_chars(&mut out, "Parse error at line ");
                push_dec_digits(*line as u64, &mut out);
                push_str_chars(&mut out, ", column ");
                push_dec_digits(*column as u64, &mut out);
                push_str_chars(&mut out, ": ");
                push_str_chars(&mut out, message.as_str());
            },
            ToonError::InvalidCharacter { ch, position } => {
                push_str_chars(&mut out, "Invalid character '");
                out.push(*ch);
                push_str_chars(&mut out, "' at position ");
                push_dec_digits(*position as u64, &mut out);
            },
            ToonError::UnexpectedEof => {
                push_str_chars(&mut out, "Unexpected end of input");
            },
            ToonError::TypeMismatch { expected, found } => {
                push_str_chars(&mut out, "Type mismatch: expected ");
                push_str_chars(&mut out, expected.as_str());
                push_str_chars(&mut out, ", found ");
                push_str_chars(&mut out, found.as_str());
            },
            ToonError::InvalidDelimiter(m) => {
                push_str_chars(&mut out, "Invalid delimiter: ");
                push_str_chars(&mut out, m.as_str());
            },
            ToonError::LengthMismatch { expected, found } => {
                push_str_chars(&mut out, "Array length mismatch: expected ");
                push_dec_digits(*expected as u64, &mut out);
                push_str_chars(&mut out, ", found ");
                push_dec_digits(*found as u64, &mut out);
            },
            ToonError::InvalidStructure(m) => {
                push_str_chars(&mut out, "Invalid structure: ");
                push_str_chars(&mut out, m.as_str());
            },
            ToonError::SerializationError(m) => {
                push_str_chars(&mut out, "Serialization error: ");
                push_str_chars(&mut out, m.as_str());
            },
            ToonError::DeserializationError(m) => {
                push_str_chars(&mut out, "Deserialization error: ");
                push_str_chars(&mut out, m.as_str());
            },
        }
        proof {
            assert(out@ =~= spec_message(*self));
        }
        chars_to_string(&out)
    }
}

/// Build an owned message string from a literal.
pub fn owned_message(s: &str) -> (r: String)
    ensures
        r@ == s@,
{
    let mut v: Vec<char> = Vec::new();
    push_str_chars(&mut v, s);
    proof {
        assert(v@ =~= s@);
    }
    chars_to_string(&v)
}

} // verus!
