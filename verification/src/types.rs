//! Configuration types of the codec: the delimiter that separates sibling
//! scalars, and the option sets for encoding and decoding.

use vstd::prelude::*;

use crate::chars::chars_to_string;
use crate::numbers::dec_digits;
use crate::numbers::push_dec_digits;

verus! {

/// Delimiter character used to separate array elements.
#[derive(Clone, Copy, Debug, PartialEq, Eq, Structural)]
pub enum Delimiter {
    Comma,
    Tab,
    Pipe,
}

impl Delimiter {
    /// The character representation of this delimiter.
    pub open spec fn spec_as_char(&self) -> char {
        match self {
            Delimiter::Comma => ',',
            Delimiter::Tab => '\t',
            Delimiter::Pipe => '|',
        }
    }

    /// Get the character representation of this delimiter.
    #[verifier::when_used_as_spec(spec_as_char)]
    pub fn as_char(&self) -> (c: char)
        ensures
            c == self.spec_as_char(),
    {
        match self {
            Delimiter::Comma => ',',
            Delimiter::Tab => '\t',
            Delimiter::Pipe => '|',
        }
    }

    /// The text placed inside an array header for this delimiter: empty for
    /// the comma default, the character itself otherwise.
    pub open spec fn spec_metadata(&self) -> Seq<char> {
        match self {
            Delimiter::Comma => Seq::empty(),
            Delimiter::Tab => seq!['\t'],
            Delimiter::Pipe => seq!['|'],
        }
    }

    /// Get the string representation for metadata (empty for comma, char for
    /// others).
    pub fn as_metadata_str(&self) -> (r: &'static str)
        ensures
            r@ == self.spec_metadata(),
    {
        proof {
            reveal_strlit("");
            reveal_strlit("\t");
            reveal_strlit("|");
        }
        let r = match self {
            Delimiter::Comma => "",
            Delimiter::Tab => "\t",
            Delimiter::Pipe => "|",
        };
        proof {
            assert(r@ =~= self.spec_metadata());
        }
        r
    }

    /// Parse a delimiter from a character.
    pub fn from_char(c: char) -> (r: Option<Self>)
        ensures
            match r {
                Some(d) => d.spec_as_char() == c,
                None => c != ',' && c != '\t' && c != '|',
            },
    {
        match c {
            ',' => Some(Delimiter::Comma),
            '\t' => Some(Delimiter::Tab),
            '|' => Some(Delimiter::Pipe),
            _ => None,
        }
    }

    /// Check if the delimiter character appears in the string.
    pub fn contains_in(&self, s: &str) -> (r: bool)
        ensures
            r == s@.contains(self.spec_as_char()),
    {
        let chars = crate::chars::str_to_chars(s);
        let target = self.as_char();
        let n = chars.len();
        let mut i: usize = 0;
        while i < n
            invariant
                i <= n == chars@.len(),
                chars@ == s@,
                target == self.spec_as_char(),
                forall|j: int| 0 <= j < i ==> s@[j] != target,
            decreases n - i,
        {
            if chars[i] == target {
                return true;
            }
            i = i + 1;
        }
        false
    }
}

impl Default for Delimiter {
    /// The default delimiter is the comma.
    fn default() -> (r: Self)
        ensures
            r == Delimiter::Comma,
    {
        Delimiter::Comma
    }
}

/// Options for encoding a tree value to notation text.
#[derive(Clone, Debug)]
pub struct EncodeOptions {
    pub delimiter: Delimiter,
    pub length_marker: Option<char>,
    pub indent: String,
}

impl EncodeOptions {
    /// Holds of the option set with all defaults: comma delimiter, no length
    /// marker, two-space indent.
    pub open spec fn is_default(&self) -> bool {
        &&& self.delimiter == Delimiter::Comma
        &&& self.length_marker is None
        &&& self.indent@ == seq![' ', ' ']
    }

    /// Create new encoding options with defaults.
    pub fn new() -> (r: Self)
        ensures
            r.is_default(),
    {
        Self::default()
    }

    /// Set the delimiter for array elements.
    pub fn with_delimiter(self, delimiter: Delimiter) -> (r: Self)
        ensures
            r.delimiter == delimiter,
            r.length_marker == self.length_marker,
            r.indent@ == self.indent@,
    {
        EncodeOptions { delimiter, ..self }
    }

    /// Set a character prefix for array length markers (e.g., `#` for `[#3]`).
    pub fn with_length_marker(self, marker: char) -> (r: Self)
        ensures
            r.length_marker == Some(marker),
            r.delimiter == self.delimiter,
            r.indent@ == self.indent@,
    {
        EncodeOptions { length_marker: Some(marker), ..self }
    }

    /// Set the indentation string for nested structures.
    pub fn with_indent(self, indent: String) -> (r: Self)
        ensures
            r.indent@ == indent@,
            r.delimiter == self.delimiter,
            r.length_marker == self.length_marker,
    {
        EncodeOptions { indent, ..self }
    }

    /// The text of an array length under these options: the optional marker
    /// character followed by the length's decimal digits.
    pub open spec fn spec_format_length(&self, length: nat) -> Seq<char> {
        match self.length_marker {
            Some(m) => seq![m] + dec_digits(length),
            None => dec_digits(length),
        }
    }

    /// Format an array length with optional marker prefix.
    pub fn format_length(&self, length: usize) -> (r: String)
        ensures
            r@ == self.spec_format_length(length as nat),
    {
        let mut out: Vec<char> = Vec::new();
        if let Some(marker) = self.length_marker {
            out.push(marker);
        }
        push_dec_digits(length as u64, &mut out);
        chars_to_string(&out)
    }

    /// Set indentation to a specific number of spaces.
    pub fn with_spaces(self, count: usize) -> (r: Self)
        ensures
            r.indent@ == Seq::new(count as nat, |i: int| ' '),
            r.delimiter == self.delimiter,
            r.length_marker == self.length_marker,
    {
        let mut spaces: Vec<char> = Vec::new();
        let mut i: usize = 0;
        while i < count
            invariant
                i <= count,
                spaces@ =~= Seq::new(i as nat, |j: int| ' '),
            decreases count - i,
        {
            spaces.push(' ');
            proof {
                assert(spaces@ =~= Seq::new((i + 1) as nat, |j: int| ' '));
            }
            i = i + 1;
        }
        let indent = chars_to_string(&spaces);
        EncodeOptions { indent, ..self }
    }

    /// Set indentation to tabs.
    pub fn with_tabs(self) -> (r: Self)
        ensures
            r.indent@ == seq!['\t'],
            r.delimiter == self.delimiter,
            r.length_marker == self.length_marker,
    {
        let mut tab: Vec<char> = Vec::new();
        tab.push('\t');
        let indent = chars_to_string(&tab);
        proof {
            assert(indent@ =~= seq!['\t']);
        }
        EncodeOptions { indent, ..self }
    }
}

impl Default for EncodeOptions {
    /// Comma delimiter, no length marker, and two spaces of indent per level.
    fn default() -> (r: Self)
        ensures
            r.is_default(),
    {
        let mut ind: Vec<char> = Vec::new();
        ind.push(' ');
        ind.push(' ');
        let indent = chars_to_string(&ind);
        proof {
            assert(indent@ =~= seq![' ', ' ']);
        }
        EncodeOptions { delimiter: Delimiter::Comma, length_marker: None, indent }
    }
}

/// Options for decoding notation text to a tree value.
#[derive(Clone, Debug)]
pub struct DecodeOptions {
    pub delimiter: Option<Delimiter>,
    pub strict: bool,
    pub coerce_types: bool,
}

impl DecodeOptions {
    /// Holds of the option set with all defaults: auto-detected delimiter,
    /// strict validation, and literal coercion.
    pub open spec fn is_default(&self) -> bool {
        &&& self.delimiter is None
        &&& self.strict
        &&& self.coerce_types
    }

    /// Create new decoding options with defaults (strict mode enabled).
    pub fn new() -> (r: Self)
        ensures
            r.is_default(),
    {
        Self::default()
    }

    /// Enable or disable strict mode (validates array lengths, indentation,
    /// etc.).
    pub fn with_strict(self, strict: bool) -> (r: Self)
        ensures
            r == (DecodeOptions { strict, ..self }),
    {
        DecodeOptions { strict, ..self }
    }

    /// Set the expected delimiter (auto-detected if None).
    pub fn with_delimiter(self, delimiter: Delimiter) -> (r: Self)
        ensures
            r == (DecodeOptions { delimiter: Some(delimiter), ..self }),
    {
        DecodeOptions { delimiter: Some(delimiter), ..self }
    }

    /// Enable or disable type coercion (strings like "123" -> numbers).
    pub fn with_coerce_types(self, coerce: bool) -> (r: Self)
        ensures
            r == (DecodeOptions { coerce_types: coerce, ..self }),
    {
        DecodeOptions { coerce_types: coerce, ..self }
    }
}

impl Default for DecodeOptions {
    /// Auto-detected delimiter, strict mode on, literal coercion on.
    fn default() -> (r: Self)
        ensures
            r.is_default(),
    {
        DecodeOptions { delimiter: None, strict: true, coerce_types: true }
    }
}

} // verus!
