//! The recursive-descent parser: consumes the scanner's token stream and
//! reconstructs the tree value, resolving the array-shape ambiguity from
//! header syntax, enforcing indentation-based nesting, applying the
//! strict-mode length checks, and holding nesting to the depth ceiling.

use vstd::prelude::*;
use vstd::string::StrSliceExecFns;
use vstd::string::StringExecFns;

use crate::constants::MAX_DEPTH;
use crate::error::owned_message;
use crate::error::ToonError;
use crate::error::ToonResult;
use crate::scanner::initial_scanner_shape;
use crate::scanner::lemma_scan_progress;
use crate::scanner::scan_token_post;
use crate::scanner::scans_first_err;
use crate::scanner::scans_first_ok_at;
use crate::scanner::scans_first_ok_pos;
use crate::scanner::Scanner;
use crate::scanner::Token;
use crate::types::DecodeOptions;
use crate::types::Delimiter;
use crate::value::Value;

verus! {

/// Whether the token opens a primitive scalar.
pub open spec fn is_primitive_token(t: Token) -> bool {
    t is Null || t is Bool || t is Integer || t is Float || t is Str
}

/// How a primitive token pins the parsed value: each literal token gives
/// its value; a string lookahead gives a string (the text of one or more
/// space-joined adjacent string tokens); any other lookahead is an error.
pub open spec fn primitive_token_value(t: Token, v: Value) -> bool {
    match t {
        Token::Null => v == Value::Null,
        Token::Bool(b) => v == Value::Bool(b),
        Token::Integer(x) => v == Value::Int(x),
        Token::Float(ft) => v matches Value::Float(out) && out@ == ft@,
        Token::Str(_) => v is Str,
        _ => false,
    }
}

/// The delimiter a token stands for, if any: a delimiter token, or a
/// one-character string spelling a delimiter character.
pub open spec fn delim_like(t: Token) -> Option<Delimiter> {
    match t {
        Token::Delim(d) => Some(d),
        Token::Str(s) => if s@ == seq![','] {
            Some(Delimiter::Comma)
        } else if s@ == seq!['|'] {
            Some(Delimiter::Pipe)
        } else if s@ == seq!['\t'] {
            Some(Delimiter::Tab)
        } else {
            None
        },
        _ => None,
    }
}

/// Whether a field list names each field once.
pub open spec fn fields_distinct(fields: Seq<String>) -> bool {
    forall|a: int, b: int|
        0 <= a < b < fields.len() ==> (#[trigger] fields[a])@ != (#[trigger] fields[b])@
}

/// The recursive-descent consumer of the token stream.
pub struct Parser {
    scanner: Scanner,
    current_token: Token,
    options: DecodeOptions,
    delimiter: Option<Delimiter>,
}

impl Parser {
    /// The text being parsed.
    pub closed spec fn text(&self) -> Seq<char> {
        self.scanner.text()
    }

    /// The options this parse call was given.
    pub closed spec fn opts(&self) -> DecodeOptions {
        self.options
    }

    /// The lookahead token.
    pub closed spec fn cur(&self) -> Token {
        self.current_token
    }

    /// Whether the cursor has consumed the whole text.
    pub closed spec fn at_end(&self) -> bool {
        self.scanner.pos() == self.scanner.text().len()
    }

    /// The document's delimiter: pinned by configuration, or by the first
    /// array header encountered, or not yet resolved.
    pub closed spec fn delim(&self) -> Option<Delimiter> {
        self.delimiter
    }

    /// The delimiter the scanner currently treats as a separator.
    pub closed spec fn active(&self) -> Option<Delimiter> {
        self.scanner.active()
    }

    /// The leading-space count of the line the scanner last observed.
    pub closed spec fn indent_level(&self) -> int {
        self.scanner.indent()
    }

    /// The scanner's cursor offset, just past the lookahead token.
    pub closed spec fn spos(&self) -> int {
        self.scanner.pos()
    }

    /// How much input is left to consume: the characters after the cursor,
    /// plus one for a lookahead token not yet folded into the tree.
    pub closed spec fn measure(&self) -> int {
        (if self.scanner.pos() <= self.scanner.text().len() {
            self.scanner.text().len() - self.scanner.pos()
        } else {
            0int
        }) + if self.current_token is Eof {
            0int
        } else {
            1int
        }
    }

    /// The scanner stays inside its text, and once the lookahead is
    /// end-of-input the cursor stands at the end.
    pub closed spec fn wf(&self) -> bool {
        &&& self.scanner.wf()
        &&& (self.current_token is Eof ==> self.scanner.pos() == self.scanner.text().len())
    }

    /// The measure never falls below zero.
    proof fn lemma_measure_nonneg(&self)
        requires
            self.wf(),
        ensures
            self.measure() >= 0,
    {
        self.scanner.lemma_wf_bounds();
    }

    /// Build a parser over the input, pin the configured delimiter if any,
    /// and pull the first token.
    pub fn new(input: &str, options: DecodeOptions) -> (r: Self)
        ensures
            r.wf(),
            r.text() == input@,
            r.opts() == options,
            r.delim() == options.delimiter,
            scans_first_ok_at(input@, options.delimiter, r.cur(), r.at_end()) || (r.cur() is Eof
                && scans_first_err(input@, options.delimiter)),
            scans_first_ok_pos(input@, options.delimiter, r.cur(), r.spos()) || (r.cur() is Eof
                && scans_first_err(input@, options.delimiter)),
    {
        let mut scanner = Scanner::new(input);
        let chosen = options.delimiter;
        scanner.set_active_delimiter(chosen);
        let ghost pre = scanner;
        let tok = scanner.scan_token();
        proof {
            lemma_scan_progress(pre, scanner, tok);
            assert(initial_scanner_shape(pre, input@, chosen));
        }
        let ghost gtok = tok;
        let current_token = match tok {
            Ok(t) => t,
            Err(_) => Token::Eof,
        };
        let r = Parser { scanner, current_token, options, delimiter: chosen };
        proof {
            match gtok {
                Ok(t) => {
                    assert(scan_token_post(pre, r.scanner, Ok(t)));
                    assert(scans_first_ok_at(input@, chosen, r.cur(), r.at_end()));
                    assert(scans_first_ok_pos(input@, chosen, r.cur(), r.spos()));
                },
                Err(e) => {
                    assert(scan_token_post(pre, r.scanner, Err(e)));
                    assert(scans_first_err(input@, chosen));
                },
            }
        }
        r
    }

    /// Pull the next token into the lookahead.
    fn advance(&mut self) -> (r: ToonResult<()>)
        requires
            old(self).wf(),
        ensures
            final(self).wf(),
            final(self).text() == old(self).text(),
            final(self).opts() == old(self).opts(),
            final(self).measure() <= old(self).measure(),
            final(self).delim() == old(self).delim(),
            !(old(self).current_token is Eof) && r is Ok ==> final(self).measure() < old(
                self,
            ).measure(),
            old(self).at_end() ==> r is Ok && final(self).current_token is Eof
                && final(self).at_end(),
            r is Ok ==> scan_token_post(
                old(self).scanner,
                final(self).scanner,
                Ok(final(self).current_token),
            ),
            r matches Err(e) ==> scan_token_post(old(self).scanner, final(self).scanner, Err(e)),
    {
        let ghost pre = self.scanner;
        let tok = self.scanner.scan_token();
        proof {
            lemma_scan_progress(pre, self.scanner, tok);
        }
        match tok {
            Ok(t) => {
                self.current_token = t;
                Ok(())
            },
            Err(e) => Err(e),
        }
    }

    /// Step over any newline tokens.
    fn skip_newlines(&mut self) -> (r: ToonResult<()>)
        requires
            old(self).wf(),
        ensures
            final(self).wf(),
            final(self).text() == old(self).text(),
            final(self).opts() == old(self).opts(),
            final(self).measure() <= old(self).measure(),
            final(self).delim() == old(self).delim(),
            r is Ok ==> !(final(self).current_token is Newline),
            !(old(self).current_token is Newline) ==> *final(self) == *old(self) && r is Ok,
    {
        if !matches!(self.current_token, Token::Newline) {
            return Ok(());
        }
        while matches!(self.current_token, Token::Newline)
            invariant
                self.wf(),
                self.text() == old(self).text(),
                self.opts() == old(self).opts(),
                self.measure() <= old(self).measure(),
                self.delim() == old(self).delim(),
                old(self).current_token is Newline,
            decreases self.measure(),
        {
            proof {
                self.lemma_measure_nonneg();
            }
            match self.advance() {
                Ok(_) => (),
                Err(e) => {
                    return Err(e);
                },
            }
            proof {
                self.lemma_measure_nonneg();
            }
        }
        Ok(())
    }

    /// A parse error at the current position.
    fn fail(&self, message: &str) -> (r: ToonError)
        ensures
            r is ParseError,
    {
        let pos = self.scanner.current_position();
        ToonError::ParseError { line: pos.0, column: pos.1, message: owned_message(message) }
    }

    /// Parse one primitive scalar: a literal token, or a run of adjacent
    /// bare strings concatenated with single spaces.
    fn parse_primitive(&mut self) -> (r: ToonResult<Value>)
        requires
            old(self).wf(),
        ensures
            final(self).wf(),
            final(self).text() == old(self).text(),
            final(self).opts() == old(self).opts(),
            final(self).measure() <= old(self).measure(),
            final(self).delim() == old(self).delim(),
            r is Ok ==> final(self).measure() < old(self).measure(),
            r matches Ok(v) ==> crate::value::keys_unique(v),
            r matches Ok(v) ==> primitive_token_value(old(self).current_token, v)
                && v.spec_is_primitive(),
            !is_primitive_token(old(self).current_token) ==> (r matches Err(e) && e is ParseError),
            old(self).current_token matches Token::Str(st) ==> (r matches Ok(v) ==> (v matches
                Value::Str(out) && out@.len() >= st@.len() && out@.take(st@.len() as int)
                == st@)),
            old(self).at_end() && is_primitive_token(old(self).current_token) ==> r is Ok,
            old(self).at_end() ==> (old(self).current_token matches Token::Str(st) ==> (r matches
                Ok(v) && (v matches Value::Str(out) && out@ == st@))),
        decreases old(self).measure(), 1int,
    {
        match &self.current_token {
            Token::Null => {
                self.advance()?;
                Ok(Value::Null)
            },
            Token::Bool(b) => {
                let val = *b;
                self.advance()?;
                Ok(Value::Bool(val))
            },
            Token::Integer(i) => {
                let val = *i;
                self.advance()?;
                Ok(Value::Int(val))
            },
            Token::Float(t) => {
                let val = t.clone();
                self.advance()?;
                Ok(Value::Float(val))
            },
            Token::Str(s) => {
                let mut accumulated = s.clone();
                let ghost ftext = accumulated@;
                self.advance()?;
                loop
                    invariant
                        self.wf(),
                        self.text() == old(self).text(),
                        self.opts() == old(self).opts(),
                        self.measure() < old(self).measure(),
                        self.delim() == old(self).delim(),
                        old(self).current_token is Str,
                        accumulated@.len() >= ftext.len() && accumulated@.take(ftext.len() as int)
                            == ftext,
                        old(self).at_end() ==> accumulated@ == ftext && self.current_token is Eof,
                    decreases self.measure(),
                {
                    proof {
                        self.lemma_measure_nonneg();
                    }
                    let next_piece: Option<String> = match &self.current_token {
                        Token::Str(next) => Some(next.clone()),
                        _ => None,
                    };
                    match next_piece {
                        Some(next) => {
                            if accumulated.as_str().unicode_len() > 0 {
                                accumulated.append(" ");
                            }
                            accumulated.append(next.as_str());
                            self.advance()?;
                            proof {
                                self.lemma_measure_nonneg();
                            }
                        },
                        None => {
                            break ;
                        },
                    }
                }
                Ok(Value::Str(accumulated))
            },
            _ => Err(self.fail("Expected primitive value")),
        }
    }

    /// Parse the array length in a header: an integer token, or a string
    /// token that prefixes the digits with the length-marker character.
    fn parse_array_length(&mut self) -> (r: ToonResult<usize>)
        requires
            old(self).wf(),
        ensures
            final(self).wf(),
            final(self).text() == old(self).text(),
            final(self).opts() == old(self).opts(),
            final(self).measure() <= old(self).measure(),
            final(self).delim() == old(self).delim(),
            r is Ok ==> final(self).measure() < old(self).measure(),
            old(self).current_token matches Token::Integer(n) ==> (r matches Ok(len) ==> len as int
                == n),
            old(self).at_end() ==> (old(self).current_token matches Token::Integer(n) ==> (0 <= n
                <= usize::MAX ==> (r matches Ok(len) && len as int == n))),
            !(old(self).current_token is Integer || old(self).current_token is Str) ==> (r matches
                Err(e) && e is InvalidInput),
            old(self).current_token matches Token::Integer(n) ==> (0 <= n <= usize::MAX ==> ((r
                matches Ok(len) && len as int == n && scan_token_post(
                old(self).scanner,
                final(self).scanner,
                Ok(final(self).current_token),
            )) || (r matches Err(e) && scan_token_post(
                old(self).scanner,
                final(self).scanner,
                Err(e),
            )))),
    {
        let marked: Option<Vec<char>> = match &self.current_token {
            Token::Str(s) => {
                let chars = crate::chars::str_to_chars(s.as_str());
                if chars.len() > 0 && chars[0] == '#' {
                    Some(chars)
                } else {
                    None
                }
            },
            _ => None,
        };
        if let Some(chars) = marked {
            let n = chars.len();
            let parsed = crate::numbers::parse_dec_range(&chars, 1, n);
            self.advance()?;
            return match parsed {
                Some(v) if v <= usize::MAX as u64 => Ok(v as usize),
                _ => Err(ToonError::InvalidInput(owned_message("Invalid array length"))),
            };
        }
        match &self.current_token {
            Token::Integer(i) => {
                let val = *i;
                self.advance()?;
                if val >= 0 && val as u64 <= usize::MAX as u64 {
                    Ok(val as usize)
                } else {
                    Err(ToonError::InvalidInput(owned_message("Invalid array length")))
                }
            },
            _ => Err(ToonError::InvalidInput(owned_message("Expected array length"))),
        }
    }

    /// Whether the lookahead is a delimiter-shaped token, as either a
    /// delimiter token or a one-character string.
    fn current_delimiter_like(&self) -> (r: Option<Delimiter>)
        ensures
            r == delim_like(self.current_token),
            r is Some ==> !(self.current_token is Eof),
    {
        match &self.current_token {
            Token::Delim(d) => Some(*d),
            Token::Str(s) => {
                let chars = crate::chars::str_to_chars(s.as_str());
                if chars.len() == 1 {
                    let c = chars[0];
                    let r = Delimiter::from_char(c);
                    proof {
                        assert(s@ =~= seq![c]);
                        match r {
                            Some(d) => {
                                assert(d.spec_as_char() == c);
                                assert(r == delim_like(self.current_token));
                            },
                            None => {
                                assert(s@ != seq![','] && s@ != seq!['|'] && s@ != seq!['\t']);
                            },
                        }
                    }
                    r
                } else {
                    proof {
                        assert(s@.len() != 1);
                        assert(s@ != seq![','] && s@ != seq!['|'] && s@ != seq!['\t']);
                    }
                    None
                }
            },
            _ => None,
        }
    }

    /// A copy of the lookahead's text when it is a string token.
    fn current_str(&self) -> (r: Option<String>)
        ensures
            match r {
                Some(sv) => self.current_token matches Token::Str(t) && t@ == sv@,
                None => !(self.current_token is Str),
            },
            r is Some ==> !(self.current_token is Eof),
    {
        match &self.current_token {
            Token::Str(s) => Some(s.clone()),
            _ => None,
        }
    }

    /// If a delimiter character stands in the header, consume it, and make
    /// it the document's active delimiter when none was pinned yet.
    fn detect_or_consume_delimiter(&mut self) -> (r: ToonResult<()>)
        requires
            old(self).wf(),
        ensures
            final(self).wf(),
            final(self).text() == old(self).text(),
            final(self).opts() == old(self).opts(),
            final(self).measure() <= old(self).measure(),
            old(self).delim() is Some ==> final(self).delim() == old(self).delim(),
            old(self).delim() is None ==> final(self).delim() == delim_like(
                old(self).current_token,
            ),
            r is Ok ==> final(self).active() == final(self).delim(),
            delim_like(old(self).current_token) is None ==> final(self).current_token == old(
                self,
            ).current_token && r is Ok && final(self).spos() == old(self).spos(),
    {
        if let Some(d) = self.current_delimiter_like() {
            if self.delimiter.is_none() {
                self.delimiter = Some(d);
            }
            self.advance()?;
        }
        self.scanner.set_active_delimiter(self.delimiter);
        Ok(())
    }

    /// Parse the brace-wrapped field list of a tabular header. Field names
    /// may not be empty in strict mode.
    fn parse_field_list(&mut self) -> (r: ToonResult<Vec<String>>)
        requires
            old(self).wf(),
        ensures
            final(self).wf(),
            final(self).text() == old(self).text(),
            final(self).opts() == old(self).opts(),
            final(self).measure() <= old(self).measure(),
            final(self).delim() == old(self).delim(),
            old(self).opts().strict ==> (r matches Ok(fields) ==> forall|j: int|
                0 <= j < fields@.len() ==> (#[trigger] fields@[j])@.len() > 0),
            !(old(self).current_token is LeftBrace) ==> (r matches Err(e) && e is InvalidInput),
    {
        if !matches!(self.current_token, Token::LeftBrace) {
            return Err(ToonError::InvalidInput(owned_message("Expected '{'")));
        }
        self.advance()?;
        let mut fields: Vec<String> = Vec::new();
        loop
            invariant
                self.wf(),
                self.text() == old(self).text(),
                self.opts() == old(self).opts(),
                self.measure() <= old(self).measure(),
                self.delim() == old(self).delim(),
                old(self).current_token is LeftBrace,
                self.opts().strict ==> forall|j: int|
                    0 <= j < fields@.len() ==> (#[trigger] fields@[j])@.len() > 0,
            decreases self.measure(),
        {
            proof {
                self.lemma_measure_nonneg();
            }
            let name: Option<String> = self.current_str();
            match name {
                Some(s) => {
                    if self.options.strict {
                        crate::validation::validate_field_name(s.as_str())?;
                    }
                    fields.push(s);
                    self.advance()?;
                    proof {
                        self.lemma_measure_nonneg();
                    }
                    if matches!(self.current_token, Token::Delim(_)) {
                        self.advance()?;
                    } else if matches!(self.current_token, Token::RightBrace) {
                        break ;
                    }
                },
                None => {
                    if matches!(self.current_token, Token::RightBrace) {
                        break ;
                    }
                    return Err(ToonError::InvalidInput(owned_message("Expected field name")));
                },
            }
        }
        if !matches!(self.current_token, Token::RightBrace) {
            return Err(ToonError::InvalidInput(owned_message("Expected '}'")));
        }
        self.advance()?;
        Ok(fields)
    }

    /// Parse the inline body of a primitive array and hold the element
    /// count against the declared length in strict mode.
    fn parse_primitive_array(&mut self, length: usize) -> (r: ToonResult<Value>)
        requires
            old(self).wf(),
        ensures
            final(self).wf(),
            final(self).text() == old(self).text(),
            final(self).opts() == old(self).opts(),
            final(self).measure() <= old(self).measure(),
            final(self).delim() == old(self).delim(),
            r matches Ok(v) ==> crate::value::keys_unique(v),
            r matches Ok(v) ==> (v matches Value::Array(elems) && (old(self).opts().strict
                ==> elems@.len() == length) && forall|j: int|
                0 <= j < elems@.len() ==> (#[trigger] elems@[j]).spec_is_primitive()),
            !is_primitive_token(old(self).current_token) ==> (r matches Err(e) && e is ParseError),
    {
        let mut values: Vec<Value> = Vec::new();
        let first = self.parse_primitive()?;
        values.push(first);
        loop
            invariant
                self.wf(),
                self.text() == old(self).text(),
                self.opts() == old(self).opts(),
                self.measure() <= old(self).measure(),
                self.delim() == old(self).delim(),
                values@.len() >= 1,
                is_primitive_token(old(self).current_token),
                forall|j: int|
                    0 <= j < values@.len() ==> crate::value::keys_unique(#[trigger] values@[j]),
                forall|j: int|
                    0 <= j < values@.len() ==> (#[trigger] values@[j]).spec_is_primitive(),
            decreases self.measure(),
        {
            proof {
                self.lemma_measure_nonneg();
            }
            let is_sep = match self.current_delimiter_like() {
                Some(_) => true,
                None => false,
            };
            if !is_sep {
                break ;
            }
            self.advance()?;
            let v = self.parse_primitive()?;
            values.push(v);
        }
        if self.options.strict && values.len() != length {
            return Err(ToonError::LengthMismatch { expected: length, found: values.len() });
        }
        Ok(Value::Array(values))
    }

    /// Parse the rows of a tabular array: one line per row, each holding
    /// exactly the header's fields in order; in strict mode, running out of
    /// input before the declared row count is a length mismatch.
    fn parse_tabular_array(&mut self, length: usize, fields: Vec<String>) -> (r: ToonResult<Value>)
        requires
            old(self).wf(),
        ensures
            final(self).wf(),
            final(self).text() == old(self).text(),
            final(self).opts() == old(self).opts(),
            final(self).measure() <= old(self).measure(),
            old(self).delim() is Some ==> final(self).delim() == old(self).delim(),
            r matches Ok(v) ==> crate::value::keys_unique(v),
            r matches Ok(v) ==> (v matches Value::Array(rows) && (old(self).opts().strict
                ==> rows@.len() == length) && forall|j: int|
                0 <= j < rows@.len() ==> (#[trigger] rows@[j]) is Object),
            fields_distinct(fields@) ==> (r matches Ok(v) ==> (v matches Value::Array(rows)
                && forall|j: int|
                0 <= j < rows@.len() ==> crate::encode::keys_of(
                    crate::encode::obj_fields(#[trigger] rows@[j]),
                ) == crate::writer::strs_view(fields@))),
    {
        let mut rows: Vec<Value> = Vec::new();
        self.skip_newlines()?;
        let delim = self.delimiter;
        self.scanner.set_active_delimiter(delim);
        let mut i: usize = 0;
        while i < length
            invariant
                self.wf(),
                self.text() == old(self).text(),
                self.opts() == old(self).opts(),
                self.measure() <= old(self).measure(),
                old(self).delim() is Some ==> self.delim() == old(self).delim(),
                i <= length,
                rows@.len() == i,
                forall|j: int|
                    0 <= j < rows@.len() ==> crate::value::keys_unique(#[trigger] rows@[j]),
                forall|j: int| 0 <= j < rows@.len() ==> (#[trigger] rows@[j]) is Object,
                fields_distinct(fields@) ==> forall|j: int|
                    0 <= j < rows@.len() ==> crate::encode::keys_of(
                        crate::encode::obj_fields(#[trigger] rows@[j]),
                    ) == crate::writer::strs_view(fields@),
            decreases length - i,
        {
            if matches!(self.current_token, Token::Eof) {
                if self.options.strict {
                    return Err(ToonError::LengthMismatch { expected: length, found: i });
                }
                return Ok(Value::Array(rows));
            }
            let mut row: Vec<(String, Value)> = Vec::new();
            let m = fields.len();
            let mut j: usize = 0;
            while j < m
                invariant
                    self.wf(),
                    self.text() == old(self).text(),
                    self.opts() == old(self).opts(),
                    self.measure() <= old(self).measure(),
                    old(self).delim() is Some ==> self.delim() == old(self).delim(),
                    j <= m == fields@.len(),
                    crate::value::entries_wf(row@),
                    fields_distinct(fields@) ==> crate::encode::keys_of(row@)
                        == crate::writer::strs_view(fields@).take(j as int),
                decreases m - j,
            {
                if j > 0 {
                    let is_sep = match self.current_delimiter_like() {
                        Some(_) => true,
                        None => false,
                    };
                    if !is_sep {
                        return Err(self.fail("Expected delimiter"));
                    }
                    self.advance()?;
                }
                let v = self.parse_primitive()?;
                let ghost row0 = row@;
                obj_insert(&mut row, fields[j].clone(), v);
                proof {
                    if fields_distinct(fields@) {
                        let sv = crate::writer::strs_view(fields@);
                        assert(crate::encode::keys_of(row0) == sv.take(j as int));
                        assert forall|t: int| 0 <= t < row0.len() implies (#[trigger] row0[t]).0@
                            != fields@[j as int]@ by {
                            assert(crate::encode::keys_of(row0)[t] == row0[t].0@);
                            assert(sv.take(j as int)[t] == fields@[t]@);
                        }
                        if row@.len() == row0.len() {
                            let w = choose|w: int|
                                0 <= w < row@.len() && (#[trigger] row@[w]).0@ == fields@[j as int]@
                                    && row@[w].1 == v;
                            assert(row@[w].0@ == row0[w].0@);
                            assert(false);
                        }
                        assert(row@.len() == row0.len() + 1);
                        assert(row@[row0.len() as int].0@ == fields@[j as int]@);
                        assert(crate::encode::keys_of(row@) =~= sv.take(j + 1));
                    }
                }
                j = j + 1;
            }
            proof {
                if fields_distinct(fields@) {
                    assert(crate::writer::strs_view(fields@).take(m as int)
                        =~= crate::writer::strs_view(fields@));
                }
            }
            let ghost rowv = row@;
            rows.push(Value::Object(row));
            self.skip_newlines()?;
            i = i + 1;
            proof {
                assert(forall|j: int|
                    0 <= j < rows@.len() ==> crate::value::keys_unique(#[trigger] rows@[j]));
                assert(forall|j: int| 0 <= j < rows@.len() ==> (#[trigger] rows@[j]) is Object);
                if fields_distinct(fields@) {
                    assert(crate::encode::obj_fields(rows@[rows@.len() - 1]) == rowv);
                    assert(crate::encode::keys_of(rowv) == crate::writer::strs_view(fields@));
                }
            }
        }
        Ok(Value::Array(rows))
    }
}

impl Parser {
    /// Parse the dash-introduced elements of a nested-list array; in strict
    /// mode, running out of input before the declared count is a length
    /// mismatch.
    fn parse_nested_array(&mut self, length: usize, depth: usize) -> (r: ToonResult<Value>)
        requires
            old(self).wf(),
            depth <= MAX_DEPTH,
        ensures
            final(self).wf(),
            final(self).text() == old(self).text(),
            final(self).opts() == old(self).opts(),
            final(self).measure() <= old(self).measure(),
            old(self).delim() is Some ==> final(self).delim() == old(self).delim(),
            r matches Ok(v) ==> crate::value::keys_unique(v),
            r matches Ok(v) ==> (v matches Value::Array(items) && (old(self).opts().strict
                ==> items@.len() == length)),
            length == 0 ==> (r matches Ok(v) && (v matches Value::Array(items) && items@.len()
                == 0)),
            length > 0 && !(old(self).current_token is Dash || old(self).current_token is Eof)
                ==> (r matches Err(e) && e is ParseError),
        decreases MAX_DEPTH + 2 - depth, 2int,
    {
        let mut items: Vec<Value> = Vec::new();
        let mut i: usize = 0;
        while i < length
            invariant
                self.wf(),
                self.text() == old(self).text(),
                self.opts() == old(self).opts(),
                self.measure() <= old(self).measure(),
                old(self).delim() is Some ==> self.delim() == old(self).delim(),
                i <= length,
                items@.len() == i,
                depth <= MAX_DEPTH,
                length > 0 && !(old(self).current_token is Dash || old(self).current_token
                    is Eof) ==> i == 0 && self.current_token == old(self).current_token,
                forall|j: int|
                    0 <= j < items@.len() ==> crate::value::keys_unique(#[trigger] items@[j]),
            decreases length - i,
        {
            if matches!(self.current_token, Token::Eof) {
                if self.options.strict {
                    return Err(ToonError::LengthMismatch { expected: length, found: i });
                }
                return Ok(Value::Array(items));
            }
            if !matches!(self.current_token, Token::Dash) {
                return Err(self.fail("Expected '-'"));
            }
            self.advance()?;
            let value = self.parse_field_value(depth + 1)?;
            items.push(value);
            self.skip_newlines()?;
            i = i + 1;
        }
        Ok(Value::Array(items))
    }

    /// Parse the body of a non-tabular array: a dash begins a nested list,
    /// anything else an inline primitive array.
    fn parse_regular_array(&mut self, length: usize, depth: usize) -> (r: ToonResult<Value>)
        requires
            old(self).wf(),
            depth <= MAX_DEPTH,
        ensures
            final(self).wf(),
            final(self).text() == old(self).text(),
            final(self).opts() == old(self).opts(),
            final(self).measure() <= old(self).measure(),
            old(self).delim() is Some ==> final(self).delim() == old(self).delim(),
            r matches Ok(v) ==> crate::value::keys_unique(v),
            r matches Ok(v) ==> (v matches Value::Array(items) && (old(self).opts().strict
                ==> items@.len() == length)),
        decreases MAX_DEPTH + 2 - depth, 3int,
    {
        self.skip_newlines()?;
        let delim = self.delimiter;
        self.scanner.set_active_delimiter(delim);
        if matches!(self.current_token, Token::Dash) {
            self.parse_nested_array(length, depth)
        } else {
            self.parse_primitive_array(length)
        }
    }

    /// Parse a whole array from its header: the bracketed length with an
    /// optional marker and delimiter, an optional field list committing to
    /// tabular form, the colon, and then the body. An empty declared length
    /// ends at the header.
    fn parse_array(&mut self, depth: usize) -> (r: ToonResult<Value>)
        requires
            old(self).wf(),
            depth <= MAX_DEPTH + 1,
        ensures
            final(self).wf(),
            final(self).text() == old(self).text(),
            final(self).opts() == old(self).opts(),
            final(self).measure() <= old(self).measure(),
            old(self).delim() is Some ==> final(self).delim() == old(self).delim(),
            r matches Ok(v) ==> crate::value::keys_unique(v),
            r matches Ok(v) ==> v is Array,
            depth > MAX_DEPTH ==> (r matches Err(e) && e is InvalidStructure),
            depth <= MAX_DEPTH && !(old(self).current_token is LeftBracket) ==> (r matches Err(e)
                && e is InvalidInput),
            depth <= MAX_DEPTH && old(self).current_token is LeftBracket && old(self).spos() + 3
                == old(self).text().len() && old(self).text()[old(self).spos()] == '0' && old(
                self,
            ).text()[old(self).spos() + 1] == ']' && old(self).text()[old(self).spos() + 2] == ':'
                ==> (r matches Ok(v) && (v matches Value::Array(elems) && elems@.len() == 0)
                && final(self).cur() is Eof),
        decreases MAX_DEPTH + 2 - depth, 4int,
    {
        let ghost s = self.text();
        let ghost p0 = self.spos();
        let ghost zero_header = depth <= MAX_DEPTH && self.current_token is LeftBracket && p0 + 3
            == s.len() && s[p0] == '0' && s[p0 + 1] == ']' && s[p0 + 2] == ':';
        if depth > MAX_DEPTH {
            return Err(
                ToonError::InvalidStructure(
                    owned_message("Maximum nesting depth of 256 exceeded"),
                ),
            );
        }
        if !matches!(self.current_token, Token::LeftBracket) {
            return Err(ToonError::InvalidInput(owned_message("Expected '['")));
        }
        let ghost sc0 = self.scanner;
        let step = self.advance();
        let ghost gstep = step;
        proof {
            if zero_header {
                assert(!crate::quoting::is_num_char(s[p0 + 1]));
                match gstep {
                    Ok(_) => {
                        crate::scanner::lemma_scan_of_zero_window(
                            sc0,
                            self.scanner,
                            Ok(self.current_token),
                        );
                    },
                    Err(e) => {
                        crate::scanner::lemma_scan_of_zero_window(sc0, self.scanner, Err(e));
                    },
                }
            }
        }
        step?;
        proof {
            if zero_header {
                assert(self.current_token matches Token::Integer(x) && x == 0);
                assert(self.spos() == p0 + 1);
            }
        }
        let ghost sc1 = self.scanner;
        let len_step = self.parse_array_length();
        let ghost glen_step = len_step;
        proof {
            if zero_header {
                match glen_step {
                    Ok(_) => {
                        assert(scan_token_post(sc1, self.scanner, Ok(self.current_token)));
                        assert(crate::scanner::skip_spaces_idx(s, p0 + 1) == p0 + 1);
                        assert(self.current_token is RightBracket);
                        assert(self.spos() == p0 + 2);
                    },
                    Err(e) => {
                        assert(scan_token_post(sc1, self.scanner, Err(e)));
                        assert(crate::scanner::skip_spaces_idx(s, p0 + 1) == p0 + 1);
                        assert(false);
                    },
                }
            }
        }
        let length = len_step?;
        proof {
            if zero_header {
                assert(length == 0);
            }
        }
        self.detect_or_consume_delimiter()?;
        proof {
            if zero_header {
                assert(self.current_token is RightBracket);
                assert(self.spos() == p0 + 2);
            }
        }
        if !matches!(self.current_token, Token::RightBracket) {
            return Err(ToonError::InvalidInput(owned_message("Expected ']'")));
        }
        let ghost sc2 = self.scanner;
        let step2 = self.advance();
        let ghost gstep2 = step2;
        proof {
            if zero_header {
                match gstep2 {
                    Ok(_) => {
                        assert(scan_token_post(sc2, self.scanner, Ok(self.current_token)));
                        assert(crate::scanner::skip_spaces_idx(s, p0 + 2) == p0 + 2);
                        assert(self.current_token is Colon);
                        assert(self.spos() == p0 + 3);
                    },
                    Err(e) => {
                        assert(scan_token_post(sc2, self.scanner, Err(e)));
                        assert(crate::scanner::skip_spaces_idx(s, p0 + 2) == p0 + 2);
                        assert(false);
                    },
                }
            }
        }
        step2?;
        if self.delimiter.is_none() {
            self.delimiter = Some(Delimiter::Comma);
        }
        let delim = self.delimiter;
        self.scanner.set_active_delimiter(delim);
        let fields: Option<Vec<String>> = if matches!(self.current_token, Token::LeftBrace) {
            Some(self.parse_field_list()?)
        } else {
            None
        };
        if !matches!(self.current_token, Token::Colon) {
            return Err(ToonError::InvalidInput(owned_message("Expected ':'")));
        }
        let ghost sc3 = self.scanner;
        let step3 = self.advance();
        let ghost gstep3 = step3;
        proof {
            if zero_header {
                assert(sc3.pos() == p0 + 3 == s.len());
                match gstep3 {
                    Ok(_) => {
                        assert(scan_token_post(sc3, self.scanner, Ok(self.current_token)));
                        assert(crate::scanner::skip_spaces_idx(s, p0 + 3) == p0 + 3);
                        assert(self.current_token is Eof);
                    },
                    Err(e) => {
                        assert(scan_token_post(sc3, self.scanner, Err(e)));
                        assert(crate::scanner::skip_spaces_idx(s, p0 + 3) == p0 + 3);
                        assert(false);
                    },
                }
            }
        }
        step3?;
        if length == 0 {
            return Ok(Value::Array(Vec::new()));
        }
        match fields {
            Some(f) => self.parse_tabular_array(length, f),
            None => self.parse_regular_array(length, depth),
        }
    }

    /// Parse the value standing after a key's colon: same-line content is a
    /// primitive scalar, a line break opens an indented object one level
    /// deeper.
    fn parse_field_value(&mut self, depth: usize) -> (r: ToonResult<Value>)
        requires
            old(self).wf(),
            depth <= MAX_DEPTH + 1,
        ensures
            final(self).wf(),
            final(self).text() == old(self).text(),
            final(self).opts() == old(self).opts(),
            final(self).measure() <= old(self).measure(),
            old(self).delim() is Some ==> final(self).delim() == old(self).delim(),
            r matches Ok(v) ==> crate::value::keys_unique(v),
        decreases MAX_DEPTH + 2 - depth, 7int,
    {
        if matches!(self.current_token, Token::Newline) {
            self.parse_indented_object(depth)
        } else {
            self.parse_primitive()
        }
    }

    /// Parse the entries of an indented object, ending when the indentation
    /// returns to the left margin or the input ends.
    fn parse_indented_object(&mut self, depth: usize) -> (r: ToonResult<Value>)
        requires
            old(self).wf(),
            depth <= MAX_DEPTH + 1,
        ensures
            final(self).wf(),
            final(self).text() == old(self).text(),
            final(self).opts() == old(self).opts(),
            final(self).measure() <= old(self).measure(),
            old(self).delim() is Some ==> final(self).delim() == old(self).delim(),
            r matches Ok(v) ==> crate::value::keys_unique(v),
            r matches Ok(v) ==> v is Object,
            depth > MAX_DEPTH ==> (r matches Err(e) && e is InvalidStructure),
            depth <= MAX_DEPTH && !(old(self).current_token is Newline) && (old(
                self,
            ).indent_level() == 0 || old(self).current_token is Eof) ==> (r matches Ok(v) && (v
                matches Value::Object(o) && o@.len() == 0)),
            depth <= MAX_DEPTH && !(old(self).current_token is Str || old(self).current_token
                is Newline || old(self).current_token is Eof) && old(self).indent_level() != 0
                ==> (r matches Err(e) && e is InvalidInput),
        decreases MAX_DEPTH + 2 - depth, 6int,
    {
        if depth > MAX_DEPTH {
            return Err(
                ToonError::InvalidStructure(
                    owned_message("Maximum nesting depth of 256 exceeded"),
                ),
            );
        }
        let mut obj: Vec<(String, Value)> = Vec::new();
        loop
            invariant
                self.wf(),
                self.text() == old(self).text(),
                self.opts() == old(self).opts(),
                self.measure() <= old(self).measure(),
                old(self).delim() is Some ==> self.delim() == old(self).delim(),
                depth <= MAX_DEPTH,
                crate::value::entries_wf(obj@),
                !(old(self).current_token is Newline) && (old(self).indent_level() == 0 || old(
                    self,
                ).current_token is Eof) ==> obj@.len() == 0 && *self == *old(self),
                !(old(self).current_token is Str || old(self).current_token is Newline || old(
                    self,
                ).current_token is Eof) && old(self).indent_level() != 0 ==> obj@.len() == 0
                    && *self == *old(self),
            decreases self.measure(),
        {
            self.skip_newlines()?;
            if self.scanner.get_last_line_indent() == 0 || matches!(
                self.current_token,
                Token::Eof,
            ) {
                return Ok(Value::Object(obj));
            }
            let key = match self.current_str() {
                Some(s) => s,
                None => {
                    return Err(ToonError::InvalidInput(owned_message("Expected key")));
                },
            };
            self.advance()?;
            let value = if matches!(self.current_token, Token::LeftBracket) {
                self.parse_array(depth + 1)?
            } else {
                if !matches!(self.current_token, Token::Colon) {
                    return Err(ToonError::InvalidInput(owned_message("Expected ':' or '['")));
                }
                self.advance()?;
                self.parse_field_value(depth + 1)?
            };
            obj_insert(&mut obj, key, value);
            self.skip_newlines()?;
        }
    }

    /// Parse a root-level object: `key: value` and `key[header]` lines at
    /// one consistent indentation level, fixed by the first entry.
    fn parse_object(&mut self, depth: usize) -> (r: ToonResult<Value>)
        requires
            old(self).wf(),
            depth <= MAX_DEPTH + 1,
        ensures
            final(self).wf(),
            final(self).text() == old(self).text(),
            final(self).opts() == old(self).opts(),
            final(self).measure() <= old(self).measure(),
            old(self).delim() is Some ==> final(self).delim() == old(self).delim(),
            r matches Ok(v) ==> crate::value::keys_unique(v),
            r matches Ok(v) ==> v is Object,
            depth > MAX_DEPTH ==> (r matches Err(e) && e is InvalidStructure),
            depth <= MAX_DEPTH && old(self).current_token is Eof ==> (r matches Ok(v) && (v
                matches Value::Object(o) && o@.len() == 0)),
            depth <= MAX_DEPTH && !(old(self).current_token is Str || old(self).current_token
                is Newline || old(self).current_token is Eof) ==> (r matches Err(e) && e
                is InvalidInput),
        decreases MAX_DEPTH + 2 - depth, 8int,
    {
        if depth > MAX_DEPTH {
            return Err(
                ToonError::InvalidStructure(
                    owned_message("Maximum nesting depth of 256 exceeded"),
                ),
            );
        }
        let mut obj: Vec<(String, Value)> = Vec::new();
        let mut base_indent: Option<usize> = None;
        loop
            invariant
                self.wf(),
                self.text() == old(self).text(),
                self.opts() == old(self).opts(),
                self.measure() <= old(self).measure(),
                old(self).delim() is Some ==> self.delim() == old(self).delim(),
                depth <= MAX_DEPTH,
                crate::value::entries_wf(obj@),
                old(self).current_token is Eof ==> obj@.len() == 0 && self.current_token == old(
                    self,
                ).current_token,
                !(old(self).current_token is Str || old(self).current_token is Newline || old(
                    self,
                ).current_token is Eof) ==> obj@.len() == 0 && *self == *old(self) && base_indent
                    is None,
            decreases self.measure(),
        {
            self.skip_newlines()?;
            if matches!(self.current_token, Token::Eof) {
                return Ok(Value::Object(obj));
            }
            let current_indent = self.scanner.get_last_line_indent();
            match base_indent {
                Some(expected) => {
                    if current_indent != expected {
                        return Ok(Value::Object(obj));
                    }
                },
                None => {
                    base_indent = Some(current_indent);
                },
            }
            let key = match self.current_str() {
                Some(s) => s,
                None => {
                    return Err(ToonError::InvalidInput(owned_message("Expected key")));
                },
            };
            self.advance()?;
            let value = if matches!(self.current_token, Token::LeftBracket) {
                self.parse_array(depth + 1)?
            } else {
                if !matches!(self.current_token, Token::Colon) {
                    return Err(ToonError::InvalidInput(owned_message("Expected ':' or '['")));
                }
                self.advance()?;
                self.parse_field_value(depth + 1)?
            };
            obj_insert(&mut obj, key, value);
        }
    }

    /// Parse an object whose first key was already consumed as a root
    /// scalar candidate.
    fn parse_object_with_initial_key(&mut self, key: String, depth: usize) -> (r: ToonResult<
        Value,
    >)
        requires
            old(self).wf(),
            depth <= MAX_DEPTH + 1,
        ensures
            final(self).wf(),
            final(self).text() == old(self).text(),
            final(self).opts() == old(self).opts(),
            final(self).measure() <= old(self).measure(),
            old(self).delim() is Some ==> final(self).delim() == old(self).delim(),
            r matches Ok(v) ==> crate::value::keys_unique(v),
            r matches Ok(v) ==> (v matches Value::Object(o) && o@.len() >= 1 && o@[0].0@ == key@),
            depth > MAX_DEPTH ==> (r matches Err(e) && e is InvalidStructure),
            depth <= MAX_DEPTH && !(old(self).current_token is LeftBracket || old(
                self,
            ).current_token is Colon) ==> (r matches Err(e) && e is InvalidInput),
            depth < MAX_DEPTH && old(self).current_token is LeftBracket && old(self).spos() + 3
                == old(self).text().len() && old(self).text()[old(self).spos()] == '0' && old(
                self,
            ).text()[old(self).spos() + 1] == ']' && old(self).text()[old(self).spos() + 2] == ':'
                ==> (r matches Ok(v) && (v matches Value::Object(o) && o@.len() == 1 && o@[0].0@
                == key@ && (o@[0].1 matches Value::Array(elems) && elems@.len() == 0))),
        decreases MAX_DEPTH + 2 - depth, 8int,
    {
        let ghost zh = depth < MAX_DEPTH && self.current_token is LeftBracket && self.spos() + 3
            == self.text().len() && self.text()[self.spos()] == '0' && self.text()[self.spos()
            + 1] == ']' && self.text()[self.spos() + 2] == ':';
        if depth > MAX_DEPTH {
            return Err(
                ToonError::InvalidStructure(
                    owned_message("Maximum nesting depth of 256 exceeded"),
                ),
            );
        }
        let mut obj: Vec<(String, Value)> = Vec::new();
        let value = if matches!(self.current_token, Token::LeftBracket) {
            self.parse_array(depth + 1)?
        } else {
            proof {
                assert(!zh);
            }
            if !matches!(self.current_token, Token::Colon) {
                return Err(ToonError::InvalidInput(owned_message("Expected ':' or '['")));
            }
            self.advance()?;
            self.parse_field_value(depth + 1)?
        };
        proof {
            if zh {
                assert(value matches Value::Array(elems) && elems@.len() == 0);
                assert(self.current_token is Eof);
            }
        }
        let ghost keyview = key@;
        let ghost val0 = value;
        obj_insert(&mut obj, key, value);
        proof {
            assert(obj@.len() >= 1 && obj@[0].0@ == keyview);
            if zh {
                assert(obj@.len() == 1);
                assert(obj@[0].1 == val0);
            }
        }
        self.skip_newlines()?;
        loop
            invariant
                self.wf(),
                self.text() == old(self).text(),
                self.opts() == old(self).opts(),
                self.measure() <= old(self).measure(),
                old(self).delim() is Some ==> self.delim() == old(self).delim(),
                depth <= MAX_DEPTH,
                crate::value::entries_wf(obj@),
                obj@.len() >= 1 && obj@[0].0@ == keyview,
                old(self).current_token is LeftBracket || old(self).current_token is Colon,
                zh == (depth < MAX_DEPTH && old(self).current_token is LeftBracket && old(
                    self,
                ).spos() + 3 == old(self).text().len() && old(self).text()[old(self).spos()]
                    == '0' && old(self).text()[old(self).spos() + 1] == ']' && old(self).text()[old(
                    self,
                ).spos() + 2] == ':'),
                zh ==> obj@.len() == 1 && (obj@[0].1 matches Value::Array(elems) && elems@.len()
                    == 0) && self.current_token is Eof,
            decreases self.measure(),
        {
            if matches!(self.current_token, Token::Eof) {
                break ;
            }
            let next_key = match self.current_str() {
                Some(s) => s,
                None => {
                    break ;
                },
            };
            self.advance()?;
            let next_value = if matches!(self.current_token, Token::LeftBracket) {
                self.parse_array(depth + 1)?
            } else {
                if !matches!(self.current_token, Token::Colon) {
                    break ;
                }
                self.advance()?;
                self.parse_field_value(depth + 1)?
            };
            obj_insert(&mut obj, next_key, next_value);
            self.skip_newlines()?;
        }
        Ok(Value::Object(obj))
    }

    /// Parse a root-level array.
    fn parse_root_array(&mut self, depth: usize) -> (r: ToonResult<Value>)
        requires
            old(self).wf(),
            depth <= MAX_DEPTH + 1,
        ensures
            final(self).wf(),
            final(self).text() == old(self).text(),
            final(self).opts() == old(self).opts(),
            final(self).measure() <= old(self).measure(),
            old(self).delim() is Some ==> final(self).delim() == old(self).delim(),
            r matches Ok(v) ==> crate::value::keys_unique(v),
            r matches Ok(v) ==> v is Array,
            depth <= MAX_DEPTH && old(self).current_token is LeftBracket && old(self).spos() + 3
                == old(self).text().len() && old(self).text()[old(self).spos()] == '0' && old(
                self,
            ).text()[old(self).spos() + 1] == ']' && old(self).text()[old(self).spos() + 2] == ':'
                ==> (r matches Ok(v) && (v matches Value::Array(elems) && elems@.len() == 0)),
        decreases MAX_DEPTH + 2 - depth, 5int,
    {
        self.parse_array(depth)
    }

    /// Parse one document value: a scalar, a bare multi-word string, an
    /// object, or a root-level array header; an empty document is null.
    fn parse_value(&mut self, depth: usize) -> (r: ToonResult<Value>)
        requires
            old(self).wf(),
            depth <= MAX_DEPTH + 1,
        ensures
            final(self).wf(),
            final(self).text() == old(self).text(),
            final(self).opts() == old(self).opts(),
            final(self).measure() <= old(self).measure(),
            r matches Ok(v) ==> crate::value::keys_unique(v),
            old(self).current_token is Eof ==> r == Ok::<Value, ToonError>(Value::Null),
            old(self).current_token is Null && old(self).at_end() ==> r == Ok::<
                Value,
                ToonError,
            >(Value::Null),
            old(self).at_end() ==> (old(self).current_token matches Token::Bool(b) ==> r == Ok::<
                Value,
                ToonError,
            >(Value::Bool(b))),
            old(self).at_end() ==> (old(self).current_token matches Token::Integer(x) ==> r
                == Ok::<Value, ToonError>(Value::Int(x))),
            old(self).at_end() ==> (old(self).current_token matches Token::Float(t) ==> (r matches
                Ok(v) && (v matches Value::Float(ft) && ft@ == t@))),
            old(self).at_end() ==> (old(self).current_token matches Token::Str(st) ==> (r matches
                Ok(v) && (v matches Value::Str(out) && out@ == st@))),
            old(self).delim() is Some ==> final(self).delim() == old(self).delim(),
            depth < MAX_DEPTH && old(self).spos() + 4 == old(self).text().len() && old(
                self,
            ).text()[old(self).spos()] == '[' && old(self).text()[old(self).spos() + 1] == '0'
                && old(self).text()[old(self).spos() + 2] == ']' && old(self).text()[old(
                self,
            ).spos() + 3] == ':' ==> (old(self).current_token matches Token::Str(st) ==> (r
                matches Ok(v) && (v matches Value::Object(o) && o@.len() == 1 && o@[0].0@ == st@
                && (o@[0].1 matches Value::Array(elems) && elems@.len() == 0)))),
            depth <= MAX_DEPTH && old(self).current_token is LeftBracket && old(self).spos() + 3
                == old(self).text().len() && old(self).text()[old(self).spos()] == '0' && old(
                self,
            ).text()[old(self).spos() + 1] == ']' && old(self).text()[old(self).spos() + 2] == ':'
                ==> (r matches Ok(v) && (v matches Value::Array(elems) && elems@.len() == 0)),
        decreases MAX_DEPTH + 2 - depth, 9int,
    {
        let ghost kv = depth < MAX_DEPTH && self.current_token is Str && self.spos() + 4
            == self.text().len() && self.text()[self.spos()] == '[' && self.text()[self.spos()
            + 1] == '0' && self.text()[self.spos() + 2] == ']' && self.text()[self.spos() + 3]
            == ':';
        self.skip_newlines()?;
        match &self.current_token {
            Token::Null => {
                self.advance()?;
                Ok(Value::Null)
            },
            Token::Bool(b) => {
                let val = *b;
                self.advance()?;
                Ok(Value::Bool(val))
            },
            Token::Integer(i) => {
                let val = *i;
                self.advance()?;
                Ok(Value::Int(val))
            },
            Token::Float(t) => {
                let val = t.clone();
                self.advance()?;
                Ok(Value::Float(val))
            },
            Token::Str(s) => {
                let first = s.clone();
                let ghost ftext = first@;
                let ghost sc0 = self.scanner;
                let step = self.advance();
                let ghost gstep = step;
                proof {
                    if kv {
                        let t = self.text();
                        let p1 = sc0.pos();
                        match gstep {
                            Ok(_) => {
                                assert(scan_token_post(sc0, self.scanner, Ok(self.current_token)));
                                assert(crate::scanner::skip_spaces_idx(t, p1) == p1);
                                assert(self.current_token is LeftBracket);
                                assert(self.spos() == p1 + 1);
                            },
                            Err(e) => {
                                assert(scan_token_post(sc0, self.scanner, Err(e)));
                                assert(crate::scanner::skip_spaces_idx(t, p1) == p1);
                                assert(false);
                            },
                        }
                    }
                }
                step?;
                if matches!(self.current_token, Token::Colon) || matches!(
                    self.current_token,
                    Token::LeftBracket,
                ) {
                    return self.parse_object_with_initial_key(first, depth);
                }
                proof {
                    assert(!kv);
                }
                let mut accumulated = first;
                loop
                    invariant
                        self.wf(),
                        self.text() == old(self).text(),
                        self.opts() == old(self).opts(),
                        self.measure() <= old(self).measure(),
                        old(self).delim() is Some ==> self.delim() == old(self).delim(),
                        old(self).current_token is Str || old(self).current_token is Newline,
                        !kv,
                        old(self).at_end() ==> accumulated@ == ftext && self.current_token is Eof,
                    decreases self.measure(),
                {
                    let next_piece = self.current_str();
                    match next_piece {
                        Some(next) => {
                            if accumulated.as_str().unicode_len() > 0 {
                                accumulated.append(" ");
                            }
                            accumulated.append(next.as_str());
                            self.advance()?;
                        },
                        None => {
                            break ;
                        },
                    }
                }
                Ok(Value::Str(accumulated))
            },
            Token::LeftBracket => self.parse_root_array(depth),
            Token::Eof => Ok(Value::Null),
            _ => self.parse_object(depth),
        }
    }

    /// Parse the document into a tree value.
    pub fn parse(&mut self) -> (r: ToonResult<Value>)
        requires
            old(self).wf(),
        ensures
            final(self).wf(),
            final(self).text() == old(self).text(),
            final(self).opts() == old(self).opts(),
            r matches Ok(v) ==> crate::value::keys_unique(v),
            old(self).cur() is Eof ==> r == Ok::<Value, ToonError>(Value::Null),
            old(self).cur() is Null && old(self).at_end() ==> r == Ok::<Value, ToonError>(
                Value::Null,
            ),
            old(self).at_end() ==> (old(self).cur() matches Token::Bool(b) ==> r == Ok::<
                Value,
                ToonError,
            >(Value::Bool(b))),
            old(self).at_end() ==> (old(self).cur() matches Token::Integer(x) ==> r == Ok::<
                Value,
                ToonError,
            >(Value::Int(x))),
            old(self).at_end() ==> (old(self).cur() matches Token::Float(t) ==> (r matches Ok(v)
                && (v matches Value::Float(ft) && ft@ == t@))),
            old(self).at_end() ==> (old(self).cur() matches Token::Str(st) ==> (r matches Ok(v)
                && (v matches Value::Str(out) && out@ == st@))),
            old(self).delim() is Some ==> final(self).delim() == old(self).delim(),
            old(self).spos() + 4 == old(self).text().len() && old(self).text()[old(self).spos()]
                == '[' && old(self).text()[old(self).spos() + 1] == '0' && old(self).text()[old(
                self,
            ).spos() + 2] == ']' && old(self).text()[old(self).spos() + 3] == ':' ==> (old(
                self,
            ).cur() matches Token::Str(st) ==> (r matches Ok(v) && (v matches Value::Object(o)
                && o@.len() == 1 && o@[0].0@ == st@ && (o@[0].1 matches Value::Array(elems)
                && elems@.len() == 0)))),
            old(self).cur() is LeftBracket && old(self).spos() + 3 == old(self).text().len()
                && old(self).text()[old(self).spos()] == '0' && old(self).text()[old(self).spos()
                + 1] == ']' && old(self).text()[old(self).spos() + 2] == ':' ==> (r matches Ok(v)
                && (v matches Value::Array(elems) && elems@.len() == 0)),
    {
        self.parse_value(0)
    }
}

/// Insert a key into an ordered key list: a key already present keeps its
/// place and takes the new value; a new key goes to the end. Distinctness
/// of the keys is preserved.
fn obj_insert(obj: &mut Vec<(String, Value)>, key: String, value: Value)
    ensures
        old(obj)@.len() <= final(obj)@.len() <= old(obj)@.len() + 1,
        forall|j: int|
            0 <= j < old(obj)@.len() ==> (#[trigger] final(obj)@[j]).0@ == old(obj)@[j].0@,
        exists|j: int|
            0 <= j < final(obj)@.len() && (#[trigger] final(obj)@[j]).0@ == key@
                && final(obj)@[j].1 == value,
        forall|t: int|
            old(obj)@.len() <= t < final(obj)@.len() ==> (#[trigger] final(obj)@[t]).0@ == key@,
        crate::value::entries_wf(old(obj)@) && crate::value::keys_unique(value)
            ==> crate::value::entries_wf(final(obj)@),
{
    let n = obj.len();
    let mut i: usize = 0;
    while i < n
        invariant
            i <= n == obj@.len(),
            obj@ == old(obj)@,
            forall|j: int| 0 <= j < i ==> (#[trigger] obj@[j]).0@ != key@,
        decreases n - i,
    {
        if obj[i].0 == key {
            obj.remove(i);
            obj.insert(i, (key, value));
            proof {
                assert(obj@ =~= old(obj)@.remove(i as int).insert(i as int, (key, value)));
                assert forall|j: int| 0 <= j < old(obj)@.len() implies (#[trigger] obj@[j]).0@
                    == old(obj)@[j].0@ by {
                    assert(obj@[j] == if j == i {
                        (key, value)
                    } else {
                        old(obj)@[j]
                    });
                    assert(key@ == old(obj)@[i as int].0@);
                }
                assert(obj@[i as int].0@ == key@ && obj@[i as int].1 == value);
                if crate::value::entries_wf(old(obj)@) && crate::value::keys_unique(value) {
                    assert(obj@ =~= old(obj)@.remove(i as int).insert(i as int, (key, value)));
                    assert forall|a: int, b: int| 0 <= a < b < obj@.len() implies (
                    #[trigger] obj@[a]).0@ != (#[trigger] obj@[b]).0@ by {
                        assert(obj@[a] == if a == i {
                            (key, value)
                        } else {
                            old(obj)@[a]
                        });
                        assert(obj@[b] == if b == i {
                            (key, value)
                        } else {
                            old(obj)@[b]
                        });
                        assert(key@ == old(obj)@[i as int].0@);
                    }
                    assert forall|a: int| 0 <= a < obj@.len() implies crate::value::keys_unique(
                        (#[trigger] obj@[a]).1,
                    ) by {
                        assert(obj@[a] == if a == i {
                            (key, value)
                        } else {
                            old(obj)@[a]
                        });
                    }
                }
            }
            return ;
        }
        i = i + 1;
    }
    obj.push((key, value));
    proof {
        assert(obj@ =~= old(obj)@.push((key, value)));
        assert forall|j: int| 0 <= j < old(obj)@.len() implies (#[trigger] obj@[j]).0@
            == old(obj)@[j].0@ by {
            assert(obj@[j] == old(obj)@[j]);
        }
        assert(obj@[obj@.len() - 1].0@ == key@ && obj@[obj@.len() - 1].1 == value);
        if crate::value::entries_wf(old(obj)@) && crate::value::keys_unique(value) {
            assert(obj@ =~= old(obj)@.push((key, value)));
            assert forall|a: int, b: int| 0 <= a < b < obj@.len() implies (#[trigger] obj@[a]).0@
                != (#[trigger] obj@[b]).0@ by {
                if b == obj@.len() - 1 {
                    assert(obj@[a] == old(obj)@[a]);
                    assert(obj@[b] == (key, value));
                    assert(old(obj)@[a].0@ != key@);
                } else {
                    assert(obj@[a] == old(obj)@[a]);
                    assert(obj@[b] == old(obj)@[b]);
                }
            }
            assert forall|a: int| 0 <= a < obj@.len() implies crate::value::keys_unique(
                (#[trigger] obj@[a]).1,
            ) by {
                if a == obj@.len() - 1 {
                    assert(obj@[a] == (key, value));
                } else {
                    assert(obj@[a] == old(obj)@[a]);
                }
            }
        }
    }
}

} // verus!
