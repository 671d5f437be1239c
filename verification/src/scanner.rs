//! The tokenizer: converts raw text into a token stream while tracking
//! per-line leading-space indentation and honoring a mutable active delimiter
//! that changes which punctuation character is treated as a separator.

use vstd::prelude::*;

use crate::chars::chars_to_string;
use crate::chars::str_to_chars;
use crate::error::ToonError;
use crate::error::ToonResult;
use crate::numbers::int_val;
use crate::numbers::is_dec_digit;
use crate::numbers::is_float_literal;
use crate::numbers::is_i64_literal;
use crate::quoting::is_num_char;
use crate::quoting::is_unicode_ws;
use crate::quoting::unesc_char;
use crate::types::Delimiter;

verus! {

/// One token of the notation. Floating numbers carry their literal text.
#[derive(Debug, Clone, PartialEq, Eq)]
pub enum Token {
    LeftBracket,
    RightBracket,
    LeftBrace,
    RightBrace,
    Colon,
    Dash,
    Newline,
    Str(String),
    Float(String),
    Integer(i64),
    Bool(bool),
    Null,
    Delim(Delimiter),
    Eof,
}

/// The index of the first character at or after `i` that is no space.
pub open spec fn skip_spaces_idx(s: Seq<char>, i: int) -> int
    decreases s.len() - i,
{
    if 0 <= i < s.len() && s[i] == ' ' {
        skip_spaces_idx(s, i + 1)
    } else {
        i
    }
}

/// Skipping spaces never moves backwards and never leaves the text.
pub proof fn lemma_skip_spaces_bounds(s: Seq<char>, i: int)
    requires
        0 <= i <= s.len(),
    ensures
        i <= skip_spaces_idx(s, i) <= s.len(),
        skip_spaces_idx(s, i) == s.len() || s[skip_spaces_idx(s, i)] != ' ',
    decreases s.len() - i,
{
    if 0 <= i < s.len() && s[i] == ' ' {
        lemma_skip_spaces_bounds(s, i + 1);
    }
}

/// The index of the first character at or after `i` that cannot belong to a
/// numeric run.
pub open spec fn num_end(s: Seq<char>, i: int) -> int
    decreases s.len() - i,
{
    if 0 <= i < s.len() && is_num_char(s[i]) {
        num_end(s, i + 1)
    } else {
        i
    }
}

/// A numeric run never moves backwards and never leaves the text.
pub proof fn lemma_num_end_bounds(s: Seq<char>, i: int)
    requires
        0 <= i <= s.len(),
    ensures
        i <= num_end(s, i) <= s.len(),
    decreases s.len() - i,
{
    if 0 <= i < s.len() && is_num_char(s[i]) {
        lemma_num_end_bounds(s, i + 1);
    }
}

/// Whether `c` ends an unquoted run under the given active delimiter.
pub open spec fn is_unq_stop(c: char, active: Option<Delimiter>) -> bool {
    ||| c == '\n'
    ||| c == ' '
    ||| c == ':'
    ||| c == '['
    ||| c == ']'
    ||| c == '{'
    ||| c == '}'
    ||| match active {
        Some(d) => c == d.spec_as_char(),
        None => false,
    }
}

/// The index of the first character at or after `i` that ends an unquoted
/// run.
pub open spec fn unq_end(s: Seq<char>, i: int, active: Option<Delimiter>) -> int
    decreases s.len() - i,
{
    if 0 <= i < s.len() && !is_unq_stop(s[i], active) {
        unq_end(s, i + 1, active)
    } else {
        i
    }
}

/// An unquoted run never moves backwards and never leaves the text.
pub proof fn lemma_unq_end_bounds(s: Seq<char>, i: int, active: Option<Delimiter>)
    requires
        0 <= i <= s.len(),
    ensures
        i <= unq_end(s, i, active) <= s.len(),
    decreases s.len() - i,
{
    if 0 <= i < s.len() && !is_unq_stop(s[i], active) {
        lemma_unq_end_bounds(s, i + 1, active);
    }
}

/// The text with its trailing whitespace removed.
pub open spec fn trim_end_ws(s: Seq<char>) -> Seq<char>
    decreases s.len(),
{
    if s.len() > 0 && is_unicode_ws(s.last()) {
        trim_end_ws(s.drop_last())
    } else {
        s
    }
}

/// The content and end position of a quoted string whose opening quote
/// stands just before `i`: escape pairs are folded (unknown pairs kept
/// literally), and `None` means the input ended before the closing quote.
pub open spec fn scan_quoted_spec(s: Seq<char>, i: int) -> Option<(Seq<char>, int)>
    decreases s.len() - i,
{
    if i < 0 || i >= s.len() {
        None
    } else if s[i] == '\\' {
        if i + 1 >= s.len() {
            None
        } else {
            match scan_quoted_spec(s, i + 2) {
                Some((content, j)) => match unesc_char(s[i + 1]) {
                    Some(u) => Some((seq![u] + content, j)),
                    None => Some((seq!['\\', s[i + 1]] + content, j)),
                },
                None => None,
            }
        }
    } else if s[i] == '"' {
        Some((Seq::empty(), i + 1))
    } else {
        match scan_quoted_spec(s, i + 1) {
            Some((content, j)) => Some((seq![s[i]] + content, j)),
            None => None,
        }
    }
}

/// A successful quoted scan always moves forward and stays inside the text.
pub proof fn lemma_scan_quoted_bounds(s: Seq<char>, i: int)
    requires
        0 <= i,
    ensures
        match scan_quoted_spec(s, i) {
            Some((content, j)) => i < j <= s.len(),
            None => true,
        },
    decreases s.len() - i,
{
    if 0 <= i < s.len() {
        if s[i] == '\\' {
            if i + 1 < s.len() {
                lemma_scan_quoted_bounds(s, i + 2);
            }
        } else if s[i] == '"' {
        } else {
            lemma_scan_quoted_bounds(s, i + 1);
        }
    }
}

/// The pull-based scanner over the input text.
pub struct Scanner {
    input: Vec<char>,
    position: usize,
    line: usize,
    column: usize,
    active_delimiter: Option<Delimiter>,
    last_line_indent: usize,
}

impl Scanner {
    /// The character sequence being scanned.
    pub closed spec fn text(&self) -> Seq<char> {
        self.input@
    }

    /// The cursor offset into the text.
    pub closed spec fn pos(&self) -> int {
        self.position as int
    }

    /// The delimiter currently treated as a separator, if any.
    pub closed spec fn active(&self) -> Option<Delimiter> {
        self.active_delimiter
    }

    /// The leading-space count most recently observed at a line start.
    pub closed spec fn indent(&self) -> int {
        self.last_line_indent as int
    }

    /// The cursor never leaves the text, and the column count never falls
    /// below one.
    pub closed spec fn wf(&self) -> bool {
        self.position <= self.input@.len() && self.column >= 1
    }

    /// The line number the cursor stands in, for error messages.
    pub closed spec fn line_no(&self) -> int {
        self.line as int
    }

    /// The column number the cursor stands in, for error messages.
    pub closed spec fn col_no(&self) -> int {
        self.column as int
    }

    /// Whether the column says the cursor stands at a line start.
    pub open spec fn at_line_start(&self) -> bool {
        self.col_no() == 1
    }

    /// A well-formed scanner's cursor lies inside its text.
    pub proof fn lemma_wf_bounds(&self)
        requires
            self.wf(),
        ensures
            0 <= self.pos() <= self.text().len(),
    {
    }

    /// Build a scanner over the full input text, at line 1 and column 1,
    /// with no active delimiter.
    pub fn new(input: &str) -> (r: Self)
        ensures
            r.text() == input@,
            r.pos() == 0,
            r.active() is None,
            r.indent() == 0,
            r.line_no() == 1,
            r.col_no() == 1,
            r.wf(),
    {
        Scanner {
            input: str_to_chars(input),
            position: 0,
            line: 1,
            column: 1,
            active_delimiter: None,
            last_line_indent: 0,
        }
    }

    /// Pin or clear the active delimiter.
    pub fn set_active_delimiter(&mut self, delimiter: Option<Delimiter>)
        ensures
            final(self).active() == delimiter,
            final(self).text() == old(self).text(),
            final(self).pos() == old(self).pos(),
            final(self).indent() == old(self).indent(),
            final(self).at_line_start() == old(self).at_line_start(),
            final(self).wf() == old(self).wf(),
    {
        self.active_delimiter = delimiter;
    }

    /// The current line and column, for error messages.
    pub fn current_position(&self) -> (r: (usize, usize))
        ensures
            r.0 == self.line_no(),
            r.1 == self.col_no(),
    {
        (self.line, self.column)
    }

    /// The character under the cursor, if any.
    pub fn peek(&self) -> (r: Option<char>)
        ensures
            r == if self.pos() < self.text().len() {
                Some(self.text()[self.pos()])
            } else {
                None::<char>
            },
    {
        if self.position < self.input.len() {
            Some(self.input[self.position])
        } else {
            None
        }
    }

    /// The character some offset past the cursor, if any.
    pub fn peek_ahead(&self, offset: usize) -> (r: Option<char>)
        ensures
            r == if self.pos() + offset < self.text().len() {
                Some(self.text()[self.pos() + offset])
            } else {
                None::<char>
            },
    {
        if offset < self.input.len() && self.position < self.input.len() - offset {
            Some(self.input[self.position + offset])
        } else {
            None
        }
    }

    /// Count the spaces directly under the cursor, without advancing.
    pub fn count_leading_spaces(&self) -> (r: usize)
        requires
            self.wf(),
        ensures
            r == skip_spaces_idx(self.text(), self.pos()) - self.pos(),
    {
        let ghost s = self.text();
        let n = self.input.len();
        let mut idx: usize = self.position;
        while idx < n && self.input[idx] == ' '
            invariant
                self.pos() <= idx <= n == s.len(),
                s == self.text(),
                skip_spaces_idx(s, self.pos()) == skip_spaces_idx(s, idx as int),
            decreases n - idx,
        {
            idx = idx + 1;
        }
        proof {
            assert(skip_spaces_idx(s, idx as int) == idx);
        }
        idx - self.position
    }

    /// If the cursor stands on a newline, count the spaces directly after
    /// it, without advancing.
    pub fn count_spaces_after_newline(&self) -> (r: usize)
        requires
            self.wf(),
        ensures
            r == if self.pos() < self.text().len() && self.text()[self.pos()] == '\n' {
                skip_spaces_idx(self.text(), self.pos() + 1) - (self.pos() + 1)
            } else {
                0
            },
    {
        let ghost s = self.text();
        let n = self.input.len();
        if self.position >= n || self.input[self.position] != '\n' {
            return 0;
        }
        let mut idx: usize = self.position + 1;
        while idx < n && self.input[idx] == ' '
            invariant
                self.pos() + 1 <= idx <= n == s.len(),
                s == self.text(),
                skip_spaces_idx(s, self.pos() + 1) == skip_spaces_idx(s, idx as int),
            decreases n - idx,
        {
            idx = idx + 1;
        }
        proof {
            assert(skip_spaces_idx(s, idx as int) == idx);
        }
        idx - (self.position + 1)
    }

    /// Step over one character, updating the line and column, and hand the
    /// character back.
    pub fn advance(&mut self) -> (r: Option<char>)
        requires
            old(self).wf(),
        ensures
            final(self).wf(),
            final(self).text() == old(self).text(),
            final(self).active() == old(self).active(),
            final(self).indent() == old(self).indent(),
            r == if old(self).pos() < old(self).text().len() {
                Some(old(self).text()[old(self).pos()])
            } else {
                None::<char>
            },
            final(self).pos() == if old(self).pos() < old(self).text().len() {
                old(self).pos() + 1
            } else {
                old(self).pos()
            },
            final(self).at_line_start() == if old(self).pos() < old(self).text().len() {
                old(self).text()[old(self).pos()] == '\n'
            } else {
                old(self).at_line_start()
            },
            final(self).line_no() == if old(self).pos() < old(self).text().len() && old(
                self,
            ).text()[old(self).pos()] == '\n' {
                if old(self).line_no() < usize::MAX {
                    old(self).line_no() + 1
                } else {
                    old(self).line_no()
                }
            } else {
                old(self).line_no()
            },
            final(self).col_no() == if old(self).pos() < old(self).text().len() {
                if old(self).text()[old(self).pos()] == '\n' {
                    1int
                } else if old(self).col_no() < usize::MAX {
                    old(self).col_no() + 1
                } else {
                    old(self).col_no()
                }
            } else {
                old(self).col_no()
            },
    {
        if self.position < self.input.len() {
            let ch = self.input[self.position];
            self.position = self.position + 1;
            if ch == '\n' {
                self.line = if self.line < usize::MAX {
                    self.line + 1
                } else {
                    self.line
                };
                self.column = 1;
            } else {
                self.column = if self.column < usize::MAX {
                    self.column + 1
                } else {
                    self.column
                };
            }
            Some(ch)
        } else {
            None
        }
    }

    /// Step over the spaces under the cursor.
    pub fn skip_whitespace(&mut self)
        requires
            old(self).wf(),
        ensures
            final(self).wf(),
            final(self).text() == old(self).text(),
            final(self).active() == old(self).active(),
            final(self).indent() == old(self).indent(),
            final(self).pos() == skip_spaces_idx(old(self).text(), old(self).pos()),
            final(self).at_line_start() == if final(self).pos() == old(self).pos() {
                old(self).at_line_start()
            } else {
                false
            },
    {
        let ghost s = self.text();
        let ghost p0 = self.pos();
        while self.position < self.input.len() && self.input[self.position] == ' '
            invariant
                self.wf(),
                s == self.text(),
                self.active() == old(self).active(),
                self.indent() == old(self).indent(),
                p0 <= self.pos() <= s.len(),
                skip_spaces_idx(s, p0) == skip_spaces_idx(s, self.pos()),
                self.at_line_start() == if self.pos() == p0 {
                    old(self).at_line_start()
                } else {
                    false
                },
            decreases s.len() - self.pos(),
        {
            self.advance();
        }
        proof {
            assert(skip_spaces_idx(s, self.pos()) == self.pos());
        }
    }

    /// The leading-space count of the line the cursor stands in, as last
    /// observed.
    pub fn get_last_line_indent(&self) -> (r: usize)
        ensures
            r == self.indent(),
    {
        self.last_line_indent
    }

    /// Look ahead for the first delimiter character on the current line,
    /// without moving the cursor: the auto-detection used before any
    /// delimiter is pinned.
    pub fn detect_delimiter(&mut self) -> (r: Option<Delimiter>)
        requires
            old(self).wf(),
        ensures
            *final(self) == *old(self),
            r == detect_spec(old(self).text(), old(self).pos()),
    {
        let ghost s = self.text();
        let n = self.input.len();
        let mut idx: usize = self.position;
        while idx < n
            invariant
                self.pos() <= idx <= n == s.len(),
                s == self.text(),
                detect_spec(s, self.pos()) == detect_spec(s, idx as int),
            decreases n - idx,
        {
            let c = self.input[idx];
            if c == ',' {
                return Some(Delimiter::Comma);
            }
            if c == '|' {
                return Some(Delimiter::Pipe);
            }
            if c == '\t' {
                return Some(Delimiter::Tab);
            }
            if c == '\n' || c == ':' || c == '[' || c == ']' || c == '{' || c == '}' {
                return None;
            }
            idx = idx + 1;
        }
        None
    }
}

/// How a collected numeric run is classified: kept as its literal text when
/// it scans as a floating number, folded to a 64-bit integer when it scans
/// as one, and handed back as a plain string otherwise.
pub open spec fn number_token(w: Seq<char>, t: Token) -> bool {
    if w.contains('.') || w.contains('e') || w.contains('E') {
        if is_float_literal(w) {
            t matches Token::Float(x) && x@ == w
        } else {
            t matches Token::Str(x) && x@ == w
        }
    } else if is_i64_literal(w) {
        t matches Token::Integer(v) && v as int == int_val(w)
    } else {
        t matches Token::Str(x) && x@ == w
    }
}

/// How a finished unquoted word is classified: the three keywords become
/// their typed tokens, everything else a string token.
pub open spec fn word_token(value: Seq<char>, t: Token) -> bool {
    if value == "null"@ {
        t == Token::Null
    } else if value == "true"@ {
        t == Token::Bool(true)
    } else if value == "false"@ {
        t == Token::Bool(false)
    } else {
        t matches Token::Str(x) && x@ == value
    }
}

/// The unquoted run starting at `p`, right-trimmed unless it is a lone
/// delimiter character.
pub open spec fn unquoted_value(s: Seq<char>, p: int, active: Option<Delimiter>) -> Seq<char> {
    let e = unq_end(s, p, active);
    let raw = s.subrange(p, e);
    if raw.len() == 1 && (raw[0] == ',' || raw[0] == '|' || raw[0] == '\t') {
        raw
    } else {
        trim_end_ws(raw)
    }
}

/// What one `scan_token` call does, relating the scanner before and after
/// the call to the token handed back.
pub open spec fn scan_token_post(pre: Scanner, post: Scanner, r: ToonResult<Token>) -> bool {
    let s = pre.text();
    let p = skip_spaces_idx(s, pre.pos());
    &&& post.text() == s
    &&& post.active() == pre.active()
    &&& post.wf()
    &&& post.indent() == if pre.at_line_start() {
        skip_spaces_idx(s, pre.pos()) - pre.pos()
    } else {
        pre.indent()
    }
    &&& if p >= s.len() {
        r == Ok::<Token, ToonError>(Token::Eof) && post.pos() == s.len()
    } else {
        let c = s[p];
        if c == '\n' {
            r == Ok::<Token, ToonError>(Token::Newline) && post.pos() == p + 1
        } else if c == '[' {
            r == Ok::<Token, ToonError>(Token::LeftBracket) && post.pos() == p + 1
        } else if c == ']' {
            r == Ok::<Token, ToonError>(Token::RightBracket) && post.pos() == p + 1
        } else if c == '{' {
            r == Ok::<Token, ToonError>(Token::LeftBrace) && post.pos() == p + 1
        } else if c == '}' {
            r == Ok::<Token, ToonError>(Token::RightBrace) && post.pos() == p + 1
        } else if c == ':' {
            r == Ok::<Token, ToonError>(Token::Colon) && post.pos() == p + 1
        } else if c == '-' {
            if p + 1 < s.len() && is_dec_digit(s[p + 1]) {
                &&& r matches Ok(t) && number_token(
                    seq!['-'] + s.subrange(p + 1, num_end(s, p + 1)),
                    t,
                )
                &&& post.pos() == num_end(s, p + 1)
            } else {
                r == Ok::<Token, ToonError>(Token::Dash) && post.pos() == p + 1
            }
        } else if c == ',' && pre.active() == Some(Delimiter::Comma) {
            r == Ok::<Token, ToonError>(Token::Delim(Delimiter::Comma)) && post.pos() == p + 1
        } else if c == '|' && pre.active() == Some(Delimiter::Pipe) {
            r == Ok::<Token, ToonError>(Token::Delim(Delimiter::Pipe)) && post.pos() == p + 1
        } else if c == '\t' && pre.active() == Some(Delimiter::Tab) {
            r == Ok::<Token, ToonError>(Token::Delim(Delimiter::Tab)) && post.pos() == p + 1
        } else if c == '"' {
            match scan_quoted_spec(s, p + 1) {
                Some((content, j)) => {
                    &&& r matches Ok(t)
                    &&& t matches Token::Str(x) && x@ == content
                    &&& post.pos() == j
                },
                None => r == Err::<Token, ToonError>(ToonError::UnexpectedEof) && post.pos()
                    == s.len(),
            }
        } else if is_dec_digit(c) {
            &&& r matches Ok(t) && number_token(s.subrange(p, num_end(s, p)), t)
            &&& post.pos() == num_end(s, p)
        } else {
            &&& r matches Ok(t) && word_token(unquoted_value(s, p, pre.active()), t)
            &&& post.pos() == unq_end(s, p, pre.active())
        }
    }
}

/// Scanning from inside a quoted stretch whose coming characters are an
/// escaped string followed by the closing quote recovers exactly that
/// string, and stops right after the quote.
pub proof fn lemma_scan_quoted_of_escaped(t: Seq<char>, i: int, s: Seq<char>)
    requires
        0 <= i,
        i + crate::quoting::escape_seq(s).len() < t.len(),
        t.subrange(i, i + crate::quoting::escape_seq(s).len()) == crate::quoting::escape_seq(s),
        t[i + crate::quoting::escape_seq(s).len()] == '"',
    ensures
        scan_quoted_spec(t, i) == Some((s, i + crate::quoting::escape_seq(s).len() + 1)),
    decreases s.len(),
{
    let e = crate::quoting::escape_seq(s);
    if s.len() == 0 {
        assert(e =~= Seq::<char>::empty());
        assert(t[i] == '"');
        assert(scan_quoted_spec(t, i) == Some((Seq::<char>::empty(), i + 1)));
        assert(Seq::<char>::empty() =~= s);
    } else {
        let c = s[0];
        let s2 = s.drop_first();
        let e2 = crate::quoting::escape_seq(s2);
        assert(e == crate::quoting::esc_char(c) + e2);
        if c == '"' || c == '\\' || c == '\n' || c == '\r' || c == '\t' {
            assert(crate::quoting::esc_char(c).len() == 2);
            assert(t[i] == e[0] == '\\');
            assert(t[i + 1] == e[1]);
            assert(crate::quoting::unesc_char(e[1]) == Some(c));
            assert(t.subrange(i + 2, i + 2 + e2.len()) =~= e2) by {
                assert forall|k: int| 0 <= k < e2.len() implies t.subrange(
                    i + 2,
                    i + 2 + e2.len(),
                )[k] == e2[k] by {
                    assert(t.subrange(i, i + e.len())[k + 2] == e[k + 2]);
                }
            }
            lemma_scan_quoted_of_escaped(t, i + 2, s2);
            assert(scan_quoted_spec(t, i) == Some((seq![c] + s2, i + e.len() + 1)));
            assert(seq![c] + s2 =~= s);
        } else {
            assert(crate::quoting::esc_char(c) =~= seq![c]);
            assert(e[0] == c);
            assert(t[i] == c);
            assert(c != '\\' && c != '"');
            assert(t.subrange(i + 1, i + 1 + e2.len()) =~= e2) by {
                assert forall|k: int| 0 <= k < e2.len() implies t.subrange(
                    i + 1,
                    i + 1 + e2.len(),
                )[k] == e2[k] by {
                    assert(t.subrange(i, i + e.len())[k + 1] == e[k + 1]);
                }
            }
            lemma_scan_quoted_of_escaped(t, i + 1, s2);
            assert(scan_quoted_spec(t, i) == Some((seq![c] + s2, i + e.len() + 1)));
            assert(seq![c] + s2 =~= s);
        }
    }
}

/// A string written quoted re-scans to the identical string: in any text
/// that continues after its quoted form, the scan of the quoted stretch
/// yields exactly the original characters and ends right after the closing
/// quote. Together with the unescape lemmas this is the reversibility of
/// quoting.
pub proof fn lemma_quoted_rescan(s: Seq<char>, rest: Seq<char>)
    ensures
        scan_quoted_spec(crate::quoting::quoted_seq(s) + rest, 1) == Some(
            (s, crate::quoting::quoted_seq(s).len() as int),
        ),
{
    let e = crate::quoting::escape_seq(s);
    let el = e.len() as int;
    let t = crate::quoting::quoted_seq(s) + rest;
    assert(crate::quoting::quoted_seq(s).len() == el + 2);
    assert(t.subrange(1, 1 + el) =~= e) by {
        assert forall|k: int| 0 <= k < el implies t.subrange(1, 1 + el)[k] == e[k] by {
            assert(t[k + 1] == crate::quoting::quoted_seq(s)[k + 1]);
            assert(crate::quoting::quoted_seq(s)[k + 1] == e[k]);
        }
    }
    assert(t[1 + el] == crate::quoting::quoted_seq(s)[1 + el]);
    assert(crate::quoting::quoted_seq(s)[1 + el] == '"');
    lemma_scan_quoted_of_escaped(t, 1, s);
}

/// Every character from `i` on can belong to a numeric run, so the run
/// reaches the end of the text.
pub proof fn lemma_num_end_full(s: Seq<char>, i: int)
    requires
        0 <= i <= s.len(),
        forall|j: int| i <= j < s.len() ==> is_num_char(#[trigger] s[j]),
    ensures
        num_end(s, i) == s.len(),
    decreases s.len() - i,
{
    if i < s.len() {
        assert(is_num_char(s[i]));
        lemma_num_end_full(s, i + 1);
    }
}

/// No character from `i` on stops an unquoted run, so the run reaches the
/// end of the text.
pub proof fn lemma_unq_end_full(s: Seq<char>, i: int, active: Option<Delimiter>)
    requires
        0 <= i <= s.len(),
        forall|j: int| i <= j < s.len() ==> !is_unq_stop(#[trigger] s[j], active),
    ensures
        unq_end(s, i, active) == s.len(),
    decreases s.len() - i,
{
    if i < s.len() {
        lemma_unq_end_full(s, i + 1, active);
    }
}

/// A scanner standing at the start of the given text, with the given
/// active delimiter.
pub open spec fn initial_scanner_shape(pre: Scanner, s: Seq<char>, active: Option<
    Delimiter,
>) -> bool {
    &&& pre.text() == s
    &&& pre.pos() == 0
    &&& pre.active() == active
    &&& pre.wf()
}

/// Some first scan of the text hands back this token, ending at the end of
/// the text exactly when `at_end` says so.
pub open spec fn scans_first_ok_at(
    s: Seq<char>,
    active: Option<Delimiter>,
    t: Token,
    at_end: bool,
) -> bool {
    exists|pre: Scanner, post: Scanner|
        initial_scanner_shape(pre, s, active) && #[trigger] scan_token_post(pre, post, Ok(t)) && (
        at_end <==> post.pos() == s.len())
}

/// Some first scan of the text hands back this token and leaves the
/// cursor at this offset.
pub open spec fn scans_first_ok_pos(
    s: Seq<char>,
    active: Option<Delimiter>,
    t: Token,
    pos: int,
) -> bool {
    exists|pre: Scanner, post: Scanner|
        initial_scanner_shape(pre, s, active) && #[trigger] scan_token_post(pre, post, Ok(t))
            && post.pos() == pos
}

/// Some first scan of the text fails.
pub open spec fn scans_first_err(s: Seq<char>, active: Option<Delimiter>) -> bool {
    exists|pre: Scanner, post: Scanner, e: ToonError|
        initial_scanner_shape(pre, s, active) && #[trigger] scan_token_post(pre, post, Err(e))
}

/// Scanning a whole text that spells a 64-bit integer yields exactly that
/// integer token and consumes everything.
pub proof fn lemma_scan_of_int_text(pre: Scanner, post: Scanner, r: ToonResult<Token>)
    requires
        pre.wf(),
        pre.pos() == 0,
        is_i64_literal(pre.text()),
        scan_token_post(pre, post, r),
    ensures
        r matches Ok(t) && t matches Token::Integer(x) && x as int == int_val(pre.text()),
        post.pos() == pre.text().len(),
{
    let s = pre.text();
    assert(s.len() > 0);
    assert(skip_spaces_idx(s, 0) == 0);
    assert forall|j: int| 0 <= j < s.len() implies #[trigger] s[j] != '.' && s[j] != 'e' && s[j]
        != 'E' by {
        if s.len() > 0 && s[0] == '-' {
            if j >= 1 {
                assert(is_dec_digit(s[j]));
            }
        } else {
            assert(is_dec_digit(s[j]));
        }
    }
    assert(!s.contains('.'));
    assert(!s.contains('e'));
    assert(!s.contains('E'));
    if s[0] == '-' {
        assert(s.len() > 1 && is_dec_digit(s[1]));
        assert forall|j: int| 1 <= j < s.len() implies is_num_char(#[trigger] s[j]) by {
            assert(is_dec_digit(s[j]));
        }
        lemma_num_end_full(s, 1);
        let text2 = seq!['-'] + s.subrange(1, num_end(s, 1));
        assert(text2 =~= s);
    } else {
        assert(is_dec_digit(s[0]));
        assert forall|j: int| 0 <= j < s.len() implies is_num_char(#[trigger] s[j]) by {
            assert(is_dec_digit(s[j]));
        }
        lemma_num_end_full(s, 0);
        let text2 = s.subrange(0, num_end(s, 0));
        assert(text2 =~= s);
    }
}

/// Scanning a whole text that spells a keyword yields exactly the keyword's
/// token and consumes everything.
pub proof fn lemma_scan_of_keyword_text(pre: Scanner, post: Scanner, r: ToonResult<Token>)
    requires
        pre.wf(),
        pre.pos() == 0,
        pre.text() == "null"@ || pre.text() == "true"@ || pre.text() == "false"@,
        scan_token_post(pre, post, r),
    ensures
        r matches Ok(t) && word_token(pre.text(), t),
        post.pos() == pre.text().len(),
{
    reveal_strlit("null");
    reveal_strlit("true");
    reveal_strlit("false");
    let s = pre.text();
    let active = pre.active();
    assert(s.len() == 4 || s.len() == 5);
    assert(s[0] == 'n' || s[0] == 't' || s[0] == 'f');
    assert(skip_spaces_idx(s, 0) == 0);
    assert forall|j: int| 0 <= j < s.len() implies !is_unq_stop(#[trigger] s[j], active) by {
        assert(s[j] == 'n' || s[j] == 'u' || s[j] == 'l' || s[j] == 't' || s[j] == 'r' || s[j]
            == 'e' || s[j] == 'f' || s[j] == 'a' || s[j] == 's');
        match active {
            Some(d) => {
                assert(d.spec_as_char() == ',' || d.spec_as_char() == '\t' || d.spec_as_char()
                    == '|');
            },
            None => {},
        }
    }
    lemma_unq_end_full(s, 0, active);
    let raw = s.subrange(0, s.len() as int);
    assert(raw =~= s);
    assert(raw.len() != 1);
    assert(!is_unicode_ws(s.last()));
    assert(trim_end_ws(raw) == raw);
    assert(unquoted_value(s, 0, active) == s);
}

/// Scanning a whole text that spells a floating number (digit-led, with a
/// dot or exponent marker) yields exactly that number's text as a float
/// token and consumes everything.
pub proof fn lemma_scan_of_float_text(pre: Scanner, post: Scanner, r: ToonResult<Token>)
    requires
        pre.wf(),
        pre.pos() == 0,
        pre.text().len() > 0,
        is_dec_digit(pre.text()[0]) || (pre.text()[0] == '-' && pre.text().len() > 1
            && is_dec_digit(pre.text()[1])),
        is_float_literal(pre.text()),
        forall|j: int| 0 <= j < pre.text().len() ==> is_num_char(#[trigger] pre.text()[j]),
        pre.text().contains('.') || pre.text().contains('e') || pre.text().contains('E'),
        scan_token_post(pre, post, r),
    ensures
        r matches Ok(t) && t matches Token::Float(ts) && ts@ == pre.text(),
        post.pos() == pre.text().len(),
{
    let s = pre.text();
    assert(skip_spaces_idx(s, 0) == 0);
    if s[0] == '-' {
        lemma_num_end_full(s, 1);
        let text2 = seq!['-'] + s.subrange(1, num_end(s, 1));
        assert(text2 =~= s);
    } else {
        lemma_num_end_full(s, 0);
        let text2 = s.subrange(0, num_end(s, 0));
        assert(text2 =~= s);
    }
}

/// A whole document that is one bare word: no character stops an unquoted
/// run under the given delimiter, the first character starts no other
/// token shape, the last is no whitespace, and the word is no keyword.
pub open spec fn bare_word(s: Seq<char>, active: Option<Delimiter>) -> bool {
    &&& s.len() > 0
    &&& (forall|j: int| 0 <= j < s.len() ==> !is_unq_stop(#[trigger] s[j], active))
    &&& !is_unicode_ws(s.last())
    &&& s[0] != '"'
    &&& s[0] != '-'
    &&& !is_dec_digit(s[0])
    &&& s != "null"@
    &&& s != "true"@
    &&& s != "false"@
}

/// Scanning a whole text that is one bare word yields exactly that word as
/// a string token and consumes everything.
pub proof fn lemma_scan_of_word_text(pre: Scanner, post: Scanner, r: ToonResult<Token>)
    requires
        pre.wf(),
        pre.pos() == 0,
        bare_word(pre.text(), pre.active()),
        scan_token_post(pre, post, r),
    ensures
        r matches Ok(t) && t matches Token::Str(ts) && ts@ == pre.text(),
        post.pos() == pre.text().len(),
{
    let s = pre.text();
    let active = pre.active();
    assert(!is_unq_stop(s[0], active));
    assert(s[0] != ' ' && s[0] != '\n' && s[0] != ':' && s[0] != '[' && s[0] != ']' && s[0] != '{'
        && s[0] != '}');
    assert(skip_spaces_idx(s, 0) == 0);
    if s[0] == ',' {
        assert(active != Some(Delimiter::Comma));
    }
    if s[0] == '|' {
        assert(active != Some(Delimiter::Pipe));
    }
    if s[0] == '\t' {
        assert(active != Some(Delimiter::Tab));
    }
    lemma_unq_end_full(s, 0, active);
    let raw = s.subrange(0, s.len() as int);
    assert(raw =~= s);
    assert(trim_end_ws(s) == s);
    assert(unquoted_value(s, 0, active) == s);
}

/// No character in `[i, k)` stops an unquoted run and `k` does (or ends
/// the text), so the run ends exactly at `k`.
pub proof fn lemma_unq_end_until(s: Seq<char>, i: int, k: int, active: Option<Delimiter>)
    requires
        0 <= i <= k <= s.len(),
        forall|j: int| i <= j < k ==> !is_unq_stop(#[trigger] s[j], active),
        k == s.len() || is_unq_stop(s[k], active),
    ensures
        unq_end(s, i, active) == k,
    decreases k - i,
{
    if i < k {
        assert(!is_unq_stop(s[i], active));
        lemma_unq_end_until(s, i + 1, k, active);
    }
}

/// Scanning a text that begins with a bare word followed by an opening
/// bracket yields exactly that word as a string token and stops at the
/// bracket.
pub proof fn lemma_scan_of_word_prefix(
    pre: Scanner,
    post: Scanner,
    r: ToonResult<Token>,
    w: Seq<char>,
)
    requires
        pre.wf(),
        pre.pos() == 0,
        bare_word(w, pre.active()),
        pre.text() == w + seq!['[', '0', ']', ':'],
        scan_token_post(pre, post, r),
    ensures
        r matches Ok(t) && t matches Token::Str(ts) && ts@ == w,
        post.pos() == w.len(),
{
    let s = pre.text();
    let active = pre.active();
    let n = w.len() as int;
    assert(s.len() == n + 4);
    assert(s[n] == '[');
    assert forall|j: int| 0 <= j < n implies #[trigger] s[j] == w[j] by {}
    assert(!is_unq_stop(s[0], active));
    assert(s[0] != ' ' && s[0] != '\n' && s[0] != ':' && s[0] != '[' && s[0] != ']' && s[0] != '{'
        && s[0] != '}');
    assert(skip_spaces_idx(s, 0) == 0);
    if s[0] == ',' {
        assert(active != Some(Delimiter::Comma));
    }
    if s[0] == '|' {
        assert(active != Some(Delimiter::Pipe));
    }
    if s[0] == '\t' {
        assert(active != Some(Delimiter::Tab));
    }
    lemma_unq_end_until(s, 0, n, active);
    let raw = s.subrange(0, n);
    assert(raw =~= w);
    assert(!is_unicode_ws(w.last()));
    assert(trim_end_ws(w) == w);
    assert(unquoted_value(s, 0, active) == w);
}

/// Scanning a text that begins with an opening bracket yields the bracket
/// token and steps over it.
pub proof fn lemma_scan_of_open_bracket(pre: Scanner, post: Scanner, r: ToonResult<Token>)
    requires
        pre.wf(),
        pre.pos() == 0,
        pre.text().len() > 0,
        pre.text()[0] == '[',
        scan_token_post(pre, post, r),
    ensures
        r == Ok::<Token, ToonError>(Token::LeftBracket),
        post.pos() == 1,
{
    let s = pre.text();
    assert(skip_spaces_idx(s, 0) == 0);
}

/// Scanning at a lone zero digit/// Scanning at a lone zero digit/// Scanning at a lone zero digit (followed by the end of the text or a
/// character outside the numeric alphabet) yields the integer zero and
/// steps over the digit.
pub proof fn lemma_scan_of_zero_window(pre: Scanner, post: Scanner, r: ToonResult<Token>)
    requires
        pre.wf(),
        0 <= pre.pos() < pre.text().len(),
        pre.text()[pre.pos()] == '0',
        pre.pos() + 1 == pre.text().len() || !is_num_char(pre.text()[pre.pos() + 1]),
        scan_token_post(pre, post, r),
    ensures
        r matches Ok(t) && t matches Token::Integer(x) && x == 0,
        post.pos() == pre.pos() + 1,
{
    let s = pre.text();
    let p = pre.pos();
    assert(skip_spaces_idx(s, p) == p);
    assert(is_num_char(s[p]));
    assert(num_end(s, p) == num_end(s, p + 1));
    assert(num_end(s, p + 1) == p + 1);
    let w = s.subrange(p, p + 1);
    assert(w =~= seq!['0']);
    assert(!w.contains('.') && !w.contains('e') && !w.contains('E')) by {
        assert(forall|i: int| 0 <= i < w.len() ==> #[trigger] w[i] == '0');
    }
    assert(is_i64_literal(w) && int_val(w) == 0) by {
        assert(is_dec_digit(w[0]));
        assert(w.drop_last() =~= Seq::<char>::empty());
        assert(crate::numbers::dec_val(w) == crate::numbers::dec_val(w.drop_last()) * 10
            + crate::numbers::digit_val(w.last()));
        assert(crate::numbers::digit_val('0') == 0);
    }
}

/// Scanning a whole document that is one quoted string yields exactly the
/// string token it quotes and consumes everything: the reversibility of
/// quoting, seen from the scanner.
pub proof fn lemma_scan_of_quoted_text(
    pre: Scanner,
    post: Scanner,
    r: ToonResult<Token>,
    x: Seq<char>,
)
    requires
        pre.wf(),
        pre.pos() == 0,
        pre.text() == crate::quoting::quoted_seq(x),
        scan_token_post(pre, post, r),
    ensures
        r matches Ok(t) && t matches Token::Str(ts) && ts@ == x,
        post.pos() == pre.text().len(),
{
    let s = pre.text();
    assert(s.len() >= 2);
    assert(s[0] == '"');
    assert(skip_spaces_idx(s, 0) == 0);
    lemma_quoted_rescan(x, Seq::empty());
    assert(crate::quoting::quoted_seq(x) + Seq::<char>::empty() =~= s);
    assert(scan_quoted_spec(s, 1) == Some((x, s.len() as int)));
}

/// What one scan guarantees about progress: the cursor never moves
/// backwards, a token other than end-of-input moves it strictly forward,
/// and end-of-input (or a failed scan) leaves it at the end of the text.
pub proof fn lemma_scan_progress(pre: Scanner, post: Scanner, r: ToonResult<Token>)
    requires
        pre.wf(),
        scan_token_post(pre, post, r),
    ensures
        post.pos() >= pre.pos(),
        match r {
            Ok(t) => if t is Eof {
                post.pos() == pre.text().len()
            } else {
                post.pos() > pre.pos()
            },
            Err(_) => post.pos() == pre.text().len(),
        },
{
    let s = pre.text();
    let p0 = pre.pos();
    lemma_skip_spaces_bounds(s, p0);
    let p = skip_spaces_idx(s, p0);
    if p < s.len() {
        let c = s[p];
        if c == '\n' || c == '[' || c == ']' || c == '{' || c == '}' || c == ':' {
        } else if c == '-' {
            if p + 1 < s.len() && is_dec_digit(s[p + 1]) {
                lemma_num_end_bounds(s, p + 1);
            }
        } else if c == ',' && pre.active() == Some(Delimiter::Comma) {
        } else if c == '|' && pre.active() == Some(Delimiter::Pipe) {
        } else if c == '\t' && pre.active() == Some(Delimiter::Tab) {
        } else if c == '"' {
            lemma_scan_quoted_bounds(s, p + 1);
        } else if is_dec_digit(c) {
            lemma_num_end_bounds(s, p);
            assert(is_num_char(c));
            assert(num_end(s, p) == num_end(s, p + 1));
            lemma_num_end_bounds(s, p + 1);
        } else {
            assert(!is_unq_stop(c, pre.active()));
            assert(unq_end(s, p, pre.active()) == unq_end(s, p + 1, pre.active()));
            lemma_unq_end_bounds(s, p + 1, pre.active());
        }
    }
}

/// The first delimiter character at or after `i`, stopping at structural
/// characters and line ends.
pub open spec fn detect_spec(s: Seq<char>, i: int) -> Option<Delimiter>
    decreases s.len() - i,
{
    if i < 0 || i >= s.len() {
        None
    } else if s[i] == ',' {
        Some(Delimiter::Comma)
    } else if s[i] == '|' {
        Some(Delimiter::Pipe)
    } else if s[i] == '\t' {
        Some(Delimiter::Tab)
    } else if s[i] == '\n' || s[i] == ':' || s[i] == '[' || s[i] == ']' || s[i] == '{' || s[i]
        == '}' {
        None
    } else {
        detect_spec(s, i + 1)
    }
}


impl Scanner {
    /// Scan a quoted string, the opening quote standing under the cursor:
    /// fold the escape pairs (unknown pairs are kept as two characters) up
    /// to the closing quote, or report an unexpected end of input.
    fn scan_quoted_string(&mut self) -> (r: ToonResult<Token>)
        requires
            old(self).wf(),
            old(self).pos() < old(self).text().len(),
            old(self).text()[old(self).pos()] == '"',
        ensures
            final(self).wf(),
            final(self).text() == old(self).text(),
            final(self).active() == old(self).active(),
            final(self).indent() == old(self).indent(),
            match scan_quoted_spec(old(self).text(), old(self).pos() + 1) {
                Some((content, j)) => {
                    &&& r matches Ok(t)
                    &&& t matches Token::Str(x) && x@ == content
                    &&& final(self).pos() == j
                },
                None => r == Err::<Token, ToonError>(ToonError::UnexpectedEof) && final(self).pos()
                    == old(self).text().len(),
            },
    {
        let ghost s = self.text();
        self.advance();
        let mut out: Vec<char> = Vec::new();
        loop
            invariant
                self.wf(),
                s == self.text(),
                s == old(self).text(),
                self.active() == old(self).active(),
                self.indent() == old(self).indent(),
                old(self).pos() + 1 <= self.pos() <= s.len(),
                scan_quoted_spec(s, old(self).pos() + 1) == match scan_quoted_spec(
                    s,
                    self.pos(),
                ) {
                    Some((c2, j)) => Some::<(Seq<char>, int)>((out@ + c2, j)),
                    None => None::<(Seq<char>, int)>,
                },
            decreases s.len() - self.pos(),
        {
            let ghost p = self.pos();
            if self.position >= self.input.len() {
                proof {
                    assert(scan_quoted_spec(s, p) is None);
                }
                return Err(ToonError::UnexpectedEof);
            }
            let ch = self.input[self.position];
            self.advance();
            if ch == '"' {
                proof {
                    assert(scan_quoted_spec(s, p) == Some((Seq::<char>::empty(), p + 1)));
                    assert(out@ + Seq::<char>::empty() =~= out@);
                }
                return Ok(Token::Str(chars_to_string(&out)));
            }
            if ch == '\\' {
                if self.position >= self.input.len() {
                    proof {
                        assert(scan_quoted_spec(s, p) is None);
                    }
                    return Err(ToonError::UnexpectedEof);
                }
                let e = self.input[self.position];
                self.advance();
                match e {
                    'n' => out.push('\n'),
                    'r' => out.push('\r'),
                    't' => out.push('\t'),
                    '"' => out.push('"'),
                    '\\' => out.push('\\'),
                    _ => {
                        out.push('\\');
                        out.push(e);
                    },
                }
                proof {
                    assert(s[p] == '\\' && p + 1 < s.len() && s[p + 1] == e);
                    match scan_quoted_spec(s, p + 2) {
                        Some((c2, j)) => {
                            match unesc_char(e) {
                                Some(u) => {
                                    assert(out@ + c2 =~= out@.drop_last() + (seq![u] + c2));
                                },
                                None => {
                                    assert(out@ + c2 =~= out@.drop_last().drop_last() + (seq![
                                        '\\',
                                        e,
                                    ] + c2));
                                },
                            }
                        },
                        None => {},
                    }
                }
            } else {
                out.push(ch);
                proof {
                    assert(s[p] == ch && ch != '\\' && ch != '"');
                    match scan_quoted_spec(s, p + 1) {
                        Some((c2, j)) => {
                            assert(out@ + c2 =~= out@.drop_last() + (seq![ch] + c2));
                        },
                        None => {},
                    }
                }
            }
        }
    }

    /// Collect a numeric run of digits, dots, exponent markers and signs,
    /// prefixing a minus sign when asked to.
    fn scan_number_string(&mut self, negative: bool) -> (r: Vec<char>)
        requires
            old(self).wf(),
        ensures
            final(self).wf(),
            final(self).text() == old(self).text(),
            final(self).active() == old(self).active(),
            final(self).indent() == old(self).indent(),
            final(self).pos() == num_end(old(self).text(), old(self).pos()),
            r@ == if negative {
                seq!['-'] + old(self).text().subrange(
                    old(self).pos(),
                    num_end(old(self).text(), old(self).pos()),
                )
            } else {
                old(self).text().subrange(
                    old(self).pos(),
                    num_end(old(self).text(), old(self).pos()),
                )
            },
    {
        let ghost s = self.text();
        let ghost p0 = self.pos();
        let mut out: Vec<char> = Vec::new();
        if negative {
            out.push('-');
        }
        let ghost prefix: Seq<char> = if negative {
            seq!['-']
        } else {
            Seq::empty()
        };
        proof {
            assert(out@ =~= prefix + s.subrange(p0, p0));
        }
        while self.position < self.input.len() && crate::quoting::num_char(
            self.input[self.position],
        )
            invariant
                self.wf(),
                s == self.text(),
                s == old(self).text(),
                self.active() == old(self).active(),
                self.indent() == old(self).indent(),
                0 <= p0 <= self.pos() <= s.len(),
                p0 == old(self).pos(),
                num_end(s, p0) == num_end(s, self.pos()),
                out@ == prefix + s.subrange(p0, self.pos()),
            decreases s.len() - self.pos(),
        {
            let ghost p = self.pos();
            let c = self.input[self.position];
            out.push(c);
            self.advance();
            proof {
                assert(is_num_char(s[p]));
                assert(prefix + s.subrange(p0, p + 1) =~= (prefix + s.subrange(p0, p)).push(s[p]));
            }
        }
        proof {
            assert(num_end(s, self.pos()) == self.pos());
        }
        out
    }

    /// Classify a collected numeric run as an integer, a floating number,
    /// or a plain string.
    fn parse_number(&self, text: Vec<char>) -> (r: Token)
        ensures
            number_token(text@, r),
    {
        let has_marker = crate::quoting::contains_char(&text, '.') || crate::quoting::contains_char(
            &text,
            'e',
        ) || crate::quoting::contains_char(&text, 'E');
        if has_marker {
            if crate::numbers::float_literal(&text) {
                Token::Float(chars_to_string(&text))
            } else {
                Token::Str(chars_to_string(&text))
            }
        } else {
            match crate::numbers::parse_i64(&text) {
                Some(v) => Token::Integer(v),
                None => Token::Str(chars_to_string(&text)),
            }
        }
    }

    /// Whether `c` ends an unquoted run under the current active delimiter.
    fn stops_unquoted(&self, c: char) -> (r: bool)
        ensures
            r == is_unq_stop(c, self.active()),
    {
        if c == '\n' || c == ' ' || c == ':' || c == '[' || c == ']' || c == '{' || c == '}' {
            return true;
        }
        match self.active_delimiter {
            Some(d) => c == d.as_char(),
            None => false,
        }
    }

    /// Scan an unquoted run up to the next structural character, space,
    /// newline or active delimiter; right-trim it unless it is a lone
    /// delimiter character, and classify keywords.
    fn scan_unquoted_string(&mut self) -> (r: Token)
        requires
            old(self).wf(),
        ensures
            final(self).wf(),
            final(self).text() == old(self).text(),
            final(self).active() == old(self).active(),
            final(self).indent() == old(self).indent(),
            final(self).pos() == unq_end(old(self).text(), old(self).pos(), old(self).active()),
            word_token(unquoted_value(old(self).text(), old(self).pos(), old(self).active()), r),
    {
        let ghost s = self.text();
        let ghost p0 = self.pos();
        let ghost act = self.active();
        let mut out: Vec<char> = Vec::new();
        while self.position < self.input.len() && !self.stops_unquoted(
            self.input[self.position],
        )
            invariant
                self.wf(),
                s == self.text(),
                s == old(self).text(),
                act == self.active(),
                act == old(self).active(),
                self.indent() == old(self).indent(),
                0 <= p0 <= self.pos() <= s.len(),
                p0 == old(self).pos(),
                unq_end(s, p0, act) == unq_end(s, self.pos(), act),
                out@ == s.subrange(p0, self.pos()),
            decreases s.len() - self.pos(),
        {
            let ghost p = self.pos();
            let c = self.input[self.position];
            out.push(c);
            self.advance();
            proof {
                assert(!is_unq_stop(s[p], act));
                assert(s.subrange(p0, p + 1) =~= s.subrange(p0, p).push(s[p]));
            }
        }
        proof {
            assert(unq_end(s, self.pos(), act) == self.pos());
            assert(out@ =~= s.subrange(p0, unq_end(s, p0, act)));
        }
        let keep_raw = out.len() == 1 && {
            let c = out[0];
            c == ',' || c == '|' || c == '\t'
        };
        if !keep_raw {
            let ghost before = out@;
            while out.len() > 0 && crate::quoting::unicode_ws(out[out.len() - 1])
                invariant
                    trim_end_ws(before) == trim_end_ws(out@),
                decreases out@.len(),
            {
                proof {
                    assert(out@.last() == out@[out@.len() - 1]);
                }
                out.pop();
            }
            proof {
                assert(trim_end_ws(out@) == out@);
            }
        }
        proof {
            assert(out@ == unquoted_value(s, p0, act));
        }
        self.classify_word(out)
    }

    /// Turn a finished unquoted word into its token: keyword or string.
    fn classify_word(&self, w: Vec<char>) -> (r: Token)
        ensures
            word_token(w@, r),
    {
        proof {
            reveal_strlit("null");
            reveal_strlit("true");
            reveal_strlit("false");
        }
        let n = w.len();
        if n == 4 && w[0] == 'n' && w[1] == 'u' && w[2] == 'l' && w[3] == 'l' {
            proof {
                assert(w@ =~= "null"@);
            }
            Token::Null
        } else if n == 4 && w[0] == 't' && w[1] == 'r' && w[2] == 'u' && w[3] == 'e' {
            proof {
                assert(w@ =~= "true"@);
            }
            Token::Bool(true)
        } else if n == 5 && w[0] == 'f' && w[1] == 'a' && w[2] == 'l' && w[3] == 's' && w[4]
            == 'e' {
            proof {
                assert(w@ =~= "false"@);
            }
            Token::Bool(false)
        } else {
            proof {
                assert(w@ != "null"@ && w@ != "true"@ && w@ != "false"@);
            }
            Token::Str(chars_to_string(&w))
        }
    }

    /// Produce the next token, skipping insignificant spaces, recording the
    /// line indentation when standing at a line start, and honoring the
    /// active delimiter.
    pub fn scan_token(&mut self) -> (r: ToonResult<Token>)
        requires
            old(self).wf(),
        ensures
            scan_token_post(*old(self), *final(self), r),
    {
        let ghost s = self.text();
        let ghost p0 = self.pos();
        if self.column == 1 {
            let count = self.count_leading_spaces();
            self.last_line_indent = count;
        }
        self.skip_whitespace();
        let ghost p = self.pos();
        proof {
            lemma_skip_spaces_bounds(s, p0);
            assert(p == skip_spaces_idx(s, p0));
        }
        if self.position >= self.input.len() {
            return Ok(Token::Eof);
        }
        let c = self.input[self.position];
        if c == '\n' {
            self.advance();
            return Ok(Token::Newline);
        }
        if c == '[' {
            self.advance();
            return Ok(Token::LeftBracket);
        }
        if c == ']' {
            self.advance();
            return Ok(Token::RightBracket);
        }
        if c == '{' {
            self.advance();
            return Ok(Token::LeftBrace);
        }
        if c == '}' {
            self.advance();
            return Ok(Token::RightBrace);
        }
        if c == ':' {
            self.advance();
            return Ok(Token::Colon);
        }
        if c == '-' {
            self.advance();
            if self.position < self.input.len() {
                let d = self.input[self.position];
                if crate::numbers::dec_digit(d) {
                    let text = self.scan_number_string(true);
                    return Ok(self.parse_number(text));
                }
            }
            return Ok(Token::Dash);
        }
        if c == ',' {
            if matches!(self.active_delimiter, Some(Delimiter::Comma)) {
                self.advance();
                return Ok(Token::Delim(Delimiter::Comma));
            }
            return Ok(self.scan_unquoted_string());
        }
        if c == '|' {
            if matches!(self.active_delimiter, Some(Delimiter::Pipe)) {
                self.advance();
                return Ok(Token::Delim(Delimiter::Pipe));
            }
            return Ok(self.scan_unquoted_string());
        }
        if c == '\t' {
            if matches!(self.active_delimiter, Some(Delimiter::Tab)) {
                self.advance();
                return Ok(Token::Delim(Delimiter::Tab));
            }
            return Ok(self.scan_unquoted_string());
        }
        if c == '"' {
            return self.scan_quoted_string();
        }
        if crate::numbers::dec_digit(c) {
            let text = self.scan_number_string(false);
            return Ok(self.parse_number(text));
        }
        Ok(self.scan_unquoted_string())
    }
}

} // verus!
