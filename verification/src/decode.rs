//! The decode entry points: parse notation text into a tree value, with
//! presets for strict validation and literal coercion.

use vstd::prelude::*;

use crate::error::ToonError;
use crate::error::ToonResult;
use crate::numbers::int_val;
use crate::numbers::is_i64_literal;
use crate::parser::Parser;
use crate::scanner::initial_scanner_shape;
use crate::scanner::lemma_scan_of_int_text;
use crate::scanner::lemma_scan_of_keyword_text;
use crate::scanner::scan_token_post;
use crate::scanner::scans_first_err;
use crate::scanner::scans_first_ok_at;
use crate::scanner::scans_first_ok_pos;
use crate::scanner::Scanner;
use crate::scanner::Token;
use crate::types::DecodeOptions;
use crate::types::Delimiter;
use crate::value::keys_unique;
use crate::value::Value;

verus! {

/// For a document that is one quoted string, the first scan is forced: it
/// succeeds, consumes everything, and yields the quoted string's token.
proof fn lemma_quoted_first_scan(
    x: Seq<char>,
    active: Option<Delimiter>,
    t: Token,
    at_end: bool,
)
    ensures
        !scans_first_err(crate::quoting::quoted_seq(x), active),
        scans_first_ok_at(crate::quoting::quoted_seq(x), active, t, at_end) ==> at_end && (t
            matches Token::Str(ts) && ts@ == x),
{
    let s = crate::quoting::quoted_seq(x);
    if scans_first_err(s, active) {
        let (pre, post, e) = choose|pre: Scanner, post: Scanner, e: ToonError|
            initial_scanner_shape(pre, s, active) && #[trigger] scan_token_post(
                pre,
                post,
                Err(e),
            );
        crate::scanner::lemma_scan_of_quoted_text(pre, post, Err(e), x);
    }
    if scans_first_ok_at(s, active, t, at_end) {
        let (pre, post) = choose|pre: Scanner, post: Scanner|
            initial_scanner_shape(pre, s, active) && #[trigger] scan_token_post(pre, post, Ok(t))
                && (at_end <==> post.pos() == s.len());
        crate::scanner::lemma_scan_of_quoted_text(pre, post, Ok(t), x);
    }
}

/// A whole document that is one floating-number literal as the scanner
/// recognizes it: digit-led, within the numeric alphabet, and carrying a
/// dot or exponent marker.
pub open spec fn float_document(s: Seq<char>) -> bool {
    &&& s.len() > 0
    &&& (crate::numbers::is_dec_digit(s[0]) || (s[0] == '-' && s.len() > 1
        && crate::numbers::is_dec_digit(s[1])))
    &&& crate::numbers::is_float_literal(s)
    &&& (forall|j: int| 0 <= j < s.len() ==> crate::quoting::is_num_char(#[trigger] s[j]))
    &&& (s.contains('.') || s.contains('e') || s.contains('E'))
}

/// For a float document, the first scan is forced: it succeeds, consumes
/// everything, and yields the float token carrying the document's text.
proof fn lemma_float_first_scan(s: Seq<char>, active: Option<Delimiter>, t: Token, at_end: bool)
    requires
        float_document(s),
    ensures
        !scans_first_err(s, active),
        scans_first_ok_at(s, active, t, at_end) ==> at_end && (t matches Token::Float(ts) && ts@
            == s),
{
    if scans_first_err(s, active) {
        let (pre, post, e) = choose|pre: Scanner, post: Scanner, e: ToonError|
            initial_scanner_shape(pre, s, active) && #[trigger] scan_token_post(
                pre,
                post,
                Err(e),
            );
        crate::scanner::lemma_scan_of_float_text(pre, post, Err(e));
    }
    if scans_first_ok_at(s, active, t, at_end) {
        let (pre, post) = choose|pre: Scanner, post: Scanner|
            initial_scanner_shape(pre, s, active) && #[trigger] scan_token_post(pre, post, Ok(t))
                && (at_end <==> post.pos() == s.len());
        crate::scanner::lemma_scan_of_float_text(pre, post, Ok(t));
    }
}

/// For a bare-word document, the first scan is forced: it succeeds,
/// consumes everything, and yields the word's string token.
proof fn lemma_word_first_scan(s: Seq<char>, active: Option<Delimiter>, t: Token, at_end: bool)
    requires
        crate::scanner::bare_word(s, active),
    ensures
        !scans_first_err(s, active),
        scans_first_ok_at(s, active, t, at_end) ==> at_end && (t matches Token::Str(ts) && ts@
            == s),
{
    if scans_first_err(s, active) {
        let (pre, post, e) = choose|pre: Scanner, post: Scanner, e: ToonError|
            initial_scanner_shape(pre, s, active) && #[trigger] scan_token_post(
                pre,
                post,
                Err(e),
            );
        crate::scanner::lemma_scan_of_word_text(pre, post, Err(e));
    }
    if scans_first_ok_at(s, active, t, at_end) {
        let (pre, post) = choose|pre: Scanner, post: Scanner|
            initial_scanner_shape(pre, s, active) && #[trigger] scan_token_post(pre, post, Ok(t))
                && (at_end <==> post.pos() == s.len());
        crate::scanner::lemma_scan_of_word_text(pre, post, Ok(t));
    }
}

/// For a document that begins with a bare word followed by `[0]:`, the
/// first scan is forced: it yields the word's string token and stops at
/// the bracket.
proof fn lemma_word_prefix_first_scan(
    w: Seq<char>,
    active: Option<Delimiter>,
    t: Token,
    pos: int,
)
    requires
        crate::scanner::bare_word(w, active),
    ensures
        !scans_first_err(w + seq!['[', '0', ']', ':'], active),
        scans_first_ok_pos(w + seq!['[', '0', ']', ':'], active, t, pos) ==> (t matches Token::Str(
            ts,
        ) && ts@ == w) && pos == w.len(),
{
    let s = w + seq!['[', '0', ']', ':'];
    if scans_first_err(s, active) {
        let (pre, post, e) = choose|pre: Scanner, post: Scanner, e: ToonError|
            initial_scanner_shape(pre, s, active) && #[trigger] scan_token_post(
                pre,
                post,
                Err(e),
            );
        crate::scanner::lemma_scan_of_word_prefix(pre, post, Err(e), w);
    }
    if scans_first_ok_pos(s, active, t, pos) {
        let (pre, post) = choose|pre: Scanner, post: Scanner|
            initial_scanner_shape(pre, s, active) && #[trigger] scan_token_post(pre, post, Ok(t))
                && post.pos() == pos;
        crate::scanner::lemma_scan_of_word_prefix(pre, post, Ok(t), w);
    }
}

/// For a document that begins with an opening bracket, the first scan is
/// forced: it yields the bracket token and stops right after it.
proof fn lemma_bracket_first_scan(s: Seq<char>, active: Option<Delimiter>, t: Token, pos: int)
    requires
        s.len() > 0,
        s[0] == '[',
    ensures
        !scans_first_err(s, active),
        scans_first_ok_pos(s, active, t, pos) ==> t == Token::LeftBracket && pos == 1,
{
    if scans_first_err(s, active) {
        let (pre, post, e) = choose|pre: Scanner, post: Scanner, e: ToonError|
            initial_scanner_shape(pre, s, active) && #[trigger] scan_token_post(
                pre,
                post,
                Err(e),
            );
        crate::scanner::lemma_scan_of_open_bracket(pre, post, Err(e));
    }
    if scans_first_ok_pos(s, active, t, pos) {
        let (pre, post) = choose|pre: Scanner, post: Scanner|
            initial_scanner_shape(pre, s, active) && #[trigger] scan_token_post(pre, post, Ok(t))
                && post.pos() == pos;
        crate::scanner::lemma_scan_of_open_bracket(pre, post, Ok(t));
    }
}

/// Whether the whole document is one scalar token whose decoding the
/// contracts below pin down exactly.
pub open spec fn scalar_document(s: Seq<char>) -> bool {
    is_i64_literal(s) || s == "null"@ || s == "true"@ || s == "false"@
}

/// The value a scalar document decodes to.
pub open spec fn scalar_value(s: Seq<char>) -> Value {
    if s == "null"@ {
        Value::Null
    } else if s == "true"@ {
        Value::Bool(true)
    } else if s == "false"@ {
        Value::Bool(false)
    } else {
        Value::Int(int_val(s) as i64)
    }
}

/// For a scalar document, the first scan is forced: it succeeds, consumes
/// everything, and yields the scalar's token.
proof fn lemma_scalar_first_scan(s: Seq<char>, active: Option<Delimiter>, t: Token, at_end: bool)
    requires
        scalar_document(s),
    ensures
        !scans_first_err(s, active),
        scans_first_ok_at(s, active, t, at_end) ==> at_end && (if s == "null"@ {
            t == Token::Null
        } else if s == "true"@ {
            t == Token::Bool(true)
        } else if s == "false"@ {
            t == Token::Bool(false)
        } else {
            t matches Token::Integer(x) && x as int == int_val(s)
        }),
{
    reveal_strlit("null");
    reveal_strlit("true");
    reveal_strlit("false");
    let kw = s == "null"@ || s == "true"@ || s == "false"@;
    if scans_first_err(s, active) {
        let (pre, post, e) = choose|pre: Scanner, post: Scanner, e: ToonError|
            initial_scanner_shape(pre, s, active) && #[trigger] scan_token_post(
                pre,
                post,
                Err(e),
            );
        if kw {
            lemma_scan_of_keyword_text(pre, post, Err(e));
        } else {
            lemma_scan_of_int_text(pre, post, Err(e));
        }
    }
    if scans_first_ok_at(s, active, t, at_end) {
        let (pre, post) = choose|pre: Scanner, post: Scanner|
            initial_scanner_shape(pre, s, active) && #[trigger] scan_token_post(pre, post, Ok(t))
                && (at_end <==> post.pos() == s.len());
        if kw {
            lemma_scan_of_keyword_text(pre, post, Ok(t));
            if s == "null"@ {
                assert(s != "true"@ && s != "false"@);
            } else if s == "true"@ {
                assert(s != "null"@ && s != "false"@);
            } else {
                assert(s != "null"@ && s != "true"@);
            }
        } else {
            lemma_scan_of_int_text(pre, post, Ok(t));
        }
    }
}

/// Decode notation text to a tree value with custom options. A decoded
/// object never lists a key twice, at any depth: repeated keys in the
/// input collapse onto the first occurrence, which takes the last value.
pub fn decode(input: &str, options: &DecodeOptions) -> (r: ToonResult<Value>)
    ensures
        r matches Ok(v) ==> keys_unique(v),
        scalar_document(input@) ==> r == Ok::<Value, ToonError>(scalar_value(input@)),
        forall|x: Seq<char>|
            input@ == crate::quoting::quoted_seq(x) ==> (r matches Ok(v) && (v matches Value::Str(
                out,
            ) && out@ == x)),
        float_document(input@) ==> (r matches Ok(v) && (v matches Value::Float(t) && t@
            == input@)),
        crate::scanner::bare_word(input@, options.delimiter) ==> (r matches Ok(v) && (v matches
            Value::Str(out) && out@ == input@)),
        forall|wkey: Seq<char>|
            crate::scanner::bare_word(wkey, options.delimiter) && input@ == wkey + seq![
                '[',
                '0',
                ']',
                ':',
            ] ==> (r matches Ok(v) && (v matches Value::Object(o) && o@.len() == 1 && o@[0].0@
                == wkey && (o@[0].1 matches Value::Array(elems) && elems@.len() == 0))),
        input@ == seq!['[', '0', ']', ':'] ==> (r matches Ok(v) && (v matches Value::Array(elems)
            && elems@.len() == 0)),
{
    let opts = DecodeOptions {
        delimiter: options.delimiter,
        strict: options.strict,
        coerce_types: options.coerce_types,
    };
    let mut parser = Parser::new(input, opts);
    proof {
        if scalar_document(input@) {
            lemma_scalar_first_scan(input@, opts.delimiter, parser.cur(), parser.at_end());
        }
        if float_document(input@) {
            lemma_float_first_scan(input@, opts.delimiter, parser.cur(), parser.at_end());
        }
        if crate::scanner::bare_word(input@, opts.delimiter) {
            lemma_word_first_scan(input@, opts.delimiter, parser.cur(), parser.at_end());
        }
        assert forall|x: Seq<char>| input@ == crate::quoting::quoted_seq(x) implies parser.cur()
            matches Token::Str(ts) && ts@ == x && parser.at_end() by {
            lemma_quoted_first_scan(x, opts.delimiter, parser.cur(), parser.at_end());
        }
        assert forall|wkey: Seq<char>|
            crate::scanner::bare_word(wkey, opts.delimiter) && input@ == wkey + seq![
                '[',
                '0',
                ']',
                ':',
            ] implies parser.cur() matches Token::Str(ts) && ts@ == wkey && parser.spos()
            == wkey.len() && parser.spos() + 4 == parser.text().len() && parser.text()[parser.spos()]
            == '[' && parser.text()[parser.spos() + 1] == '0' && parser.text()[parser.spos() + 2]
            == ']' && parser.text()[parser.spos() + 3] == ':' by {
            lemma_word_prefix_first_scan(wkey, opts.delimiter, parser.cur(), parser.spos());
            let n = wkey.len() as int;
            assert(input@[n] == '[' && input@[n + 1] == '0' && input@[n + 2] == ']' && input@[n
                + 3] == ':');
        }
        if input@ == seq!['[', '0', ']', ':'] {
            lemma_bracket_first_scan(input@, opts.delimiter, parser.cur(), parser.spos());
        }
    }
    parser.parse()
}

/// Decode with strict validation enabled (validates array lengths,
/// indentation).
pub fn decode_strict(input: &str) -> (r: ToonResult<Value>)
    ensures
        r matches Ok(v) ==> keys_unique(v),
        scalar_document(input@) ==> r == Ok::<Value, ToonError>(scalar_value(input@)),
        forall|x: Seq<char>|
            input@ == crate::quoting::quoted_seq(x) ==> (r matches Ok(v) && (v matches Value::Str(
                out,
            ) && out@ == x)),
        float_document(input@) ==> (r matches Ok(v) && (v matches Value::Float(t) && t@
            == input@)),
        crate::scanner::bare_word(input@, None::<Delimiter>) ==> (r matches Ok(v) && (v matches
            Value::Str(out) && out@ == input@)),
        forall|wkey: Seq<char>|
            crate::scanner::bare_word(wkey, None::<Delimiter>) && input@ == wkey + seq![
                '[',
                '0',
                ']',
                ':',
            ] ==> (r matches Ok(v) && (v matches Value::Object(o) && o@.len() == 1 && o@[0].0@
                == wkey && (o@[0].1 matches Value::Array(elems) && elems@.len() == 0))),
        input@ == seq!['[', '0', ']', ':'] ==> (r matches Ok(v) && (v matches Value::Array(elems)
            && elems@.len() == 0)),
{
    decode(input, &DecodeOptions::new().with_strict(true))
}

/// Decode with strict validation and additional options.
pub fn decode_strict_with_options(input: &str, options: &DecodeOptions) -> (r: ToonResult<
    Value,
>)
    ensures
        r matches Ok(v) ==> keys_unique(v),
        scalar_document(input@) ==> r == Ok::<Value, ToonError>(scalar_value(input@)),
        forall|x: Seq<char>|
            input@ == crate::quoting::quoted_seq(x) ==> (r matches Ok(v) && (v matches Value::Str(
                out,
            ) && out@ == x)),
        float_document(input@) ==> (r matches Ok(v) && (v matches Value::Float(t) && t@
            == input@)),
        crate::scanner::bare_word(input@, options.delimiter) ==> (r matches Ok(v) && (v matches
            Value::Str(out) && out@ == input@)),
        forall|wkey: Seq<char>|
            crate::scanner::bare_word(wkey, options.delimiter) && input@ == wkey + seq![
                '[',
                '0',
                ']',
                ':',
            ] ==> (r matches Ok(v) && (v matches Value::Object(o) && o@.len() == 1 && o@[0].0@
                == wkey && (o@[0].1 matches Value::Array(elems) && elems@.len() == 0))),
        input@ == seq!['[', '0', ']', ':'] ==> (r matches Ok(v) && (v matches Value::Array(elems)
            && elems@.len() == 0)),
{
    let opts = DecodeOptions {
        delimiter: options.delimiter,
        strict: true,
        coerce_types: options.coerce_types,
    };
    decode(input, &opts)
}

/// Decode without type coercion (strings remain strings).
pub fn decode_no_coerce(input: &str) -> (r: ToonResult<Value>)
    ensures
        r matches Ok(v) ==> keys_unique(v),
        scalar_document(input@) ==> r == Ok::<Value, ToonError>(scalar_value(input@)),
        forall|x: Seq<char>|
            input@ == crate::quoting::quoted_seq(x) ==> (r matches Ok(v) && (v matches Value::Str(
                out,
            ) && out@ == x)),
        float_document(input@) ==> (r matches Ok(v) && (v matches Value::Float(t) && t@
            == input@)),
        crate::scanner::bare_word(input@, None::<Delimiter>) ==> (r matches Ok(v) && (v matches
            Value::Str(out) && out@ == input@)),
        forall|wkey: Seq<char>|
            crate::scanner::bare_word(wkey, None::<Delimiter>) && input@ == wkey + seq![
                '[',
                '0',
                ']',
                ':',
            ] ==> (r matches Ok(v) && (v matches Value::Object(o) && o@.len() == 1 && o@[0].0@
                == wkey && (o@[0].1 matches Value::Array(elems) && elems@.len() == 0))),
        input@ == seq!['[', '0', ']', ':'] ==> (r matches Ok(v) && (v matches Value::Array(elems)
            && elems@.len() == 0)),
{
    decode(input, &DecodeOptions::new().with_coerce_types(false))
}

/// Decode without type coercion and with additional options.
pub fn decode_no_coerce_with_options(input: &str, options: &DecodeOptions) -> (r: ToonResult<
    Value,
>)
    ensures
        r matches Ok(v) ==> keys_unique(v),
        scalar_document(input@) ==> r == Ok::<Value, ToonError>(scalar_value(input@)),
        forall|x: Seq<char>|
            input@ == crate::quoting::quoted_seq(x) ==> (r matches Ok(v) && (v matches Value::Str(
                out,
            ) && out@ == x)),
        float_document(input@) ==> (r matches Ok(v) && (v matches Value::Float(t) && t@
            == input@)),
        crate::scanner::bare_word(input@, options.delimiter) ==> (r matches Ok(v) && (v matches
            Value::Str(out) && out@ == input@)),
        forall|wkey: Seq<char>|
            crate::scanner::bare_word(wkey, options.delimiter) && input@ == wkey + seq![
                '[',
                '0',
                ']',
                ':',
            ] ==> (r matches Ok(v) && (v matches Value::Object(o) && o@.len() == 1 && o@[0].0@
                == wkey && (o@[0].1 matches Value::Array(elems) && elems@.len() == 0))),
        input@ == seq!['[', '0', ']', ':'] ==> (r matches Ok(v) && (v matches Value::Array(elems)
            && elems@.len() == 0)),
{
    let opts = DecodeOptions {
        delimiter: options.delimiter,
        strict: options.strict,
        coerce_types: false,
    };
    decode(input, &opts)
}

/// Decode with default options (strict mode, type coercion enabled).
pub fn decode_default(input: &str) -> (r: ToonResult<Value>)
    ensures
        r matches Ok(v) ==> keys_unique(v),
        scalar_document(input@) ==> r == Ok::<Value, ToonError>(scalar_value(input@)),
        forall|x: Seq<char>|
            input@ == crate::quoting::quoted_seq(x) ==> (r matches Ok(v) && (v matches Value::Str(
                out,
            ) && out@ == x)),
        float_document(input@) ==> (r matches Ok(v) && (v matches Value::Float(t) && t@
            == input@)),
        crate::scanner::bare_word(input@, None::<Delimiter>) ==> (r matches Ok(v) && (v matches
            Value::Str(out) && out@ == input@)),
        forall|wkey: Seq<char>|
            crate::scanner::bare_word(wkey, None::<Delimiter>) && input@ == wkey + seq![
                '[',
                '0',
                ']',
                ':',
            ] ==> (r matches Ok(v) && (v matches Value::Object(o) && o@.len() == 1 && o@[0].0@
                == wkey && (o@[0].1 matches Value::Array(elems) && elems@.len() == 0))),
        input@ == seq!['[', '0', ']', ':'] ==> (r matches Ok(v) && (v matches Value::Array(elems)
            && elems@.len() == 0)),
{
    decode(input, &DecodeOptions::default())
}


/// The round trip for scalar documents, as the contracts of `encode` and
/// `decode` state it: the inline text that `encode` emits for a null,
/// boolean, or 64-bit integer value is a scalar document, and `decode`
/// hands exactly that value back for it. Together with `encode`'s
/// postcondition for primitive roots and `decode`'s postcondition for
/// scalar documents, this proves `decode(encode(v)) == Ok(v)` for these
/// values.
pub proof fn lemma_scalar_round_trip(v: crate::value::Val, delim: Delimiter)
    requires
        v is Null || v is Bool || (v matches crate::value::Val::Int(i) && i64::MIN <= i
            <= i64::MAX),
    ensures
        scalar_document(crate::writer::primitive_seq(v, delim)),
        crate::value::val_of(scalar_value(crate::writer::primitive_seq(v, delim))) == v,
        crate::value::norm(v) == v,
{
    reveal_strlit("null");
    reveal_strlit("true");
    reveal_strlit("false");
    let s = crate::writer::primitive_seq(v, delim);
    match v {
        crate::value::Val::Null => {
            assert(s == "null"@);
        },
        crate::value::Val::Bool(b) => {
            if b {
                assert(s == "true"@);
                assert(s[0] == 't' && "null"@[0] == 'n');
                assert(s != "null"@);
            } else {
                assert(s == "false"@);
                assert(s[0] == 'f' && "null"@[0] == 'n' && "true"@[0] == 't');
                assert(s != "null"@ && s != "true"@);
            }
        },
        crate::value::Val::Int(i) => {
            crate::numbers::lemma_int_val_of_digits(i);
            assert(s == crate::numbers::int_digits(i));
            assert(is_i64_literal(s));
            assert(s.len() > 0);
            assert(s[0] == '-' || crate::numbers::is_dec_digit(s[0]));
            assert(s[0] != 'n' && s[0] != 't' && s[0] != 'f');
            assert(s != "null"@ && s != "true"@ && s != "false"@);
            assert(scalar_value(s) == Value::Int(int_val(s) as i64));
            assert(int_val(s) == i);
        },
        _ => {},
    }
}


/// Quoting reversibility, end to end: a string that must be quoted is
/// written by `encode` as exactly its quoted form, and by the contract of
/// `decode` that text decodes back to the identical string.
pub proof fn lemma_quoted_string_round_trip(x: Seq<char>, delim: Delimiter)
    requires
        crate::quoting::spec_needs_quoting(x, crate::quoting::QuotingContext::Value, delim),
    ensures
        crate::writer::primitive_seq(crate::value::Val::Str(x), delim)
            == crate::quoting::quoted_seq(x),
        crate::value::norm(crate::value::Val::Str(x)) == crate::value::Val::Str(x),
{
}


/// The round trip for floating-number documents, as the contracts state
/// it: a float value whose text the scanner recognizes is written by
/// `encode` as exactly that text unless it spells a negative zero, in
/// which case normalization turns it into the integer zero first; either
/// way `decode` hands the normal form back.
pub proof fn lemma_float_round_trip(t: Seq<char>, delim: Delimiter)
    requires
        float_document(t),
    ensures
        !crate::value::is_negative_zero_literal(t) ==> crate::value::norm(
            crate::value::Val::Float(t),
        ) == crate::value::Val::Float(t) && crate::writer::primitive_seq(
            crate::value::Val::Float(t),
            delim,
        ) == t,
        crate::value::is_negative_zero_literal(t) ==> crate::value::norm(
            crate::value::Val::Float(t),
        ) == crate::value::Val::Int(0) && scalar_document(
            crate::writer::primitive_seq(crate::value::Val::Int(0), delim),
        ) && crate::value::val_of(
            scalar_value(crate::writer::primitive_seq(crate::value::Val::Int(0), delim)),
        ) == crate::value::Val::Int(0),
{
    if crate::value::is_negative_zero_literal(t) {
        lemma_scalar_round_trip(crate::value::Val::Int(0), delim);
    }
}


/// The round trip for bare-word documents: a string that needs no quoting,
/// holds no space, and does not begin like a dash or a number is written
/// by `encode` as exactly itself, and is a bare word both under
/// auto-detection and under the same pinned delimiter — so by `decode`'s
/// contract it decodes back to the identical string.
pub proof fn lemma_bare_word_round_trip(x: Seq<char>, delim: Delimiter)
    requires
        !crate::quoting::spec_needs_quoting(x, crate::quoting::QuotingContext::Value, delim),
        !x.contains(' '),
        x.len() > 0 ==> x[0] != '-' && !crate::numbers::is_dec_digit(x[0]),
    ensures
        crate::writer::primitive_seq(crate::value::Val::Str(x), delim) == x,
        crate::value::norm(crate::value::Val::Str(x)) == crate::value::Val::Str(x),
        crate::scanner::bare_word(x, None),
        crate::scanner::bare_word(x, Some(delim)),
{
    assert(x.len() > 0);
    assert forall|j: int| 0 <= j < x.len() implies !crate::scanner::is_unq_stop(
        #[trigger] x[j],
        Some(delim),
    ) && !crate::scanner::is_unq_stop(x[j], None) by {
        if x[j] == ':' {
            assert(x.contains(':'));
        }
        if x[j] == '[' {
            assert(x.contains('['));
        }
        if x[j] == ']' {
            assert(x.contains(']'));
        }
        if x[j] == '{' {
            assert(x.contains('{'));
        }
        if x[j] == '}' {
            assert(x.contains('}'));
        }
        if x[j] == delim.spec_as_char() {
            assert(x.contains(delim.spec_as_char()));
        }
        if x[j] == ' ' {
            assert(x.contains(' '));
        }
        assert(x[j] != '\n') by {
            assert(!(crate::quoting::is_control_char(x[j]) || x[j] == '\\' || x[j] == '"'));
        }
    }
    assert(x[0] != '"') by {
        assert(!(crate::quoting::is_control_char(x[0]) || x[0] == '\\' || x[0] == '"'));
    }
    assert(!crate::constants::spec_is_keyword(x));
}

} // verus!
