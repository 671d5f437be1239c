//! The quoting and escaping engine: decides whether a string is ambiguous in
//! the current delimiter and context and must be quoted, and performs the
//! reversible backslash-escaping of control characters, quotes and
//! backslashes.

use vstd::prelude::*;

use crate::chars::chars_to_string;
use crate::chars::str_to_chars;
use crate::constants::spec_is_keyword;
use crate::types::Delimiter;

verus! {

/// Context for determining when quoting is needed.
#[derive(Debug, Clone, Copy, PartialEq, Eq, Structural)]
pub enum QuotingContext {
    Key,
    Value,
    Header,
}

/// The escaped spelling of one character: the five named escapes, or the
/// character itself.
pub open spec fn esc_char(c: char) -> Seq<char> {
    if c == '"' {
        seq!['\\', '"']
    } else if c == '\\' {
        seq!['\\', '\\']
    } else if c == '\n' {
        seq!['\\', 'n']
    } else if c == '\r' {
        seq!['\\', 'r']
    } else if c == '\t' {
        seq!['\\', 't']
    } else {
        seq![c]
    }
}

/// The character named by an escape pair, if `\` followed by `c` is one of
/// the five accepted escape sequences.
pub open spec fn unesc_char(c: char) -> Option<char> {
    if c == '"' {
        Some('"')
    } else if c == '\\' {
        Some('\\')
    } else if c == 'n' {
        Some('\n')
    } else if c == 'r' {
        Some('\r')
    } else if c == 't' {
        Some('\t')
    } else {
        None
    }
}

/// The escaped form of a string: each character replaced by its escaped
/// spelling.
pub open spec fn escape_seq(s: Seq<char>) -> Seq<char>
    decreases s.len(),
{
    if s.len() == 0 {
        Seq::empty()
    } else {
        esc_char(s[0]) + escape_seq(s.drop_first())
    }
}

/// The strict unescaping of a string: reverses exactly the five accepted
/// escape sequences and fails on any other use of a backslash.
pub open spec fn unescape_seq(s: Seq<char>) -> Option<Seq<char>>
    decreases s.len(),
{
    if s.len() == 0 {
        Some(Seq::empty())
    } else if s[0] == '\\' {
        if s.len() == 1 {
            None
        } else {
            match (unesc_char(s[1]), unescape_seq(s.skip(2))) {
                (Some(u), Some(rest)) => Some(seq![u] + rest),
                _ => None,
            }
        }
    } else {
        match unescape_seq(s.skip(1)) {
            Some(rest) => Some(seq![s[0]] + rest),
            None => None,
        }
    }
}

/// Escaping distributes over concatenation.
pub proof fn lemma_escape_append(a: Seq<char>, b: Seq<char>)
    ensures
        escape_seq(a + b) == escape_seq(a) + escape_seq(b),
    decreases a.len(),
{
    if a.len() == 0 {
        assert(a + b =~= b);
        assert(escape_seq(a) + escape_seq(b) =~= escape_seq(b));
    } else {
        lemma_escape_append(a.drop_first(), b);
        assert((a + b).drop_first() =~= a.drop_first() + b);
        assert((a + b)[0] == a[0]);
        assert(escape_seq(a + b) == esc_char(a[0]) + (escape_seq(a.drop_first()) + escape_seq(b)));
        assert(esc_char(a[0]) + (escape_seq(a.drop_first()) + escape_seq(b)) =~= (esc_char(a[0])
            + escape_seq(a.drop_first())) + escape_seq(b));
    }
}

/// Strict unescaping inverts escaping: whatever string is escaped, the
/// escaped text unescapes back to it.
pub proof fn lemma_unescape_escape(s: Seq<char>)
    ensures
        unescape_seq(escape_seq(s)) == Some(s),
    decreases s.len(),
{
    if s.len() == 0 {
        assert(unescape_seq(escape_seq(s)) == Some(Seq::<char>::empty()));
        assert(s =~= Seq::<char>::empty());
    } else {
        lemma_unescape_escape(s.drop_first());
        let c = s[0];
        let e = escape_seq(s);
        assert(e == esc_char(c) + escape_seq(s.drop_first()));
        if c == '"' || c == '\\' || c == '\n' || c == '\r' || c == '\t' {
            assert(esc_char(c).len() == 2);
            assert(e[0] == '\\');
            assert(unesc_char(e[1]) == Some(c));
            assert(e.skip(2) =~= escape_seq(s.drop_first()));
            assert(unescape_seq(e) == Some(seq![c] + s.drop_first()));
        } else {
            assert(esc_char(c) =~= seq![c]);
            assert(e[0] == c);
            assert(c != '\\');
            assert(e.skip(1) =~= escape_seq(s.drop_first()));
            assert(unescape_seq(e) == Some(seq![c] + s.drop_first()));
        }
        assert(seq![c] + s.drop_first() =~= s);
    }
}

/// Escape control characters, quotes, and backslashes in a string.
pub fn escape_string(s: &str) -> (r: String)
    ensures
        r@ == escape_seq(s@),
{
    let v = str_to_chars(s);
    let n = v.len();
    let mut out: Vec<char> = Vec::new();
    let mut i: usize = 0;
    while i < n
        invariant
            i <= n == v@.len(),
            v@ == s@,
            out@ == escape_seq(s@.take(i as int)),
        decreases n - i,
    {
        let c = v[i];
        match c {
            '"' => {
                out.push('\\');
                out.push('"');
            },
            '\\' => {
                out.push('\\');
                out.push('\\');
            },
            '\n' => {
                out.push('\\');
                out.push('n');
            },
            '\r' => {
                out.push('\\');
                out.push('r');
            },
            '\t' => {
                out.push('\\');
                out.push('t');
            },
            _ => {
                out.push(c);
            },
        }
        proof {
            let pre = s@.take(i as int);
            let cur = s@.take(i + 1);
            assert(cur =~= pre + seq![s@[i as int]]);
            lemma_escape_append(pre, seq![s@[i as int]]);
            assert(escape_seq(seq![s@[i as int]]) == esc_char(s@[i as int]) + escape_seq(
                seq![s@[i as int]].drop_first(),
            ));
            assert(seq![s@[i as int]].drop_first() =~= Seq::<char>::empty());
            assert(escape_seq(seq![s@[i as int]]) =~= esc_char(s@[i as int]));
            assert(out@ =~= escape_seq(pre) + esc_char(s@[i as int]));
        }
        i = i + 1;
    }
    proof {
        assert(s@.take(n as int) =~= s@);
    }
    chars_to_string(&out)
}

/// Prefixing an already-unescaped run onto the result of unescaping the rest.
pub open spec fn opt_prepend(p: Seq<char>, o: Option<Seq<char>>) -> Option<Seq<char>> {
    match o {
        Some(r) => Some(p + r),
        None => None,
    }
}

/// Reverse the escaping of `escape_string`. Any backslash followed by a
/// character outside the five accepted escapes is an error, as is a trailing
/// backslash.
pub fn unescape_string(s: &str) -> (r: Result<String, String>)
    ensures
        match r {
            Ok(u) => unescape_seq(s@) == Some(u@),
            Err(_) => unescape_seq(s@) is None,
        },
{
    let v = str_to_chars(s);
    let n = v.len();
    let mut out: Vec<char> = Vec::new();
    let mut i: usize = 0;
    proof {
        assert(s@.skip(0) =~= s@);
        match unescape_seq(s@) {
            Some(u) => {
                assert(Seq::<char>::empty() + u =~= u);
            },
            None => {},
        }
    }
    while i < n
        invariant
            i <= n == v@.len(),
            v@ == s@,
            unescape_seq(s@) == opt_prepend(out@, unescape_seq(s@.skip(i as int))),
        decreases n - i,
    {
        let ghost rest = s@.skip(i as int);
        proof {
            assert(rest.len() == n - i);
            assert(rest[0] == s@[i as int]);
        }
        let c = v[i];
        if c == '\\' {
            if i + 1 >= n {
                proof {
                    assert(rest.len() == 1);
                    assert(unescape_seq(rest) is None);
                }
                return Err(unterminated_escape_message());
            }
            let e = v[i + 1];
            proof {
                assert(rest[1] == s@[i + 1]);
                assert(rest.skip(2) =~= s@.skip(i + 2));
            }
            let u: char = match e {
                '"' => '"',
                '\\' => '\\',
                'n' => '\n',
                'r' => '\r',
                't' => '\t',
                _ => {
                    proof {
                        assert(unesc_char(rest[1]) is None);
                        assert(unescape_seq(rest) is None);
                    }
                    return Err(invalid_escape_message(e));
                },
            };
            out.push(u);
            proof {
                assert(unesc_char(rest[1]) == Some(u));
                assert(unescape_seq(rest) == opt_prepend(seq![u], unescape_seq(s@.skip(i + 2))));
                match unescape_seq(s@.skip(i + 2)) {
                    Some(tail) => {
                        assert(out@ + tail =~= out@.drop_last() + (seq![u] + tail));
                    },
                    None => {},
                }
            }
            i = i + 2;
        } else {
            out.push(c);
            proof {
                assert(rest.skip(1) =~= s@.skip(i + 1));
                assert(unescape_seq(rest) == opt_prepend(seq![c], unescape_seq(s@.skip(i + 1))));
                match unescape_seq(s@.skip(i + 1)) {
                    Some(tail) => {
                        assert(out@ + tail =~= out@.drop_last() + (seq![c] + tail));
                    },
                    None => {},
                }
            }
            i = i + 1;
        }
    }
    proof {
        assert(s@.skip(n as int) =~= Seq::<char>::empty());
        assert(unescape_seq(s@) == Some(out@ + Seq::<char>::empty()));
        assert(out@ + Seq::<char>::empty() =~= out@);
    }
    Ok(chars_to_string(&out))
}

/// The message reported for a backslash that ends the input.
fn unterminated_escape_message() -> String
{
    let mut v: Vec<char> = Vec::new();
    push_str_chars(&mut v, "Unterminated escape sequence");
    chars_to_string(&v)
}

/// The message reported for an unknown escape pair.
fn invalid_escape_message(e: char) -> String
{
    let mut v: Vec<char> = Vec::new();
    push_str_chars(&mut v, "Invalid escape sequence: \\");
    v.push(e);
    chars_to_string(&v)
}

/// Appends the characters of a borrowed string to a buffer.
pub fn push_str_chars(out: &mut Vec<char>, s: &str)
    ensures
        final(out)@ == old(out)@ + s@,
{
    let v = str_to_chars(s);
    let n = v.len();
    let mut i: usize = 0;
    while i < n
        invariant
            i <= n == v@.len(),
            v@ == s@,
            out@ == old(out)@ + s@.take(i as int),
        decreases n - i,
    {
        out.push(v[i]);
        proof {
            assert(old(out)@ + s@.take(i + 1) =~= (old(out)@ + s@.take(i as int)).push(
                s@[i as int],
            ));
        }
        i = i + 1;
    }
    proof {
        assert(s@.take(n as int) =~= s@);
    }
}

/// The Unicode White_Space characters, as the standard library's trimming
/// sees them.
pub open spec fn is_unicode_ws(c: char) -> bool {
    ||| ('\u{09}' <= c && c <= '\u{0D}')
    ||| c == ' '
    ||| c == '\u{85}'
    ||| c == '\u{A0}'
    ||| c == '\u{1680}'
    ||| ('\u{2000}' <= c && c <= '\u{200A}')
    ||| c == '\u{2028}'
    ||| c == '\u{2029}'
    ||| c == '\u{202F}'
    ||| c == '\u{205F}'
    ||| c == '\u{3000}'
}

/// The exec counterpart of `is_unicode_ws`.
#[verifier::when_used_as_spec(is_unicode_ws)]
pub fn unicode_ws(c: char) -> (r: bool)
    ensures
        r == is_unicode_ws(c),
{
    ('\u{09}' <= c && c <= '\u{0D}') || c == ' ' || c == '\u{85}' || c == '\u{A0}' || c
        == '\u{1680}' || ('\u{2000}' <= c && c <= '\u{200A}') || c == '\u{2028}' || c == '\u{2029}'
        || c == '\u{202F}' || c == '\u{205F}' || c == '\u{3000}'
}

/// The Unicode control characters (category Cc).
pub open spec fn is_control_char(c: char) -> bool {
    c <= '\u{1F}' || ('\u{7F}' <= c && c <= '\u{9F}')
}

/// The exec counterpart of `is_control_char`.
#[verifier::when_used_as_spec(is_control_char)]
pub fn control_char(c: char) -> (r: bool)
    ensures
        r == is_control_char(c),
{
    c <= '\u{1F}' || ('\u{7F}' <= c && c <= '\u{9F}')
}

/// A character that may stand in a numeric-looking run: a digit, a dot, an
/// exponent marker, or a sign.
pub open spec fn is_num_char(c: char) -> bool {
    crate::numbers::is_dec_digit(c) || c == '.' || c == 'e' || c == 'E' || c == '+' || c == '-'
}

/// The exec counterpart of `is_num_char`.
#[verifier::when_used_as_spec(is_num_char)]
pub fn num_char(c: char) -> (r: bool)
    ensures
        r == is_num_char(c),
{
    crate::numbers::dec_digit(c) || c == '.' || c == 'e' || c == 'E' || c == '+' || c == '-'
}

/// Text that matches the numeric-literal grammar: an optional minus sign,
/// digits with no leading zero before another digit, at most a single dot,
/// and an optional well-formed exponent — so no stray dots or signs.
pub open spec fn spec_is_numeric_like(s: Seq<char>) -> bool {
    let i: int = if s.len() > 0 && s[0] == '-' {
        1
    } else {
        0
    };
    &&& i < s.len()
    &&& crate::numbers::is_dec_digit(s[i])
    &&& !(s[i] == '0' && i + 1 < s.len() && crate::numbers::is_dec_digit(s[i + 1]))
    &&& crate::numbers::float_accept(crate::numbers::float_run(s.skip(i)))
}

/// Whether the characters of `v` match the numeric-literal grammar.
fn numeric_like_chars(v: &Vec<char>) -> (r: bool)
    ensures
        r == spec_is_numeric_like(v@),
{
    let n = v.len();
    if n == 0 {
        return false;
    }
    let start: usize = if v[0] == '-' {
        1
    } else {
        0
    };
    if start >= n {
        return false;
    }
    if !crate::numbers::dec_digit(v[start]) {
        return false;
    }
    if v[start] == '0' && start + 1 < n && crate::numbers::dec_digit(v[start + 1]) {
        return false;
    }
    crate::numbers::float_body_accepts(v, start)
}

/// Check whether a string matches the numeric-literal grammar used by the
/// quoting rules (no leading zeros, no trailing sign).
pub fn is_numeric_like(s: &str) -> (r: bool)
    ensures
        r == spec_is_numeric_like(s@),
{
    let v = str_to_chars(s);
    numeric_like_chars(&v)
}

/// Text that spells a keyword or resembles a numeric literal.
pub open spec fn spec_is_literal_like(s: Seq<char>) -> bool {
    spec_is_keyword(s) || spec_is_numeric_like(s)
}

/// Check whether a string would be mistaken for a literal when left
/// unquoted: a keyword or something numeric-looking.
pub fn is_literal_like(s: &str) -> (r: bool)
    ensures
        r == spec_is_literal_like(s@),
{
    crate::constants::is_keyword(s) || is_numeric_like(s)
}

/// Whether `v` holds the character `c`.
pub fn contains_char(v: &Vec<char>, c: char) -> (r: bool)
    ensures
        r == v@.contains(c),
{
    let n = v.len();
    let mut i: usize = 0;
    while i < n
        invariant
            i <= n == v@.len(),
            forall|j: int| 0 <= j < i ==> v@[j] != c,
        decreases n - i,
    {
        if v[i] == c {
            proof {
                assert(v@[i as int] == c);
            }
            return true;
        }
        i = i + 1;
    }
    false
}

/// Whether `v` holds a control character, a backslash, or a double quote.
fn contains_forbidden(v: &Vec<char>) -> (r: bool)
    ensures
        r == exists|j: int|
            0 <= j < v@.len() && (is_control_char(#[trigger] v@[j]) || v@[j] == '\\' || v@[j]
                == '"'),
{
    let n = v.len();
    let mut i: usize = 0;
    while i < n
        invariant
            i <= n == v@.len(),
            forall|j: int|
                0 <= j < i ==> !(is_control_char(#[trigger] v@[j]) || v@[j] == '\\' || v@[j]
                    == '"'),
        decreases n - i,
    {
        let c = v[i];
        if control_char(c) || c == '\\' || c == '"' {
            proof {
                assert(is_control_char(v@[i as int]) || v@[i as int] == '\\' || v@[i as int]
                    == '"');
            }
            return true;
        }
        i = i + 1;
    }
    false
}

/// When a string must be quoted: it is empty, carries leading or trailing
/// whitespace, resembles a literal, holds a bracket, brace, colon or the
/// active delimiter, holds a control character, backslash or quote, or — in
/// value context — collides with the nested-array dash marker.
pub open spec fn spec_needs_quoting(
    s: Seq<char>,
    context: QuotingContext,
    delimiter: Delimiter,
) -> bool {
    ||| s.len() == 0
    ||| (s.len() > 0 && (is_unicode_ws(s[0]) || is_unicode_ws(s.last())))
    ||| spec_is_literal_like(s)
    ||| s.contains('[')
    ||| s.contains(']')
    ||| s.contains('{')
    ||| s.contains('}')
    ||| s.contains(':')
    ||| s.contains(delimiter.spec_as_char())
    ||| (exists|j: int|
        0 <= j < s.len() && (is_control_char(#[trigger] s[j]) || s[j] == '\\' || s[j] == '"'))
    ||| (context is Value && (s == seq!['-'] || (s.len() >= 2 && s[0] == '-' && s[1] == ' ')))
}

/// Decide whether a string is ambiguous in the given context and delimiter
/// regime and must be written quoted.
pub fn needs_quoting(s: &str, context: QuotingContext, delimiter: Delimiter) -> (r: bool)
    ensures
        r == spec_needs_quoting(s@, context, delimiter),
{
    let v = str_to_chars(s);
    let n = v.len();
    if n == 0 {
        return true;
    }
    if unicode_ws(v[0]) || unicode_ws(v[n - 1]) {
        return true;
    }
    if numeric_like_chars(&v) {
        return true;
    }
    if crate::constants::is_keyword(s) {
        return true;
    }
    if contains_char(&v, '[') || contains_char(&v, ']') || contains_char(&v, '{') || contains_char(
        &v,
        '}',
    ) {
        return true;
    }
    if contains_char(&v, ':') {
        return true;
    }
    if contains_char(&v, delimiter.as_char()) {
        return true;
    }
    if contains_forbidden(&v) {
        return true;
    }
    if matches!(context, QuotingContext::Value) {
        if n == 1 && v[0] == '-' {
            proof {
                assert(s@ =~= seq!['-']);
            }
            return true;
        }
        if n >= 2 && v[0] == '-' && v[1] == ' ' {
            return true;
        }
    }
    false
}

/// A string wrapped in double quotes with its content escaped.
pub open spec fn quoted_seq(s: Seq<char>) -> Seq<char> {
    seq!['"'] + escape_seq(s) + seq!['"']
}

/// Wrap a string in double quotes, escaping its content.
pub fn format_quoted_string(s: &str) -> (r: String)
    ensures
        r@ == quoted_seq(s@),
{
    let mut out: Vec<char> = Vec::new();
    out.push('"');
    let escaped = escape_string(s);
    push_str_chars(&mut out, escaped.as_str());
    out.push('"');
    proof {
        assert(out@ =~= quoted_seq(s@));
    }
    chars_to_string(&out)
}

} // verus!
