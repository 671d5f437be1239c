//! Plain string utilities of the notation: the lenient unescaping used on
//! the reading side, a quoting test that assumes value position, and a
//! quote-aware delimiter splitter.

use vstd::prelude::*;

use crate::chars::chars_to_string;
use crate::chars::str_to_chars;
use crate::quoting::is_unicode_ws;
use crate::quoting::unesc_char;
use crate::types::Delimiter;

pub use crate::quoting::escape_string;

verus! {

/// The lenient unescaping of a string: the five accepted escape pairs are
/// folded, any other backslash pair is kept as two characters, and a
/// trailing backslash is kept as itself.
pub open spec fn lenient_unescape_seq(s: Seq<char>) -> Seq<char>
    decreases s.len(),
{
    if s.len() == 0 {
        Seq::empty()
    } else if s[0] == '\\' {
        if s.len() == 1 {
            seq!['\\']
        } else {
            match unesc_char(s[1]) {
                Some(u) => seq![u] + lenient_unescape_seq(s.skip(2)),
                None => seq!['\\', s[1]] + lenient_unescape_seq(s.skip(2)),
            }
        }
    } else {
        seq![s[0]] + lenient_unescape_seq(s.skip(1))
    }
}

/// Reverse the escaping of `escape_string`, leniently: unknown escape
/// pairs pass through unchanged instead of failing.
pub fn unescape_string(s: &str) -> (r: String)
    ensures
        r@ == lenient_unescape_seq(s@),
{
    let v = str_to_chars(s);
    let n = v.len();
    let mut out: Vec<char> = Vec::new();
    let mut i: usize = 0;
    proof {
        assert(s@.skip(0) =~= s@);
    }
    while i < n
        invariant
            i <= n == v@.len(),
            v@ == s@,
            lenient_unescape_seq(s@) == out@ + lenient_unescape_seq(s@.skip(i as int)),
        decreases n - i,
    {
        let ghost rest = s@.skip(i as int);
        proof {
            assert(rest.len() == n - i);
            assert(rest[0] == s@[i as int]);
        }
        let c = v[i];
        if c == '\\' {
            if i + 1 >= n {
                out.push('\\');
                proof {
                    assert(rest.len() == 1);
                    assert(lenient_unescape_seq(rest) =~= seq!['\\']);
                    assert(out@ + lenient_unescape_seq(s@.skip(i + 1)) =~= out@.drop_last() + (seq![
                        '\\',
                    ] + lenient_unescape_seq(s@.skip(i + 1))));
                    assert(s@.skip(i + 1) =~= Seq::<char>::empty());
                }
                i = i + 1;
            } else {
                let e = v[i + 1];
                proof {
                    assert(rest[1] == s@[i + 1]);
                    assert(rest.skip(2) =~= s@.skip(i + 2));
                }
                match e {
                    '"' => out.push('"'),
                    '\\' => out.push('\\'),
                    'n' => out.push('\n'),
                    'r' => out.push('\r'),
                    't' => out.push('\t'),
                    _ => {
                        out.push('\\');
                        out.push(e);
                    },
                }
                proof {
                    let tail = lenient_unescape_seq(s@.skip(i + 2));
                    match unesc_char(e) {
                        Some(u) => {
                            assert(lenient_unescape_seq(rest) == seq![u] + tail);
                            assert(out@ + tail =~= out@.drop_last() + (seq![u] + tail));
                        },
                        None => {
                            assert(lenient_unescape_seq(rest) == seq!['\\', e] + tail);
                            assert(out@ + tail =~= out@.drop_last().drop_last() + (seq!['\\', e]
                                + tail));
                        },
                    }
                }
                i = i + 2;
            }
        } else {
            out.push(c);
            proof {
                assert(rest.skip(1) =~= s@.skip(i + 1));
                let tail = lenient_unescape_seq(s@.skip(i + 1));
                assert(lenient_unescape_seq(rest) == seq![c] + tail);
                assert(out@ + tail =~= out@.drop_last() + (seq![c] + tail));
            }
            i = i + 1;
        }
    }
    proof {
        assert(s@.skip(n as int) =~= Seq::<char>::empty());
        assert(out@ + lenient_unescape_seq(Seq::<char>::empty()) =~= out@);
    }
    chars_to_string(&out)
}

/// Lenient unescaping also inverts escaping: the reading side recovers
/// whatever string the writing side escaped.
pub proof fn lemma_lenient_unescape_escape(s: Seq<char>)
    ensures
        lenient_unescape_seq(crate::quoting::escape_seq(s)) == s,
    decreases s.len(),
{
    if s.len() == 0 {
        assert(crate::quoting::escape_seq(s) =~= Seq::<char>::empty());
        assert(lenient_unescape_seq(Seq::<char>::empty()) =~= s);
    } else {
        lemma_lenient_unescape_escape(s.drop_first());
        let c = s[0];
        let e = crate::quoting::escape_seq(s);
        assert(e == crate::quoting::esc_char(c) + crate::quoting::escape_seq(s.drop_first()));
        if c == '"' || c == '\\' || c == '\n' || c == '\r' || c == '\t' {
            assert(crate::quoting::esc_char(c).len() == 2);
            assert(e[0] == '\\');
            assert(unesc_char(e[1]) == Some(c));
            assert(e.skip(2) =~= crate::quoting::escape_seq(s.drop_first()));
            assert(lenient_unescape_seq(e) == seq![c] + s.drop_first());
        } else {
            assert(crate::quoting::esc_char(c) =~= seq![c]);
            assert(e[0] == c);
            assert(c != '\\');
            assert(e.skip(1) =~= crate::quoting::escape_seq(s.drop_first()));
            assert(lenient_unescape_seq(e) == seq![c] + s.drop_first());
        }
        assert(seq![c] + s.drop_first() =~= s);
    }
}

/// Whether the string must be quoted, without a caller-supplied context:
/// the value-context rules — empty, leading or trailing whitespace,
/// literal-like, a bracket, brace or colon, the delimiter, a control
/// character, backslash or quote, or a dash-marker collision.
pub fn needs_quoting(s: &str, delimiter: Delimiter) -> (r: bool)
    ensures
        r == crate::quoting::spec_needs_quoting(
            s@,
            crate::quoting::QuotingContext::Value,
            delimiter,
        ),
{
    crate::quoting::needs_quoting(s, crate::quoting::QuotingContext::Value, delimiter)
}

/// Wrap a string in double quotes with its content escaped.
pub fn quote_string(s: &str) -> (r: String)
    ensures
        r@ == crate::quoting::quoted_seq(s@),
{
    crate::quoting::format_quoted_string(s)
}

/// The text with leading whitespace removed.
pub open spec fn trim_start_ws(s: Seq<char>) -> Seq<char>
    decreases s.len(),
{
    if s.len() > 0 && is_unicode_ws(s[0]) {
        trim_start_ws(s.drop_first())
    } else {
        s
    }
}

/// The text with whitespace removed on both sides.
pub open spec fn trim_ws(s: Seq<char>) -> Seq<char> {
    crate::scanner::trim_end_ws(trim_start_ws(s))
}

/// A copy of the characters with whitespace trimmed on both sides.
fn trim_chars(v: &Vec<char>) -> (r: Vec<char>)
    ensures
        r@ == trim_ws(v@),
{
    let n = v.len();
    let mut a: usize = 0;
    proof {
        assert(v@.skip(0) =~= v@);
    }
    while a < n && crate::quoting::unicode_ws(v[a])
        invariant
            a <= n == v@.len(),
            trim_start_ws(v@) == trim_start_ws(v@.skip(a as int)),
        decreases n - a,
    {
        proof {
            assert(v@.skip(a as int)[0] == v@[a as int]);
            assert(v@.skip(a as int).drop_first() =~= v@.skip(a + 1));
        }
        a = a + 1;
    }
    proof {
        assert(trim_start_ws(v@.skip(a as int)) == v@.skip(a as int));
    }
    let ghost t = v@.skip(a as int);
    let mut b: usize = n;
    proof {
        assert(t.take(n - a) =~= t);
    }
    while b > a && crate::quoting::unicode_ws(v[b - 1])
        invariant
            a <= b <= n == v@.len(),
            t == v@.skip(a as int),
            crate::scanner::trim_end_ws(t) == crate::scanner::trim_end_ws(t.take(b - a)),
        decreases b,
    {
        proof {
            let cur = t.take(b - a);
            assert(cur.last() == v@[b - 1]);
            assert(cur.drop_last() =~= t.take(b - 1 - a));
        }
        b = b - 1;
    }
    proof {
        let cur = t.take(b - a);
        if b > a {
            assert(cur.last() == v@[b - 1]);
        }
        assert(crate::scanner::trim_end_ws(cur) == cur);
    }
    let mut out: Vec<char> = Vec::new();
    let mut i: usize = a;
    while i < b
        invariant
            a <= i <= b <= n == v@.len(),
            out@ == v@.subrange(a as int, i as int),
        decreases b - i,
    {
        out.push(v[i]);
        proof {
            assert(v@.subrange(a as int, i + 1) =~= v@.subrange(a as int, i as int).push(
                v@[i as int],
            ));
        }
        i = i + 1;
    }
    proof {
        assert(out@ =~= t.take(b - a));
    }
    out
}

/// One step of the splitter: track quoted stretches, cut at the delimiter
/// outside quotes (trimming the finished piece), and otherwise grow the
/// current piece.
pub open spec fn split_step(
    st: (Seq<Seq<char>>, Seq<char>, bool),
    c: char,
    d: char,
) -> (Seq<Seq<char>>, Seq<char>, bool) {
    if c == '"' && (st.1.len() == 0 || st.1.last() != '\\') {
        (st.0, st.1.push(c), !st.2)
    } else if c == d && !st.2 {
        (st.0.push(trim_ws(st.1)), Seq::empty(), st.2)
    } else {
        (st.0, st.1.push(c), st.2)
    }
}

/// The splitter's state after reading all of `s`.
pub open spec fn split_run(s: Seq<char>, d: char) -> (Seq<Seq<char>>, Seq<char>, bool)
    decreases s.len(),
{
    if s.len() == 0 {
        (Seq::empty(), Seq::empty(), false)
    } else {
        split_step(split_run(s.drop_last(), d), s.last(), d)
    }
}

/// The pieces of `s` split at the delimiter: quoted stretches are kept
/// whole, each piece is whitespace-trimmed, and a last empty piece is
/// dropped.
pub open spec fn spec_split(s: Seq<char>, d: char) -> Seq<Seq<char>> {
    let st = split_run(s, d);
    if st.1.len() > 0 {
        st.0.push(trim_ws(st.1))
    } else {
        st.0
    }
}

/// Split a line at the delimiter, honoring double quotes, and trim each
/// piece.
pub fn split_by_delimiter(s: &str, delimiter: Delimiter) -> (r: Vec<String>)
    ensures
        r@.len() == spec_split(s@, delimiter.spec_as_char()).len(),
        forall|j: int|
            0 <= j < r@.len() ==> (#[trigger] r@[j])@ == spec_split(
                s@,
                delimiter.spec_as_char(),
            )[j],
{
    let v = str_to_chars(s);
    let d = delimiter.as_char();
    let n = v.len();
    let mut result: Vec<String> = Vec::new();
    let mut current: Vec<char> = Vec::new();
    let mut in_quotes = false;
    let mut i: usize = 0;
    while i < n
        invariant
            i <= n == v@.len(),
            v@ == s@,
            d == delimiter.spec_as_char(),
            result@.len() == split_run(s@.take(i as int), d).0.len(),
            forall|j: int|
                0 <= j < result@.len() ==> (#[trigger] result@[j])@ == split_run(
                    s@.take(i as int),
                    d,
                ).0[j],
            current@ == split_run(s@.take(i as int), d).1,
            in_quotes == split_run(s@.take(i as int), d).2,
        decreases n - i,
    {
        let ghost pre = s@.take(i as int);
        let ghost st0 = split_run(pre, d);
        let c = v[i];
        let mut is_quote_toggle = false;
        if c == '"' {
            if current.len() == 0 {
                is_quote_toggle = true;
            } else if !(current[current.len() - 1] == '\\') {
                is_quote_toggle = true;
            }
        }
        if is_quote_toggle {
            current.push(c);
            in_quotes = !in_quotes;
        } else if c == d && !in_quotes {
            let piece = trim_chars(&current);
            result.push(chars_to_string(&piece));
            current = Vec::new();
        } else {
            current.push(c);
        }
        proof {
            let cur = s@.take(i + 1);
            assert(cur.drop_last() =~= pre);
            assert(cur.last() == s@[i as int]);
            assert(split_run(cur, d) == split_step(st0, s@[i as int], d));
            if st0.1.len() > 0 {
                assert(st0.1.last() == st0.1[st0.1.len() - 1]);
            }
        }
        i = i + 1;
    }
    proof {
        assert(s@.take(n as int) =~= s@);
    }
    if current.len() > 0 {
        let piece = trim_chars(&current);
        result.push(chars_to_string(&piece));
    }
    result
}

} // verus!
