//! The writer: emission of text for a classified tree, handling indentation
//! levels, array headers, delimiters, and quoting.

use vstd::prelude::*;

use crate::chars::chars_to_string;
use crate::numbers::int_digits;
use crate::numbers::push_int_digits;
use crate::quoting::escape_string;
use crate::quoting::needs_quoting;
use crate::quoting::push_str_chars;
use crate::quoting::quoted_seq;
use crate::quoting::spec_needs_quoting;
use crate::quoting::QuotingContext;
use crate::types::Delimiter;
use crate::types::EncodeOptions;
use crate::value::Value;

verus! {

/// The indent text repeated once per nesting level.
pub open spec fn repeat_seq(s: Seq<char>, n: nat) -> Seq<char>
    decreases n,
{
    if n == 0 {
        Seq::empty()
    } else {
        repeat_seq(s, (n - 1) as nat) + s
    }
}

/// A string as written in value position: quoted when ambiguous.
pub open spec fn value_str_seq(s: Seq<char>, delim: Delimiter) -> Seq<char> {
    if spec_needs_quoting(s, QuotingContext::Value, delim) {
        quoted_seq(s)
    } else {
        s
    }
}

/// A string as written in key position: quoted when ambiguous.
pub open spec fn key_seq(s: Seq<char>, delim: Delimiter) -> Seq<char> {
    if spec_needs_quoting(s, QuotingContext::Key, delim) {
        quoted_seq(s)
    } else {
        s
    }
}

/// A field name as written inside a tabular header: quoted when ambiguous.
pub open spec fn header_field_seq(s: Seq<char>, delim: Delimiter) -> Seq<char> {
    if spec_needs_quoting(s, QuotingContext::Header, delim) {
        quoted_seq(s)
    } else {
        s
    }
}

/// A primitive value's text: the keyword, the number's digits, or the
/// possibly quoted string.
pub open spec fn primitive_seq(v: crate::value::Val, delim: Delimiter) -> Seq<char> {
    match v {
        crate::value::Val::Null => "null"@,
        crate::value::Val::Bool(b) => if b {
            "true"@
        } else {
            "false"@
        },
        crate::value::Val::Int(i) => int_digits(i),
        crate::value::Val::Float(t) => t,
        crate::value::Val::Str(s) => value_str_seq(s, delim),
        _ => Seq::empty(),
    }
}

/// The field list of a tabular header: the names, delimiter-separated,
/// wrapped in braces (this is the brace-inner joined part).
pub open spec fn field_join_seq(fields: Seq<Seq<char>>, delim: Delimiter) -> Seq<char>
    decreases fields.len(),
{
    if fields.len() == 0 {
        Seq::empty()
    } else if fields.len() == 1 {
        header_field_seq(fields[0], delim)
    } else {
        field_join_seq(fields.drop_last(), delim) + seq![delim.spec_as_char()]
            + header_field_seq(fields.last(), delim)
    }
}

/// The character sequences of a list of strings.
pub open spec fn strs_view(fields: Seq<String>) -> Seq<Seq<char>> {
    Seq::new(fields.len(), |i: int| fields[i]@)
}

/// A whole array header: the optional key, the bracketed length with the
/// optional marker and non-comma delimiter character, the optional brace
/// list of fields, and the closing colon.
pub open spec fn header_seq(
    key: Option<Seq<char>>,
    length: nat,
    fields: Option<Seq<Seq<char>>>,
    opts: EncodeOptions,
) -> Seq<char> {
    (match key {
        Some(k) => key_seq(k, opts.delimiter),
        None => Seq::empty(),
    }) + seq!['['] + opts.spec_format_length(length) + (if opts.delimiter is Comma {
        Seq::empty()
    } else {
        seq![opts.delimiter.spec_as_char()]
    }) + seq![']'] + (match fields {
        Some(f) => seq!['{'] + field_join_seq(f, opts.delimiter) + seq!['}'],
        None => Seq::empty(),
    }) + seq![':']
}

/// Stateless accumulating emitter for one encode call.
pub struct Writer {
    output: Vec<char>,
    options: EncodeOptions,
}

impl Writer {
    /// The text emitted so far.
    pub closed spec fn out(&self) -> Seq<char> {
        self.output@
    }

    /// The options this writer was built with.
    pub closed spec fn opts(&self) -> EncodeOptions {
        self.options
    }

    /// The delimiter the writer separates siblings with.
    pub open spec fn delim(&self) -> Delimiter {
        self.opts().delimiter
    }

    /// Build a writer with empty output.
    pub fn new(options: EncodeOptions) -> (r: Self)
        ensures
            r.out() == Seq::<char>::empty(),
            r.opts() == options,
    {
        Writer { output: Vec::new(), options }
    }

    /// Append a raw string.
    pub fn write_str(&mut self, s: &str) -> (r: crate::error::ToonResult<()>)
        ensures
            final(self).opts() == old(self).opts(),
            final(self).out() == old(self).out() + s@,
            r is Ok,
    {
        push_str_chars(&mut self.output, s);
        Ok(())
    }

    /// Append the active delimiter character.
    pub fn write_delimiter(&mut self) -> (r: crate::error::ToonResult<()>)
        ensures
            final(self).opts() == old(self).opts(),
            final(self).out() == old(self).out() + seq![old(self).delim().spec_as_char()],
            r is Ok,
    {
        let c = self.options.delimiter.as_char();
        self.output.push(c);
        Ok(())
    }

    /// Append a line break.
    pub fn write_newline(&mut self) -> (r: crate::error::ToonResult<()>)
        ensures
            final(self).opts() == old(self).opts(),
            final(self).out() == old(self).out() + seq!['\n'],
            r is Ok,
    {
        self.output.push('\n');
        Ok(())
    }

    /// Append the indent text once per nesting level.
    pub fn write_indent(&mut self, level: usize) -> (r: crate::error::ToonResult<()>)
        ensures
            final(self).opts() == old(self).opts(),
            final(self).out() == old(self).out() + repeat_seq(
                old(self).opts().indent@,
                level as nat,
            ),
            r is Ok,
    {
        let mut i: usize = 0;
        let ghost start = self.out();
        let ghost ind = self.opts().indent@;
        while i < level
            invariant
                i <= level,
                self.opts() == old(self).opts(),
                ind == self.opts().indent@,
                self.out() == start + repeat_seq(ind, i as nat),
                start == old(self).out(),
            decreases level - i,
        {
            let piece = self.options.indent.clone();
            push_str_chars(&mut self.output, piece.as_str());
            i = i + 1;
        }
        proof {
            assert(self.out() =~= old(self).out() + repeat_seq(ind, i as nat));
        }
        Ok(())
    }

    /// Append the null keyword.
    pub fn write_null(&mut self) -> (r: crate::error::ToonResult<()>)
        ensures
            final(self).opts() == old(self).opts(),
            final(self).out() == old(self).out() + "null"@,
            r is Ok,
    {
        self.write_str("null")
    }

    /// Append a boolean keyword.
    pub fn write_bool(&mut self, b: bool) -> (r: crate::error::ToonResult<()>)
        ensures
            final(self).opts() == old(self).opts(),
            final(self).out() == old(self).out() + if b {
                "true"@
            } else {
                "false"@
            },
            r is Ok,
    {
        if b {
            self.write_str("true")
        } else {
            self.write_str("false")
        }
    }

    /// Append a number: an integer's decimal digits, or a floating
    /// number's literal text.
    pub fn write_number(&mut self, value: &Value) -> (r: crate::error::ToonResult<()>)
        requires
            value@ is Int || value@ is Float,
        ensures
            final(self).opts() == old(self).opts(),
            final(self).out() == old(self).out() + primitive_seq(value@, old(self).delim()),
            r is Ok,
    {
        match value {
            Value::Int(i) => {
                push_int_digits(*i, &mut self.output);
                Ok(())
            },
            Value::Float(t) => self.write_str(t.as_str()),
            _ => Ok(()),
        }
    }

    /// Append a string in value position, quoting it when ambiguous.
    pub fn write_string(&mut self, s: &str, _depth: usize) -> (r: crate::error::ToonResult<()>)
        ensures
            final(self).opts() == old(self).opts(),
            final(self).out() == old(self).out() + value_str_seq(s@, old(self).delim()),
            r is Ok,
    {
        if needs_quoting(s, QuotingContext::Value, self.options.delimiter) {
            self.write_quoted_string(s)
        } else {
            self.write_str(s)
        }
    }

    /// Append a string quoted and escaped, whatever it holds.
    pub fn write_quoted_string(&mut self, s: &str) -> (r: crate::error::ToonResult<()>)
        ensures
            final(self).opts() == old(self).opts(),
            final(self).out() == old(self).out() + quoted_seq(s@),
            r is Ok,
    {
        self.output.push('"');
        let escaped = escape_string(s);
        push_str_chars(&mut self.output, escaped.as_str());
        self.output.push('"');
        proof {
            assert(self.out() =~= old(self).out() + quoted_seq(s@));
        }
        Ok(())
    }

    /// Whether a string would be quoted in value position.
    pub fn needs_quoting(&self, s: &str) -> (r: bool)
        ensures
            r == spec_needs_quoting(s@, QuotingContext::Value, self.delim()),
    {
        needs_quoting(s, QuotingContext::Value, self.options.delimiter)
    }

    /// Append a string in key position, quoting it when ambiguous.
    pub fn write_key(&mut self, key: &str) -> (r: crate::error::ToonResult<()>)
        ensures
            final(self).opts() == old(self).opts(),
            final(self).out() == old(self).out() + key_seq(key@, old(self).delim()),
            r is Ok,
    {
        if needs_quoting(key, QuotingContext::Key, self.options.delimiter) {
            self.write_quoted_string(key)
        } else {
            self.write_str(key)
        }
    }

    /// Append a whole array header.
    #[verifier::rlimit(60)]
    pub fn write_array_header(
        &mut self,
        key: Option<&str>,
        length: usize,
        fields: Option<&Vec<String>>,
        _depth: usize,
    ) -> (r: crate::error::ToonResult<()>)
        ensures
            final(self).opts() == old(self).opts(),
            final(self).out() == old(self).out() + header_seq(
                match key {
                    Some(k) => Some(k@),
                    None => None,
                },
                length as nat,
                match fields {
                    Some(f) => Some(strs_view(f@)),
                    None => None,
                },
                old(self).opts(),
            ),
            r is Ok,
    {
        if let Some(k) = key {
            self.write_key(k)?;
        }
        self.output.push('[');
        let formatted = self.options.format_length(length);
        push_str_chars(&mut self.output, formatted.as_str());
        if !matches!(self.options.delimiter, Delimiter::Comma) {
            let c = self.options.delimiter.as_char();
            self.output.push(c);
        }
        self.output.push(']');
        if let Some(field_list) = fields {
            self.write_field_list(field_list)?;
        }
        self.output.push(':');
        proof {
            assert(self.out() =~= old(self).out() + header_seq(
                match key {
                    Some(k) => Some(k@),
                    None => None,
                },
                length as nat,
                match fields {
                    Some(f) => Some(strs_view(f@)),
                    None => None,
                },
                old(self).opts(),
            ));
        }
        Ok(())
    }

    /// Append the header of an empty array.
    pub fn write_empty_array_with_key(&mut self, key: Option<&str>) -> (r: crate::error::ToonResult<
        (),
    >)
        ensures
            final(self).opts() == old(self).opts(),
            final(self).out() == old(self).out() + header_seq(
                match key {
                    Some(k) => Some(k@),
                    None => None,
                },
                0,
                None,
                old(self).opts(),
            ),
            r is Ok,
    {
        self.write_array_header(key, 0, None, 0)
    }

    /// Append a brace-wrapped, delimiter-separated field list.
    pub fn write_field_list(&mut self, keys: &Vec<String>) -> (r: crate::error::ToonResult<()>)
        ensures
            final(self).opts() == old(self).opts(),
            final(self).out() == old(self).out() + seq!['{'] + field_join_seq(
                strs_view(keys@),
                old(self).delim(),
            ) + seq!['}'],
            r is Ok,
    {
        self.output.push('{');
        let ghost start = self.out();
        let ghost d = self.delim();
        let n = keys.len();
        let mut i: usize = 0;
        while i < n
            invariant
                i <= n == keys@.len(),
                self.opts() == old(self).opts(),
                d == self.delim(),
                self.out() == start + field_join_seq(strs_view(keys@).take(i as int), d),
            decreases n - i,
        {
            if i > 0 {
                let c = self.options.delimiter.as_char();
                self.output.push(c);
            }
            let name = &keys[i];
            if needs_quoting(name.as_str(), QuotingContext::Header, self.options.delimiter) {
                self.write_quoted_string(name.as_str())?;
            } else {
                push_str_chars(&mut self.output, name.as_str());
            }
            proof {
                let kv = strs_view(keys@);
                let pre = kv.take(i as int);
                let cur = kv.take(i + 1);
                assert(cur.drop_last() =~= pre);
                assert(cur.last() == kv[i as int]);
                assert(kv[i as int] == keys@[i as int]@);
                if i == 0 {
                    assert(field_join_seq(cur, d) == header_field_seq(cur[0], d));
                    assert(cur[0] == kv[0]);
                    assert(self.out() =~= start + field_join_seq(cur, d));
                } else {
                    assert(field_join_seq(cur, d) == field_join_seq(pre, d) + seq![
                        d.spec_as_char(),
                    ] + header_field_seq(keys@[i as int]@, d));
                    assert(self.out() =~= start + field_join_seq(cur, d));
                }
            }
            i = i + 1;
        }
        self.output.push('}');
        proof {
            assert(strs_view(keys@).take(n as int) =~= strs_view(keys@));
            assert(self.out() =~= old(self).out() + seq!['{'] + field_join_seq(
                strs_view(keys@),
                d,
            ) + seq!['}']);
        }
        Ok(())
    }

    /// Hand the accumulated text out.
    pub fn finish(self) -> (r: String)
        ensures
            r@ == self.out(),
    {
        chars_to_string(&self.output)
    }
}

} // verus!
