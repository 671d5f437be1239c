//! Decimal text for the numbers of the value model: formatting of integers,
//! overflow-checked parsing, and the literal grammars that decide whether a
//! scanned run of characters is an integer or a floating number.

use vstd::prelude::*;

verus! {

/// The character for one decimal digit value.
pub open spec fn digit_char(d: nat) -> char
    recommends
        d < 10,
{
    ((48 + d) as char)
}

/// The digit value of a decimal digit character.
pub open spec fn digit_val(c: char) -> nat
    recommends
        is_dec_digit(c),
{
    (c as nat - 48) as nat
}

/// Holds exactly of `'0'` through `'9'`.
pub open spec fn is_dec_digit(c: char) -> bool {
    '0' <= c && c <= '9'
}

/// The decimal digits of `n`, most significant first, with no sign and no
/// leading zero (except for `n == 0` itself).
pub open spec fn dec_digits(n: nat) -> Seq<char>
    decreases n,
{
    if n < 10 {
        seq![digit_char(n)]
    } else {
        dec_digits(n / 10).push(digit_char(n % 10))
    }
}

/// The decimal text of a possibly negative integer: a `-` sign followed by
/// the digits of its magnitude.
pub open spec fn int_digits(i: int) -> Seq<char> {
    if i < 0 {
        seq!['-'] + dec_digits((-i) as nat)
    } else {
        dec_digits(i as nat)
    }
}

/// The value of a digit string, most significant digit first.
pub open spec fn dec_val(s: Seq<char>) -> nat
    decreases s.len(),
{
    if s.len() == 0 {
        0
    } else {
        dec_val(s.drop_last()) * 10 + digit_val(s.last())
    }
}

/// Shape of an optionally signed run of decimal digits: `-?[0-9]+`.
/// Leading zeros are allowed, as they are when parsing a 64-bit integer.
pub open spec fn is_int_shape(s: Seq<char>) -> bool {
    if s.len() > 0 && s[0] == '-' {
        s.len() > 1 && (forall|i: int| 1 <= i < s.len() ==> is_dec_digit(#[trigger] s[i]))
    } else {
        s.len() > 0 && (forall|i: int| 0 <= i < s.len() ==> is_dec_digit(#[trigger] s[i]))
    }
}

/// The signed value of text of integer shape.
pub open spec fn int_val(s: Seq<char>) -> int
    recommends
        is_int_shape(s),
{
    if s.len() > 0 && s[0] == '-' {
        -(dec_val(s.drop_first()) as int)
    } else {
        dec_val(s) as int
    }
}

/// Text that parses as a 64-bit signed integer: integer shape with the value
/// in range.
pub open spec fn is_i64_literal(s: Seq<char>) -> bool {
    is_int_shape(s) && i64::MIN <= int_val(s) <= i64::MAX
}

/// The exec counterpart of `is_dec_digit`.
#[verifier::when_used_as_spec(is_dec_digit)]
pub fn dec_digit(c: char) -> (r: bool)
    ensures
        r == is_dec_digit(c),
{
    '0' <= c && c <= '9'
}

/// The digit character for a value below ten.
fn to_digit_char(d: u64) -> (c: char)
    requires
        d < 10,
    ensures
        c == digit_char(d as nat),
{
    let c: char = match d {
        0 => '0',
        1 => '1',
        2 => '2',
        3 => '3',
        4 => '4',
        5 => '5',
        6 => '6',
        7 => '7',
        8 => '8',
        _ => '9',
    };
    c
}

/// Appends the decimal digits of `n` to `out`.
pub fn push_dec_digits(n: u64, out: &mut Vec<char>)
    ensures
        final(out)@ == old(out)@ + dec_digits(n as nat),
    decreases n,
{
    if n >= 10 {
        proof {
            assert(n / 10 < n) by (nonlinear_arith)
                requires
                    n >= 10,
            ;
        }
        push_dec_digits(n / 10, out);
        out.push(to_digit_char(n % 10));
    } else {
        out.push(to_digit_char(n));
    }
}

/// Appends the decimal text of `i`, sign included, to `out`.
pub fn push_int_digits(i: i64, out: &mut Vec<char>)
    ensures
        final(out)@ == old(out)@ + int_digits(i as int),
{
    if i < 0 {
        out.push('-');
        let mag: u64 = if i == i64::MIN {
            9223372036854775808u64
        } else {
            (-i) as u64
        };
        assert(mag == -(i as int));
        push_dec_digits(mag, out);
        assert(final(out)@ == old(out)@ + int_digits(i as int));
    } else {
        push_dec_digits(i as u64, out);
    }
}

/// Parses the digit characters of `s` between `from` and `to` as a `u64`,
/// returning `None` on overflow or on a character that is no digit.
pub fn parse_dec_range(s: &Vec<char>, from: usize, to: usize) -> (r: Option<u64>)
    requires
        from <= to <= s@.len(),
    ensures
        match r {
            Some(v) => {
                &&& forall|i: int| from <= i < to ==> is_dec_digit(#[trigger] s@[i])
                &&& to > from
                &&& v as nat == dec_val(s@.subrange(from as int, to as int))
            },
            None => to == from || !(forall|i: int|
                from <= i < to ==> is_dec_digit(#[trigger] s@[i])) || dec_val(
                s@.subrange(from as int, to as int),
            ) > u64::MAX,
        },
{
    if from == to {
        return None;
    }
    let mut acc: u64 = 0;
    let mut i: usize = from;
    while i < to
        invariant
            from <= i <= to <= s@.len(),
            forall|j: int| from <= j < i ==> is_dec_digit(#[trigger] s@[j]),
            acc as nat == dec_val(s@.subrange(from as int, i as int)),
        decreases to - i,
    {
        let c = s[i];
        if !dec_digit(c) {
            proof {
                assert(!is_dec_digit(s@[i as int]));
            }
            return None;
        }
        let d: u64 = (c as u32 as u64) - 48;
        proof {
            assert(d == digit_val(s@[i as int]));
        }
        if acc > (u64::MAX - d) / 10 {
            proof {
                let part = s@.subrange(from as int, i as int + 1);
                assert(part.drop_last() =~= s@.subrange(from as int, i as int));
                assert(dec_val(part) == acc * 10 + d);
                assert(acc * 10 + d > u64::MAX) by (nonlinear_arith)
                    requires
                        acc > (u64::MAX - d) / 10,
                        d < 10,
                ;
                lemma_dec_val_prefix_le(s@, from as int, i as int + 1, to as int);
            }
            return None;
        }
        acc = acc * 10 + d;
        proof {
            let part = s@.subrange(from as int, i as int + 1);
            assert(part.drop_last() =~= s@.subrange(from as int, i as int));
            assert(part.last() == s@[i as int]);
            assert(acc as nat == dec_val(part));
        }
        i = i + 1;
    }
    proof {
        assert(s@.subrange(from as int, to as int) =~= s@.subrange(from as int, i as int));
    }
    Some(acc)
}

/// Parses the whole of `s` as a 64-bit signed integer, returning `None`
/// whenever the standard library's integer parser would fail: an empty or
/// malformed run, or a value out of range.
pub fn parse_i64(s: &Vec<char>) -> (r: Option<i64>)
    ensures
        match r {
            Some(v) => is_i64_literal(s@) && v as int == int_val(s@),
            None => !is_i64_literal(s@),
        },
{
    let n = s.len();
    if n == 0 {
        return None;
    }
    if s[0] == '-' {
        match parse_dec_range(s, 1, n) {
            Some(mag) => {
                proof {
                    assert(s@.drop_first() =~= s@.subrange(1, n as int));
                }
                if mag < 9223372036854775808u64 {
                    Some(-(mag as i64))
                } else if mag == 9223372036854775808u64 {
                    Some(i64::MIN)
                } else {
                    None
                }
            },
            None => {
                proof {
                    if is_int_shape(s@) {
                        assert(forall|i: int| 1 <= i < n ==> is_dec_digit(#[trigger] s@[i]));
                        assert(s@.drop_first() =~= s@.subrange(1, n as int));
                        assert(dec_val(s@.subrange(1, n as int)) > u64::MAX);
                    }
                }
                None
            },
        }
    } else {
        match parse_dec_range(s, 0, n) {
            Some(mag) => {
                proof {
                    assert(s@.subrange(0, n as int) =~= s@);
                }
                if mag <= i64::MAX as u64 {
                    Some(mag as i64)
                } else {
                    None
                }
            },
            None => {
                proof {
                    assert(s@.subrange(0, n as int) =~= s@);
                }
                None
            },
        }
    }
}

/// States of the automaton for the floating-number literal grammar.
#[allow(dead_code)]
pub enum FloatState {
    /// Nothing of the significand read yet.
    Start,
    /// At least one digit of the integer part read.
    IntPart,
    /// A leading dot read with no digit before it.
    DotOnly,
    /// A dot read after or followed by at least one digit.
    FracPart,
    /// The exponent marker read.
    ExpMark,
    /// The exponent sign read.
    ExpSign,
    /// At least one exponent digit read.
    ExpDigits,
    /// The text can no longer be a floating number.
    Reject,
}

/// One transition of the floating-number automaton.
pub open spec fn float_step(st: FloatState, c: char) -> FloatState {
    match st {
        FloatState::Start => if is_dec_digit(c) {
            FloatState::IntPart
        } else if c == '.' {
            FloatState::DotOnly
        } else {
            FloatState::Reject
        },
        FloatState::IntPart => if is_dec_digit(c) {
            FloatState::IntPart
        } else if c == '.' {
            FloatState::FracPart
        } else if c == 'e' || c == 'E' {
            FloatState::ExpMark
        } else {
            FloatState::Reject
        },
        FloatState::DotOnly => if is_dec_digit(c) {
            FloatState::FracPart
        } else {
            FloatState::Reject
        },
        FloatState::FracPart => if is_dec_digit(c) {
            FloatState::FracPart
        } else if c == 'e' || c == 'E' {
            FloatState::ExpMark
        } else {
            FloatState::Reject
        },
        FloatState::ExpMark => if is_dec_digit(c) {
            FloatState::ExpDigits
        } else if c == '+' || c == '-' {
            FloatState::ExpSign
        } else {
            FloatState::Reject
        },
        FloatState::ExpSign => if is_dec_digit(c) {
            FloatState::ExpDigits
        } else {
            FloatState::Reject
        },
        FloatState::ExpDigits => if is_dec_digit(c) {
            FloatState::ExpDigits
        } else {
            FloatState::Reject
        },
        FloatState::Reject => FloatState::Reject,
    }
}

/// The automaton state after reading all of `s`.
pub open spec fn float_run(s: Seq<char>) -> FloatState
    decreases s.len(),
{
    if s.len() == 0 {
        FloatState::Start
    } else {
        float_step(float_run(s.drop_last()), s.last())
    }
}

/// Whether the automaton accepts in state `st`.
pub open spec fn float_accept(st: FloatState) -> bool {
    st is IntPart || st is FracPart || st is ExpDigits
}

/// Text that parses as a floating number: an optional sign, then a
/// significand holding at least one digit and at most one dot, then an
/// optional exponent with at least one digit.
pub open spec fn is_float_literal(s: Seq<char>) -> bool {
    if s.len() > 0 && (s[0] == '-' || s[0] == '+') {
        float_accept(float_run(s.drop_first()))
    } else {
        float_accept(float_run(s))
    }
}

/// Whether the automaton accepts the characters of `s` from `start` on.
pub fn float_body_accepts(s: &Vec<char>, start: usize) -> (r: bool)
    requires
        start <= s@.len(),
    ensures
        r == float_accept(float_run(s@.skip(start as int))),
{
    let ghost t = s@.skip(start as int);
    let n = s.len();
    let mut st = FloatState::Start;
    let mut i: usize = start;
    while i < n
        invariant
            start <= i <= n == s@.len(),
            t == s@.skip(start as int),
            st == float_run(t.take(i - start)),
        decreases n - i,
    {
        let c = s[i];
        let ghost st0 = st;
        st = match st {
            FloatState::Start => if dec_digit(c) {
                FloatState::IntPart
            } else if c == '.' {
                FloatState::DotOnly
            } else {
                FloatState::Reject
            },
            FloatState::IntPart => if dec_digit(c) {
                FloatState::IntPart
            } else if c == '.' {
                FloatState::FracPart
            } else if c == 'e' || c == 'E' {
                FloatState::ExpMark
            } else {
                FloatState::Reject
            },
            FloatState::DotOnly => if dec_digit(c) {
                FloatState::FracPart
            } else {
                FloatState::Reject
            },
            FloatState::FracPart => if dec_digit(c) {
                FloatState::FracPart
            } else if c == 'e' || c == 'E' {
                FloatState::ExpMark
            } else {
                FloatState::Reject
            },
            FloatState::ExpMark => if dec_digit(c) {
                FloatState::ExpDigits
            } else if c == '+' || c == '-' {
                FloatState::ExpSign
            } else {
                FloatState::Reject
            },
            FloatState::ExpSign => if dec_digit(c) {
                FloatState::ExpDigits
            } else {
                FloatState::Reject
            },
            FloatState::ExpDigits => if dec_digit(c) {
                FloatState::ExpDigits
            } else {
                FloatState::Reject
            },
            FloatState::Reject => FloatState::Reject,
        };
        proof {
            let pre = t.take(i - start);
            let cur = t.take(i + 1 - start);
            assert(cur.drop_last() =~= pre);
            assert(t[i - start] == s@[i as int]);
            assert(cur.len() == i + 1 - start);
            assert(cur.last() == cur[i - start]);
            assert(cur[i - start] == t[i - start]);
            assert(st == float_step(st0, c));
            assert(cur.len() > 0);
            assert(float_run(cur) == float_step(float_run(cur.drop_last()), cur.last()));
            assert(float_run(cur) == float_step(float_run(pre), c));
        }
        i = i + 1;
    }
    proof {
        assert(t.take(n - start) =~= t);
    }
    match st {
        FloatState::IntPart => true,
        FloatState::FracPart => true,
        FloatState::ExpDigits => true,
        _ => false,
    }
}

/// Whether the characters of `s` form a floating-number literal.
pub fn float_literal(s: &Vec<char>) -> (r: bool)
    ensures
        r == is_float_literal(s@),
{
    let n = s.len();
    let start: usize = if n > 0 && (s[0] == '-' || s[0] == '+') {
        1
    } else {
        0
    };
    let r = float_body_accepts(s, start);
    proof {
        if start == 1 {
            assert(s@.skip(1) =~= s@.drop_first());
        } else {
            assert(s@.skip(0) =~= s@);
        }
    }
    r
}

/// Every character of an integer's decimal digits is a digit.
pub proof fn lemma_dec_digits_are_digits(n: nat)
    ensures
        forall|i: int| 0 <= i < dec_digits(n).len() ==> is_dec_digit(#[trigger] dec_digits(n)[i]),
        dec_digits(n).len() >= 1,
    decreases n,
{
    if n < 10 {
        assert(dec_digits(n) =~= seq![digit_char(n)]);
        assert(is_dec_digit(digit_char(n)));
    } else {
        lemma_dec_digits_are_digits(n / 10);
        assert(is_dec_digit(digit_char(n % 10)));
        assert forall|i: int| 0 <= i < dec_digits(n).len() implies is_dec_digit(
            #[trigger] dec_digits(n)[i],
        ) by {
            if i < dec_digits(n / 10).len() {
                assert(dec_digits(n)[i] == dec_digits(n / 10)[i]);
            } else {
                assert(dec_digits(n)[i] == digit_char(n % 10));
            }
        }
    }
}

/// The decimal digits of a number parse back to the same number: the
/// number-text round trip on which the codec's round trip rests for
/// integers.
pub proof fn lemma_dec_val_of_digits(n: nat)
    ensures
        dec_val(dec_digits(n)) == n,
    decreases n,
{
    if n < 10 {
        let d = dec_digits(n);
        assert(d =~= seq![digit_char(n)]);
        assert(d.len() == 1);
        assert(d.last() == digit_char(n));
        assert(d.drop_last() =~= Seq::<char>::empty());
        assert(dec_val(d.drop_last()) == 0);
        assert(dec_val(d) == dec_val(d.drop_last()) * 10 + digit_val(d.last()));
        assert(dec_val(d) == digit_val(digit_char(n)));
        assert(digit_val(digit_char(n)) == n);
    } else {
        lemma_dec_val_of_digits(n / 10);
        let d = dec_digits(n);
        assert(d == dec_digits(n / 10).push(digit_char(n % 10)));
        assert(d.drop_last() =~= dec_digits(n / 10));
        assert(d.last() == digit_char(n % 10));
        assert(dec_val(d) == dec_val(dec_digits(n / 10)) * 10 + digit_val(digit_char(n % 10)));
        assert(digit_val(digit_char(n % 10)) == n % 10);
        assert((n / 10) * 10 + n % 10 == n) by (nonlinear_arith);
    }
}

/// The signed decimal text of an integer is of integer shape and parses
/// back to the same integer.
pub proof fn lemma_int_val_of_digits(i: int)
    ensures
        is_int_shape(int_digits(i)),
        int_val(int_digits(i)) == i,
{
    if i < 0 {
        let mag = (-i) as nat;
        lemma_dec_digits_are_digits(mag);
        lemma_dec_val_of_digits(mag);
        let t = int_digits(i);
        assert(t == seq!['-'] + dec_digits(mag));
        assert(t[0] == '-');
        assert forall|j: int| 1 <= j < t.len() implies is_dec_digit(#[trigger] t[j]) by {
            assert(t[j] == dec_digits(mag)[j - 1]);
        }
        assert(t.drop_first() =~= dec_digits(mag));
        assert(int_val(t) == -(dec_val(dec_digits(mag)) as int));
    } else {
        let mag = i as nat;
        lemma_dec_digits_are_digits(mag);
        lemma_dec_val_of_digits(mag);
        let t = int_digits(i);
        assert(t == dec_digits(mag));
        assert(is_dec_digit(t[0]));
        assert(t[0] != '-');
        assert(int_val(t) == dec_val(dec_digits(mag)) as int);
    }
}

/// A longer digit string has at least the value of its prefix.
proof fn lemma_dec_val_prefix_le(s: Seq<char>, from: int, mid: int, to: int)
    requires
        0 <= from <= mid <= to <= s.len(),
    ensures
        dec_val(s.subrange(from, mid)) <= dec_val(s.subrange(from, to)),
    decreases to - mid,
{
    if mid < to {
        lemma_dec_val_prefix_le(s, from, mid + 1, to);
        let shorter = s.subrange(from, mid);
        let longer = s.subrange(from, mid + 1);
        assert(longer.drop_last() =~= shorter);
        assert(dec_val(longer) == dec_val(shorter) * 10 + digit_val(longer.last()));
        assert(dec_val(shorter) <= dec_val(shorter) * 10) by (nonlinear_arith);
    } else {
        assert(s.subrange(from, mid) =~= s.subrange(from, to));
    }
}

} // verus!
