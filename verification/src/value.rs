//! The tree value model that the codec exchanges with callers: null,
//! booleans, numbers (integer or floating), strings, arrays, and objects with
//! ordered keys; together with its mathematical model and the value
//! normalizer that runs before encoding.

use vstd::prelude::*;

use crate::numbers::is_float_literal;

verus! {

/// A tree value. Floating numbers carry their decimal text, which keeps the
/// model exact; the conversion to and from machine floats happens outside the
/// codec.
#[derive(Debug, PartialEq, Eq)]
pub enum Value {
    Null,
    Bool(bool),
    Int(i64),
    Float(String),
    Str(String),
    Array(Vec<Value>),
    Object(Vec<(String, Value)>),
}

/// The mathematical model of a tree value.
pub enum Val {
    Null,
    Bool(bool),
    Int(int),
    Float(Seq<char>),
    Str(Seq<char>),
    Arr(Seq<Val>),
    Obj(Seq<(Seq<char>, Val)>),
}

/// The model of an exec tree value.
pub open spec fn val_of(v: Value) -> Val
    decreases v,
{
    match v {
        Value::Null => Val::Null,
        Value::Bool(b) => Val::Bool(b),
        Value::Int(i) => Val::Int(i as int),
        Value::Float(t) => Val::Float(t@),
        Value::Str(s) => Val::Str(s@),
        Value::Array(a) => Val::Arr(
            Seq::new(
                a@.len(),
                |i: int| if 0 <= i < a@.len() {
                    val_of(a@[i])
                } else {
                    Val::Null
                },
            ),
        ),
        Value::Object(o) => Val::Obj(
            Seq::new(
                o@.len(),
                |i: int| if 0 <= i < o@.len() {
                    (o@[i].0@, val_of(o@[i].1))
                } else {
                    (Seq::empty(), Val::Null)
                },
            ),
        ),
    }
}

impl View for Value {
    type V = Val;

    open spec fn view(&self) -> Val {
        val_of(*self)
    }
}

impl Val {
    /// Holds of the scalar values: everything but arrays and objects.
    pub open spec fn is_primitive(self) -> bool {
        match self {
            Val::Arr(_) => false,
            Val::Obj(_) => false,
            _ => true,
        }
    }
}

impl Value {
    /// Holds of the scalar values: everything but arrays and objects.
    pub open spec fn spec_is_primitive(&self) -> bool {
        self@.is_primitive()
    }

    /// Whether this value is a scalar (not an array or object).
    pub fn is_primitive(&self) -> (r: bool)
        ensures
            r == self.spec_is_primitive(),
    {
        match self {
            Value::Array(_) => false,
            Value::Object(_) => false,
            _ => true,
        }
    }
}

/// Whether every object in the tree lists each key once. The parser
/// collapses repeated keys, so every decoded value satisfies this.
pub open spec fn keys_unique(v: Value) -> bool
    decreases v,
{
    match v {
        Value::Array(a) => forall|i: int| 0 <= i < a@.len() ==> keys_unique(#[trigger] a@[i]),
        Value::Object(o) => {
            &&& forall|i: int, j: int|
                0 <= i < j < o@.len() ==> (#[trigger] o@[i]).0@ != (#[trigger] o@[j]).0@
            &&& forall|i: int| 0 <= i < o@.len() ==> keys_unique((#[trigger] o@[i]).1)
        },
        _ => true,
    }
}

/// Whether an entry list has pairwise distinct keys and recursively
/// well-keyed values: what `keys_unique` asks of the object built from it.
pub open spec fn entries_wf(o: Seq<(String, Value)>) -> bool {
    &&& forall|i: int, j: int| 0 <= i < j < o.len() ==> (#[trigger] o[i]).0@ != (#[trigger] o[j]).0@
    &&& forall|i: int| 0 <= i < o.len() ==> keys_unique((#[trigger] o[i]).1)
}

/// Whether the mantissa of the floating text starting at index `i` consists
/// of zero digits only, up to the end or the exponent marker.
pub open spec fn mantissa_all_zero(s: Seq<char>, i: int) -> bool
    decreases s.len() - i,
{
    if i < 0 || i >= s.len() {
        true
    } else if s[i] == 'e' || s[i] == 'E' {
        true
    } else if s[i] == '0' || s[i] == '.' {
        mantissa_all_zero(s, i + 1)
    } else {
        false
    }
}

/// Floating text whose value is a negative zero: a leading minus sign and a
/// mantissa of zero digits only, whatever the exponent.
pub open spec fn is_negative_zero_literal(s: Seq<char>) -> bool {
    s.len() > 0 && s[0] == '-' && is_float_literal(s) && mantissa_all_zero(s, 1)
}

/// Whether the floating text `t` spells a negative zero.
fn negative_zero_literal(t: &String) -> (r: bool)
    ensures
        r == is_negative_zero_literal(t@),
{
    let v = crate::chars::str_to_chars(t.as_str());
    let n = v.len();
    if n == 0 || v[0] != '-' {
        return false;
    }
    if !crate::numbers::float_literal(&v) {
        return false;
    }
    let mut i: usize = 1;
    loop
        invariant
            1 <= i <= n == v@.len(),
            v@ == t@,
            t@.len() > 0,
            t@[0] == '-',
            is_float_literal(t@),
            mantissa_all_zero(t@, 1) == mantissa_all_zero(t@, i as int),
        decreases n - i,
    {
        if i >= n {
            proof {
                assert(mantissa_all_zero(t@, i as int));
            }
            return true;
        }
        let c = v[i];
        if c == 'e' || c == 'E' {
            proof {
                assert(mantissa_all_zero(t@, i as int));
            }
            return true;
        }
        if c == '0' || c == '.' {
            proof {
                assert(mantissa_all_zero(t@, i as int) == mantissa_all_zero(t@, i + 1));
            }
            i = i + 1;
        } else {
            proof {
                assert(!mantissa_all_zero(t@, i as int));
            }
            return false;
        }
    }
}

/// The normal form of a value: floating negative zeros become the integer
/// zero; everything else is kept, recursively.
pub open spec fn norm(v: Val) -> Val
    decreases v,
{
    match v {
        Val::Float(t) => if is_negative_zero_literal(t) {
            Val::Int(0)
        } else {
            Val::Float(t)
        },
        Val::Arr(a) => Val::Arr(
            Seq::new(
                a.len(),
                |i: int| if 0 <= i < a.len() {
                    norm(a[i])
                } else {
                    Val::Null
                },
            ),
        ),
        Val::Obj(o) => Val::Obj(
            Seq::new(
                o.len(),
                |i: int| if 0 <= i < o.len() {
                    (o[i].0, norm(o[i].1))
                } else {
                    (Seq::empty(), Val::Null)
                },
            ),
        ),
        _ => v,
    }
}

/// A normalizing copy of a borrowed value.
#[verifier::loop_isolation(false)]
pub(crate) fn normalize_ref(v: &Value) -> (r: Value)
    ensures
        r@ == norm(v@),
    decreases v,
{
    match v {
        Value::Null => Value::Null,
        Value::Bool(b) => Value::Bool(*b),
        Value::Int(i) => Value::Int(*i),
        Value::Float(t) => {
            if negative_zero_literal(t) {
                Value::Int(0)
            } else {
                Value::Float(t.clone())
            }
        },
        Value::Str(s) => Value::Str(s.clone()),
        Value::Array(a) => {
            let mut out: Vec<Value> = Vec::new();
            let n = a.len();
            let mut i: usize = 0;
            while i < n
                invariant
                    i <= n == a@.len(),
                    out@.len() == i,
                    forall|j: int| 0 <= j < i ==> (#[trigger] out@[j])@ == norm(a@[j]@),
                decreases n - i,
            {
                let e = normalize_ref(&a[i]);
                out.push(e);
                i = i + 1;
            }
            let r = Value::Array(out);
            proof {
                let lhs = match r@ {
                    Val::Arr(s) => s,
                    _ => Seq::empty(),
                };
                let rhs = match norm(v@) {
                    Val::Arr(s) => s,
                    _ => Seq::empty(),
                };
                assert(lhs =~= rhs);
            }
            r
        },
        Value::Object(o) => {
            let mut out: Vec<(String, Value)> = Vec::new();
            let n = o.len();
            let mut i: usize = 0;
            while i < n
                invariant
                    i <= n == o@.len(),
                    out@.len() == i,
                    forall|j: int| 0 <= j < i ==> (#[trigger] out@[j]).0@ == o@[j].0@ && out@[j].1@
                        == norm(o@[j].1@),
                decreases n - i,
            {
                let pair = &o[i];
                let k = pair.0.clone();
                let e = normalize_ref(&pair.1);
                out.push((k, e));
                i = i + 1;
            }
            let r = Value::Object(out);
            proof {
                let lhs = match r@ {
                    Val::Obj(s) => s,
                    _ => Seq::empty(),
                };
                let rhs = match norm(v@) {
                    Val::Obj(s) => s,
                    _ => Seq::empty(),
                };
                assert(lhs =~= rhs);
            }
            r
        },
    }
}

/// Normalize a tree value: floating negative zeros become the integer zero.
/// (Not-a-number and infinite values cannot be held by this model at all;
/// the conversions at the crate's boundary map them to null.)
pub fn normalize(value: Value) -> (r: Value)
    ensures
        r@ == norm(value@),
{
    normalize_ref(&value)
}

} // verus!
