//! The encode pipeline: the structural classifier that picks the cheapest
//! legal representation for each array (tabular, primitive-inlined, or
//! nested-list), and the driver that feeds the writer.

use vstd::prelude::*;

use crate::constants::MAX_DEPTH;
use crate::error::owned_message;
use crate::error::ToonError;
use crate::error::ToonResult;
use crate::types::EncodeOptions;
use crate::validation::validate_depth;
use crate::value::Value;
use crate::writer::header_seq;
use crate::writer::primitive_seq;
use crate::writer::repeat_seq;
use crate::writer::Writer;

verus! {

/// The entry list of an object value; empty for any other value.
pub open spec fn obj_fields(v: Value) -> Seq<(String, Value)> {
    match v {
        Value::Object(o) => o@,
        _ => Seq::empty(),
    }
}

/// The ordered key list of an object's entries.
pub open spec fn keys_of(o: Seq<(String, Value)>) -> Seq<Seq<char>> {
    Seq::new(o.len(), |i: int| o[i].0@)
}

/// Whether every value in an object's entries is a primitive.
pub open spec fn obj_vals_primitive(o: Seq<(String, Value)>) -> bool {
    forall|i: int| 0 <= i < o.len() ==> (#[trigger] o[i]).1.spec_is_primitive()
}

/// When an array is written in tabular form: it is non-empty, every
/// element is an object, every object repeats the first element's ordered
/// key list, and every value under every key is a primitive.
pub open spec fn spec_is_tabular(a: Seq<Value>) -> bool {
    &&& a.len() > 0
    &&& forall|i: int|
        0 <= i < a.len() ==> ((#[trigger] a[i]) is Object && keys_of(obj_fields(a[i])) == keys_of(
            obj_fields(a[0]),
        ) && obj_vals_primitive(obj_fields(a[i])))
}

/// When an array is written inline: every element is a primitive.
pub open spec fn spec_all_primitive(a: Seq<Value>) -> bool {
    forall|i: int| 0 <= i < a.len() ==> (#[trigger] a[i]).spec_is_primitive()
}

/// The models of a sequence of values.
pub open spec fn vals_of(a: Seq<Value>) -> Seq<crate::value::Val> {
    Seq::new(a.len(), |i: int| a[i]@)
}

/// The modelled entries of an entry list: each key's characters with its
/// value's model.
pub open spec fn entries_of(o: Seq<(String, Value)>) -> Seq<(Seq<char>, crate::value::Val)> {
    Seq::new(o.len(), |i: int| (o[i].0@, o[i].1@))
}

/// The entry list of an object model; empty for any other model.
pub open spec fn val_entries(v: crate::value::Val) -> Seq<(Seq<char>, crate::value::Val)> {
    match v {
        crate::value::Val::Obj(e) => e,
        _ => Seq::empty(),
    }
}

/// The element list of an array model; empty for any other model.
pub open spec fn val_elems(v: crate::value::Val) -> Seq<crate::value::Val> {
    match v {
        crate::value::Val::Arr(a) => a,
        _ => Seq::empty(),
    }
}

/// The key list of modelled entries.
pub open spec fn keys_v(e: Seq<(Seq<char>, crate::value::Val)>) -> Seq<Seq<char>> {
    Seq::new(e.len(), |i: int| e[i].0)
}

/// The tabular condition over models.
pub open spec fn tabular_v(a: Seq<crate::value::Val>) -> bool {
    &&& a.len() > 0
    &&& forall|i: int|
        0 <= i < a.len() ==> ((#[trigger] a[i]) is Obj && keys_v(val_entries(a[i])) == keys_v(
            val_entries(a[0]),
        ) && (forall|j: int|
            0 <= j < val_entries(a[i]).len() ==> (#[trigger] val_entries(a[i])[j]).1.is_primitive()))
}

/// The inline condition over models.
pub open spec fn all_prim_v(a: Seq<crate::value::Val>) -> bool {
    forall|i: int| 0 <= i < a.len() ==> (#[trigger] a[i]).is_primitive()
}

/// An object's model lists the same entries as the object.
proof fn lemma_val_entries(x: Value)
    ensures
        val_entries(x@) == entries_of(obj_fields(x)),
{
    match x {
        Value::Object(o) => {
            assert(val_entries(x@) =~= entries_of(o@));
        },
        _ => {
            assert(obj_fields(x) =~= Seq::<(String, Value)>::empty());
            assert(val_entries(x@) =~= entries_of(obj_fields(x)));
        },
    }
}

/// The tabular condition reads the same on values and on their models.
proof fn lemma_tabular_bridge(a: Seq<Value>)
    ensures
        spec_is_tabular(a) <==> tabular_v(vals_of(a)),
{
    let m = vals_of(a);
    assert(m.len() == a.len());
    if a.len() > 0 {
        assert forall|i: int| 0 <= i < a.len() implies ((#[trigger] a[i]) is Object <==> m[i]
            is Obj) by {
            match a[i] {
                Value::Object(_) => {},
                _ => {},
            }
        }
        assert forall|i: int| 0 <= i < a.len() implies keys_of(obj_fields(#[trigger] a[i]))
            =~= keys_v(val_entries(m[i])) by {
            lemma_val_entries(a[i]);
            assert(keys_of(obj_fields(a[i])) =~= keys_v(entries_of(obj_fields(a[i]))));
        }
        assert forall|i: int| 0 <= i < a.len() implies (obj_vals_primitive(
            obj_fields(#[trigger] a[i]),
        ) <==> (forall|j: int|
            0 <= j < val_entries(m[i]).len() ==> (#[trigger] val_entries(m[i])[j]).1.is_primitive())) by {
            lemma_val_entries(a[i]);
            let o = obj_fields(a[i]);
            assert(val_entries(m[i]) == entries_of(o));
            assert forall|j: int| 0 <= j < o.len() implies ((#[trigger] o[j]).1.spec_is_primitive()
                <==> entries_of(o)[j].1.is_primitive()) by {
                assert(entries_of(o)[j].1 == o[j].1@);
            }
        }
        if spec_is_tabular(a) {
            assert forall|i: int| 0 <= i < m.len() implies ((#[trigger] m[i]) is Obj && keys_v(
                val_entries(m[i]),
            ) == keys_v(val_entries(m[0])) && (forall|j: int|
                0 <= j < val_entries(m[i]).len() ==> (
                #[trigger] val_entries(m[i])[j]).1.is_primitive())) by {
                assert(a[i] is Object);
            }
        }
        if tabular_v(m) {
            assert forall|i: int| 0 <= i < a.len() implies ((#[trigger] a[i]) is Object && keys_of(
                obj_fields(a[i]),
            ) == keys_of(obj_fields(a[0])) && obj_vals_primitive(obj_fields(a[i]))) by {
                assert(m[i] is Obj);
            }
        }
    }
}

/// The inline condition reads the same on values and on their models.
proof fn lemma_all_prim_bridge(a: Seq<Value>)
    ensures
        spec_all_primitive(a) <==> all_prim_v(vals_of(a)),
{
    let m = vals_of(a);
    assert forall|i: int| 0 <= i < a.len() implies ((#[trigger] a[i]).spec_is_primitive() <==> m[i]
        is Obj == false && m[i] is Arr == false) by {
        assert(m[i] == a[i]@);
    }
    if spec_all_primitive(a) {
        assert forall|i: int| 0 <= i < m.len() implies (#[trigger] m[i]).is_primitive() by {
            assert(a[i].spec_is_primitive());
            assert(m[i] == a[i]@);
        }
    }
    if all_prim_v(m) {
        assert forall|i: int| 0 <= i < a.len() implies (#[trigger] a[i]).spec_is_primitive() by {
            assert(m[i].is_primitive());
            assert(m[i] == a[i]@);
        }
    }
}

/// The text of an array length: the optional marker character, then the
/// decimal digits.
pub open spec fn fmt_len(marker: Option<char>, length: nat) -> Seq<char> {
    match marker {
        Some(m) => seq![m] + crate::numbers::dec_digits(length),
        None => crate::numbers::dec_digits(length),
    }
}

/// An array header over its components: the optional key, the bracketed
/// length with the optional marker and non-comma delimiter character, the
/// optional field list, and the closing colon.
pub open spec fn header_c(
    key: Option<Seq<char>>,
    length: nat,
    fields: Option<Seq<Seq<char>>>,
    delim: crate::types::Delimiter,
    marker: Option<char>,
) -> Seq<char> {
    (match key {
        Some(k) => crate::writer::key_seq(k, delim),
        None => Seq::empty(),
    }) + seq!['['] + fmt_len(marker, length) + (if delim is Comma {
        Seq::empty()
    } else {
        seq![delim.spec_as_char()]
    }) + seq![']'] + (match fields {
        Some(f) => seq!['{'] + crate::writer::field_join_seq(f, delim) + seq!['}'],
        None => Seq::empty(),
    }) + seq![':']
}

/// The delimiter-joined inline texts of modelled elements.
pub open spec fn prim_join_v(a: Seq<crate::value::Val>, delim: crate::types::Delimiter) -> Seq<
    char,
>
    decreases a.len(),
{
    if a.len() == 0 {
        Seq::empty()
    } else if a.len() == 1 {
        primitive_seq(a[0], delim)
    } else {
        prim_join_v(a.drop_last(), delim) + seq![delim.spec_as_char()] + primitive_seq(
            a.last(),
            delim,
        )
    }
}

/// One tabular row over modelled entries.
pub open spec fn row_v(
    e: Seq<(Seq<char>, crate::value::Val)>,
    delim: crate::types::Delimiter,
) -> Seq<char>
    decreases e.len(),
{
    if e.len() == 0 {
        Seq::empty()
    } else if e.len() == 1 {
        primitive_seq(e[0].1, delim)
    } else {
        row_v(e.drop_last(), delim) + seq![delim.spec_as_char()] + primitive_seq(e.last().1, delim)
    }
}

/// The tabular body over modelled elements.
pub open spec fn rows_v(
    a: Seq<crate::value::Val>,
    delim: crate::types::Delimiter,
    ind: Seq<char>,
    depth: nat,
) -> Seq<char>
    decreases a.len(),
{
    if a.len() == 0 {
        Seq::empty()
    } else if a.len() == 1 {
        repeat_seq(ind, depth + 1) + row_v(val_entries(a[0]), delim)
    } else {
        rows_v(a.drop_last(), delim, ind, depth) + seq!['\n'] + repeat_seq(ind, depth + 1) + row_v(
            val_entries(a.last()),
            delim,
        )
    }
}

/// The full text of an array that is empty, tabular, or all-primitive.
pub open spec fn arr_text_v(
    key: Option<Seq<char>>,
    a: Seq<crate::value::Val>,
    delim: crate::types::Delimiter,
    marker: Option<char>,
    ind: Seq<char>,
    depth: nat,
) -> Seq<char> {
    if a.len() == 0 {
        header_c(key, 0, None, delim, marker)
    } else if tabular_v(a) {
        header_c(key, a.len(), Some(keys_v(val_entries(a[0]))), delim, marker) + seq!['\n']
            + rows_v(a, delim, ind, depth)
    } else {
        header_c(key, a.len(), None, delim, marker) + seq![' '] + prim_join_v(a, delim)
    }
}

/// The joined texts agree between values and their models.
proof fn lemma_prim_join_bridge(a: Seq<Value>, delim: crate::types::Delimiter)
    ensures
        prim_join_v(vals_of(a), delim) == prim_join_seq(a, delim),
    decreases a.len(),
{
    let m = vals_of(a);
    if a.len() == 0 {
        assert(m.len() == 0);
    } else if a.len() == 1 {
        assert(m[0] == a[0]@);
    } else {
        lemma_prim_join_bridge(a.drop_last(), delim);
        assert(m.drop_last() =~= vals_of(a.drop_last()));
        assert(m.last() == a.last()@);
    }
}

/// The row texts agree between entry lists and their models.
proof fn lemma_row_bridge(o: Seq<(String, Value)>, delim: crate::types::Delimiter)
    ensures
        row_v(entries_of(o), delim) == row_seq(o, delim),
    decreases o.len(),
{
    let e = entries_of(o);
    if o.len() == 0 {
    } else if o.len() == 1 {
        assert(e[0].1 == o[0].1@);
    } else {
        lemma_row_bridge(o.drop_last(), delim);
        assert(e.drop_last() =~= entries_of(o.drop_last()));
        assert(e.last().1 == o.last().1@);
    }
}

/// The tabular bodies agree between values and their models.
proof fn lemma_rows_bridge(
    a: Seq<Value>,
    delim: crate::types::Delimiter,
    ind: Seq<char>,
    depth: nat,
)
    ensures
        rows_v(vals_of(a), delim, ind, depth) == rows_seq(a, delim, ind, depth),
    decreases a.len(),
{
    let m = vals_of(a);
    if a.len() == 0 {
    } else if a.len() == 1 {
        assert(m[0] == a[0]@);
        lemma_val_entries(a[0]);
        lemma_row_bridge(obj_fields(a[0]), delim);
    } else {
        lemma_rows_bridge(a.drop_last(), delim, ind, depth);
        assert(m.drop_last() =~= vals_of(a.drop_last()));
        assert(m.last() == a.last()@);
        lemma_val_entries(a.last());
        lemma_row_bridge(obj_fields(a.last()), delim);
    }
}

/// Whether every element of the array is a primitive.
fn is_primitive_array(arr: &Vec<Value>) -> (r: bool)
    ensures
        r == spec_all_primitive(arr@),
{
    let n = arr.len();
    let mut i: usize = 0;
    while i < n
        invariant
            i <= n == arr@.len(),
            forall|j: int| 0 <= j < i ==> (#[trigger] arr@[j]).spec_is_primitive(),
        decreases n - i,
    {
        if !arr[i].is_primitive() {
            return false;
        }
        i = i + 1;
    }
    true
}

/// Classify an array for tabular form: when every element is an object
/// with the first element's ordered key list and primitive values only,
/// hand that key list back.
fn is_tabular_array(arr: &Vec<Value>) -> (r: Option<Vec<String>>)
    ensures
        match r {
            Some(keys) => {
                &&& spec_is_tabular(arr@)
                &&& keys@.len() == obj_fields(arr@[0]).len()
                &&& forall|j: int|
                    0 <= j < keys@.len() ==> (#[trigger] keys@[j])@ == obj_fields(arr@[0])[j].0@
            },
            None => !spec_is_tabular(arr@),
        },
{
    let n = arr.len();
    if n == 0 {
        return None;
    }
    let first_fields: &Vec<(String, Value)> = match &arr[0] {
        Value::Object(o) => o,
        _ => {
            proof {
                assert(!(arr@[0] is Object));
            }
            return None;
        },
    };
    let m = first_fields.len();
    let mut keys: Vec<String> = Vec::new();
    let mut j: usize = 0;
    while j < m
        invariant
            j <= m == first_fields@.len(),
            first_fields@ == obj_fields(arr@[0]),
            keys@.len() == j,
            forall|k: int| 0 <= k < j ==> (#[trigger] keys@[k])@ == first_fields@[k].0@,
            forall|k: int| 0 <= k < j ==> (#[trigger] first_fields@[k]).1.spec_is_primitive(),
        decreases m - j,
    {
        if !first_fields[j].1.is_primitive() {
            proof {
                assert(!obj_vals_primitive(obj_fields(arr@[0])));
            }
            return None;
        }
        keys.push(first_fields[j].0.clone());
        j = j + 1;
    }
    let mut i: usize = 1;
    while i < n
        invariant
            1 <= i <= n == arr@.len(),
            m == first_fields@.len(),
            first_fields@ == obj_fields(arr@[0]),
            keys@.len() == m,
            forall|k: int| 0 <= k < m ==> (#[trigger] keys@[k])@ == first_fields@[k].0@,
            obj_vals_primitive(obj_fields(arr@[0])),
            arr@[0] is Object,
            forall|k: int|
                0 <= k < i ==> ((#[trigger] arr@[k]) is Object && keys_of(obj_fields(arr@[k]))
                    == keys_of(obj_fields(arr@[0])) && obj_vals_primitive(obj_fields(arr@[k]))),
        decreases n - i,
    {
        let ok = match &arr[i] {
            Value::Object(o) => {
                let mut same = true;
                if o.len() != m {
                    proof {
                        assert(keys_of(obj_fields(arr@[i as int])).len() != keys_of(
                            obj_fields(arr@[0]),
                        ).len());
                    }
                    same = false;
                }
                if same {
                    let mut k: usize = 0;
                    while k < m
                        invariant
                            k <= m,
                            o@.len() == m == first_fields@.len(),
                            first_fields@ == obj_fields(arr@[0]),
                            o@ == obj_fields(arr@[i as int]),
                            i < arr@.len(),
                            forall|t: int| 0 <= t < k ==> (#[trigger] o@[t]).0@
                                == first_fields@[t].0@,
                            forall|t: int| 0 <= t < k ==> (#[trigger] o@[t]).1.spec_is_primitive(),
                        decreases m - k,
                    {
                        if !(o[k].0 == first_fields[k].0) {
                            proof {
                                assert(keys_of(obj_fields(arr@[i as int]))[k as int] != keys_of(
                                    obj_fields(arr@[0]),
                                )[k as int]);
                            }
                            return None;
                        }
                        if !o[k].1.is_primitive() {
                            proof {
                                assert(!obj_vals_primitive(obj_fields(arr@[i as int])));
                            }
                            return None;
                        }
                        k = k + 1;
                    }
                    proof {
                        assert(keys_of(obj_fields(arr@[i as int])) =~= keys_of(
                            obj_fields(arr@[0]),
                        ));
                    }
                }
                same
            },
            _ => {
                proof {
                    assert(!(arr@[i as int] is Object));
                }
                false
            },
        };
        if !ok {
            return None;
        }
        i = i + 1;
    }
    Some(keys)
}

/// The inline text of a primitive value.
fn write_primitive_value(writer: &mut Writer, value: &Value) -> (r: ToonResult<()>)
    ensures
        final(writer).opts() == old(writer).opts(),
        if value.spec_is_primitive() {
            &&& r is Ok
            &&& final(writer).out() == old(writer).out() + primitive_seq(
                value@,
                old(writer).delim(),
            )
        } else {
            &&& r is Err
            &&& final(writer).out() == old(writer).out()
        },
{
    match value {
        Value::Null => writer.write_null(),
        Value::Bool(b) => writer.write_bool(*b),
        Value::Int(_) => writer.write_number(value),
        Value::Float(_) => writer.write_number(value),
        Value::Str(s) => writer.write_string(s.as_str(), 0),
        _ => Err(ToonError::InvalidInput(owned_message("Expected primitive value"))),
    }
}

/// The delimiter-joined inline texts of an array's elements.
pub open spec fn prim_join_seq(a: Seq<Value>, delim: crate::types::Delimiter) -> Seq<char>
    decreases a.len(),
{
    if a.len() == 0 {
        Seq::empty()
    } else if a.len() == 1 {
        primitive_seq(a[0]@, delim)
    } else {
        prim_join_seq(a.drop_last(), delim) + seq![delim.spec_as_char()] + primitive_seq(
            a.last()@,
            delim,
        )
    }
}

/// Write an all-primitive array inline after its header.
fn encode_primitive_array(
    writer: &mut Writer,
    key: Option<&str>,
    arr: &Vec<Value>,
    depth: usize,
) -> (r: ToonResult<()>)
    requires
        spec_all_primitive(arr@),
        arr@.len() > 0,
    ensures
        final(writer).opts() == old(writer).opts(),
        r is Ok,
        final(writer).out() == old(writer).out() + header_seq(
            match key {
                Some(k) => Some(k@),
                None => None,
            },
            arr@.len() as nat,
            None,
            old(writer).opts(),
        ) + seq![' '] + prim_join_seq(arr@, old(writer).delim()),
{
    writer.write_array_header(key, arr.len(), None, depth)?;
    writer.write_str(" ")?;
    proof {
        reveal_strlit(" ");
        assert(" "@ =~= seq![' ']);
    }
    let ghost start = writer.out();
    let ghost d = writer.delim();
    let n = arr.len();
    let mut i: usize = 0;
    while i < n
        invariant
            i <= n == arr@.len(),
            writer.opts() == old(writer).opts(),
            d == writer.delim(),
            spec_all_primitive(arr@),
            writer.out() == start + prim_join_seq(arr@.take(i as int), d),
        decreases n - i,
    {
        if i > 0 {
            writer.write_delimiter()?;
        }
        let res = write_primitive_value(writer, &arr[i]);
        proof {
            assert(arr@[i as int].spec_is_primitive());
        }
        res?;
        proof {
            let pre = arr@.take(i as int);
            let cur = arr@.take(i + 1);
            assert(cur.drop_last() =~= pre);
            assert(cur.last() == arr@[i as int]);
            if i == 0 {
                assert(prim_join_seq(cur, d) == primitive_seq(cur[0]@, d));
                assert(cur[0] == arr@[0]);
                assert(writer.out() =~= start + prim_join_seq(cur, d));
            } else {
                assert(prim_join_seq(cur, d) == prim_join_seq(pre, d) + seq![d.spec_as_char()]
                    + primitive_seq(arr@[i as int]@, d));
                assert(writer.out() =~= start + prim_join_seq(cur, d));
            }
        }
        i = i + 1;
    }
    proof {
        assert(arr@.take(n as int) =~= arr@);
        assert(writer.out() =~= old(writer).out() + header_seq(
            match key {
                Some(k) => Some(k@),
                None => None,
            },
            arr@.len() as nat,
            None,
            old(writer).opts(),
        ) + seq![' '] + prim_join_seq(arr@, d));
    }
    Ok(())
}

/// One tabular row: the delimiter-joined inline texts of an object's
/// values, in key order.
pub open spec fn row_seq(o: Seq<(String, Value)>, delim: crate::types::Delimiter) -> Seq<char>
    decreases o.len(),
{
    if o.len() == 0 {
        Seq::empty()
    } else if o.len() == 1 {
        primitive_seq(o[0].1@, delim)
    } else {
        row_seq(o.drop_last(), delim) + seq![delim.spec_as_char()] + primitive_seq(
            o.last().1@,
            delim,
        )
    }
}

/// The tabular body: each row indented one level deeper, newline-separated.
pub open spec fn rows_seq(
    a: Seq<Value>,
    delim: crate::types::Delimiter,
    ind: Seq<char>,
    depth: nat,
) -> Seq<char>
    decreases a.len(),
{
    if a.len() == 0 {
        Seq::empty()
    } else if a.len() == 1 {
        repeat_seq(ind, depth + 1) + row_seq(obj_fields(a[0]), delim)
    } else {
        rows_seq(a.drop_last(), delim, ind, depth) + seq!['\n'] + repeat_seq(ind, depth + 1)
            + row_seq(obj_fields(a.last()), delim)
    }
}

/// Write one tabular row: the object's values joined by the delimiter.
fn encode_row(writer: &mut Writer, o: &Vec<(String, Value)>) -> (r: ToonResult<()>)
    requires
        obj_vals_primitive(o@),
    ensures
        final(writer).opts() == old(writer).opts(),
        r is Ok,
        final(writer).out() == old(writer).out() + row_seq(o@, old(writer).delim()),
{
    let ghost start = writer.out();
    let ghost d = writer.delim();
    let m = o.len();
    let mut j: usize = 0;
    while j < m
        invariant
            j <= m == o@.len(),
            writer.opts() == old(writer).opts(),
            d == writer.delim(),
            obj_vals_primitive(o@),
            writer.out() == start + row_seq(o@.take(j as int), d),
        decreases m - j,
    {
        if j > 0 {
            writer.write_delimiter()?;
        }
        let res = write_primitive_value(writer, &o[j].1);
        proof {
            assert(o@[j as int].1.spec_is_primitive());
        }
        res?;
        proof {
            let pre = o@.take(j as int);
            let cur = o@.take(j + 1);
            assert(cur.drop_last() =~= pre);
            assert(cur.last() == o@[j as int]);
            if j == 0 {
                assert(row_seq(cur, d) == primitive_seq(cur[0].1@, d));
                assert(cur[0] == o@[0]);
                assert(writer.out() =~= start + row_seq(cur, d));
            } else {
                assert(row_seq(cur, d) == row_seq(pre, d) + seq![d.spec_as_char()] + primitive_seq(
                    o@[j as int].1@,
                    d,
                ));
                assert(writer.out() =~= start + row_seq(cur, d));
            }
        }
        j = j + 1;
    }
    proof {
        assert(o@.take(m as int) =~= o@);
    }
    Ok(())
}

/// Write a tabular array: the header with its field list, then one row per
/// element at the next indentation level.
fn encode_tabular_array(
    writer: &mut Writer,
    key: Option<&str>,
    arr: &Vec<Value>,
    keys: &Vec<String>,
    depth: usize,
) -> (r: ToonResult<()>)
    requires
        spec_is_tabular(arr@),
        depth <= MAX_DEPTH,
    ensures
        final(writer).opts() == old(writer).opts(),
        r is Ok,
        final(writer).out() == old(writer).out() + header_seq(
            match key {
                Some(k) => Some(k@),
                None => None,
            },
            arr@.len() as nat,
            Some(crate::writer::strs_view(keys@)),
            old(writer).opts(),
        ) + seq!['\n'] + rows_seq(
            arr@,
            old(writer).delim(),
            old(writer).opts().indent@,
            depth as nat,
        ),
{
    writer.write_array_header(key, arr.len(), Some(keys), depth)?;
    writer.write_newline()?;
    let ghost start = writer.out();
    let ghost d = writer.delim();
    let ghost ind = writer.opts().indent@;
    let n = arr.len();
    let mut i: usize = 0;
    while i < n
        invariant
            i <= n == arr@.len(),
            writer.opts() == old(writer).opts(),
            d == writer.delim(),
            ind == writer.opts().indent@,
            spec_is_tabular(arr@),
            depth + 1 <= usize::MAX,
            writer.out() == start + rows_seq(arr@.take(i as int), d, ind, depth as nat),
        decreases n - i,
    {
        if i > 0 {
            writer.write_newline()?;
        }
        writer.write_indent(depth + 1)?;
        let row_fields: &Vec<(String, Value)> = match &arr[i] {
            Value::Object(o) => o,
            _ => {
                proof {
                    assert(arr@[i as int] is Object);
                }
                return Err(ToonError::InvalidInput(owned_message("Expected object row")));
            },
        };
        proof {
            assert(obj_vals_primitive(obj_fields(arr@[i as int])));
        }
        encode_row(writer, row_fields)?;
        proof {
            let pre = arr@.take(i as int);
            let cur = arr@.take(i + 1);
            assert(cur.drop_last() =~= pre);
            assert(cur.last() == arr@[i as int]);
            if i == 0 {
                assert(rows_seq(cur, d, ind, depth as nat) == repeat_seq(ind, (depth + 1) as nat)
                    + row_seq(obj_fields(cur[0]), d));
                assert(cur[0] == arr@[0]);
                assert(writer.out() =~= start + rows_seq(cur, d, ind, depth as nat));
            } else {
                assert(rows_seq(cur, d, ind, depth as nat) == rows_seq(pre, d, ind, depth as nat)
                    + seq!['\n'] + repeat_seq(ind, (depth + 1) as nat) + row_seq(
                    obj_fields(arr@[i as int]),
                    d,
                ));
                assert(writer.out() =~= start + rows_seq(cur, d, ind, depth as nat));
            }
        }
        i = i + 1;
    }
    proof {
        assert(arr@.take(n as int) =~= arr@);
        assert(writer.out() =~= old(writer).out() + header_seq(
            match key {
                Some(k) => Some(k@),
                None => None,
            },
            arr@.len() as nat,
            Some(crate::writer::strs_view(keys@)),
            old(writer).opts(),
        ) + seq!['\n'] + rows_seq(arr@, d, ind, depth as nat));
    }
    Ok(())
}


/// The shape name of a value's model, for type-mismatch messages.
pub open spec fn spec_type_name(v: crate::value::Val) -> Seq<char> {
    match v {
        crate::value::Val::Null => "null"@,
        crate::value::Val::Bool(_) => "boolean"@,
        crate::value::Val::Int(_) => "number"@,
        crate::value::Val::Float(_) => "number"@,
        crate::value::Val::Str(_) => "string"@,
        crate::value::Val::Arr(_) => "array"@,
        crate::value::Val::Obj(_) => "object"@,
    }
}

/// The shape name of a value, for type-mismatch messages.
fn value_type_name(value: &Value) -> (r: &'static str)
    ensures
        r@ == spec_type_name(value@),
{
    match value {
        Value::Null => "null",
        Value::Bool(_) => "boolean",
        Value::Int(_) => "number",
        Value::Float(_) => "number",
        Value::Str(_) => "string",
        Value::Array(_) => "array",
        Value::Object(_) => "object",
    }
}

/// One dash-line element's text: a primitive's inline text, or a shallow
/// array's full text one level deeper.
pub open spec fn dash_elem_v(
    v: crate::value::Val,
    delim: crate::types::Delimiter,
    marker: Option<char>,
    ind: Seq<char>,
    depth: nat,
) -> Seq<char> {
    if v.is_primitive() {
        primitive_seq(v, delim)
    } else {
        arr_text_v(None, val_elems(v), delim, marker, ind, depth + 1)
    }
}

/// The dash-line body of a nested list whose elements are primitives or
/// shallow arrays: each element on its own line, one level deeper, behind
/// a dash and a space.
pub open spec fn dash_lines_v(
    a: Seq<crate::value::Val>,
    delim: crate::types::Delimiter,
    marker: Option<char>,
    ind: Seq<char>,
    depth: nat,
) -> Seq<char>
    decreases a.len(),
{
    if a.len() == 0 {
        Seq::empty()
    } else if a.len() == 1 {
        repeat_seq(ind, depth + 1) + seq!['-', ' '] + dash_elem_v(a[0], delim, marker, ind, depth)
    } else {
        dash_lines_v(a.drop_last(), delim, marker, ind, depth) + seq!['\n'] + repeat_seq(
            ind,
            depth + 1,
        ) + seq!['-', ' '] + dash_elem_v(a.last(), delim, marker, ind, depth)
    }
}

/// Write a dash-prefixed nested list: one element per line, recursing per
/// element shape.
#[verifier::loop_isolation(false)]
#[verifier::rlimit(60)]
fn encode_nested_array(
    writer: &mut Writer,
    key: Option<&str>,
    arr: &Vec<Value>,
    depth: usize,
) -> (r: ToonResult<()>)
    requires
        depth <= MAX_DEPTH,
    ensures
        final(writer).opts() == old(writer).opts(),
        r matches Err(e) ==> e is InvalidStructure,
        depth < MAX_DEPTH && (forall|j: int|
            0 <= j < vals_of(arr@).len() ==> entry_ok_v(#[trigger] vals_of(arr@)[j])) ==> r is Ok
            && final(writer).out() == old(writer).out() + header_c(
            match key {
                Some(k) => Some(k@),
                None => None,
            },
            arr@.len() as nat,
            None,
            old(writer).delim(),
            old(writer).opts().length_marker,
        ) + seq!['\n'] + dash_lines_v(
            vals_of(arr@),
            old(writer).delim(),
            old(writer).opts().length_marker,
            old(writer).opts().indent@,
            depth as nat,
        ),
    decreases arr, 0int,
{
    let ghost m = vals_of(arr@);
    let ghost d = writer.delim();
    let ghost marker = writer.opts().length_marker;
    let ghost ind = writer.opts().indent@;
    let ghost shallow = depth < MAX_DEPTH && (forall|j: int|
        0 <= j < m.len() ==> entry_ok_v(#[trigger] m[j]));
    writer.write_array_header(key, arr.len(), None, depth)?;
    proof {
        reveal_strlit("- ");
        assert("- "@ =~= seq!['-', ' ']);
        if shallow {
            assert(header_seq(
                match key {
                    Some(k) => Some(k@),
                    None => None,
                },
                arr@.len() as nat,
                None,
                old(writer).opts(),
            ) =~= header_c(
                match key {
                    Some(k) => Some(k@),
                    None => None,
                },
                arr@.len() as nat,
                None,
                d,
                marker,
            ));
        }
    }
    writer.write_newline()?;
    let ghost start = writer.out();
    let n = arr.len();
    let mut i: usize = 0;
    while i < n
        invariant
            i <= n,
            writer.opts() == old(writer).opts(),
            shallow ==> writer.out() == start + dash_lines_v(
                m.take(i as int),
                d,
                marker,
                ind,
                depth as nat,
            ) + (if 0 < i < n {
                seq!['\n']
            } else {
                Seq::empty()
            }),
        decreases n - i,
    {
        writer.write_indent(depth + 1)?;
        writer.write_str("- ")?;
        let ghost elem_start = writer.out();
        proof {
            if shallow {
                reveal_strlit("- ");
                assert("- "@ =~= seq!['-', ' ']);
            }
        }
        match &arr[i] {
            Value::Array(inner) => {
                proof {
                    if shallow {
                        assert(entry_ok_v(m[i as int]));
                        assert(m[i as int] == arr@[i as int]@);
                        assert(val_elems(arr@[i as int]@) =~= vals_of(inner@));
                        lemma_tabular_bridge(inner@);
                        lemma_all_prim_bridge(inner@);
                    }
                }
                write_array(writer, None, inner, depth + 1)?;
                proof {
                    if shallow {
                        assert(writer.out() == elem_start + dash_elem_v(
                            m[i as int],
                            d,
                            marker,
                            ind,
                            depth as nat,
                        ));
                    }
                }
            },
            Value::Object(obj) => {
                proof {
                    if shallow {
                        assert(m[i as int] == arr@[i as int]@);
                        assert(m[i as int] is Obj);
                        assert(!entry_ok_v(m[i as int]));
                        assert(false);
                    }
                }
                let mm = obj.len();
                if mm > 0 {
                    let first_key = obj[0].0.clone();
                    writer.write_key(first_key.as_str())?;
                    writer.write_str(":")?;
                    match &obj[0].1 {
                        Value::Array(inner) => {
                            writer.write_str(" ")?;
                            write_array(writer, None, inner, depth + 1)?;
                        },
                        Value::Object(nested) => {
                            writer.write_newline()?;
                            write_object(writer, nested, depth + 2)?;
                        },
                        _ => {
                            writer.write_str(" ")?;
                            let res = write_primitive_value(writer, &obj[0].1);
                            res?;
                        },
                    }
                    let mut k: usize = 1;
                    while k < mm
                        invariant
                            1 <= k <= mm,
                            writer.opts() == old(writer).opts(),
                        decreases mm - k,
                    {
                        writer.write_newline()?;
                        writer.write_indent(depth + 2)?;
                        let this_key = obj[k].0.clone();
                        writer.write_key(this_key.as_str())?;
                        writer.write_str(":")?;
                        match &obj[k].1 {
                            Value::Array(inner) => {
                                writer.write_str(" ")?;
                                write_array(writer, None, inner, depth + 2)?;
                            },
                            Value::Object(nested) => {
                                writer.write_newline()?;
                                write_object(writer, nested, depth + 3)?;
                            },
                            _ => {
                                writer.write_str(" ")?;
                                let res = write_primitive_value(writer, &obj[k].1);
                                res?;
                            },
                        }
                        k = k + 1;
                    }
                }
            },
            _ => {
                let res = write_primitive_value(writer, &arr[i]);
                proof {
                    if shallow {
                        assert(m[i as int] == arr@[i as int]@);
                        assert(arr@[i as int].spec_is_primitive());
                    }
                }
                res?;
                proof {
                    if shallow {
                        assert(writer.out() == elem_start + dash_elem_v(
                            m[i as int],
                            d,
                            marker,
                            ind,
                            depth as nat,
                        ));
                    }
                }
            },
        }
        proof {
            if shallow {
                let pre = m.take(i as int);
                let cur = m.take(i + 1);
                assert(cur.drop_last() =~= pre);
                assert(cur.last() == m[i as int]);
                if i == 0 {
                    assert(dash_lines_v(cur, d, marker, ind, depth as nat) == repeat_seq(
                        ind,
                        depth as nat + 1,
                    ) + seq!['-', ' '] + dash_elem_v(cur[0], d, marker, ind, depth as nat));
                    assert(cur[0] == m[0]);
                } else {
                    assert(dash_lines_v(cur, d, marker, ind, depth as nat) == dash_lines_v(
                        pre,
                        d,
                        marker,
                        ind,
                        depth as nat,
                    ) + seq!['\n'] + repeat_seq(ind, depth as nat + 1) + seq!['-', ' ']
                        + dash_elem_v(m[i as int], d, marker, ind, depth as nat));
                }
                assert(writer.out() =~= start + dash_lines_v(cur, d, marker, ind, depth as nat));
            }
        }
        if i + 1 < n {
            writer.write_newline()?;
        }
        i = i + 1;
    }
    proof {
        if shallow {
            assert(m.take(n as int) =~= m);
        }
    }
    Ok(())
}

/// Write an array, picking the cheapest legal representation: tabular when
/// every element is an object over the first element's keys with primitive
/// values, inline when every element is a primitive, a dash list
/// otherwise; an empty array is its header alone.
#[verifier::loop_isolation(false)]
#[verifier::rlimit(100)]
fn write_array(writer: &mut Writer, key: Option<&str>, arr: &Vec<Value>, depth: usize) -> (r:
    ToonResult<()>)
    ensures
        final(writer).opts() == old(writer).opts(),
        r matches Err(e) ==> e is InvalidStructure,
        depth <= MAX_DEPTH && (arr@.len() == 0 || spec_all_primitive(arr@) || spec_is_tabular(
            arr@,
        )) ==> r is Ok && final(writer).out() == old(writer).out() + arr_text_v(
            match key {
                Some(k) => Some(k@),
                None => None,
            },
            vals_of(arr@),
            old(writer).delim(),
            old(writer).opts().length_marker,
            old(writer).opts().indent@,
            depth as nat,
        ),
    decreases arr, 1int,
{
    validate_depth(depth, MAX_DEPTH)?;
    let ghost keyview: Option<Seq<char>> = match key {
        Some(k) => Some(k@),
        None => None,
    };
    let ghost d = writer.delim();
    let ghost marker = writer.opts().length_marker;
    let ghost ind = writer.opts().indent@;
    proof {
        lemma_tabular_bridge(arr@);
        lemma_all_prim_bridge(arr@);
    }
    if arr.len() == 0 {
        writer.write_empty_array_with_key(key)?;
        proof {
            assert(vals_of(arr@).len() == 0);
            assert(header_seq(keyview, 0, None, old(writer).opts()) =~= header_c(
                keyview,
                0,
                None,
                d,
                marker,
            ));
        }
        return Ok(());
    }
    match is_tabular_array(arr) {
        Some(keys) => {
            encode_tabular_array(writer, key, arr, &keys, depth)?;
            proof {
                let m = vals_of(arr@);
                assert(tabular_v(m));
                lemma_val_entries(arr[0]);
                assert(m[0] == arr@[0]@);
                assert(crate::writer::strs_view(keys@) =~= keys_v(val_entries(m[0])));
                assert(header_seq(
                    keyview,
                    arr@.len() as nat,
                    Some(crate::writer::strs_view(keys@)),
                    old(writer).opts(),
                ) =~= header_c(
                    keyview,
                    m.len(),
                    Some(keys_v(val_entries(m[0]))),
                    d,
                    marker,
                ));
                lemma_rows_bridge(arr@, d, ind, depth as nat);
                assert(writer.out() =~= old(writer).out() + arr_text_v(
                    keyview,
                    m,
                    d,
                    marker,
                    ind,
                    depth as nat,
                ));
            }
            Ok(())
        },
        None => {
            if is_primitive_array(arr) {
                encode_primitive_array(writer, key, arr, depth)?;
                proof {
                    let m = vals_of(arr@);
                    assert(!tabular_v(m));
                    assert(header_seq(keyview, arr@.len() as nat, None, old(writer).opts())
                        =~= header_c(keyview, m.len(), None, d, marker));
                    lemma_prim_join_bridge(arr@, d);
                    assert(writer.out() =~= old(writer).out() + arr_text_v(
                        keyview,
                        m,
                        d,
                        marker,
                        ind,
                        depth as nat,
                    ));
                }
                Ok(())
            } else {
                encode_nested_array(writer, key, arr, depth)?;
                Ok(())
            }
        },
    }
}

/// An entry value whose line this specification pins down: a primitive,
/// or an array that is empty, all-primitive, or tabular.
pub open spec fn entry_ok_v(v: crate::value::Val) -> bool {
    ||| v.is_primitive()
    ||| (v is Arr && (val_elems(v).len() == 0 || all_prim_v(val_elems(v)) || tabular_v(
        val_elems(v),
    )))
}

/// Whether every entry of a modelled object is pinned down.
pub open spec fn flat_ok_v(e: Seq<(Seq<char>, crate::value::Val)>) -> bool {
    forall|i: int| 0 <= i < e.len() ==> entry_ok_v((#[trigger] e[i]).1)
}

/// One object line: the key with a colon and a space before a scalar, or
/// the keyed array text.
pub open spec fn entry_text_v(
    k: Seq<char>,
    v: crate::value::Val,
    delim: crate::types::Delimiter,
    marker: Option<char>,
    ind: Seq<char>,
    depth: nat,
) -> Seq<char> {
    if v.is_primitive() {
        crate::writer::key_seq(k, delim) + seq![':', ' '] + primitive_seq(v, delim)
    } else {
        arr_text_v(Some(k), val_elems(v), delim, marker, ind, depth)
    }
}

/// An object's lines, newline-separated, each indented to its level.
pub open spec fn obj_lines_v(
    e: Seq<(Seq<char>, crate::value::Val)>,
    delim: crate::types::Delimiter,
    marker: Option<char>,
    ind: Seq<char>,
    depth: nat,
) -> Seq<char>
    decreases e.len(),
{
    if e.len() == 0 {
        Seq::empty()
    } else if e.len() == 1 {
        repeat_seq(ind, depth) + entry_text_v(e[0].0, e[0].1, delim, marker, ind, depth)
    } else {
        obj_lines_v(e.drop_last(), delim, marker, ind, depth) + seq!['\n'] + repeat_seq(ind, depth)
            + entry_text_v(e.last().0, e.last().1, delim, marker, ind, depth)
    }
}

/// Write an object: one `key: value` or `key[header]` line per entry,
/// nested objects one indentation level deeper.
#[verifier::loop_isolation(false)]
#[verifier::rlimit(100)]
fn write_object(writer: &mut Writer, obj: &Vec<(String, Value)>, depth: usize) -> (r: ToonResult<
    (),
>)
    ensures
        final(writer).opts() == old(writer).opts(),
        r matches Err(e) ==> e is InvalidStructure,
        depth <= MAX_DEPTH && flat_ok_v(entries_of(obj@)) ==> r is Ok && final(writer).out()
            == old(writer).out() + obj_lines_v(
            entries_of(obj@),
            old(writer).delim(),
            old(writer).opts().length_marker,
            old(writer).opts().indent@,
            depth as nat,
        ),
    decreases obj, 0int,
{
    validate_depth(depth, MAX_DEPTH)?;
    let ghost ev = entries_of(obj@);
    let ghost d = writer.delim();
    let ghost marker = writer.opts().length_marker;
    let ghost ind = writer.opts().indent@;
    let ghost start = writer.out();
    let n = obj.len();
    let mut i: usize = 0;
    while i < n
        invariant
            i <= n,
            writer.opts() == old(writer).opts(),
            flat_ok_v(ev) ==> writer.out() == start + obj_lines_v(
                ev.take(i as int),
                d,
                marker,
                ind,
                depth as nat,
            ),
        decreases n - i,
    {
        if i > 0 {
            writer.write_newline()?;
        }
        if depth > 0 {
            writer.write_indent(depth)?;
        }
        let ghost line_start = writer.out();
        proof {
            if flat_ok_v(ev) {
                if depth == 0 {
                    assert(repeat_seq(ind, depth as nat) =~= Seq::<char>::empty());
                }
                if i == 0 {
                    assert(line_start =~= start + obj_lines_v(
                        ev.take(i as int),
                        d,
                        marker,
                        ind,
                        depth as nat,
                    ) + repeat_seq(ind, depth as nat));
                } else {
                    assert(line_start =~= start + obj_lines_v(
                        ev.take(i as int),
                        d,
                        marker,
                        ind,
                        depth as nat,
                    ) + seq!['\n'] + repeat_seq(ind, depth as nat));
                }
            }
        }
        let this_key = obj[i].0.clone();
        match &obj[i].1 {
            Value::Array(arr) => {
                proof {
                    if flat_ok_v(ev) {
                        assert(entry_ok_v(ev[i as int].1));
                        assert(ev[i as int].1 == obj@[i as int].1@);
                        assert(val_elems(obj@[i as int].1@) =~= vals_of(arr@));
                        lemma_tabular_bridge(arr@);
                        lemma_all_prim_bridge(arr@);
                    }
                }
                write_array(writer, Some(this_key.as_str()), arr, depth)?;
                proof {
                    if flat_ok_v(ev) {
                        assert(writer.out() == line_start + entry_text_v(
                            ev[i as int].0,
                            ev[i as int].1,
                            d,
                            marker,
                            ind,
                            depth as nat,
                        ));
                    }
                }
            },
            Value::Object(nested) => {
                proof {
                    if flat_ok_v(ev) {
                        assert(ev[i as int].1 == obj@[i as int].1@);
                        assert(ev[i as int].1 is Obj);
                        assert(!entry_ok_v(ev[i as int].1));
                        assert(false);
                    }
                }
                writer.write_key(this_key.as_str())?;
                writer.write_str(":")?;
                writer.write_newline()?;
                write_object(writer, nested, depth + 1)?;
            },
            _ => {
                writer.write_key(this_key.as_str())?;
                writer.write_str(": ")?;
                let res = write_primitive_value(writer, &obj[i].1);
                res?;
                proof {
                    if flat_ok_v(ev) {
                        reveal_strlit(": ");
                        assert(": "@ =~= seq![':', ' ']);
                        assert(ev[i as int].1 == obj@[i as int].1@);
                        assert(obj@[i as int].1.spec_is_primitive());
                        assert(writer.out() =~= line_start + entry_text_v(
                            ev[i as int].0,
                            ev[i as int].1,
                            d,
                            marker,
                            ind,
                            depth as nat,
                        ));
                    }
                }
            },
        }
        proof {
            if flat_ok_v(ev) {
                let pre = ev.take(i as int);
                let cur = ev.take(i + 1);
                assert(cur.drop_last() =~= pre);
                assert(cur.last() == ev[i as int]);
                if i == 0 {
                    assert(obj_lines_v(cur, d, marker, ind, depth as nat) == repeat_seq(
                        ind,
                        depth as nat,
                    ) + entry_text_v(cur[0].0, cur[0].1, d, marker, ind, depth as nat));
                    assert(cur[0] == ev[0]);
                } else {
                    assert(obj_lines_v(cur, d, marker, ind, depth as nat) == obj_lines_v(
                        pre,
                        d,
                        marker,
                        ind,
                        depth as nat,
                    ) + seq!['\n'] + repeat_seq(ind, depth as nat) + entry_text_v(
                        ev[i as int].0,
                        ev[i as int].1,
                        d,
                        marker,
                        ind,
                        depth as nat,
                    ));
                }
                assert(writer.out() =~= start + obj_lines_v(cur, d, marker, ind, depth as nat));
            }
        }
        i = i + 1;
    }
    proof {
        if flat_ok_v(ev) {
            assert(ev.take(n as int) =~= ev);
        }
    }
    Ok(())
}

/// Encode a tree value to notation text: the value is normalized, then the
/// classifier-driven writer emits it. A scalar document is exactly its
/// inline text.
pub fn encode(value: &Value, options: &EncodeOptions) -> (r: ToonResult<String>)
    ensures
        r matches Err(e) ==> e is InvalidStructure,
        crate::value::norm(value@).is_primitive() ==> (r matches Ok(t) && t@ == primitive_seq(
            crate::value::norm(value@),
            options.delimiter,
        )),
        crate::value::norm(value@) matches crate::value::Val::Arr(a) ==> ((a.len() == 0
            || all_prim_v(a) || tabular_v(a)) ==> (r matches Ok(t) && t@ == arr_text_v(
            None,
            a,
            options.delimiter,
            options.length_marker,
            options.indent@,
            0,
        ))),
        crate::value::norm(value@) matches crate::value::Val::Obj(e) ==> (flat_ok_v(e) ==> (r
            matches Ok(t) && t@ == obj_lines_v(
            e,
            options.delimiter,
            options.length_marker,
            options.indent@,
            0,
        ))),
{
    let opts = EncodeOptions {
        delimiter: options.delimiter,
        length_marker: options.length_marker,
        indent: options.indent.clone(),
    };
    let normalized = crate::value::normalize_ref(value);
    let mut writer = Writer::new(opts);
    match &normalized {
        Value::Array(arr) => {
            proof {
                assert(normalized@ == crate::value::norm(value@));
                assert(val_elems(normalized@) =~= vals_of(arr@));
                lemma_tabular_bridge(arr@);
                lemma_all_prim_bridge(arr@);
            }
            write_array(&mut writer, None, arr, 0)?;
            proof {
                if vals_of(arr@).len() == 0 || all_prim_v(vals_of(arr@)) || tabular_v(
                    vals_of(arr@),
                ) {
                    assert(writer.out() =~= arr_text_v(
                        None,
                        vals_of(arr@),
                        options.delimiter,
                        options.length_marker,
                        options.indent@,
                        0,
                    ));
                }
            }
        },
        Value::Object(o) => {
            proof {
                assert(normalized@ == crate::value::norm(value@));
                lemma_val_entries(normalized);
                assert(val_entries(normalized@) =~= entries_of(o@));
            }
            write_object(&mut writer, o, 0)?;
            proof {
                if flat_ok_v(entries_of(o@)) {
                    assert(writer.out() =~= obj_lines_v(
                        entries_of(o@),
                        options.delimiter,
                        options.length_marker,
                        options.indent@,
                        0,
                    ));
                }
            }
        },
        _ => {
            let res = write_primitive_value(&mut writer, &normalized);
            res?;
            proof {
                assert(writer.out() =~= primitive_seq(crate::value::norm(value@), options.delimiter));
            }
        },
    }
    Ok(writer.finish())
}

/// Encode with default options.
pub fn encode_default(value: &Value) -> (r: ToonResult<String>)
    ensures
        r matches Err(e) ==> e is InvalidStructure,
        crate::value::norm(value@).is_primitive() ==> (r matches Ok(t) && t@ == primitive_seq(
            crate::value::norm(value@),
            crate::types::Delimiter::Comma,
        )),
        crate::value::norm(value@) matches crate::value::Val::Arr(a) ==> ((a.len() == 0
            || all_prim_v(a) || tabular_v(a)) ==> (r matches Ok(t) && t@ == arr_text_v(
            None,
            a,
            crate::types::Delimiter::Comma,
            None,
            seq![' ', ' '],
            0,
        ))),
        crate::value::norm(value@) matches crate::value::Val::Obj(e) ==> (flat_ok_v(e) ==> (r
            matches Ok(t) && t@ == obj_lines_v(
            e,
            crate::types::Delimiter::Comma,
            None,
            seq![' ', ' '],
            0,
        ))),
{
    let defaults = EncodeOptions::default();
    encode(value, &defaults)
}

/// Encode a value that must be an object; any other shape is a type
/// mismatch.
pub fn encode_object(value: &Value, options: &EncodeOptions) -> (r: ToonResult<String>)
    ensures
        !(value@ is Obj) ==> (r matches Err(e) && (e matches ToonError::TypeMismatch {
            expected,
            found,
        } && (expected@ == "object"@ && found@ == spec_type_name(value@)))),
        value@ is Obj ==> (r matches Err(e) ==> e is InvalidStructure),
        crate::value::norm(value@) matches crate::value::Val::Obj(e) ==> ((value@ is Obj
            && flat_ok_v(e)) ==> (r matches Ok(t) && t@ == obj_lines_v(
            e,
            options.delimiter,
            options.length_marker,
            options.indent@,
            0,
        ))),
{
    if !matches!(value, Value::Object(_)) {
        proof {
            reveal_strlit("object");
        }
        return Err(
            ToonError::TypeMismatch {
                expected: owned_message("object"),
                found: owned_message(value_type_name(value)),
            },
        );
    }
    encode(value, options)
}

/// Encode a value that must be an array; any other shape is a type
/// mismatch.
pub fn encode_array(value: &Value, options: &EncodeOptions) -> (r: ToonResult<String>)
    ensures
        !(value@ is Arr) ==> (r matches Err(e) && (e matches ToonError::TypeMismatch {
            expected,
            found,
        } && (expected@ == "array"@ && found@ == spec_type_name(value@)))),
        value@ is Arr ==> (r matches Err(e) ==> e is InvalidStructure),
        crate::value::norm(value@) matches crate::value::Val::Arr(a) ==> ((value@ is Arr && (
        a.len() == 0 || all_prim_v(a) || tabular_v(a))) ==> (r matches Ok(t) && t@ == arr_text_v(
            None,
            a,
            options.delimiter,
            options.length_marker,
            options.indent@,
            0,
        ))),
{
    if !matches!(value, Value::Array(_)) {
        proof {
            reveal_strlit("array");
        }
        return Err(
            ToonError::TypeMismatch {
                expected: owned_message("array"),
                found: owned_message(value_type_name(value)),
            },
        );
    }
    encode(value, options)
}

} // verus!
