use vstd::prelude::*;

use crate::errors::{error_view, JsonError, JsonErrorView};
use crate::json::{
    f64_bits_finite, is_f64_bits_finite, json_obj_view, json_seq_view, json_view,
    lemma_json_obj_view, lemma_json_seq_view, JsonNumber, JsonValue, JsonValueView,
};
use crate::native::{
    lemma_native_entries_view, lemma_native_seq_view, native_entries_view, native_seq_view,
    Native, NativeView,
};
use crate::text::{dec_int, int_to_decimal};

verus! {

/// The key coercion rule for mappings: the null singleton becomes the literal
/// text `null`, a boolean becomes `true` or `false`, a text key stands for
/// itself, and no other key is text-coercible.
pub open spec fn coerce_key(k: NativeView) -> Option<Seq<char>> {
    match k {
        NativeView::Null => Some("null"@),
        NativeView::Bool(b) => Some(if b {
            "true"@
        } else {
            "false"@
        }),
        NativeView::Text(s) => Some(s),
        _ => None,
    }
}

/// The index of the first pair of `obj` whose key is `k`, or `-1`.
pub open spec fn obj_key_index(obj: Seq<(Seq<char>, JsonValueView)>, k: Seq<char>) -> int
    decreases obj.len(),
{
    if obj.len() == 0 {
        -1
    } else if obj[0].0 == k {
        0
    } else {
        let r = obj_key_index(obj.drop_first(), k);
        if r < 0 {
            -1
        } else {
            r + 1
        }
    }
}

pub proof fn lemma_obj_key_index(obj: Seq<(Seq<char>, JsonValueView)>, k: Seq<char>)
    ensures
        -1 <= obj_key_index(obj, k) < obj.len(),
        obj_key_index(obj, k) >= 0 ==> obj[obj_key_index(obj, k)].0 == k,
        forall|j: int|
            0 <= j < obj.len() && j < obj_key_index(obj, k) ==> (#[trigger] obj[j]).0 != k,
        obj_key_index(obj, k) == -1 ==> forall|j: int|
            0 <= j < obj.len() ==> (#[trigger] obj[j]).0 != k,
    decreases obj.len(),
{
    if obj.len() > 0 && obj[0].0 != k {
        let d = obj.drop_first();
        lemma_obj_key_index(d, k);
        assert forall|j: int|
            0 <= j < obj.len() && j < obj_key_index(obj, k) implies (#[trigger] obj[j]).0
            != k by {
            if j > 0 {
                assert(d[j - 1] == obj[j]);
                assert(j - 1 < obj_key_index(d, k));
            }
        }
        if obj_key_index(obj, k) == -1 {
            assert forall|j: int| 0 <= j < obj.len() implies (#[trigger] obj[j]).0 != k by {
                if j > 0 {
                    assert(d[j - 1] == obj[j]);
                }
            }
        }
    }
}

/// Insert `(k, v)` into the object: when `k` is already present the value
/// under it is replaced in place, otherwise the pair is appended.
pub open spec fn obj_insert(
    obj: Seq<(Seq<char>, JsonValueView)>,
    k: Seq<char>,
    v: JsonValueView,
) -> Seq<(Seq<char>, JsonValueView)> {
    let r = obj_key_index(obj, k);
    if r < 0 {
        obj.push((k, v))
    } else {
        obj.update(r, (obj[r].0, v))
    }
}

/// What encoding yields on each native value. Dispatch is by the first typed
/// view the host grants the value, probed in this order: mapping, sequence
/// (list, then tuple), text, boolean, float, unsigned then signed 64-bit
/// integer, the null singleton; anything else is a `TypeError` failure that
/// carries the type name and the host's rendering of the value.
pub open spec fn to_json_spec(v: NativeView) -> Result<JsonValueView, JsonErrorView>
    decreases v, 0int,
{
    match v {
        NativeView::Dict(entries) => match enc_entries(entries, entries.len() as int) {
            Ok(obj) => Ok(JsonValueView::Object(obj)),
            Err(e) => Err(e),
        },
        NativeView::List(es) => match enc_items(es, es.len() as int) {
            Ok(items) => Ok(JsonValueView::Array(items)),
            Err(e) => Err(e),
        },
        NativeView::Tuple(es) => match enc_items(es, es.len() as int) {
            Ok(items) => Ok(JsonValueView::Array(items)),
            Err(e) => Err(e),
        },
        NativeView::Text(s) => Ok(JsonValueView::Text(s)),
        NativeView::Bool(b) => Ok(JsonValueView::Bool(b)),
        NativeView::Float(bits) => if f64_bits_finite(bits) {
            Ok(JsonValueView::Number(JsonNumber::Float(bits)))
        } else {
            Err(JsonErrorView::InvalidFloat)
        },
        NativeView::Int(i) => if 0 <= i <= u64::MAX {
            Ok(JsonValueView::Number(JsonNumber::Unsigned(i as u64)))
        } else if i64::MIN <= i < 0 {
            Ok(JsonValueView::Number(JsonNumber::Signed(i as i64)))
        } else {
            Err(JsonErrorView::TypeError("int"@, Ok(dec_int(i))))
        },
        NativeView::Null => Ok(JsonValueView::Null),
        NativeView::Other(name, repr) => Err(JsonErrorView::TypeError(name, repr)),
    }
}

/// Encoding of the first `n` elements, in order; the leftmost failure aborts.
pub open spec fn enc_items(es: Seq<NativeView>, n: int) -> Result<
    Seq<JsonValueView>,
    JsonErrorView,
>
    decreases es, n,
{
    if 0 < n <= es.len() {
        match enc_items(es, n - 1) {
            Err(e) => Err(e),
            Ok(pre) => match to_json_spec(es[n - 1]) {
                Err(e) => Err(e),
                Ok(j) => Ok(pre.push(j)),
            },
        }
    } else {
        Ok(Seq::empty())
    }
}

/// Encoding of the first `n` mapping entries, in iteration order: each key is
/// coerced to text, each value encoded, and the pair inserted; per entry a
/// key failure surfaces before a value failure, and the leftmost failure
/// aborts the whole mapping.
pub open spec fn enc_entries(entries: Seq<(NativeView, NativeView)>, n: int) -> Result<
    Seq<(Seq<char>, JsonValueView)>,
    JsonErrorView,
>
    decreases entries, n,
{
    if 0 < n <= entries.len() {
        match enc_entries(entries, n - 1) {
            Err(e) => Err(e),
            Ok(obj) => match coerce_key(entries[n - 1].0) {
                None => Err(JsonErrorView::DictKeyNotString(entries[n - 1].0)),
                Some(k) => match to_json_spec(entries[n - 1].1) {
                    Err(e) => Err(e),
                    Ok(j) => Ok(obj_insert(obj, k, j)),
                },
            },
        }
    } else {
        Ok(Seq::empty())
    }
}

pub proof fn lemma_enc_items_err(es: Seq<NativeView>, m: int, n: int)
    requires
        0 <= m <= n <= es.len(),
        enc_items(es, m).is_err(),
    ensures
        enc_items(es, n) == enc_items(es, m),
    decreases n - m,
{
    if m < n {
        lemma_enc_items_err(es, m, n - 1);
    }
}

pub proof fn lemma_enc_entries_err(entries: Seq<(NativeView, NativeView)>, m: int, n: int)
    requires
        0 <= m <= n <= entries.len(),
        enc_entries(entries, m).is_err(),
    ensures
        enc_entries(entries, n) == enc_entries(entries, m),
    decreases n - m,
{
    if m < n {
        lemma_enc_entries_err(entries, m, n - 1);
    }
}

pub open spec fn enc_result_view(r: Result<JsonValue, JsonError>) -> Result<
    JsonValueView,
    JsonErrorView,
> {
    match r {
        Ok(j) => Ok(json_view(j)),
        Err(e) => Err(error_view(e)),
    }
}

/// Coerce a mapping key to its text form, or give the key back when it has
/// none.
fn coerce_key_exec(k: Native) -> (r: Result<String, Native>)
    ensures
        match r {
            Ok(s) => coerce_key(k@) == Some(s@),
            Err(orig) => orig == k && coerce_key(k@) is None,
        },
{
    match k {
        Native::Null => Ok("null".to_owned()),
        Native::Bool(b) => Ok(
            if b {
                "true".to_owned()
            } else {
                "false".to_owned()
            },
        ),
        Native::Text(s) => Ok(s),
        other => Err(other),
    }
}

/// Insert a pair into the object being built, replacing the value under an
/// equal key in place, appending otherwise, as the JSON library's map
/// insertion does.
#[verifier::loop_isolation(false)]
fn obj_insert_exec(out: &mut Vec<(String, JsonValue)>, key: String, val: JsonValue)
    ensures
        json_obj_view(*final(out), final(out)@.len() as int) == obj_insert(
            json_obj_view(*old(out), old(out)@.len() as int),
            key@,
            json_view(val),
        ),
{
    let ghost out0 = *out;
    let ghost n0: int = out0@.len() as int;
    let ghost obj0 = json_obj_view(out0, n0);
    proof {
        lemma_json_obj_view(out0, n0);
        lemma_obj_key_index(obj0, key@);
    }
    let mut i: usize = 0;
    while i < out.len()
        invariant
            0 <= i as int <= n0,
            *out == out0,
            forall|j: int| 0 <= j < i as int ==> (#[trigger] obj0[j]).0 != key@,
        decreases n0 - i as int,
    {
        if out[i].0.eq(&key) {
            proof {
                assert(obj0[i as int].0 == key@);
                assert(obj_key_index(obj0, key@) == i as int);
            }
            let pair = out.remove(i);
            out.insert(i, (pair.0, val));
            proof {
                let cur = *out;
                let nc: int = cur@.len() as int;
                lemma_json_obj_view(cur, nc);
                assert(cur@ =~= out0@.update(i as int, (out0@[i as int].0, val)));
                assert(json_obj_view(cur, nc) =~= obj_insert(obj0, key@, json_view(val)));
            }
            return ;
        }
        i = i + 1;
    }
    out.push((key, val));
    proof {
        assert(obj_key_index(obj0, key@) == -1);
        let cur = *out;
        let nc: int = cur@.len() as int;
        lemma_json_obj_view(cur, nc);
        assert(json_obj_view(cur, nc) =~= obj_insert(obj0, key@, json_view(val)));
    }
}

/// Encode the elements of a native sequence, in order; the first failure
/// aborts and propagates.
#[verifier::loop_isolation(false)]
fn encode_items(items: Vec<Native>) -> (r: Result<Vec<JsonValue>, JsonError>)
    ensures
        ({
            let vs = native_seq_view(items, items@.len() as int);
            match r {
                Ok(out) => enc_items(vs, vs.len() as int) == Ok::<_, JsonErrorView>(
                    json_seq_view(out, out@.len() as int),
                ),
                Err(e) => enc_items(vs, vs.len() as int) == Err::<Seq<JsonValueView>, _>(
                    error_view(e),
                ),
            }
        }),
    decreases items,
{
    let ghost items0 = items;
    let ghost n: int = items@.len() as int;
    let ghost vs = native_seq_view(items0, n);
    let total = items.len();
    proof {
        assert(total as int == n);
        lemma_native_seq_view(items0, n);
    }
    let mut rest = items;
    let mut out: Vec<JsonValue> = Vec::new();
    let mut k: usize = 0;
    while rest.len() > 0
        invariant
            k as int + rest@.len() == n,
            k <= total,
            rest@ == items0@.subrange(k as int, n),
            out@.len() == k as int,
            enc_items(vs, k as int) == Ok::<_, JsonErrorView>(json_seq_view(out, k as int)),
        decreases rest@.len(),
    {
        let ghost rest0 = rest;
        let x = rest.remove(0);
        proof {
            assert(x == items0@[k as int]);
            assert(rest@ =~= items0@.subrange(k as int + 1, n));
            assert(decreases_to!(items0 => items0[k as int]));
            assert(x@ == vs[k as int]);
        }
        match to_json(x) {
            Err(e) => {
                proof {
                    assert(enc_items(vs, k as int + 1) == Err::<Seq<JsonValueView>, _>(
                        error_view(e),
                    ));
                    lemma_enc_items_err(vs, k as int + 1, n);
                }
                return Err(e);
            },
            Ok(j) => {
                let ghost outp = out;
                out.push(j);
                k = k + 1;
                proof {
                    let kk = k as int;
                    lemma_json_seq_view(outp, kk - 1);
                    lemma_json_seq_view(out, kk - 1);
                    lemma_json_seq_view(out, kk);
                    assert(json_seq_view(out, kk - 1) =~= json_seq_view(outp, kk - 1));
                    assert(json_seq_view(out, kk) == json_seq_view(out, kk - 1).push(
                        json_view(out@[kk - 1]),
                    ));
                }
            },
        }
    }
    Ok(out)
}

/// Encode the entries of a native mapping, in iteration order; the first
/// failure aborts and propagates.
#[verifier::loop_isolation(false)]
fn encode_entries(entries: Vec<(Native, Native)>) -> (r: Result<
    Vec<(String, JsonValue)>,
    JsonError,
>)
    ensures
        ({
            let evs = native_entries_view(entries, entries@.len() as int);
            match r {
                Ok(out) => enc_entries(evs, evs.len() as int) == Ok::<_, JsonErrorView>(
                    json_obj_view(out, out@.len() as int),
                ),
                Err(e) => enc_entries(evs, evs.len() as int) == Err::<
                    Seq<(Seq<char>, JsonValueView)>,
                    _,
                >(error_view(e)),
            }
        }),
    decreases entries,
{
    let ghost entries0 = entries;
    let ghost n: int = entries@.len() as int;
    let ghost evs = native_entries_view(entries0, n);
    let total = entries.len();
    proof {
        assert(total as int == n);
        lemma_native_entries_view(entries0, n);
    }
    let mut rest = entries;
    let mut out: Vec<(String, JsonValue)> = Vec::new();
    let mut k: usize = 0;
    while rest.len() > 0
        invariant
            k as int + rest@.len() == n,
            k <= total,
            rest@ == entries0@.subrange(k as int, n),
            enc_entries(evs, k as int) == Ok::<_, JsonErrorView>(
                json_obj_view(out, out@.len() as int),
            ),
        decreases rest@.len(),
    {
        let (kx, vx) = rest.remove(0);
        proof {
            assert((kx, vx) == entries0@[k as int]);
            assert(rest@ =~= entries0@.subrange(k as int + 1, n));
            assert(evs[k as int] == (kx@, vx@));
            assert(decreases_to!(entries0 => entries0[k as int]));
            assert(decreases_to!(entries0[k as int] => kx));
            assert(decreases_to!(entries0[k as int] => vx));
        }
        match coerce_key_exec(kx) {
            Err(orig) => {
                proof {
                    assert(enc_entries(evs, k as int + 1) == Err::<
                        Seq<(Seq<char>, JsonValueView)>,
                        _,
                    >(JsonErrorView::DictKeyNotString(evs[k as int].0)));
                    lemma_enc_entries_err(evs, k as int + 1, n);
                }
                return Err(JsonError::DictKeyNotString(orig));
            },
            Ok(keystr) => match to_json(vx) {
                Err(e) => {
                    proof {
                        assert(enc_entries(evs, k as int + 1) == Err::<
                            Seq<(Seq<char>, JsonValueView)>,
                            _,
                        >(error_view(e)));
                        lemma_enc_entries_err(evs, k as int + 1, n);
                    }
                    return Err(e);
                },
                Ok(j) => {
                    obj_insert_exec(&mut out, keystr, j);
                    k = k + 1;
                },
            },
        }
    }
    Ok(out)
}

/// Convert a native value to a JSON value, or report why it has none.
///
/// Dispatch is ordered and first match wins: mapping, list, tuple, text,
/// boolean, float (finite only), unsigned then signed 64-bit integer, the
/// null singleton; any other value yields a `TypeError` failure carrying its
/// type name and rendering. Boolean dispatch precedes the integer ranges, so
/// a boolean never encodes as a number.
pub fn to_json(obj: Native) -> (r: Result<JsonValue, JsonError>)
    ensures
        enc_result_view(r) == to_json_spec(obj@),
    decreases obj,
{
    match obj {
        Native::Dict(entries) => {
            proof {
                lemma_native_entries_view(entries, entries@.len() as int);
            }
            match encode_entries(entries) {
                Ok(out) => Ok(JsonValue::Object(out)),
                Err(e) => Err(e),
            }
        },
        Native::List(es) => {
            proof {
                lemma_native_seq_view(es, es@.len() as int);
            }
            match encode_items(es) {
                Ok(out) => Ok(JsonValue::Array(out)),
                Err(e) => Err(e),
            }
        },
        Native::Tuple(es) => {
            proof {
                lemma_native_seq_view(es, es@.len() as int);
            }
            match encode_items(es) {
                Ok(out) => Ok(JsonValue::Array(out)),
                Err(e) => Err(e),
            }
        },
        Native::Text(s) => Ok(JsonValue::Text(s)),
        Native::Bool(b) => Ok(JsonValue::Bool(b)),
        Native::Float(bits) => {
            if is_f64_bits_finite(bits) {
                Ok(JsonValue::Number(JsonNumber::Float(bits)))
            } else {
                Err(JsonError::InvalidFloat)
            }
        },
        Native::Int(i) => {
            if i >= 0 && i <= u64::MAX as i128 {
                Ok(JsonValue::Number(JsonNumber::Unsigned(i as u64)))
            } else if i < 0 && i >= i64::MIN as i128 {
                Ok(JsonValue::Number(JsonNumber::Signed(i as i64)))
            } else {
                Err(JsonError::TypeError("int".to_owned(), Ok(int_to_decimal(i))))
            }
        },
        Native::Null => Ok(JsonValue::Null),
        Native::Other(name, repr) => Err(JsonError::TypeError(name, repr)),
    }
}

} // verus!
