use vstd::prelude::*;

use crate::decode::{dec_entries, dec_items, from_json_spec};
use crate::encode::{
    coerce_key, enc_entries, enc_items, lemma_enc_entries_err, lemma_obj_key_index, obj_insert,
    obj_key_index, to_json_spec,
};
use crate::errors::JsonErrorView;
use crate::json::{
    canonical_json, f64_bits_finite, lemma_canonical_entries, lemma_canonical_list,
    lemma_wf_entries, lemma_wf_list, wf_json, JsonNumber, JsonValueView,
};
use crate::native::NativeView;

verus! {

/// The native values the encoder accepts: scalars of the encodable kinds
/// (with floats finite and integers within the 64-bit ranges), sequences of
/// encodable values, and mappings whose keys are text-coercible and whose
/// values are encodable. Everything else has no JSON representation.
pub open spec fn encodable(v: NativeView) -> bool
    decreases v, 0int,
{
    match v {
        NativeView::Null => true,
        NativeView::Bool(_) => true,
        NativeView::Int(i) => i64::MIN <= i <= u64::MAX,
        NativeView::Float(bits) => f64_bits_finite(bits),
        NativeView::Text(_) => true,
        NativeView::List(es) => forall|i: int| 0 <= i < es.len() ==> encodable(#[trigger] es[i]),
        NativeView::Tuple(es) => forall|i: int| 0 <= i < es.len() ==> encodable(#[trigger] es[i]),
        NativeView::Dict(entries) => forall|i: int|
            0 <= i < entries.len() ==> coerce_key((#[trigger] entries[i]).0) is Some && encodable(
                entries[i].1,
            ),
        NativeView::Other(_, _) => false,
    }
}

proof fn lemma_enc_items_ok_iff(es: Seq<NativeView>, n: int)
    requires
        0 <= n <= es.len(),
    ensures
        enc_items(es, n) is Ok <==> (forall|i: int| 0 <= i < n ==> encodable(#[trigger] es[i])),
    decreases es, n,
{
    if 0 < n {
        lemma_enc_items_ok_iff(es, n - 1);
        lemma_to_json_ok_iff(es[n - 1]);
    }
}

proof fn lemma_enc_entries_ok_iff(entries: Seq<(NativeView, NativeView)>, n: int)
    requires
        0 <= n <= entries.len(),
    ensures
        enc_entries(entries, n) is Ok <==> (forall|i: int|
            0 <= i < n ==> coerce_key((#[trigger] entries[i]).0) is Some && encodable(
                entries[i].1,
            )),
    decreases entries, n,
{
    if 0 < n {
        lemma_enc_entries_ok_iff(entries, n - 1);
        lemma_to_json_ok_iff(entries[n - 1].1);
    }
}

/// Encoding succeeds exactly on the encodable values: scalars of the
/// supported kinds, finite floats, 64-bit-range integers, sequences of
/// encodable values, and mappings with text-coercible keys and encodable
/// values.
pub proof fn lemma_to_json_ok_iff(v: NativeView)
    ensures
        to_json_spec(v) is Ok <==> encodable(v),
    decreases v, 1int,
{
    match v {
        NativeView::List(es) => lemma_enc_items_ok_iff(es, es.len() as int),
        NativeView::Tuple(es) => lemma_enc_items_ok_iff(es, es.len() as int),
        NativeView::Dict(entries) => lemma_enc_entries_ok_iff(entries, entries.len() as int),
        _ => {},
    }
}

/// Whether some pair of `obj` has key `k`.
pub open spec fn has_key(obj: Seq<(Seq<char>, JsonValueView)>, k: Seq<char>) -> bool {
    exists|p: int| 0 <= p < obj.len() && (#[trigger] obj[p]).0 == k
}

/// `obj_insert` adds exactly the key `k` to the object's key set.
proof fn lemma_obj_insert_has_key(
    obj: Seq<(Seq<char>, JsonValueView)>,
    k: Seq<char>,
    v: JsonValueView,
)
    ensures
        forall|k2: Seq<char>|
            #[trigger] has_key(obj_insert(obj, k, v), k2) <==> (has_key(obj, k2) || k2 == k),
{
    lemma_obj_key_index(obj, k);
    let r = obj_key_index(obj, k);
    let res = obj_insert(obj, k, v);
    assert(res.len() == if r < 0 {
        obj.len() + 1
    } else {
        obj.len()
    });
    assert forall|k2: Seq<char>| #[trigger] has_key(res, k2) implies (has_key(obj, k2) || k2
        == k) by {
        let p = choose|p: int| 0 <= p < res.len() && (#[trigger] res[p]).0 == k2;
        if (r < 0 && p < obj.len()) || (r >= 0 && p != r) {
            assert(obj[p].0 == k2);
        }
    }
    assert forall|k2: Seq<char>| has_key(obj, k2) || k2 == k implies #[trigger] has_key(
        res,
        k2,
    ) by {
        if k2 == k {
            if r < 0 {
                assert(res[obj.len() as int].0 == k);
            } else {
                assert(res[r].0 == k);
            }
        } else {
            let p = choose|p: int| 0 <= p < obj.len() && (#[trigger] obj[p]).0 == k2;
            assert(res[p].0 == k2);
        }
    }
}

/// Inserting under pairwise distinct keys keeps the keys pairwise distinct.
proof fn lemma_obj_insert_distinct(
    obj: Seq<(Seq<char>, JsonValueView)>,
    k: Seq<char>,
    v: JsonValueView,
)
    requires
        forall|p: int, q: int| 0 <= p < q < obj.len() ==> (#[trigger] obj[p]).0 != (#[trigger] obj[q]).0,
    ensures
        forall|p: int, q: int|
            0 <= p < q < obj_insert(obj, k, v).len() ==> (#[trigger] obj_insert(obj, k, v)[p]).0
                != (#[trigger] obj_insert(obj, k, v)[q]).0,
{
    lemma_obj_key_index(obj, k);
}

/// Inserting a canonical value keeps every value of the object canonical.
proof fn lemma_obj_insert_canonical(
    obj: Seq<(Seq<char>, JsonValueView)>,
    k: Seq<char>,
    v: JsonValueView,
)
    requires
        forall|p: int| 0 <= p < obj.len() ==> canonical_json((#[trigger] obj[p]).1),
        canonical_json(v),
    ensures
        forall|p: int|
            0 <= p < obj_insert(obj, k, v).len() ==> canonical_json(
                (#[trigger] obj_insert(obj, k, v)[p]).1,
            ),
{
    lemma_obj_key_index(obj, k);
}

proof fn lemma_enc_items_canonical(es: Seq<NativeView>, n: int)
    requires
        0 <= n <= es.len(),
    ensures
        enc_items(es, n) matches Ok(items) ==> (items.len() == n && forall|i: int|
            0 <= i < n ==> canonical_json(#[trigger] items[i])),
    decreases es, n,
{
    if 0 < n {
        lemma_enc_items_canonical(es, n - 1);
        lemma_to_json_canonical(es[n - 1]);
    }
}

proof fn lemma_enc_entries_canonical(entries: Seq<(NativeView, NativeView)>, n: int)
    requires
        0 <= n <= entries.len(),
    ensures
        enc_entries(entries, n) matches Ok(obj) ==> ((forall|p: int, q: int|
            0 <= p < q < obj.len() ==> (#[trigger] obj[p]).0 != (#[trigger] obj[q]).0) && (
        forall|p: int| 0 <= p < obj.len() ==> canonical_json((#[trigger] obj[p]).1))),
    decreases entries, n,
{
    if 0 < n {
        lemma_enc_entries_canonical(entries, n - 1);
        if enc_entries(entries, n) is Ok {
            lemma_to_json_canonical(entries[n - 1].1);
            let obj = enc_entries(entries, n - 1)->Ok_0;
            let k = coerce_key(entries[n - 1].0)->0;
            let j = to_json_spec(entries[n - 1].1)->Ok_0;
            lemma_obj_insert_distinct(obj, k, j);
            lemma_obj_insert_canonical(obj, k, j);
        }
    }
}

/// Whatever the encoder returns satisfies the JSON value model's invariants,
/// in canonical form: objects have pairwise distinct keys, float numbers are
/// finite, and integral numbers sit in the narrowest subkind (the signed one
/// only ever carries negative values).
pub proof fn lemma_to_json_canonical(v: NativeView)
    ensures
        to_json_spec(v) matches Ok(j) ==> canonical_json(j),
    decreases v, 1int,
{
    match v {
        NativeView::List(es) => {
            lemma_enc_items_canonical(es, es.len() as int);
            if enc_items(es, es.len() as int) is Ok {
                let items = enc_items(es, es.len() as int)->Ok_0;
                lemma_canonical_list(items, items.len() as int);
            }
        },
        NativeView::Tuple(es) => {
            lemma_enc_items_canonical(es, es.len() as int);
            if enc_items(es, es.len() as int) is Ok {
                let items = enc_items(es, es.len() as int)->Ok_0;
                lemma_canonical_list(items, items.len() as int);
            }
        },
        NativeView::Dict(entries) => {
            lemma_enc_entries_canonical(entries, entries.len() as int);
            if enc_entries(entries, entries.len() as int) is Ok {
                let obj = enc_entries(entries, entries.len() as int)->Ok_0;
                lemma_canonical_entries(obj, obj.len() as int);
            }
        },
        _ => {},
    }
}

/// Canonical values are in particular well-formed.
pub proof fn lemma_canonical_wf(j: JsonValueView)
    ensures
        canonical_json(j) ==> wf_json(j),
    decreases j,
{
    match j {
        JsonValueView::Array(es) => {
            let n = es.len() as int;
            lemma_canonical_list(es, n);
            lemma_wf_list(es, n);
            if canonical_json(j) {
                assert forall|i: int| 0 <= i < n implies wf_json(#[trigger] es[i]) by {
                    lemma_canonical_wf(es[i]);
                }
            }
        },
        JsonValueView::Object(entries) => {
            let n = entries.len() as int;
            lemma_canonical_entries(entries, n);
            lemma_wf_entries(entries, n);
            if canonical_json(j) {
                assert forall|i: int| 0 <= i < n implies wf_json(
                    (#[trigger] entries[i]).1,
                ) by {
                    lemma_canonical_wf(entries[i].1);
                }
            }
        },
        _ => {},
    }
}

proof fn lemma_enc_items_prefix(s1: Seq<NativeView>, s2: Seq<NativeView>, m: int)
    requires
        0 <= m <= s1.len(),
        m <= s2.len(),
        forall|i: int| 0 <= i < m ==> s1[i] == s2[i],
    ensures
        enc_items(s1, m) == enc_items(s2, m),
    decreases m,
{
    if 0 < m {
        lemma_enc_items_prefix(s1, s2, m - 1);
    }
}

proof fn lemma_enc_entries_prefix(
    s1: Seq<(NativeView, NativeView)>,
    s2: Seq<(NativeView, NativeView)>,
    m: int,
)
    requires
        0 <= m <= s1.len(),
        m <= s2.len(),
        forall|i: int| 0 <= i < m ==> s1[i] == s2[i],
    ensures
        enc_entries(s1, m) == enc_entries(s2, m),
    decreases m,
{
    if 0 < m {
        lemma_enc_entries_prefix(s1, s2, m - 1);
    }
}

proof fn lemma_round_trip_items(es: Seq<JsonValueView>, n: int)
    requires
        0 <= n <= es.len(),
        forall|i: int| 0 <= i < n ==> canonical_json(#[trigger] es[i]),
    ensures
        dec_items(es, n).len() == n,
        enc_items(dec_items(es, n), n) == Ok::<_, JsonErrorView>(es.subrange(0, n)),
    decreases es, n,
{
    if 0 < n {
        lemma_round_trip_items(es, n - 1);
        lemma_round_trip(es[n - 1]);
        let dn = dec_items(es, n);
        let dp = dec_items(es, n - 1);
        assert(dn == dp.push(from_json_spec(es[n - 1])));
        lemma_enc_items_prefix(dn, dp, n - 1);
        assert(es.subrange(0, n - 1).push(es[n - 1]) =~= es.subrange(0, n));
    } else {
        assert(es.subrange(0, 0) =~= Seq::<JsonValueView>::empty());
    }
}

proof fn lemma_round_trip_entries(entries: Seq<(Seq<char>, JsonValueView)>, n: int)
    requires
        0 <= n <= entries.len(),
        forall|i: int| 0 <= i < n ==> canonical_json((#[trigger] entries[i]).1),
        forall|p: int, q: int|
            0 <= p < q < n ==> (#[trigger] entries[p]).0 != (#[trigger] entries[q]).0,
    ensures
        dec_entries(entries, n).len() == n,
        enc_entries(dec_entries(entries, n), n) == Ok::<_, JsonErrorView>(
            entries.subrange(0, n),
        ),
    decreases entries, n,
{
    if 0 < n {
        lemma_round_trip_entries(entries, n - 1);
        lemma_round_trip(entries[n - 1].1);
        let dn = dec_entries(entries, n);
        let dp = dec_entries(entries, n - 1);
        let k = entries[n - 1].0;
        assert(dn == dp.push((NativeView::Text(k), from_json_spec(entries[n - 1].1))));
        lemma_enc_entries_prefix(dn, dp, n - 1);
        let obj = entries.subrange(0, n - 1);
        lemma_obj_key_index(obj, k);
        if obj_key_index(obj, k) >= 0 {
            let r = obj_key_index(obj, k);
            assert(entries[r].0 == entries[n - 1].0);
            assert(false);
        }
        assert(coerce_key(NativeView::Text(k)) == Some(k));
        assert(obj.push((k, entries[n - 1].1)) =~= entries.subrange(0, n));
    } else {
        assert(entries.subrange(0, 0) =~= Seq::<(Seq<char>, JsonValueView)>::empty());
    }
}

/// Round trip: decoding a canonical JSON value and encoding the result gives
/// back the very same JSON value. Canonical means built from finite float
/// numbers, negative-only signed numbers, text, booleans, null, arrays, and
/// objects with pairwise distinct text keys — exactly the shapes the encoder
/// itself produces.
pub proof fn lemma_round_trip(j: JsonValueView)
    requires
        canonical_json(j),
    ensures
        to_json_spec(from_json_spec(j)) == Ok::<_, JsonErrorView>(j),
    decreases j, 1int,
{
    match j {
        JsonValueView::Array(es) => {
            lemma_canonical_list(es, es.len() as int);
            lemma_round_trip_items(es, es.len() as int);
            assert(es.subrange(0, es.len() as int) =~= es);
        },
        JsonValueView::Object(entries) => {
            lemma_canonical_entries(entries, entries.len() as int);
            lemma_round_trip_entries(entries, entries.len() as int);
            assert(entries.subrange(0, entries.len() as int) =~= entries);
        },
        _ => {},
    }
}

/// Booleans encode as JSON booleans, never as numbers: the boolean probe
/// precedes the integer probes in the dispatch order.
pub proof fn lemma_encode_bool(b: bool)
    ensures
        to_json_spec(NativeView::Bool(b)) == Ok::<_, JsonErrorView>(JsonValueView::Bool(b)),
{
}

/// A finite float encodes as a float-subkind number carrying the same bits;
/// a non-finite one fails with `InvalidFloat`.
pub proof fn lemma_encode_float(bits: u64)
    ensures
        f64_bits_finite(bits) ==> to_json_spec(NativeView::Float(bits)) == Ok::<
            _,
            JsonErrorView,
        >(JsonValueView::Number(JsonNumber::Float(bits))),
        !f64_bits_finite(bits) ==> to_json_spec(NativeView::Float(bits)) == Err::<
            JsonValueView,
            _,
        >(JsonErrorView::InvalidFloat),
{
}

/// An integer in unsigned 64-bit range encodes as an unsigned-subkind number;
/// one that needs a sign but fits the signed 64-bit range encodes as a
/// signed-subkind number.
pub proof fn lemma_encode_int(i: int)
    ensures
        0 <= i <= u64::MAX ==> to_json_spec(NativeView::Int(i)) == Ok::<_, JsonErrorView>(
            JsonValueView::Number(JsonNumber::Unsigned(i as u64)),
        ),
        i64::MIN <= i < 0 ==> to_json_spec(NativeView::Int(i)) == Ok::<_, JsonErrorView>(
            JsonValueView::Number(JsonNumber::Signed(i as i64)),
        ),
{
}

/// A mapping encodes successfully exactly when every key is text-coercible
/// (text, boolean, or null) and every value is encodable; the object it
/// yields then has exactly the coerced key forms as its keys.
pub proof fn lemma_encode_dict(entries: Seq<(NativeView, NativeView)>)
    ensures
        to_json_spec(NativeView::Dict(entries)) is Ok <==> (forall|i: int|
            0 <= i < entries.len() ==> coerce_key((#[trigger] entries[i]).0) is Some
                && encodable(entries[i].1)),
        to_json_spec(NativeView::Dict(entries)) matches Ok(JsonValueView::Object(obj))
            ==> forall|k: Seq<char>|
            #[trigger] has_key(obj, k) <==> exists|i: int|
                0 <= i < entries.len() && coerce_key((#[trigger] entries[i]).0) == Some(k),
{
    lemma_enc_entries_ok_iff(entries, entries.len() as int);
    lemma_enc_entries_keys(entries, entries.len() as int);
}

proof fn lemma_enc_entries_keys(entries: Seq<(NativeView, NativeView)>, n: int)
    requires
        0 <= n <= entries.len(),
    ensures
        enc_entries(entries, n) matches Ok(obj) ==> forall|k: Seq<char>|
            #[trigger] has_key(obj, k) <==> exists|i: int|
                0 <= i < n && coerce_key((#[trigger] entries[i]).0) == Some(k),
    decreases entries, n,
{
    if 0 < n && enc_entries(entries, n) is Ok {
        lemma_enc_entries_keys(entries, n - 1);
        let pre = enc_entries(entries, n - 1)->Ok_0;
        let kn = coerce_key(entries[n - 1].0)->0;
        let j = to_json_spec(entries[n - 1].1)->Ok_0;
        lemma_obj_insert_has_key(pre, kn, j);
        let obj = obj_insert(pre, kn, j);
        assert(enc_entries(entries, n) == Ok::<_, JsonErrorView>(obj));
        assert forall|k: Seq<char>| #[trigger] has_key(obj, k) implies exists|i: int|
            0 <= i < n && coerce_key((#[trigger] entries[i]).0) == Some(k) by {
            if k == kn {
                assert(coerce_key(entries[n - 1].0) == Some(k));
            } else {
                let i = choose|i: int|
                    0 <= i < n - 1 && coerce_key((#[trigger] entries[i]).0) == Some(k);
                assert(coerce_key(entries[i].0) == Some(k));
            }
        }
        assert forall|k: Seq<char>|
            (exists|i: int|
                0 <= i < n && coerce_key((#[trigger] entries[i]).0) == Some(k)) implies #[trigger] has_key(
            obj,
            k,
        ) by {
            let i = choose|i: int|
                0 <= i < n && coerce_key((#[trigger] entries[i]).0) == Some(k);
            if i < n - 1 {
                assert(has_key(pre, k));
            }
        }
    }
}

/// A mapping whose entries are fine up to a key that is not text-coercible
/// fails with `DictKeyNotString` carrying exactly that key.
pub proof fn lemma_encode_dict_bad_key(entries: Seq<(NativeView, NativeView)>, i: int)
    requires
        0 <= i < entries.len(),
        coerce_key(entries[i].0) is None,
        forall|j: int|
            0 <= j < i ==> coerce_key((#[trigger] entries[j]).0) is Some && encodable(
                entries[j].1,
            ),
    ensures
        to_json_spec(NativeView::Dict(entries)) == Err::<JsonValueView, _>(
            JsonErrorView::DictKeyNotString(entries[i].0),
        ),
{
    lemma_enc_entries_ok_iff(entries, i);
    assert(enc_entries(entries, i + 1) == Err::<Seq<(Seq<char>, JsonValueView)>, _>(
        JsonErrorView::DictKeyNotString(entries[i].0),
    ));
    lemma_enc_entries_err(entries, i + 1, entries.len() as int);
}

/// Encoding is a function of the value alone: two encodings of equal native
/// values have equal outcomes, so an unsupported value fails twice with the
/// same failure kind and the same type name.
pub proof fn lemma_encode_deterministic(v1: NativeView, v2: NativeView)
    requires
        v1 == v2,
    ensures
        to_json_spec(v1) == to_json_spec(v2),
{
}

/// The null singleton encodes as JSON null, and JSON null decodes back to the
/// null singleton.
pub proof fn lemma_null_conversions()
    ensures
        to_json_spec(NativeView::Null) == Ok::<_, JsonErrorView>(JsonValueView::Null),
        from_json_spec(JsonValueView::Null) == NativeView::Null,
{
}

} // verus!
