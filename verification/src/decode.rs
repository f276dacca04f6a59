use vstd::prelude::*;

use crate::errors::JsonError;
use crate::json::{
    is_wf_json, json_obj_view, json_seq_view, lemma_json_obj_view, lemma_json_seq_view,
    lemma_wf_entries, lemma_wf_list, wf_json, JsonNumber, JsonValue, JsonValueView,
};
use crate::native::{
    lemma_native_entries_view, lemma_native_seq_view, native_entries_view, native_seq_view,
    native_view, Native, NativeView,
};

verus! {

/// What decoding yields on each JSON value: one native value per variant,
/// built structurally. A number becomes the native scalar of its own active
/// subkind, arrays become lists, objects become mappings whose keys are the
/// objects' text keys, in the original order.
pub open spec fn from_json_spec(j: JsonValueView) -> NativeView
    decreases j, 0int,
{
    match j {
        JsonValueView::Number(n) => match n {
            JsonNumber::Unsigned(u) => NativeView::Int(u as int),
            JsonNumber::Signed(i) => NativeView::Int(i as int),
            JsonNumber::Float(bits) => NativeView::Float(bits),
        },
        JsonValueView::Text(s) => NativeView::Text(s),
        JsonValueView::Bool(b) => NativeView::Bool(b),
        JsonValueView::Array(es) => NativeView::List(dec_items(es, es.len() as int)),
        JsonValueView::Object(entries) => NativeView::Dict(
            dec_entries(entries, entries.len() as int),
        ),
        JsonValueView::Null => NativeView::Null,
    }
}

/// Decodings of the first `n` elements, in order.
pub open spec fn dec_items(es: Seq<JsonValueView>, n: int) -> Seq<NativeView>
    decreases es, n,
{
    if 0 < n <= es.len() {
        dec_items(es, n - 1).push(from_json_spec(es[n - 1]))
    } else {
        Seq::empty()
    }
}

/// Decodings of the first `n` object entries, in order; each key stays the
/// text it already is.
pub open spec fn dec_entries(entries: Seq<(Seq<char>, JsonValueView)>, n: int) -> Seq<(
    NativeView,
    NativeView,
)>
    decreases entries, n,
{
    if 0 < n <= entries.len() {
        dec_entries(entries, n - 1).push(
            (NativeView::Text(entries[n - 1].0), from_json_spec(entries[n - 1].1)),
        )
    } else {
        Seq::empty()
    }
}

/// Decode the elements of a JSON array, in order.
#[verifier::loop_isolation(false)]
fn decode_items(items: Vec<JsonValue>) -> (out: Vec<Native>)
    requires
        forall|i: int|
            0 <= i < items@.len() ==> wf_json(
                #[trigger] json_seq_view(items, items@.len() as int)[i],
            ),
    ensures
        ({
            let js = json_seq_view(items, items@.len() as int);
            native_seq_view(out, out@.len() as int) == dec_items(js, js.len() as int)
        }),
    decreases items,
{
    let ghost items0 = items;
    let ghost n: int = items@.len() as int;
    let ghost js = json_seq_view(items0, n);
    let total = items.len();
    proof {
        assert(total as int == n);
        lemma_json_seq_view(items0, n);
    }
    let mut rest = items;
    let mut out: Vec<Native> = Vec::new();
    let mut k: usize = 0;
    while rest.len() > 0
        invariant
            k as int + rest@.len() == n,
            k <= total,
            rest@ == items0@.subrange(k as int, n),
            out@.len() == k as int,
            native_seq_view(out, k as int) == dec_items(js, k as int),
        decreases rest@.len(),
    {
        let x = rest.remove(0);
        proof {
            assert(x == items0@[k as int]);
            assert(rest@ =~= items0@.subrange(k as int + 1, n));
            assert(decreases_to!(items0 => items0[k as int]));
            assert(x@ == js[k as int]);
            assert(wf_json(x@));
        }
        let d = from_json_ok(x);
        let ghost outp = out;
        out.push(d);
        k = k + 1;
        proof {
            let kk = k as int;
            lemma_native_seq_view(outp, kk - 1);
            lemma_native_seq_view(out, kk - 1);
            lemma_native_seq_view(out, kk);
            assert(native_seq_view(out, kk - 1) =~= native_seq_view(outp, kk - 1));
            assert(native_seq_view(out, kk) == native_seq_view(out, kk - 1).push(
                native_view(out@[kk - 1]),
            ));
        }
    }
    out
}

/// Decode the entries of a JSON object, in order; each value goes under the
/// object's own text key.
#[verifier::loop_isolation(false)]
fn decode_entries(items: Vec<(String, JsonValue)>) -> (out: Vec<(Native, Native)>)
    requires
        forall|i: int|
            0 <= i < items@.len() ==> wf_json(
                (#[trigger] json_obj_view(items, items@.len() as int)[i]).1,
            ),
    ensures
        ({
            let js = json_obj_view(items, items@.len() as int);
            native_entries_view(out, out@.len() as int) == dec_entries(js, js.len() as int)
        }),
    decreases items,
{
    let ghost items0 = items;
    let ghost n: int = items@.len() as int;
    let ghost js = json_obj_view(items0, n);
    let total = items.len();
    proof {
        assert(total as int == n);
        lemma_json_obj_view(items0, n);
    }
    let mut rest = items;
    let mut out: Vec<(Native, Native)> = Vec::new();
    let mut k: usize = 0;
    while rest.len() > 0
        invariant
            k as int + rest@.len() == n,
            k <= total,
            rest@ == items0@.subrange(k as int, n),
            out@.len() == k as int,
            native_entries_view(out, k as int) == dec_entries(js, k as int),
        decreases rest@.len(),
    {
        let (key, x) = rest.remove(0);
        proof {
            assert((key, x) == items0@[k as int]);
            assert(rest@ =~= items0@.subrange(k as int + 1, n));
            assert(decreases_to!(items0 => items0[k as int]));
            assert(decreases_to!(items0[k as int] => x));
            assert(js[k as int] == (key@, x@));
            assert(wf_json(x@));
        }
        let d = from_json_ok(x);
        let ghost outp = out;
        out.push((Native::Text(key), d));
        k = k + 1;
        proof {
            let kk = k as int;
            lemma_native_entries_view(outp, kk - 1);
            lemma_native_entries_view(out, kk - 1);
            lemma_native_entries_view(out, kk);
            assert(native_entries_view(out, kk - 1) =~= native_entries_view(outp, kk - 1));
            assert(native_entries_view(out, kk) == native_entries_view(out, kk - 1).push(
                (native_view(out@[kk - 1].0), native_view(out@[kk - 1].1)),
            ));
        }
    }
    out
}

/// The decoding itself: total on well-formed JSON values. `from_json` wraps
/// it in the `Result` the conversion interface promises.
#[verifier::loop_isolation(false)]
fn from_json_ok(json: JsonValue) -> (out: Native)
    requires
        wf_json(json@),
    ensures
        out@ == from_json_spec(json@),
    decreases json,
{
    match json {
        JsonValue::Number(n) => match n {
            JsonNumber::Unsigned(u) => Native::Int(u as i128),
            JsonNumber::Signed(i) => Native::Int(i as i128),
            JsonNumber::Float(bits) => Native::Float(bits),
        },
        JsonValue::Text(s) => Native::Text(s),
        JsonValue::Bool(b) => Native::Bool(b),
        JsonValue::Array(es) => {
            proof {
                lemma_json_seq_view(es, es@.len() as int);
                lemma_wf_list(json_seq_view(es, es@.len() as int), es@.len() as int);
            }
            Native::List(decode_items(es))
        },
        JsonValue::Object(entries) => {
            proof {
                lemma_json_obj_view(entries, entries@.len() as int);
                lemma_wf_entries(
                    json_obj_view(entries, entries@.len() as int),
                    entries@.len() as int,
                );
            }
            Native::Dict(decode_entries(entries))
        },
        JsonValue::Null => Native::Null,
    }
}

/// Convert a JSON value to a native value.
///
/// Decoding is structural and never fails on the shape of a well-formed JSON
/// value: the `Err` side of the result is the channel for host-level
/// construction failures, which this model's construction does not have, so
/// the result is always `Ok`.
pub fn from_json(json: JsonValue) -> (r: Result<Native, JsonError>)
    requires
        wf_json(json@),
    ensures
        r matches Ok(out) && out@ == from_json_spec(json@),
{
    Ok(from_json_ok(json))
}

/// Convert a JSON value to a native value, validating it first.
///
/// A value that breaks the JSON model's invariants (a non-finite float
/// number, or an object with a repeated key) can only come from an invariant
/// violation upstream, and is reported as `ImpossibleNumber` rather than
/// decoded.
pub fn checked_from_json(json: JsonValue) -> (r: Result<Native, JsonError>)
    ensures
        wf_json(json@) ==> (r matches Ok(out) && out@ == from_json_spec(json@)),
        !wf_json(json@) ==> r == Err::<Native, _>(JsonError::ImpossibleNumber),
{
    if is_wf_json(&json) {
        from_json(json)
    } else {
        Err(JsonError::ImpossibleNumber)
    }
}

} // verus!
