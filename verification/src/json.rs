use vstd::prelude::*;

verus! {

/// The numeric subkinds a JSON number can carry; exactly one is active per
/// instance. Producers pick the narrowest faithful subkind: unsigned for
/// non-negative integers, signed only for negative ones, float otherwise.
#[derive(Debug, Clone, Copy, PartialEq, Eq)]
pub enum JsonNumber {
    Unsigned(u64),
    /// Only negative values are produced with this subkind.
    Signed(i64),
    /// A 64-bit float, held as its IEEE 754 bit pattern; a well-formed JSON
    /// number never holds a non-finite one.
    Float(u64),
}

/// True when the IEEE 754 64-bit pattern is neither an infinity nor a NaN,
/// that is, when its exponent field is not all ones.
pub open spec fn f64_bits_finite(bits: u64) -> bool {
    (bits >> 52) & 0x7ff != 0x7ff
}

pub fn is_f64_bits_finite(bits: u64) -> (r: bool)
    ensures
        r == f64_bits_finite(bits),
{
    (bits >> 52) & 0x7ff != 0x7ff
}

/// A JSON value: a closed tagged union. Objects are kept as key-value pairs
/// in insertion order with pairwise distinct keys.
#[derive(Debug, PartialEq)]
pub enum JsonValue {
    Null,
    Bool(bool),
    Number(JsonNumber),
    Text(String),
    Array(Vec<JsonValue>),
    Object(Vec<(String, JsonValue)>),
}

/// The mathematical image of a `JsonValue`.
pub enum JsonValueView {
    Null,
    Bool(bool),
    Number(JsonNumber),
    Text(Seq<char>),
    Array(Seq<JsonValueView>),
    Object(Seq<(Seq<char>, JsonValueView)>),
}

pub open spec fn json_view(v: JsonValue) -> JsonValueView
    decreases v, 0int,
{
    match v {
        JsonValue::Null => JsonValueView::Null,
        JsonValue::Bool(b) => JsonValueView::Bool(b),
        JsonValue::Number(n) => JsonValueView::Number(n),
        JsonValue::Text(s) => JsonValueView::Text(s@),
        JsonValue::Array(es) => JsonValueView::Array(json_seq_view(es, es@.len() as int)),
        JsonValue::Object(es) => JsonValueView::Object(json_obj_view(es, es@.len() as int)),
    }
}

/// Views of the first `n` elements of `es`.
pub open spec fn json_seq_view(es: Vec<JsonValue>, n: int) -> Seq<JsonValueView>
    decreases es, n,
{
    if 0 < n <= es@.len() {
        json_seq_view(es, n - 1).push(json_view(es[n - 1]))
    } else {
        Seq::empty()
    }
}

/// Views of the first `n` key-value pairs of `es`.
pub open spec fn json_obj_view(es: Vec<(String, JsonValue)>, n: int) -> Seq<(
    Seq<char>,
    JsonValueView,
)>
    decreases es, n,
{
    if 0 < n <= es@.len() {
        json_obj_view(es, n - 1).push((es[n - 1].0@, json_view(es[n - 1].1)))
    } else {
        Seq::empty()
    }
}

impl View for JsonValue {
    type V = JsonValueView;

    open spec fn view(&self) -> JsonValueView {
        json_view(*self)
    }
}

pub proof fn lemma_json_seq_view(es: Vec<JsonValue>, n: int)
    requires
        0 <= n <= es@.len(),
    ensures
        json_seq_view(es, n).len() == n,
        forall|j: int| 0 <= j < n ==> #[trigger] json_seq_view(es, n)[j] == json_view(es@[j]),
    decreases n,
{
    if 0 < n {
        lemma_json_seq_view(es, n - 1);
    }
}

pub proof fn lemma_json_obj_view(es: Vec<(String, JsonValue)>, n: int)
    requires
        0 <= n <= es@.len(),
    ensures
        json_obj_view(es, n).len() == n,
        forall|j: int|
            0 <= j < n ==> #[trigger] json_obj_view(es, n)[j] == (
                es@[j].0@,
                json_view(es@[j].1),
            ),
    decreases n,
{
    if 0 < n {
        lemma_json_obj_view(es, n - 1);
    }
}

/// Pairwise distinct object keys.
pub open spec fn obj_keys_distinct(es: Seq<(Seq<char>, JsonValueView)>) -> bool {
    forall|i: int, j: int| 0 <= i < j < es.len() ==> (#[trigger] es[i].0) != (#[trigger] es[j].0)
}

/// The structural invariants of the JSON value model: every object's keys are
/// pairwise distinct, and every number's float subkind is finite.
pub open spec fn wf_json(v: JsonValueView) -> bool
    decreases v, 0int,
{
    match v {
        JsonValueView::Null => true,
        JsonValueView::Bool(_) => true,
        JsonValueView::Number(n) => match n {
            JsonNumber::Float(bits) => f64_bits_finite(bits),
            _ => true,
        },
        JsonValueView::Text(_) => true,
        JsonValueView::Array(es) => wf_list(es, es.len() as int),
        JsonValueView::Object(es) => obj_keys_distinct(es) && wf_entries(es, es.len() as int),
    }
}

/// The first `n` elements are well-formed.
pub open spec fn wf_list(es: Seq<JsonValueView>, n: int) -> bool
    decreases es, n,
{
    if 0 < n <= es.len() {
        wf_list(es, n - 1) && wf_json(es[n - 1])
    } else {
        true
    }
}

/// The first `n` entries carry well-formed values.
pub open spec fn wf_entries(es: Seq<(Seq<char>, JsonValueView)>, n: int) -> bool
    decreases es, n,
{
    if 0 < n <= es.len() {
        wf_entries(es, n - 1) && wf_json(es[n - 1].1)
    } else {
        true
    }
}

pub proof fn lemma_wf_list(es: Seq<JsonValueView>, n: int)
    requires
        0 <= n <= es.len(),
    ensures
        wf_list(es, n) <==> (forall|k: int| 0 <= k < n ==> wf_json(#[trigger] es[k])),
    decreases n,
{
    if 0 < n {
        lemma_wf_list(es, n - 1);
    }
}

pub proof fn lemma_wf_entries(es: Seq<(Seq<char>, JsonValueView)>, n: int)
    requires
        0 <= n <= es.len(),
    ensures
        wf_entries(es, n) <==> (forall|k: int| 0 <= k < n ==> wf_json((#[trigger] es[k]).1)),
    decreases n,
{
    if 0 < n {
        lemma_wf_entries(es, n - 1);
    }
}

/// Well-formed, and in the exact shape the encoder produces: the signed
/// subkind only carries negative values, so that integral numbers are held in
/// the narrowest subkind available.
pub open spec fn canonical_json(v: JsonValueView) -> bool
    decreases v, 0int,
{
    match v {
        JsonValueView::Null => true,
        JsonValueView::Bool(_) => true,
        JsonValueView::Number(n) => match n {
            JsonNumber::Unsigned(_) => true,
            JsonNumber::Signed(i) => i < 0,
            JsonNumber::Float(bits) => f64_bits_finite(bits),
        },
        JsonValueView::Text(_) => true,
        JsonValueView::Array(es) => canonical_list(es, es.len() as int),
        JsonValueView::Object(es) => obj_keys_distinct(es) && canonical_entries(
            es,
            es.len() as int,
        ),
    }
}

/// The first `n` elements are canonical.
pub open spec fn canonical_list(es: Seq<JsonValueView>, n: int) -> bool
    decreases es, n,
{
    if 0 < n <= es.len() {
        canonical_list(es, n - 1) && canonical_json(es[n - 1])
    } else {
        true
    }
}

/// The first `n` entries carry canonical values.
pub open spec fn canonical_entries(es: Seq<(Seq<char>, JsonValueView)>, n: int) -> bool
    decreases es, n,
{
    if 0 < n <= es.len() {
        canonical_entries(es, n - 1) && canonical_json(es[n - 1].1)
    } else {
        true
    }
}

pub proof fn lemma_canonical_list(es: Seq<JsonValueView>, n: int)
    requires
        0 <= n <= es.len(),
    ensures
        canonical_list(es, n) <==> (forall|k: int| 0 <= k < n ==> canonical_json(#[trigger] es[k])),
    decreases n,
{
    if 0 < n {
        lemma_canonical_list(es, n - 1);
    }
}

pub proof fn lemma_canonical_entries(es: Seq<(Seq<char>, JsonValueView)>, n: int)
    requires
        0 <= n <= es.len(),
    ensures
        canonical_entries(es, n) <==> (forall|k: int|
            0 <= k < n ==> canonical_json((#[trigger] es[k]).1)),
    decreases n,
{
    if 0 < n {
        lemma_canonical_entries(es, n - 1);
    }
}

/// Decide `wf_json` for a value, so that callers can validate a JSON value
/// before decoding it.
#[verifier::loop_isolation(false)]
pub fn is_wf_json(j: &JsonValue) -> (r: bool)
    ensures
        r == wf_json(json_view(*j)),
    decreases *j,
{
    match j {
        JsonValue::Null => true,
        JsonValue::Bool(_) => true,
        JsonValue::Number(n) => match n {
            JsonNumber::Float(bits) => is_f64_bits_finite(*bits),
            _ => true,
        },
        JsonValue::Text(_) => true,
        JsonValue::Array(es) => {
            let ghost n: int = es@.len() as int;
            let ghost vs = json_seq_view(*es, n);
            proof {
                lemma_json_seq_view(*es, n);
            }
            let mut i: usize = 0;
            while i < es.len()
                invariant
                    0 <= i as int <= n,
                    wf_list(vs, i as int),
                decreases n - i as int,
            {
                proof {
                    assert(decreases_to!(*j => *es));
                    assert(decreases_to!(*es => es[i as int]));
                }
                if !is_wf_json(&es[i]) {
                    proof {
                        lemma_wf_list(vs, n);
                        assert(!wf_json(vs[i as int]));
                    }
                    return false;
                }
                i = i + 1;
            }
            true
        },
        JsonValue::Object(entries) => {
            let ghost n: int = entries@.len() as int;
            let ghost vs = json_obj_view(*entries, n);
            proof {
                lemma_json_obj_view(*entries, n);
            }
            let mut i: usize = 0;
            while i < entries.len()
                invariant
                    0 <= i as int <= n,
                    wf_entries(vs, i as int),
                decreases n - i as int,
            {
                proof {
                    assert(decreases_to!(*j => *entries));
                    assert(decreases_to!(*entries => entries[i as int]));
                }
                if !is_wf_json(&entries[i].1) {
                    proof {
                        lemma_wf_entries(vs, n);
                        assert(!wf_json(vs[i as int].1));
                    }
                    return false;
                }
                i = i + 1;
            }
            let mut p: usize = 0;
            while p < entries.len()
                invariant
                    0 <= p as int <= n,
                    forall|a: int, b: int|
                        0 <= a < b < n && a < p as int ==> (#[trigger] vs[a]).0 != (
                        #[trigger] vs[b]).0,
                decreases n - p as int,
            {
                let mut q: usize = p + 1;
                while q < entries.len()
                    invariant
                        0 <= p as int,
                        p as int + 1 <= n,
                        p as int + 1 <= q as int,
                        q as int <= n,
                        forall|b: int| p as int + 1 <= b && b + 1 <= q as int ==> (#[trigger] vs[b]).0 != vs[
                            p as int].0,
                    decreases n - q as int,
                {
                    if entries[p].0.eq(&entries[q].0) {
                        proof {
                            assert(vs[p as int].0 == vs[q as int].0);
                            assert(!obj_keys_distinct(vs));
                        }
                        return false;
                    }
                    q = q + 1;
                }
                p = p + 1;
            }
            true
        },
    }
}

} // verus!
