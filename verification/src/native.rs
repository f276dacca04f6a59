use vstd::prelude::*;

use crate::host::{PyErr, PyErrView};

verus! {

/// A native value: the model of the host runtime's dynamically typed values,
/// as far as the conversion engine reads them. Each value is labelled by the
/// first typed view the host grants it, probing in the encoder's dispatch
/// order: mapping, sequence, text, boolean, float, integer, the null
/// singleton. A host boolean, for example, is also extractable as an integer,
/// so it is labelled `Bool` because the boolean probe comes first.
#[derive(Debug, PartialEq)]
pub enum Native {
    /// The host's null singleton.
    Null,
    Bool(bool),
    /// An integer. The host's integers are unbounded; values outside this
    /// range are not representable in the model.
    Int(i128),
    /// A floating-point value, held as its IEEE 754 bit pattern.
    Float(u64),
    Text(String),
    /// A growable ordered sequence.
    List(Vec<Native>),
    /// A fixed-size ordered sequence.
    Tuple(Vec<Native>),
    /// An associative container, iterated in the order given here.
    Dict(Vec<(Native, Native)>),
    /// A value of any other dynamic type: its type name, and the host's
    /// best-effort textual rendering of it, which may itself have failed.
    Other(String, Result<String, PyErr>),
}

/// The mathematical image of a `Native`: unbounded integers, character
/// sequences for text, sequences for containers.
pub enum NativeView {
    Null,
    Bool(bool),
    Int(int),
    Float(u64),
    Text(Seq<char>),
    List(Seq<NativeView>),
    Tuple(Seq<NativeView>),
    Dict(Seq<(NativeView, NativeView)>),
    Other(Seq<char>, Result<Seq<char>, PyErrView>),
}

pub open spec fn repr_view(r: Result<String, PyErr>) -> Result<Seq<char>, PyErrView> {
    match r {
        Ok(s) => Ok(s@),
        Err(e) => Err(e@),
    }
}

pub open spec fn native_view(v: Native) -> NativeView
    decreases v, 0int,
{
    match v {
        Native::Null => NativeView::Null,
        Native::Bool(b) => NativeView::Bool(b),
        Native::Int(i) => NativeView::Int(i as int),
        Native::Float(bits) => NativeView::Float(bits),
        Native::Text(s) => NativeView::Text(s@),
        Native::List(es) => NativeView::List(native_seq_view(es, es@.len() as int)),
        Native::Tuple(es) => NativeView::Tuple(native_seq_view(es, es@.len() as int)),
        Native::Dict(es) => NativeView::Dict(native_entries_view(es, es@.len() as int)),
        Native::Other(name, repr) => NativeView::Other(name@, repr_view(repr)),
    }
}

/// Views of the first `n` elements of `es`.
pub open spec fn native_seq_view(es: Vec<Native>, n: int) -> Seq<NativeView>
    decreases es, n,
{
    if 0 < n <= es@.len() {
        native_seq_view(es, n - 1).push(native_view(es[n - 1]))
    } else {
        Seq::empty()
    }
}

/// Views of the first `n` key-value pairs of `es`.
pub open spec fn native_entries_view(es: Vec<(Native, Native)>, n: int) -> Seq<(
    NativeView,
    NativeView,
)>
    decreases es, n,
{
    if 0 < n <= es@.len() {
        native_entries_view(es, n - 1).push(
            (native_view(es[n - 1].0), native_view(es[n - 1].1)),
        )
    } else {
        Seq::empty()
    }
}

impl View for Native {
    type V = NativeView;

    open spec fn view(&self) -> NativeView {
        native_view(*self)
    }
}

pub proof fn lemma_native_seq_view(es: Vec<Native>, n: int)
    requires
        0 <= n <= es@.len(),
    ensures
        native_seq_view(es, n).len() == n,
        forall|j: int|
            0 <= j < n ==> #[trigger] native_seq_view(es, n)[j] == native_view(es@[j]),
    decreases n,
{
    if 0 < n {
        lemma_native_seq_view(es, n - 1);
    }
}

pub proof fn lemma_native_entries_view(es: Vec<(Native, Native)>, n: int)
    requires
        0 <= n <= es@.len(),
    ensures
        native_entries_view(es, n).len() == n,
        forall|j: int|
            0 <= j < n ==> #[trigger] native_entries_view(es, n)[j] == (
                native_view(es@[j].0),
                native_view(es@[j].1),
            ),
    decreases n,
{
    if 0 < n {
        lemma_native_entries_view(es, n - 1);
    }
}

} // verus!
