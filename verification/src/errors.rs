use vstd::prelude::*;

use crate::host::{clone_pyerr, PyErr, PyErrView, PyExcKind};
use crate::native::{native_view, repr_view, Native, NativeView};
use crate::text::push_str;

verus! {

/// The failure kinds of a conversion: a closed set.
#[derive(Debug, PartialEq)]
pub enum JsonError {
    /// An error surfaced by the host runtime itself during a call into it.
    /// Propagated unchanged, never retried.
    PythonError(PyErr),
    /// The value matched none of the encodable shapes. Carries its dynamic
    /// type name and the host's best-effort textual rendering of it, which
    /// may itself have failed.
    TypeError(String, Result<String, PyErr>),
    /// A mapping key could not be coerced to text; carries the offending key.
    DictKeyNotString(Native),
    /// A float was infinite or NaN, which JSON cannot represent.
    InvalidFloat,
    /// A number carried none of the three numeric subkinds. Defensive: it
    /// would indicate an invariant violation upstream.
    ImpossibleNumber,
}

/// The mathematical image of a `JsonError`.
pub enum JsonErrorView {
    PythonError(PyErrView),
    TypeError(Seq<char>, Result<Seq<char>, PyErrView>),
    DictKeyNotString(NativeView),
    InvalidFloat,
    ImpossibleNumber,
}

pub open spec fn error_view(e: JsonError) -> JsonErrorView {
    match e {
        JsonError::PythonError(pe) => JsonErrorView::PythonError(pe@),
        JsonError::TypeError(name, repr) => JsonErrorView::TypeError(name@, repr_view(repr)),
        JsonError::DictKeyNotString(key) => JsonErrorView::DictKeyNotString(native_view(key)),
        JsonError::InvalidFloat => JsonErrorView::InvalidFloat,
        JsonError::ImpossibleNumber => JsonErrorView::ImpossibleNumber,
    }
}

impl View for JsonError {
    type V = JsonErrorView;

    open spec fn view(&self) -> JsonErrorView {
        error_view(*self)
    }
}

/// What `to_pyerr` returns for each failure kind: a host error carried
/// through keeps its class, message and traceback; every failure this library
/// found itself becomes a fresh `TypeError` or `ValueError` with a fixed
/// message and no traceback. A failed rendering inside `TypeError` is
/// substituted for the message rather than failing the translation.
pub open spec fn to_pyerr_spec(e: JsonErrorView) -> PyErrView {
    match e {
        JsonErrorView::PythonError(pe) => pe,
        JsonErrorView::TypeError(_, Ok(repr)) => PyErrView {
            ptype: PyExcKind::TypeError,
            pvalue: Some(repr + " is not JSON serializable"@),
            ptraceback: None,
        },
        JsonErrorView::TypeError(_, Err(pe)) => pe,
        JsonErrorView::DictKeyNotString(_) => PyErrView {
            ptype: PyExcKind::TypeError,
            pvalue: Some("keys must be a string"@),
            ptraceback: None,
        },
        JsonErrorView::InvalidFloat => PyErrView {
            ptype: PyExcKind::ValueError,
            pvalue: Some("inf and nan are not supported in JSON"@),
            ptraceback: None,
        },
        JsonErrorView::ImpossibleNumber => PyErrView {
            ptype: PyExcKind::ValueError,
            pvalue: Some("a value was somehow not an integer or float"@),
            ptraceback: None,
        },
    }
}

impl JsonError {
    /// Render this failure as a host error value. This is the only place
    /// failure kinds become messages, and it cannot itself fail: when the
    /// carried rendering already failed, its host error is returned instead.
    pub fn to_pyerr(&self) -> (r: PyErr)
        ensures
            r@ == to_pyerr_spec(self@),
    {
        match self {
            JsonError::PythonError(e) => clone_pyerr(e),
            JsonError::TypeError(_, repr) => match repr {
                Ok(s) => {
                    let mut msg = s.clone();
                    push_str(&mut msg, " is not JSON serializable");
                    PyErr { ptype: PyExcKind::TypeError, pvalue: Some(msg), ptraceback: None }
                },
                Err(e) => clone_pyerr(e),
            },
            JsonError::DictKeyNotString(_) => PyErr {
                ptype: PyExcKind::TypeError,
                pvalue: Some("keys must be a string".to_owned()),
                ptraceback: None,
            },
            JsonError::InvalidFloat => PyErr {
                ptype: PyExcKind::ValueError,
                pvalue: Some("inf and nan are not supported in JSON".to_owned()),
                ptraceback: None,
            },
            JsonError::ImpossibleNumber => PyErr {
                ptype: PyExcKind::ValueError,
                pvalue: Some("a value was somehow not an integer or float".to_owned()),
                ptraceback: None,
            },
        }
    }
}

} // verus!
