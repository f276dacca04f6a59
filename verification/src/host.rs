use vstd::prelude::*;

verus! {

/// The exception classes that failure translation can put on a host error
/// value. Errors carried through from the host keep whatever class they had;
/// `OtherError` stands for any class this library never raises itself.
#[derive(Debug, Clone, Copy, PartialEq, Eq)]
pub enum PyExcKind {
    TypeError,
    ValueError,
    OtherError,
}

/// A host-level error value: the dynamic class of the exception, the message
/// it carries (if any), and its traceback rendering (if any).
#[derive(Debug, Clone, PartialEq, Eq)]
pub struct PyErr {
    pub ptype: PyExcKind,
    pub pvalue: Option<String>,
    pub ptraceback: Option<String>,
}

/// The mathematical image of a `PyErr`: its texts as character sequences.
pub struct PyErrView {
    pub ptype: PyExcKind,
    pub pvalue: Option<Seq<char>>,
    pub ptraceback: Option<Seq<char>>,
}

pub open spec fn opt_string_view(s: Option<String>) -> Option<Seq<char>> {
    match s {
        Some(t) => Some(t@),
        None => None,
    }
}

impl View for PyErr {
    type V = PyErrView;

    open spec fn view(&self) -> PyErrView {
        PyErrView {
            ptype: self.ptype,
            pvalue: opt_string_view(self.pvalue),
            ptraceback: opt_string_view(self.ptraceback),
        }
    }
}

pub fn clone_opt_string(s: &Option<String>) -> (r: Option<String>)
    ensures
        opt_string_view(r) == opt_string_view(*s),
{
    match s {
        Some(t) => Some(t.clone()),
        None => None,
    }
}

/// Rebuild a host error value equal to the given one, as the host's own
/// reference-cloning operation does.
pub fn clone_pyerr(e: &PyErr) -> (r: PyErr)
    ensures
        r@ == e@,
{
    PyErr {
        ptype: e.ptype,
        pvalue: clone_opt_string(&e.pvalue),
        ptraceback: clone_opt_string(&e.ptraceback),
    }
}

} // verus!
