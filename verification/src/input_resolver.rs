//! Resolving and pinning a job's inputs, so that every replica reads the same bytes.



pub mod local;
pub mod resolve;
pub mod sources;

use vstd::prelude::*;

verus! {

/// Errors from resolving a job's inputs.
#[derive(Debug, Clone, PartialEq, Eq)]
pub enum InputResolveError {
    /// The query reads outside data that cannot be pinned from its text.
    NotPinnable(String),
    /// The inputs are known, but could not be reached or are gone.
    Unavailable(String),
}

/// `InputResolveError` over mathematical values.
pub enum ResolveErrorView {
    NotPinnable(Seq<char>),
    Unavailable(Seq<char>),
}

impl View for InputResolveError {
    type V = ResolveErrorView;

    open spec fn view(&self) -> ResolveErrorView {
        match self {
            InputResolveError::NotPinnable(s) => ResolveErrorView::NotPinnable(s@),
            InputResolveError::Unavailable(s) => ResolveErrorView::Unavailable(s@),
        }
    }
}

impl InputResolveError {
    /// The text of the error.
    pub open spec fn text(self) -> Seq<char> {
        match self {
            InputResolveError::NotPinnable(s) => "inputs cannot be statically pinned: "@ + s@,
            InputResolveError::Unavailable(s) => "input source unavailable: "@ + s@,
        }
    }

    /// The text of the error.
    pub fn message(&self) -> (r: String)
        ensures
            r@ == self.text(),
    {
        match self {
            InputResolveError::NotPinnable(s) => crate::scan::join(
                "inputs cannot be statically pinned: ",
                s.as_str(),
            ),
            InputResolveError::Unavailable(s) => crate::scan::join(
                "input source unavailable: ",
                s.as_str(),
            ),
        }
    }
}

/// An error tells its reason behind what could not be done.
pub proof fn reasons_stand_behind_the_fault(s: String)
    ensures
        InputResolveError::NotPinnable(s).text() == "inputs cannot be statically pinned: "@ + s@,
        InputResolveError::Unavailable(s).text() == "input source unavailable: "@ + s@,
{
}

} // verus!
