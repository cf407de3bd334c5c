//! The error of parsing or executing a makefile.

use crate::context::{Context, ContextView};
use vstd::prelude::*;
use vstd::string::StringExecFns;

verus! {

/// An error in a makefile: what went wrong, and where.
#[derive(Debug)]
pub struct MakeError {
    pub msg: String,
    pub context: Context,
}

/// What an error is to the contracts.
pub struct MakeErrorView {
    pub msg: Seq<char>,
    pub context: ContextView,
}

impl View for MakeError {
    type V = MakeErrorView;

    open spec fn view(&self) -> MakeErrorView {
        MakeErrorView { msg: self.msg@, context: self.context@ }
    }
}

/// Whether `r` tells the error `error`, or success where there is none.
pub open spec fn tells(r: Result<(), MakeError>, error: Option<MakeErrorView>) -> bool {
    match error {
        None => r is Ok,
        Some(e) => r is Err && r->Err_0@ == e,
    }
}

impl MakeError {
    /// The error with the message `msg` at the place `context`.
    pub fn new(msg: &str, context: Context) -> (out: Self)
        ensures
            out@ == (MakeErrorView { msg: msg@, context: context@ }),
    {
        MakeError { msg: String::from_str(msg), context }
    }
}

} // verus!
