use vstd::prelude::*;

verus! {

/// The kinds of failure that the pipeline reports to its caller.
#[derive(Debug, Clone, PartialEq, Eq)]
pub enum Error {
    Network(String),
    UnexpectedInput(String),
    InvalidUI(String),
    Other(String),
}

} // verus!
