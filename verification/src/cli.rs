//! Selection of the input path from the argument list.

use vstd::prelude::*;

verus! {

/// Failure to obtain the input path from the argument list.
#[derive(Clone, Copy, PartialEq, Eq, Debug)]
pub enum ArgError {
    /// No positional argument was supplied.
    Missing,
}

impl ArgError {
    /// The diagnostic text for a missing argument.
    pub fn message(&self) -> (s: &'static str)
        ensures
            s@ == "expected 1 argument, but got none"@,
    {
        "expected 1 argument, but got none"
    }
}

/// Selects the input path: the first positional argument must be present,
/// and is handed back unchanged; with none, the selection fails.
pub fn first_arg(arg: Option<String>) -> (r: Result<String, ArgError>)
    ensures
        (arg matches Some(p) ==> r matches Ok(q) && q@ == p@),
        (arg is None ==> (r matches Err(e) && e == ArgError::Missing)),
{
    match arg {
        None => Err(ArgError::Missing),
        Some(p) => Ok(p),
    }
}

} // verus!
