use vstd::prelude::*;

verus! {

/// The single error kind of this library: a size-like parameter was invalid.
/// `var_name` names the offending parameter.
#[derive(Debug)]
pub struct InvalidSizeError {
    pub var_name: String,
}

impl InvalidSizeError {
    /// Builds an error naming the offending parameter.
    pub fn new(var_name: &str) -> (e: InvalidSizeError)
        ensures
            e.var_name@ == var_name@,
    {
        InvalidSizeError { var_name: var_name.to_string() }
    }

    /// A human-readable description of the error.
    pub fn message(&self) -> (m: String)
        ensures
            m@ == self.var_name@,
    {
        self.var_name.clone()
    }
}

} // verus!
