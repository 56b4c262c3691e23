//! Host-side string helpers exposed by the runtime.

use vstd::prelude::*;

verus! {

/// The string-concatenation capability that property access on a string
/// value hands out: it holds the base string and appends its argument.
pub struct Concat(pub String);

impl Concat {
    /// Wrap a base string.
    pub fn new(s: String) -> (r: Concat)
        ensures
            r.0 == s,
    {
        Concat(s)
    }

    /// Concatenate the held base with the argument.
    pub fn apply(&self, other: &str) -> (r: String)
        ensures
            r@ == self.0@ + other@,
    {
        let mut out = self.0.clone();
        vstd::string::StringExecFns::append(&mut out, other);
        out
    }
}

} // verus!
