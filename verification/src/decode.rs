//! The decoding context: collects the errors found while decoding.
use vstd::prelude::*;

use crate::errors::DecodeError;

verus! {

/// Collects the errors of a decoding pass. Errors emitted here are fatal
/// once the whole document is decoded, but decoding goes on after them.
#[derive(Debug)]
pub struct Context {
    errors: Vec<DecodeError>,
}

impl Context {
    /// The errors emitted so far, in order.
    pub closed spec fn errors(&self) -> Seq<DecodeError> {
        self.errors@
    }

    /// A context with no errors.
    pub fn new() -> (r: Context)
        ensures
            r.errors() == Seq::<DecodeError>::empty(),
    {
        Context { errors: Vec::new() }
    }

    /// Records an error.
    pub fn emit_error(&mut self, err: DecodeError)
        ensures
            final(self).errors() == old(self).errors().push(err),
    {
        self.errors.push(err);
    }

    /// Whether any error was recorded.
    pub fn has_errors(&self) -> (r: bool)
        ensures
            r == (self.errors().len() > 0),
    {
        self.errors.len() > 0
    }

    /// The recorded errors.
    pub fn into_errors(self) -> (r: Vec<DecodeError>)
        ensures
            r@ == self.errors(),
    {
        self.errors
    }
}

} // verus!
