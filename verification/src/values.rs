//! Errors raised by operations on FEEL values.
use vstd::prelude::*;

verus! {

/// A value that an operation cannot take.
#[derive(Debug)]
pub struct ValueError(pub String);

/// A value of a type that an operation cannot take.
#[derive(Debug)]
pub struct TypeError(pub String);

impl Clone for ValueError {
    fn clone(&self) -> (r: Self)
        ensures
            r == *self,
    {
        ValueError(self.0.clone())
    }
}

impl Clone for TypeError {
    fn clone(&self) -> (r: Self)
        ensures
            r == *self,
    {
        TypeError(self.0.clone())
    }
}

impl From<String> for ValueError {
    fn from(err: String) -> (r: Self) {
        ValueError(err)
    }
}

impl vstd::std_specs::convert::FromSpecImpl<String> for ValueError {
    open spec fn obeys_from_spec() -> bool {
        true
    }

    open spec fn from_spec(err: String) -> Self {
        ValueError(err)
    }
}

impl From<String> for TypeError {
    fn from(err: String) -> (r: Self) {
        TypeError(err)
    }
}

impl vstd::std_specs::convert::FromSpecImpl<String> for TypeError {
    open spec fn obeys_from_spec() -> bool {
        true
    }

    open spec fn from_spec(err: String) -> Self {
        TypeError(err)
    }
}

} // verus!
