//! `Id`: a non-negative 64-bit integer naming a message.
use vstd::prelude::*;

verus! {

/// A non-negative 64-bit integer.
#[derive(Copy, Clone, Debug, PartialEq, Eq, PartialOrd, Ord, Hash, Default)]
pub struct Id {
    value: i64,
}

impl View for Id {
    type V = i64;

    closed spec fn view(&self) -> i64 {
        self.value
    }
}

impl Id {
    #[verifier::type_invariant]
    pub open spec fn inv(self) -> bool {
        self@ >= 0
    }

    /// Wraps `val`, which the caller knows to be non-negative.
    pub fn from_i64_unchecked(val: i64) -> (r: Id)
        requires
            val >= 0,
        ensures
            r@ == val,
    {
        Id { value: val }
    }

    /// Checks `val` and wraps it; fails if it is negative.
    pub fn try_from(val: i64) -> (r: Result<Id, &'static str>)
        ensures
            r is Ok <==> val >= 0,
            r matches Ok(id) ==> id@ == val,
    {
        if val < 0 {
            Err("value cannot be negative")
        } else {
            Ok(Id { value: val })
        }
    }

    /// The integer value.
    pub fn to_i64(&self) -> (r: i64)
        ensures
            r == self@,
            r >= 0,
    {
        proof {
            use_type_invariant(self);
        }
        self.value
    }
}

impl From<Id> for i64 {
    fn from(id: Id) -> (r: i64) {
        id.to_i64()
    }
}

impl vstd::std_specs::convert::FromSpecImpl<Id> for i64 {
    open spec fn obeys_from_spec() -> bool {
        true
    }

    open spec fn from_spec(id: Id) -> i64 {
        id@
    }
}

} // verus!
