use vstd::prelude::*;

use crate::error::TokauError;

verus! {

/// A kind of atomic token values. Each kind owns `count()` local positions,
/// numbered `0, 1, ..., count() - 1`; every valid value of the kind carries
/// exactly one of those positions as its local value.
pub trait Token: Sized {
    /// Number of local positions of this kind. `0` is legal and makes the
    /// kind empty.
    spec fn spec_count() -> u32;

    /// The local value this token stands for.
    spec fn spec_value(&self) -> u32;

    /// Whether this token is a valid value of the kind.
    spec fn wf(&self) -> bool;

    fn count() -> (r: u32)
        ensures
            r == Self::spec_count(),
    ;

    fn value(&self) -> (r: u32)
        requires
            self.wf(),
        ensures
            r == self.spec_value(),
            r < Self::spec_count(),
    ;

    /// Convert a local value back into the token that stands for it. Succeeds
    /// exactly on the local values below `count()`: then it yields the unique
    /// valid token with that local value; otherwise it fails, and no valid
    /// token carries the value.
    fn from_local(value: u32) -> (r: Result<Self, TokauError>)
        ensures
            (match r {
                Ok(t) => value < Self::spec_count() && t.wf() && t.spec_value() == value && (
                forall|u: Self| u.wf() && u.spec_value() == value ==> u == t),
                Err(e) => value >= Self::spec_count() && e == (TokauError::OutOfRange {
                    value: value,
                    max: Self::spec_count(),
                }) && (forall|u: Self| u.wf() ==> u.spec_value() != value),
            }),
    ;
}

/// The valid token of kind `T` that stands for the local value `v`, where one
/// exists.
pub open spec fn token_for<T: Token>(v: u32) -> T {
    choose|t: T| t.wf() && t.spec_value() == v
}

} // verus!
