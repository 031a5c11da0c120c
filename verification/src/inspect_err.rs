//! A result inspector: runs a callback on the error of a `Result` and hands
//! the result back unchanged, so error logging can sit inside a call chain.

use vstd::prelude::*;

verus! {

/// Observing an error without consuming the result.
pub trait InspectErr<E>: Sized {
    /// Calls `f` on the error, if there is one, and returns `self` unchanged.
    fn my_inspect_err<F: Fn(&E)>(self, f: F) -> (r: Self)
        requires
            forall|e: &E| #[trigger] f.requires((e,)),
        ensures
            r == self,
    ;
}

impl<T, E> InspectErr<E> for Result<T, E> {
    fn my_inspect_err<F: Fn(&E)>(self, f: F) -> (r: Self)
        ensures
            r == self,
    {
        match self {
            Ok(v) => Ok(v),
            Err(e) => {
                f(&e);
                Err(e)
            },
        }
    }
}

} // verus!
