//! Conversions between the error types of results.

use vstd::prelude::*;

verus! {

pub trait ResultExt<T, A>: Sized {
    /// The same result with its error converted.
    fn err_into<B: From<A>>(self) -> Result<T, B>;

    /// The same result with its error replaced by `err`.
    fn with_err<B>(self, err: B) -> (r: Result<T, B>);
}

impl<T, A> ResultExt<T, A> for Result<T, A> {
    fn err_into<B: From<A>>(self) -> (r: Result<T, B>)
        ensures
            match (self, r) {
                (Ok(before), Ok(after)) => before == after,
                (Err(before), Err(after)) => call_ensures(B::from, (before,), after),
                _ => false,
            },
    {
        match self {
            Ok(value) => Ok(value),
            Err(e) => Err(B::from(e)),
        }
    }

    fn with_err<B>(self, err: B) -> (r: Result<T, B>)
        ensures
            r == (match self {
                Ok(value) => Ok::<T, B>(value),
                Err(_) => Err::<T, B>(err),
            }),
    {
        match self {
            Ok(value) => Ok(value),
            Err(_) => Err(err),
        }
    }
}

} // verus!
