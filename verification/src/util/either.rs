//! A middleware that may be there or not.

use vstd::prelude::*;

verus! {

/// One of two values: here a middleware, or what stands in its place.
#[derive(Debug)]
pub enum Either<L, R> {
    Left(L),
    Right(R),
}

impl<L, R> Either<L, R> {
    /// The first value where a condition holds, and the second where it does not.
    pub fn when(condition: bool, left: L, right: R) -> (r: Either<L, R>)
        ensures
            r == if condition {
                Either::Left(left)
            } else {
                Either::Right(right)
            },
    {
        if condition {
            Either::Left(left)
        } else {
            Either::Right(right)
        }
    }
}

/// A middleware that does nothing.
#[derive(Debug, Clone, Copy, PartialEq, Eq, Structural)]
pub struct IdentityMiddleware;

impl Default for IdentityMiddleware {
    fn default() -> (r: IdentityMiddleware)
        ensures
            r == IdentityMiddleware,
    {
        IdentityMiddleware
    }
}

} // verus!
