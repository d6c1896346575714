//! Turning an absent value into a protocol error instead of unwinding.

use crate::error::{ErrorCode, TYieldResult};
use vstd::prelude::*;

verus! {

/// A container that either holds one value or holds none.
pub trait SafeUnwrap: Sized {
    type Item;

    /// The value held, if there is one.
    spec fn held(self) -> Option<Self::Item>;

    /// Hands out the value held; where there is none, fails with
    /// `ErrorCode::FailedUnwrap`.
    fn safe_unwrap(self) -> (r: TYieldResult<Self::Item>)
        ensures
            r == match self.held() {
                Some(v) => Ok::<Self::Item, ErrorCode>(v),
                None => Err::<Self::Item, ErrorCode>(ErrorCode::FailedUnwrap),
            },
    ;
}

impl<T> SafeUnwrap for Option<T> {
    type Item = T;

    open spec fn held(self) -> Option<T> {
        self
    }

    #[inline(always)]
    fn safe_unwrap(self) -> (r: TYieldResult<T>) {
        match self {
            Some(v) => Ok(v),
            None => Err(ErrorCode::FailedUnwrap),
        }
    }
}

impl<T, U> SafeUnwrap for Result<T, U> {
    type Item = T;

    open spec fn held(self) -> Option<T> {
        match self {
            Ok(v) => Some(v),
            Err(_) => None,
        }
    }

    #[inline(always)]
    fn safe_unwrap(self) -> (r: TYieldResult<T>) {
        match self {
            Ok(v) => Ok(v),
            Err(_) => Err(ErrorCode::FailedUnwrap),
        }
    }
}

} // verus!
