//! Initializers for arrays.
//!
//! An array is a slice whose length is known beforehand: an initializer for
//! an array of `N` values is a slice initializer that accepts slices of `N`
//! cells and no others.

use vstd::prelude::*;
use crate::memory::{MemState, Memory, Ptr};
use crate::pin_ptr::{PinnedInit, PinnedUninit};
use crate::ptr::{Init, Uninit};
use crate::traits::{TryInitialize, TryPinInitialize};

verus! {

/// A slice initializer that initializes arrays of `N` values.
pub struct ArrayInit<I, const N: usize>(I);

impl<I, const N: usize> ArrayInit<I, N> {
    /// The initializer inside.
    pub closed spec fn inner(&self) -> I {
        self.0
    }

    /// An array initializer that runs `init` on the cells of the array.
    pub fn new(init: I) -> (r: Self)
        ensures
            r.inner() == init,
    {
        Self(init)
    }
}

impl<I: TryInitialize<[T]>, T, const N: usize> TryInitialize<[T]> for ArrayInit<I, N> {
    type Error = I::Error;

    /// The slice has `N` cells, and the initializer inside accepts it.
    open spec fn accepts(&self, mem: MemState<T>, ptr: Ptr) -> bool {
        ptr.count() == N && self.inner().accepts(mem, ptr)
    }

    open spec fn infallible(&self) -> bool {
        self.inner().infallible()
    }

    open spec fn done(
        &self,
        pre: MemState<T>,
        ptr: Ptr,
        post: MemState<T>,
        res: Result<(), I::Error>,
    ) -> bool {
        ptr.count() == N && self.inner().done(pre, ptr, post, res)
    }

    fn try_init(self, mem: &mut Memory<T>, ptr: Uninit<[T]>) -> (res: Result<
        Init<[T]>,
        Self::Error,
    >) {
        match self.0.try_init(mem, ptr) {
            Ok(init) => Ok(init),
            Err(err) => Err(err),
        }
    }
}

impl<I: TryPinInitialize<[T]>, T, const N: usize> TryPinInitialize<[T]> for ArrayInit<I, N> {
    type Error = I::Error;

    /// The slice has `N` cells, and the initializer inside accepts it.
    open spec fn pin_accepts(&self, mem: MemState<T>, ptr: Ptr) -> bool {
        ptr.count() == N && self.inner().pin_accepts(mem, ptr)
    }

    open spec fn pin_infallible(&self) -> bool {
        self.inner().pin_infallible()
    }

    open spec fn pin_done(
        &self,
        pre: MemState<T>,
        ptr: Ptr,
        post: MemState<T>,
        res: Result<(), I::Error>,
    ) -> bool {
        ptr.count() == N && self.inner().pin_done(pre, ptr, post, res)
    }

    fn try_pin_init(self, mem: &mut Memory<T>, ptr: PinnedUninit<[T]>) -> (res: Result<
        PinnedInit<[T]>,
        Self::Error,
    >) {
        match self.0.try_pin_init(mem, ptr) {
            Ok(init) => Ok(init),
            Err(err) => Err(err),
        }
    }
}

} // verus!
