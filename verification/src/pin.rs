//! The bridge between plain and pinned initializers.
//!
//! For a type that is `Unpin` nothing depends on where a value stands, so
//! an initializer of either kind can do the work of the other.

use vstd::prelude::*;
use core::marker::PhantomData;
use crate::memory::{MemState, Memory, Ptr};
use crate::pin_ptr::{PinnedInit, PinnedUninit};
use crate::ptr::{Init, Target, Uninit};
use crate::traits::{TryInitialize, TryPinInitialize};

verus! {

/// A plain initializer that also serves as a pinned one.
pub struct AsPinInit<I, T: ?Sized + Target> {
    init: I,
    marker: PhantomData<T>,
}

impl<I, T: ?Sized + Target> AsPinInit<I, T> {
    /// The initializer inside.
    pub closed spec fn inner(&self) -> I {
        self.init
    }

    /// Wraps a plain initializer.
    pub fn new(init: I) -> (r: Self)
        ensures
            r.inner() == init,
    {
        AsPinInit { init, marker: PhantomData }
    }
}

impl<I: TryInitialize<T>, T: ?Sized + Target> TryInitialize<T> for AsPinInit<I, T> {
    type Error = I::Error;

    open spec fn accepts(&self, mem: MemState<T::Elem>, ptr: Ptr) -> bool {
        self.inner().accepts(mem, ptr)
    }

    open spec fn infallible(&self) -> bool {
        self.inner().infallible()
    }

    open spec fn done(
        &self,
        pre: MemState<T::Elem>,
        ptr: Ptr,
        post: MemState<T::Elem>,
        res: Result<(), I::Error>,
    ) -> bool {
        self.inner().done(pre, ptr, post, res)
    }

    fn try_init(self, mem: &mut Memory<T::Elem>, ptr: Uninit<T>) -> (res: Result<
        Init<T>,
        Self::Error,
    >) {
        self.init.try_init(mem, ptr)
    }
}

impl<I: TryInitialize<T>, T: ?Sized + Target + Unpin> TryPinInitialize<T> for AsPinInit<I, T> {
    type Error = I::Error;

    open spec fn pin_accepts(&self, mem: MemState<T::Elem>, ptr: Ptr) -> bool {
        self.inner().accepts(mem, ptr)
    }

    open spec fn pin_infallible(&self) -> bool {
        self.inner().infallible()
    }

    open spec fn pin_done(
        &self,
        pre: MemState<T::Elem>,
        ptr: Ptr,
        post: MemState<T::Elem>,
        res: Result<(), I::Error>,
    ) -> bool {
        self.inner().done(pre, ptr, post, res)
    }

    fn try_pin_init(self, mem: &mut Memory<T::Elem>, ptr: PinnedUninit<T>) -> (res: Result<
        PinnedInit<T>,
        Self::Error,
    >) {
        match self.init.try_init(mem, ptr.into_inner()) {
            Ok(init) => Ok(PinnedInit::new(init)),
            Err(err) => Err(err),
        }
    }
}

/// A pinned initializer that also serves as a plain one.
pub struct AsInit<I, T: ?Sized + Target> {
    init: I,
    marker: PhantomData<T>,
}

impl<I, T: ?Sized + Target> AsInit<I, T> {
    /// The initializer inside.
    pub closed spec fn inner(&self) -> I {
        self.init
    }

    /// Wraps a pinned initializer.
    pub fn new(init: I) -> (r: Self)
        ensures
            r.inner() == init,
    {
        AsInit { init, marker: PhantomData }
    }
}

impl<I: TryPinInitialize<T>, T: ?Sized + Target + Unpin> TryInitialize<T> for AsInit<I, T> {
    type Error = I::Error;

    open spec fn accepts(&self, mem: MemState<T::Elem>, ptr: Ptr) -> bool {
        self.inner().pin_accepts(mem, ptr)
    }

    open spec fn infallible(&self) -> bool {
        self.inner().pin_infallible()
    }

    open spec fn done(
        &self,
        pre: MemState<T::Elem>,
        ptr: Ptr,
        post: MemState<T::Elem>,
        res: Result<(), I::Error>,
    ) -> bool {
        self.inner().pin_done(pre, ptr, post, res)
    }

    fn try_init(self, mem: &mut Memory<T::Elem>, ptr: Uninit<T>) -> (res: Result<
        Init<T>,
        Self::Error,
    >) {
        match self.init.try_pin_init(mem, PinnedUninit::new(ptr)) {
            Ok(init) => Ok(PinnedInit::into_inner(init)),
            Err(err) => Err(err),
        }
    }
}

impl<I: TryPinInitialize<T>, T: ?Sized + Target> TryPinInitialize<T> for AsInit<I, T> {
    type Error = I::Error;

    open spec fn pin_accepts(&self, mem: MemState<T::Elem>, ptr: Ptr) -> bool {
        self.inner().pin_accepts(mem, ptr)
    }

    open spec fn pin_infallible(&self) -> bool {
        self.inner().pin_infallible()
    }

    open spec fn pin_done(
        &self,
        pre: MemState<T::Elem>,
        ptr: Ptr,
        post: MemState<T::Elem>,
        res: Result<(), I::Error>,
    ) -> bool {
        self.inner().pin_done(pre, ptr, post, res)
    }

    fn try_pin_init(self, mem: &mut Memory<T::Elem>, ptr: PinnedUninit<T>) -> (res: Result<
        PinnedInit<T>,
        Self::Error,
    >) {
        self.init.try_pin_init(mem, ptr)
    }
}

} // verus!
