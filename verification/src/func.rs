//! Initializers made from functions.
//!
//! A function that takes the memory and a slot, and gives back the memory
//! with the handle to the value it put there, is wrapped in [`InitFn`]; one
//! that may fail, in [`TryInitFn`]. [`PinInitFn`] and [`TryPinInitFn`] do the
//! same for pinned slots. What the function requires and ensures becomes
//! what the initializer accepts and does.

use vstd::prelude::*;
use core::convert::Infallible;
use core::marker::PhantomData;
use crate::memory::{MemState, Memory, Ptr};
use crate::pin_ptr::{PinnedInit, PinnedUninit};
use crate::ptr::{Init, Target, Uninit};
use crate::traits::{outcome, TryInitialize, TryPinInitialize};

verus! {

/// Whether `f` can be called on the slot `ptr` in memory `mem`, and
/// ensures then what is asked of an initializer that cannot fail.
pub open spec fn fn_accepts<F, T: ?Sized + Target>(
    f: F,
    mem: MemState<T::Elem>,
    ptr: Ptr,
) -> bool where
    F: FnOnce(Memory<T::Elem>, Uninit<T>) -> (Memory<T::Elem>, Init<T>),
 {
    forall|m: Memory<T::Elem>, u: Uninit<T>|
        m@ == mem && u@ == ptr ==> {
            &&& #[trigger] call_requires(f, (m, u))
            &&& forall|out: (Memory<T::Elem>, Init<T>)| #[trigger]
                call_ensures(f, (m, u), out) ==> {
                    &&& out.0@.wf()
                    &&& mem.same_outside(out.0@, ptr)
                    &&& out.1@ == ptr
                    &&& out.0@.is_init(ptr)
                }
        }
}

/// Whether a call of `f` on the slot `ptr` can lead from memory `pre`
/// to memory `post`.
pub open spec fn fn_done<F, T: ?Sized + Target>(
    f: F,
    pre: MemState<T::Elem>,
    ptr: Ptr,
    post: MemState<T::Elem>,
) -> bool where F: FnOnce(Memory<T::Elem>, Uninit<T>) -> (Memory<T::Elem>, Init<T>) {
    exists|m: Memory<T::Elem>, u: Uninit<T>, out: (Memory<T::Elem>, Init<T>)|
        m@ == pre && u@ == ptr && out.0@ == post && #[trigger] call_ensures(f, (m, u), out)
}

/// A function that initializes a slot and cannot fail.
pub struct InitFn<F, T: ?Sized + Target> {
    func: F,
    marker: PhantomData<T>,
}

impl<F, T: ?Sized + Target> InitFn<F, T> {
    /// The function inside.
    pub closed spec fn func(&self) -> F {
        self.func
    }

    /// Makes an initializer of a function that cannot fail.
    pub fn new(
        func: F) -> (r: Self) where F: FnOnce(Memory<T::Elem>,
        Uninit<T>,
    ) -> (Memory<T::Elem>, Init<T>)
        ensures
            r.func() == func,
            forall|mem: MemState<T::Elem>, ptr: Ptr|
                fn_accepts::<F, T>(func, mem, ptr) ==>
                    #[trigger] <Self as TryInitialize<T>>::accepts(
                    &r,
                    mem,
                    ptr,
                ),
            forall|pre: MemState<T::Elem>, ptr: Ptr, post: MemState<T::Elem>, res: Result<(), Infallible>|
                #[trigger] <Self as TryInitialize<T>>::done(&r, pre, ptr, post, res) ==>
                    res is Ok && fn_done::<F, T>(
                    func,
                    pre,
                    ptr,
                    post,
                ),
            <Self as TryInitialize<T>>::infallible(&r),
    {
        InitFn { func, marker: PhantomData }
    }
}

impl<F, T: ?Sized + Target> TryInitialize<T> for InitFn<F, T> where
    F: FnOnce(Memory<T::Elem>, Uninit<T>) -> (Memory<T::Elem>, Init<T>),
 {
    type Error = Infallible;

    /// The function can be called on the slot, and what it ensures is
    /// what is asked of an initializer.
    open spec fn accepts(&self, mem: MemState<T::Elem>, ptr: Ptr) -> bool {
        forall|m: Memory<T::Elem>, u: Uninit<T>|
            m@ == mem && u@ == ptr ==> {
                &&& #[trigger] call_requires(self.func(), (m, u))
                &&& forall|out: (Memory<T::Elem>, Init<T>)| #[trigger]
                    call_ensures(self.func(), (m, u), out) ==> {
                        &&& out.0@.wf()
                        &&& mem.same_outside(out.0@, ptr)
                        &&& out.1@ == ptr
                        &&& out.0@.is_init(ptr)
                    }
            }
    }

    open spec fn infallible(&self) -> bool {
        true
    }

    /// Memory and result are as a call of the function left them.
    open spec fn done(
        &self,
        pre: MemState<T::Elem>,
        ptr: Ptr,
        post: MemState<T::Elem>,
        res: Result<(), Infallible>,
    ) -> bool {
        res is Ok && (exists|m: Memory<T::Elem>, u: Uninit<T>, out: (Memory<T::Elem>, Init<T>)|
            m@ == pre
                && u@ == ptr
                && out.0@ == post
                && #[trigger] call_ensures(self.func(), (m, u), out))
    }

    fn try_init(self, mem: &mut Memory<T::Elem>, ptr: Uninit<T>) -> (res: Result<
        Init<T>,
        Self::Error,
    >) {
        let mut taken: Memory<T::Elem> = Memory::<T::Elem>::new(0);
        core::mem::swap(mem, &mut taken);
        assert(call_requires(self.func(), (taken, ptr)));
        let (given, init) = (self.func)(taken, ptr);
        *mem = given;
        Ok(init)
    }
}

/// Whether `f` can be called on the slot `ptr` in memory `mem`, and
/// ensures then what is asked of an initializer that may fail.
pub open spec fn try_fn_accepts<F, T: ?Sized + Target, E>(
    f: F,
    mem: MemState<T::Elem>,
    ptr: Ptr,
) -> bool where
    F: FnOnce(Memory<T::Elem>, Uninit<T>) -> (Memory<T::Elem>, Result<Init<T>, E>),
 {
    forall|m: Memory<T::Elem>, u: Uninit<T>|
        m@ == mem && u@ == ptr ==> {
            &&& #[trigger] call_requires(f, (m, u))
            &&& forall|out: (Memory<T::Elem>, Result<Init<T>, E>)| #[trigger]
                call_ensures(f, (m, u), out) ==> {
                    &&& out.0@.wf()
                    &&& mem.same_outside(out.0@, ptr)
                    &&& match out.1 {
                        Ok(r) => r@ == ptr && out.0@.is_init(ptr),
                        Err(_) => out.0@.is_uninit(ptr),
                    }
                }
        }
}

/// Whether a call of `f` on the slot `ptr` can lead from memory `pre`
/// to memory `post` with the result `res`.
pub open spec fn try_fn_done<F, T: ?Sized + Target, E>(
    f: F,
    pre: MemState<T::Elem>,
    ptr: Ptr,
    post: MemState<T::Elem>,
    res: Result<(), E>,
) -> bool where F: FnOnce(Memory<T::Elem>, Uninit<T>) -> (Memory<T::Elem>, Result<Init<T>, E>) {
    exists|m: Memory<T::Elem>, u: Uninit<T>, out: (Memory<T::Elem>, Result<Init<T>, E>)|
        m@ == pre
            && u@ == ptr
            && out.0@ == post
            && outcome(out.1) == res
            && #[trigger] call_ensures(
            f,
            (m, u),
            out,
        )
}

/// A function that initializes a slot, or fails.
pub struct TryInitFn<F, T: ?Sized + Target, E> {
    func: F,
    marker: PhantomData<T>,
    error: PhantomData<E>,
}

impl<F, T: ?Sized + Target, E> TryInitFn<F, T, E> {
    /// The function inside.
    pub closed spec fn func(&self) -> F {
        self.func
    }

    /// Makes an initializer of a function that may fail.
    pub fn new(
        func: F) -> (r: Self) where F: FnOnce(Memory<T::Elem>,
        Uninit<T>,
    ) -> (Memory<T::Elem>, Result<Init<T>, E>)
        ensures
            r.func() == func,
            forall|mem: MemState<T::Elem>, ptr: Ptr|
                try_fn_accepts::<F, T, E>(func, mem, ptr) ==>
                    #[trigger] <Self as TryInitialize<T>>::accepts(
                    &r,
                    mem,
                    ptr,
                ),
            forall|pre: MemState<T::Elem>, ptr: Ptr, post: MemState<T::Elem>, res: Result<(), E>|
                #[trigger] <Self as TryInitialize<T>>::done(&r, pre, ptr, post, res) ==>
                    try_fn_done::<F, T, E>(
                    func,
                    pre,
                    ptr,
                    post,
                    res,
                ),
            !<Self as TryInitialize<T>>::infallible(&r),
    {
        TryInitFn { func, marker: PhantomData, error: PhantomData }
    }
}

impl<F, T: ?Sized + Target, E> TryInitialize<T> for TryInitFn<F, T, E> where
    F: FnOnce(Memory<T::Elem>, Uninit<T>) -> (Memory<T::Elem>, Result<Init<T>, E>),
 {
    type Error = E;

    /// The function can be called on the slot, and what it ensures is
    /// what is asked of an initializer.
    open spec fn accepts(&self, mem: MemState<T::Elem>, ptr: Ptr) -> bool {
        forall|m: Memory<T::Elem>, u: Uninit<T>|
            m@ == mem && u@ == ptr ==> {
                &&& #[trigger] call_requires(self.func(), (m, u))
                &&& forall|out: (Memory<T::Elem>, Result<Init<T>, E>)| #[trigger]
                    call_ensures(self.func(), (m, u), out) ==> {
                        &&& out.0@.wf()
                        &&& mem.same_outside(out.0@, ptr)
                        &&& match out.1 {
                            Ok(r) => r@ == ptr && out.0@.is_init(ptr),
                            Err(_) => out.0@.is_uninit(ptr),
                        }
                    }
            }
    }

    open spec fn infallible(&self) -> bool {
        false
    }

    /// Memory and result are as a call of the function left them.
    open spec fn done(
        &self,
        pre: MemState<T::Elem>,
        ptr: Ptr,
        post: MemState<T::Elem>,
        res: Result<(), E>,
    ) -> bool {
        exists|m: Memory<T::Elem>, u: Uninit<T>, out: (Memory<T::Elem>, Result<Init<T>, E>)|
            m@ == pre
                && u@ == ptr
                && out.0@ == post
                && outcome(out.1) == res
                && #[trigger] call_ensures(
                self.func(),
                (m, u),
                out,
            )
    }

    fn try_init(self, mem: &mut Memory<T::Elem>, ptr: Uninit<T>) -> (res: Result<
        Init<T>,
        Self::Error,
    >) {
        let mut taken: Memory<T::Elem> = Memory::<T::Elem>::new(0);
        core::mem::swap(mem, &mut taken);
        assert(call_requires(self.func(), (taken, ptr)));
        let (given, res) = (self.func)(taken, ptr);
        *mem = given;
        res
    }
}

/// Whether `f` can be called on the pinned slot `ptr` in memory `mem`, and
/// ensures then what is asked of an initializer that cannot fail.
pub open spec fn pin_fn_accepts<F, T: ?Sized + Target>(
    f: F,
    mem: MemState<T::Elem>,
    ptr: Ptr,
) -> bool where
    F: FnOnce(Memory<T::Elem>, PinnedUninit<T>) -> (Memory<T::Elem>, PinnedInit<T>),
 {
    forall|m: Memory<T::Elem>, u: PinnedUninit<T>|
        m@ == mem && u@ == ptr ==> {
            &&& #[trigger] call_requires(f, (m, u))
            &&& forall|out: (Memory<T::Elem>, PinnedInit<T>)| #[trigger]
                call_ensures(f, (m, u), out) ==> {
                    &&& out.0@.wf()
                    &&& mem.same_outside(out.0@, ptr)
                    &&& out.1@ == ptr
                    &&& out.0@.is_init(ptr)
                }
        }
}

/// Whether a call of `f` on the slot `ptr` can lead from memory `pre`
/// to memory `post`.
pub open spec fn pin_fn_done<F, T: ?Sized + Target>(
    f: F,
    pre: MemState<T::Elem>,
    ptr: Ptr,
    post: MemState<T::Elem>,
) -> bool where F: FnOnce(Memory<T::Elem>, PinnedUninit<T>) -> (Memory<T::Elem>, PinnedInit<T>) {
    exists|m: Memory<T::Elem>, u: PinnedUninit<T>, out: (Memory<T::Elem>, PinnedInit<T>)|
        m@ == pre && u@ == ptr && out.0@ == post && #[trigger] call_ensures(f, (m, u), out)
}

/// A function that initializes a pinned slot and cannot fail.
pub struct PinInitFn<F, T: ?Sized + Target> {
    func: F,
    marker: PhantomData<T>,
}

impl<F, T: ?Sized + Target> PinInitFn<F, T> {
    /// The function inside.
    pub closed spec fn func(&self) -> F {
        self.func
    }

    /// Makes a pinned initializer of a function that cannot fail.
    pub fn new(
        func: F) -> (r: Self) where F: FnOnce(Memory<T::Elem>,
        PinnedUninit<T>,
    ) -> (Memory<T::Elem>, PinnedInit<T>)
        ensures
            r.func() == func,
            forall|mem: MemState<T::Elem>, ptr: Ptr|
                pin_fn_accepts::<F, T>(func, mem, ptr) ==>
                    #[trigger] <Self as TryPinInitialize<T>>::pin_accepts(
                    &r,
                    mem,
                    ptr,
                ),
            forall|pre: MemState<T::Elem>, ptr: Ptr, post: MemState<T::Elem>, res: Result<(), Infallible>|
                #[trigger] <Self as TryPinInitialize<T>>::pin_done(&r, pre, ptr, post, res) ==>
                    res is Ok && pin_fn_done::<F, T>(
                    func,
                    pre,
                    ptr,
                    post,
                ),
            <Self as TryPinInitialize<T>>::pin_infallible(&r),
    {
        PinInitFn { func, marker: PhantomData }
    }
}

impl<F, T: ?Sized + Target> TryPinInitialize<T> for PinInitFn<F, T> where
    F: FnOnce(Memory<T::Elem>, PinnedUninit<T>) -> (Memory<T::Elem>, PinnedInit<T>),
 {
    type Error = Infallible;

    /// The function can be called on the slot, and what it ensures is
    /// what is asked of an initializer.
    open spec fn pin_accepts(&self, mem: MemState<T::Elem>, ptr: Ptr) -> bool {
        forall|m: Memory<T::Elem>, u: PinnedUninit<T>|
            m@ == mem && u@ == ptr ==> {
                &&& #[trigger] call_requires(self.func(), (m, u))
                &&& forall|out: (Memory<T::Elem>, PinnedInit<T>)| #[trigger]
                    call_ensures(self.func(), (m, u), out) ==> {
                        &&& out.0@.wf()
                        &&& mem.same_outside(out.0@, ptr)
                        &&& out.1@ == ptr
                        &&& out.0@.is_init(ptr)
                    }
            }
    }

    open spec fn pin_infallible(&self) -> bool {
        true
    }

    /// Memory and result are as a call of the function left them.
    open spec fn pin_done(
        &self,
        pre: MemState<T::Elem>,
        ptr: Ptr,
        post: MemState<T::Elem>,
        res: Result<(), Infallible>,
    ) -> bool {
        res is Ok
            && (exists|m: Memory<T::Elem>, u: PinnedUninit<T>, out: (Memory<T::Elem>, PinnedInit<T>)|
            m@ == pre
                && u@ == ptr
                && out.0@ == post
                && #[trigger] call_ensures(self.func(), (m, u), out))
    }

    fn try_pin_init(self, mem: &mut Memory<T::Elem>, ptr: PinnedUninit<T>) -> (res: Result<
        PinnedInit<T>,
        Self::Error,
    >) {
        let mut taken: Memory<T::Elem> = Memory::<T::Elem>::new(0);
        core::mem::swap(mem, &mut taken);
        assert(call_requires(self.func(), (taken, ptr)));
        let (given, init) = (self.func)(taken, ptr);
        *mem = given;
        Ok(init)
    }
}

/// Whether `f` can be called on the pinned slot `ptr` in memory `mem`, and
/// ensures then what is asked of an initializer that may fail.
pub open spec fn try_pin_fn_accepts<F, T: ?Sized + Target, E>(
    f: F,
    mem: MemState<T::Elem>,
    ptr: Ptr,
) -> bool where
    F: FnOnce(Memory<T::Elem>, PinnedUninit<T>) -> (Memory<T::Elem>, Result<PinnedInit<T>, E>),
 {
    forall|m: Memory<T::Elem>, u: PinnedUninit<T>|
        m@ == mem && u@ == ptr ==> {
            &&& #[trigger] call_requires(f, (m, u))
            &&& forall|out: (Memory<T::Elem>, Result<PinnedInit<T>, E>)| #[trigger]
                call_ensures(f, (m, u), out) ==> {
                    &&& out.0@.wf()
                    &&& mem.same_outside(out.0@, ptr)
                    &&& match out.1 {
                        Ok(r) => r@ == ptr && out.0@.is_init(ptr),
                        Err(_) => out.0@.is_uninit(ptr),
                    }
                }
        }
}

/// Whether a call of `f` on the slot `ptr` can lead from memory `pre`
/// to memory `post` with the result `res`.
pub open spec fn try_pin_fn_done<F, T: ?Sized + Target, E>(
    f: F,
    pre: MemState<T::Elem>,
    ptr: Ptr,
    post: MemState<T::Elem>,
    res: Result<(), E>,
) -> bool where F: FnOnce(Memory<T::Elem>, PinnedUninit<T>) -> (Memory<T::Elem>, Result<PinnedInit<T>, E>) {
    exists|m: Memory<T::Elem>, u: PinnedUninit<T>, out: (Memory<T::Elem>, Result<PinnedInit<T>, E>)|
        m@ == pre
            && u@ == ptr
            && out.0@ == post
            && outcome(out.1) == res
            && #[trigger] call_ensures(
            f,
            (m, u),
            out,
        )
}

/// A function that initializes a pinned slot, or fails.
pub struct TryPinInitFn<F, T: ?Sized + Target, E> {
    func: F,
    marker: PhantomData<T>,
    error: PhantomData<E>,
}

impl<F, T: ?Sized + Target, E> TryPinInitFn<F, T, E> {
    /// The function inside.
    pub closed spec fn func(&self) -> F {
        self.func
    }

    /// Makes a pinned initializer of a function that may fail.
    pub fn new(
        func: F) -> (r: Self) where F: FnOnce(Memory<T::Elem>,
        PinnedUninit<T>,
    ) -> (Memory<T::Elem>, Result<PinnedInit<T>, E>)
        ensures
            r.func() == func,
            forall|mem: MemState<T::Elem>, ptr: Ptr|
                try_pin_fn_accepts::<F, T, E>(func, mem, ptr) ==>
                    #[trigger] <Self as TryPinInitialize<T>>::pin_accepts(
                    &r,
                    mem,
                    ptr,
                ),
            forall|pre: MemState<T::Elem>, ptr: Ptr, post: MemState<T::Elem>, res: Result<(), E>|
                #[trigger] <Self as TryPinInitialize<T>>::pin_done(&r, pre, ptr, post, res) ==>
                    try_pin_fn_done::<F, T, E>(
                    func,
                    pre,
                    ptr,
                    post,
                    res,
                ),
            !<Self as TryPinInitialize<T>>::pin_infallible(&r),
    {
        TryPinInitFn { func, marker: PhantomData, error: PhantomData }
    }
}

impl<F, T: ?Sized + Target, E> TryPinInitialize<T> for TryPinInitFn<F, T, E> where
    F: FnOnce(Memory<T::Elem>, PinnedUninit<T>) -> (Memory<T::Elem>, Result<PinnedInit<T>, E>),
 {
    type Error = E;

    /// The function can be called on the slot, and what it ensures is
    /// what is asked of an initializer.
    open spec fn pin_accepts(&self, mem: MemState<T::Elem>, ptr: Ptr) -> bool {
        forall|m: Memory<T::Elem>, u: PinnedUninit<T>|
            m@ == mem && u@ == ptr ==> {
                &&& #[trigger] call_requires(self.func(), (m, u))
                &&& forall|out: (Memory<T::Elem>, Result<PinnedInit<T>, E>)| #[trigger]
                    call_ensures(self.func(), (m, u), out) ==> {
                        &&& out.0@.wf()
                        &&& mem.same_outside(out.0@, ptr)
                        &&& match out.1 {
                            Ok(r) => r@ == ptr && out.0@.is_init(ptr),
                            Err(_) => out.0@.is_uninit(ptr),
                        }
                    }
            }
    }

    open spec fn pin_infallible(&self) -> bool {
        false
    }

    /// Memory and result are as a call of the function left them.
    open spec fn pin_done(
        &self,
        pre: MemState<T::Elem>,
        ptr: Ptr,
        post: MemState<T::Elem>,
        res: Result<(), E>,
    ) -> bool {
        exists|m: Memory<T::Elem>, u: PinnedUninit<T>, out: (Memory<T::Elem>, Result<PinnedInit<T>, E>)|
            m@ == pre
                && u@ == ptr
                && out.0@ == post
                && outcome(out.1) == res
                && #[trigger] call_ensures(
                self.func(),
                (m, u),
                out,
            )
    }

    fn try_pin_init(self, mem: &mut Memory<T::Elem>, ptr: PinnedUninit<T>) -> (res: Result<
        PinnedInit<T>,
        Self::Error,
    >) {
        let mut taken: Memory<T::Elem> = Memory::<T::Elem>::new(0);
        core::mem::swap(mem, &mut taken);
        assert(call_requires(self.func(), (taken, ptr)));
        let (given, res) = (self.func)(taken, ptr);
        *mem = given;
        res
    }
}

impl<F: Clone, T: ?Sized + Target> Clone for InitFn<F, T> {
    /// The initializer made of a clone of the function inside.
    fn clone(&self) -> (r: Self)
        ensures
            vstd::pervasive::cloned(self.func(), r.func()),
    {
        InitFn { func: self.func.clone(), marker: PhantomData }
    }
}

impl<F: Clone, T: ?Sized + Target, E> Clone for TryInitFn<F, T, E> {
    /// The initializer made of a clone of the function inside.
    fn clone(&self) -> (r: Self)
        ensures
            vstd::pervasive::cloned(self.func(), r.func()),
    {
        TryInitFn { func: self.func.clone(), marker: PhantomData, error: PhantomData }
    }
}

impl<F: Clone, T: ?Sized + Target> Clone for PinInitFn<F, T> {
    /// The initializer made of a clone of the function inside.
    fn clone(&self) -> (r: Self)
        ensures
            vstd::pervasive::cloned(self.func(), r.func()),
    {
        PinInitFn { func: self.func.clone(), marker: PhantomData }
    }
}

impl<F: Clone, T: ?Sized + Target, E> Clone for TryPinInitFn<F, T, E> {
    /// The initializer made of a clone of the function inside.
    fn clone(&self) -> (r: Self)
        ensures
            vstd::pervasive::cloned(self.func(), r.func()),
    {
        TryPinInitFn { func: self.func.clone(), marker: PhantomData, error: PhantomData }
    }
}

} // verus!
