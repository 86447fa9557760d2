//! The traits that everything else is built on: layout providers and the
//! four kinds of initializers.

use vstd::prelude::*;
use vstd::layout::{align_of, size_of};
use core::convert::Infallible;
use crate::layout::{Layout, LayoutError};
use crate::memory::{Addr, MemState, Memory, Ptr, Shape};
use crate::pin::{AsInit, AsPinInit};
use crate::pin_ptr::{PinnedInit, PinnedUninit};
use crate::slice::SliceInit;
use crate::ptr::{Init, Target, Uninit};

verus! {

/// What is left of a result when the handle in it is set aside: success,
/// or the error.
pub open spec fn outcome<V, E>(res: Result<V, E>) -> Result<(), E> {
    match res {
        Ok(_) => Ok(()),
        Err(e) => Err(e),
    }
}

/// Says which layout a target of type `T` needs, and turns the address of a
/// region into a pointer to such a target.
///
/// The layout has room for the target that `cast` makes a pointer to and is
/// aligned for its values, and `cast` returns the address that it was given.
pub trait LayoutProvider<T: ?Sized + Target> {
    /// The layout that the target needs, where it has one.
    spec fn layout(&self) -> Result<Layout, LayoutError>;

    /// The shape of the target.
    spec fn shape(&self) -> Shape;

    /// The layout that the target needs.
    fn layout_for(&self) -> (r: Result<Layout, LayoutError>)
        ensures
            r == self.layout(),
            r matches Ok(l) ==> {
                &&& l.wf()
                &&& self.shape().count() * size_of::<T::Elem>() <= l.size
                &&& (l.align as int) % (align_of::<T::Elem>() as int) == 0
            },
    ;

    /// The typed pointer to the target at `addr`, the first address of
    /// its block.
    fn cast(&self, addr: Addr) -> (p: Ptr)
        ensures
            p == (Ptr { addr: addr.addr, block: addr.block, index: 0, shape: self.shape() }),
            T::shaped(p.shape),
    ;

    /// The typed pointer to the target at `addr`, which is not null.
    fn cast_nonnull(&self, addr: Addr) -> (p: Ptr)
        requires
            addr.addr != 0,
        ensures
            p == (Ptr { addr: addr.addr, block: addr.block, index: 0, shape: self.shape() }),
            T::shaped(p.shape),
            p.addr != 0,
    {
        self.cast(addr)
    }
}

/// An initializer: used once, it turns an empty slot into a value, or
/// fails and leaves the slot empty.
///
/// On success the handle returned is the one for the slot that was given.
/// On failure whatever was constructed on the way has been destroyed.
/// Either way the initializer touches no cell outside the slot.
pub trait TryInitialize<T: ?Sized + Target>: Sized {
    /// What the initializer fails with.
    type Error;

    /// What the initializer asks of the memory and the slot, beyond the
    /// slot being empty.
    spec fn accepts(&self, mem: MemState<T::Elem>, ptr: Ptr) -> bool;

    /// Whether the initializer always succeeds.
    spec fn infallible(&self) -> bool;

    /// What the initializer does: how memory after the call relates to
    /// memory before it, for each way in which the call can end.
    spec fn done(
        &self,
        pre: MemState<T::Elem>,
        ptr: Ptr,
        post: MemState<T::Elem>,
        res: Result<(), Self::Error>,
    ) -> bool;

    /// Runs the initializer on the slot.
    fn try_init(self, mem: &mut Memory<T::Elem>, ptr: Uninit<T>) -> (res: Result<
        Init<T>,
        Self::Error,
    >)
        requires
            old(mem)@.wf(),
            old(mem)@.is_uninit(ptr@),
            self.accepts(old(mem)@, ptr@),
        ensures
            final(mem)@.wf(),
            old(mem)@.same_outside(final(mem)@, ptr@),
            match res {
                Ok(init) => init@ == ptr@ && final(mem)@.is_init(ptr@),
                Err(_) => final(mem)@.is_uninit(ptr@),
            },
            self.infallible() ==> res is Ok,
            self.done(old(mem)@, ptr@, final(mem)@, outcome(res)),
    ;

    /// This initializer as a pinned one, for a type that does not care
    /// whether it moves.
    fn to_pin_init(self) -> (r: AsPinInit<Self, T>) where T: Unpin
        ensures
            r.inner() == self,
    {
        AsPinInit::new(self)
    }

    /// The slice initializer that runs a clone of this one on each cell.
    fn to_slice_init(self) -> (r: SliceInit<Self>) where Self: Clone, T: Sized
        ensures
            r.inner() == self,
    {
        SliceInit::new(self)
    }
}

/// An initializer for a slot whose value will not move once it exists.
///
/// It keeps to what [`TryInitialize`] asks of an initializer.
pub trait TryPinInitialize<T: ?Sized + Target>: Sized {
    /// What the initializer fails with.
    type Error;

    /// What the initializer asks of the memory and the slot, beyond the
    /// slot being empty.
    spec fn pin_accepts(&self, mem: MemState<T::Elem>, ptr: Ptr) -> bool;

    /// Whether the initializer always succeeds.
    spec fn pin_infallible(&self) -> bool;

    /// What the initializer does: how memory after the call relates to
    /// memory before it, for each way in which the call can end.
    spec fn pin_done(
        &self,
        pre: MemState<T::Elem>,
        ptr: Ptr,
        post: MemState<T::Elem>,
        res: Result<(), Self::Error>,
    ) -> bool;

    /// Runs the initializer on the slot.
    fn try_pin_init(self, mem: &mut Memory<T::Elem>, ptr: PinnedUninit<T>) -> (res: Result<
        PinnedInit<T>,
        Self::Error,
    >)
        requires
            old(mem)@.wf(),
            old(mem)@.is_uninit(ptr@),
            self.pin_accepts(old(mem)@, ptr@),
        ensures
            final(mem)@.wf(),
            old(mem)@.same_outside(final(mem)@, ptr@),
            match res {
                Ok(init) => init@ == ptr@ && final(mem)@.is_init(ptr@),
                Err(_) => final(mem)@.is_uninit(ptr@),
            },
            self.pin_infallible() ==> res is Ok,
            self.pin_done(old(mem)@, ptr@, final(mem)@, outcome(res)),
    ;

    /// This initializer as a plain one, for a type that does not care
    /// whether it moves.
    fn to_init(self) -> (r: AsInit<Self, T>) where T: Unpin
        ensures
            r.inner() == self,
    {
        AsInit::new(self)
    }

    /// The pinned slice initializer that runs a clone of this one on each
    /// cell.
    fn to_pin_slice_init(self) -> (r: SliceInit<Self>) where Self: Clone, T: Sized
        ensures
            r.inner() == self,
    {
        SliceInit::new(self)
    }
}

/// An initializer that cannot fail. Every [`TryInitialize`] whose error
/// type has no value is one.
pub trait Initialize<T: ?Sized + Target>: TryInitialize<T, Error = Infallible> {
    /// Runs the initializer on the slot.
    fn init(self, mem: &mut Memory<T::Elem>, ptr: Uninit<T>) -> (init: Init<T>)
        requires
            old(mem)@.wf(),
            old(mem)@.is_uninit(ptr@),
            self.accepts(old(mem)@, ptr@),
            self.infallible(),
        ensures
            final(mem)@.wf(),
            old(mem)@.same_outside(final(mem)@, ptr@),
            init@ == ptr@,
            final(mem)@.is_init(ptr@),
            self.done(old(mem)@, ptr@, final(mem)@, Ok(())),
    ;
}

/// A pinned initializer that cannot fail. Every [`TryPinInitialize`]
/// whose error type has no value is one.
pub trait PinInitialize<T: ?Sized + Target>: TryPinInitialize<T, Error = Infallible> {
    /// Runs the initializer on the slot.
    fn pin_init(self, mem: &mut Memory<T::Elem>, ptr: PinnedUninit<T>) -> (init: PinnedInit<T>)
        requires
            old(mem)@.wf(),
            old(mem)@.is_uninit(ptr@),
            self.pin_accepts(old(mem)@, ptr@),
            self.pin_infallible(),
        ensures
            final(mem)@.wf(),
            old(mem)@.same_outside(final(mem)@, ptr@),
            init@ == ptr@,
            final(mem)@.is_init(ptr@),
            self.pin_done(old(mem)@, ptr@, final(mem)@, Ok(())),
    ;
}

/// A value initializes a slot by moving into it.
impl<T> TryInitialize<T> for T {
    type Error = Infallible;

    open spec fn accepts(&self, mem: MemState<T>, ptr: Ptr) -> bool {
        true
    }

    open spec fn infallible(&self) -> bool {
        true
    }

    open spec fn done(
        &self,
        pre: MemState<T>,
        ptr: Ptr,
        post: MemState<T>,
        res: Result<(), Infallible>,
    ) -> bool {
        res is Ok && post == pre.after_store(ptr.block as int, ptr.index as int, *self)
    }

    fn try_init(self, mem: &mut Memory<T>, ptr: Uninit<T>) -> (res: Result<Init<T>, Self::Error>) {
        let p = ptr.as_non_null_ptr();
        proof {
            old(mem)@.lemma_store_same_outside(p, self);
        }
        Ok(ptr.write(mem, self))
    }
}

/// A value initializes a pinned slot by moving into it.
impl<T> TryPinInitialize<T> for T {
    type Error = Infallible;

    open spec fn pin_accepts(&self, mem: MemState<T>, ptr: Ptr) -> bool {
        true
    }

    open spec fn pin_infallible(&self) -> bool {
        true
    }

    open spec fn pin_done(
        &self,
        pre: MemState<T>,
        ptr: Ptr,
        post: MemState<T>,
        res: Result<(), Infallible>,
    ) -> bool {
        res is Ok && post == pre.after_store(ptr.block as int, ptr.index as int, *self)
    }

    fn try_pin_init(self, mem: &mut Memory<T>, ptr: PinnedUninit<T>) -> (res: Result<
        PinnedInit<T>,
        Self::Error,
    >) {
        let p = ptr.as_non_null_ptr();
        proof {
            old(mem)@.lemma_store_same_outside(p, self);
        }
        Ok(ptr.write(mem, self))
    }
}

impl<T: ?Sized + Target, I: TryInitialize<T, Error = Infallible>> Initialize<T> for I {
    fn init(self, mem: &mut Memory<T::Elem>, ptr: Uninit<T>) -> (init: Init<T>) {
        match self.try_init(mem, ptr) {
            Ok(init) => init,
            Err(_) => vstd::pervasive::unreached(),
        }
    }
}

impl<T: ?Sized + Target, I: TryPinInitialize<T, Error = Infallible>> PinInitialize<T> for I {
    fn pin_init(self, mem: &mut Memory<T::Elem>, ptr: PinnedUninit<T>) -> (init: PinnedInit<T>) {
        match self.try_pin_init(mem, ptr) {
            Ok(init) => init,
            Err(_) => vstd::pervasive::unreached(),
        }
    }
}

} // verus!
