//! Running an initializer on the cells behind a bare pointer.
//!
//! These functions wrap the pointer in a handle, run the initializer, and
//! give the handle up again: the caller keeps the pointer and learns from
//! the result whether values stand behind it now.

use vstd::prelude::*;
use crate::memory::{Memory, Ptr};
use crate::pin_ptr::{PinnedInit, PinnedUninit};
use crate::ptr::{Target, Uninit};
use crate::traits::{Initialize, PinInitialize, TryInitialize, TryPinInitialize};

verus! {

/// Runs `init` on the cells behind `ptr`. After `Ok` each of them holds a
/// value; after `Err` they are empty, as they were.
pub fn try_init_in_place<T: ?Sized + Target, I: TryInitialize<T>>(
    init: I,
    mem: &mut Memory<T::Elem>,
    ptr: Ptr,
) -> (res: Result<(), I::Error>)
    requires
        T::shaped(ptr.shape),
        old(mem)@.wf(),
        old(mem)@.is_uninit(ptr),
        init.accepts(old(mem)@, ptr),
    ensures
        final(mem)@.wf(),
        old(mem)@.same_outside(final(mem)@, ptr),
        res is Ok ==> final(mem)@.is_init(ptr),
        res is Err ==> final(mem)@.is_uninit(ptr),
        init.infallible() ==> res is Ok,
        init.done(old(mem)@, ptr, final(mem)@, res),
        res is Ok ==> res == Ok::<(), I::Error>(()),
{
    proof {
        old(mem)@.lemma_valid_in_range(ptr);
    }
    match init.try_init(mem, Uninit::from_raw(ptr)) {
        Err(err) => Err(err),
        Ok(init) => {
            let old = init.into_raw();
            assert(old == ptr);
            Ok(())
        },
    }
}

/// Runs `init`, which cannot fail, on the cells behind `ptr`. Afterwards
/// each of them holds a value.
pub fn init_in_place<T: ?Sized + Target, I: Initialize<T>>(
    init: I,
    mem: &mut Memory<T::Elem>,
    ptr: Ptr,
)
    requires
        T::shaped(ptr.shape),
        old(mem)@.wf(),
        old(mem)@.is_uninit(ptr),
        init.accepts(old(mem)@, ptr),
        init.infallible(),
    ensures
        final(mem)@.wf(),
        old(mem)@.same_outside(final(mem)@, ptr),
        final(mem)@.is_init(ptr),
        init.done(old(mem)@, ptr, final(mem)@, Ok(())),
{
    proof {
        old(mem)@.lemma_valid_in_range(ptr);
    }
    match init.try_init(mem, Uninit::from_raw(ptr)) {
        Err(_) => vstd::pervasive::unreached(),
        Ok(init) => {
            let old = init.into_raw();
            assert(old == ptr);
        },
    }
}

/// Runs `init` on the pinned cells behind `ptr`. After `Ok` each of them
/// holds a value; after `Err` they are empty, as they were.
pub fn try_pin_init_in_place<T: ?Sized + Target, I: TryPinInitialize<T>>(
    init: I,
    mem: &mut Memory<T::Elem>,
    ptr: Ptr,
) -> (res: Result<(), I::Error>)
    requires
        T::shaped(ptr.shape),
        old(mem)@.wf(),
        old(mem)@.is_uninit(ptr),
        init.pin_accepts(old(mem)@, ptr),
    ensures
        final(mem)@.wf(),
        old(mem)@.same_outside(final(mem)@, ptr),
        res is Ok ==> final(mem)@.is_init(ptr),
        res is Err ==> final(mem)@.is_uninit(ptr),
        init.pin_infallible() ==> res is Ok,
        init.pin_done(old(mem)@, ptr, final(mem)@, res),
        res is Ok ==> res == Ok::<(), I::Error>(()),
{
    proof {
        old(mem)@.lemma_valid_in_range(ptr);
    }
    let uninit = Uninit::from_raw(ptr);
    let uninit = PinnedUninit::new_unchecked(uninit);
    match init.try_pin_init(mem, uninit) {
        Err(err) => Err(err),
        Ok(init) => {
            let init = PinnedInit::into_inner_unchecked(init);
            let old = init.into_raw();
            assert(old == ptr);
            Ok(())
        },
    }
}

/// Runs `init`, which cannot fail, on the pinned cells behind `ptr`.
/// Afterwards each of them holds a value.
pub fn pin_init_in_place<T: ?Sized + Target, I: PinInitialize<T>>(
    init: I,
    mem: &mut Memory<T::Elem>,
    ptr: Ptr,
)
    requires
        T::shaped(ptr.shape),
        old(mem)@.wf(),
        old(mem)@.is_uninit(ptr),
        init.pin_accepts(old(mem)@, ptr),
        init.pin_infallible(),
    ensures
        final(mem)@.wf(),
        old(mem)@.same_outside(final(mem)@, ptr),
        final(mem)@.is_init(ptr),
        init.pin_done(old(mem)@, ptr, final(mem)@, Ok(())),
{
    proof {
        old(mem)@.lemma_valid_in_range(ptr);
    }
    let uninit = Uninit::from_raw(ptr);
    let uninit = PinnedUninit::new_unchecked(uninit);
    match init.try_pin_init(mem, uninit) {
        Err(_) => vstd::pervasive::unreached(),
        Ok(init) => {
            let init = PinnedInit::into_inner_unchecked(init);
            let old = init.into_raw();
            assert(old == ptr);
        },
    }
}

} // verus!
