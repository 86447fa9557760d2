//! Narrowing a handle to a part of what it covers.

use vstd::prelude::*;
use vstd::layout::size_of;
use crate::memory::Ptr;
use crate::pin_ptr::PinnedUninit;
use crate::ptr::{Target, Uninit};

verus! {

/// Whether `part` covers only cells that `whole` covers.
pub open spec fn within(part: Ptr, whole: Ptr) -> bool {
    &&& part.block == whole.block
    &&& whole.index <= part.index
    &&& part.end() <= whole.end()
}

/// The handle to a part of the empty cells behind `uninit`. The part is
/// empty as the whole is, and access is not widened beyond the whole.
pub fn bind<T: ?Sized + Target, U: ?Sized + Target>(
    uninit: &mut Uninit<T>,
    ptr: Ptr,
) -> (r: Uninit<U>)
    requires
        ptr.in_range(size_of::<U::Elem>()),
        U::shaped(ptr.shape),
        within(ptr, old(uninit)@),
    ensures
        r@ == ptr,
        final(uninit)@ == old(uninit)@,
{
    Uninit::from_raw(ptr)
}

/// The handle to a part of the empty pinned cells behind `uninit`. The
/// part is empty and pinned as the whole is, and access is not widened
/// beyond the whole.
pub fn bind_pin<T: ?Sized + Target, U: ?Sized + Target>(
    uninit: &mut PinnedUninit<T>,
    ptr: Ptr,
) -> (r:
    PinnedUninit<U>)
    requires
        ptr.in_range(size_of::<U::Elem>()),
        U::shaped(ptr.shape),
        within(ptr, old(uninit)@),
    ensures
        r@ == ptr,
        final(uninit)@ == old(uninit)@,
{
    PinnedUninit::new_unchecked(Uninit::from_raw(ptr))
}

} // verus!
