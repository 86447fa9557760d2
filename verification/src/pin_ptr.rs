//! The pinned handles.
//!
//! They mirror [`Uninit`] and [`Init`] for values that must stay where they
//! are once they exist: nothing here moves a value out of a pinned slot, and
//! the plain handle inside is only given out for types that are `Unpin`, or
//! by the functions whose names end in `_unchecked`, whose caller takes the
//! duty over.

use vstd::prelude::*;
use vstd::layout::size_of;
use crate::layout::Layout;
use crate::memory::{BlockKind, Memory, Ptr, Shape};
use crate::ptr::{Init, Target, Uninit};
use crate::traits::{PinInitialize, TryPinInitialize};

verus! {

/// A slot that holds no value yet and whose value, once there, will not
/// move.
pub struct PinnedUninit<T: ?Sized + Target> {
    uninit: Uninit<T>,
}

/// A value that will not move again before it is destroyed.
pub struct PinnedInit<T: ?Sized + Target> {
    init: Init<T>,
}

impl<T: ?Sized + Target> View for PinnedUninit<T> {
    type V = Ptr;

    closed spec fn view(&self) -> Ptr {
        self.uninit@
    }
}

impl<T: ?Sized + Target> View for PinnedInit<T> {
    type V = Ptr;

    closed spec fn view(&self) -> Ptr {
        self.init@
    }
}

impl<T: ?Sized + Target> PinnedUninit<T> {
    /// Pins a slot. The caller vouches that the value written to it will
    /// stay there until it is destroyed.
    pub fn new_unchecked(uninit: Uninit<T>) -> (r: Self)
        ensures
            r@ == uninit@,
    {
        PinnedUninit { uninit }
    }

    /// The plain handle. The caller goes on treating the slot as pinned.
    pub fn into_inner_unchecked(self) -> (r: Uninit<T>)
        ensures
            r@ == self@,
    {
        self.uninit
    }

    /// The pointer, for reading.
    pub fn as_ptr(&self) -> (p: Ptr)
        ensures
            p == self@,
    {
        self.uninit.as_ptr()
    }

    /// The pointer, for writing.
    pub fn as_mut_ptr(&mut self) -> (p: Ptr)
        ensures
            p == old(self)@,
            final(self)@ == old(self)@,
    {
        self.uninit.as_ptr()
    }

    /// The pointer, which is not null.
    pub fn as_non_null_ptr(&self) -> (p: Ptr)
        ensures
            p == self@,
            p.in_range(size_of::<T::Elem>()),
            T::shaped(p.shape),
    {
        self.uninit.as_non_null_ptr()
    }

    /// Turns the handle into the one for initialized cells. The cells
    /// must hold values by now.
    pub fn assume_init(self, mem: &Memory<T::Elem>) -> (init: PinnedInit<T>)
        requires
            mem@.is_init(self@),
        ensures
            init@ == self@,
    {
        PinnedInit::new_unchecked(self.into_inner_unchecked().assume_init(mem))
    }

    /// Runs `init` on this slot.
    pub fn try_init<I: TryPinInitialize<T>>(self, mem: &mut Memory<T::Elem>, init: I) -> (res:
        Result<PinnedInit<T>, I::Error>)
        requires
            old(mem)@.wf(),
            old(mem)@.is_uninit(self@),
            init.pin_accepts(old(mem)@, self@),
        ensures
            final(mem)@.wf(),
            old(mem)@.same_outside(final(mem)@, self@),
            match res {
                Ok(r) => r@ == self@ && final(mem)@.is_init(self@),
                Err(_) => final(mem)@.is_uninit(self@),
            },
            init.pin_infallible() ==> res is Ok,
            init.pin_done(old(mem)@, self@, final(mem)@, crate::traits::outcome(res)),
    {
        init.try_pin_init(mem, self)
    }

    /// Runs `init`, which cannot fail, on this slot.
    pub fn init<I: PinInitialize<T>>(self, mem: &mut Memory<T::Elem>, init: I) -> (r: PinnedInit<T>)
        requires
            old(mem)@.wf(),
            old(mem)@.is_uninit(self@),
            init.pin_accepts(old(mem)@, self@),
            init.pin_infallible(),
        ensures
            final(mem)@.wf(),
            old(mem)@.same_outside(final(mem)@, self@),
            r@ == self@,
            final(mem)@.is_init(self@),
            init.pin_done(old(mem)@, self@, final(mem)@, Ok(())),
    {
        init.pin_init(mem, self)
    }
}

impl<T: ?Sized + Target + Unpin> PinnedUninit<T> {
    /// Pins a slot for a type that does not care whether it moves.
    pub fn new(uninit: Uninit<T>) -> (r: Self)
        ensures
            r@ == uninit@,
    {
        Self::new_unchecked(uninit)
    }

    /// The plain handle, for a type that does not care whether it moves.
    pub fn into_inner(self) -> (r: Uninit<T>)
        ensures
            r@ == self@,
    {
        self.into_inner_unchecked()
    }
}

impl<T> PinnedUninit<T> {
    /// The pinned handle to a buffer for one value that the caller owns
    /// and will not move, at the address where the caller has it.
    pub fn from_maybe_uninit(mem: &mut Memory<T>, addr: usize) -> (r: Self)
        requires
            old(mem)@.wf(),
            old(mem)@.blocks.len() < usize::MAX,
            addr != 0,
            addr + size_of::<T>() <= usize::MAX,
        ensures
            final(mem)@.wf(),
            final(mem)@ == old(mem)@.with_block(
                addr,
                Layout { size: size_of::<T>() as usize, align: vstd::layout::align_of::<T>() as usize },
                BlockKind::External,
            ),
            r@ == (Ptr {
                addr,
                block: old(mem)@.blocks.len() as usize,
                index: 0,
                shape: Shape::Fixed,
            }),
            final(mem)@.is_uninit(r@),
    {
        Self::new_unchecked(Uninit::from_maybe_uninit(mem, addr))
    }

    /// Stores `value` in the slot and returns the handle to the value.
    /// Nothing is destroyed: the slot held no value.
    pub fn write(self, mem: &mut Memory<T>, value: T) -> (init: PinnedInit<T>)
        requires
            old(mem)@.wf(),
            old(mem)@.is_uninit(self@),
        ensures
            init@ == self@,
            final(mem)@ == old(mem)@.after_store(self@.block as int, self@.index as int, value),
            final(mem)@.wf(),
            final(mem)@.is_init(self@),
    {
        PinnedInit::new_unchecked(self.into_inner_unchecked().write(mem, value))
    }
}

impl<T> PinnedUninit<[T]> {
    /// The pinned handle to a buffer for `len` values that the caller
    /// owns and will not move, at the address where the caller has it.
    pub fn from_maybe_uninit_slice(mem: &mut Memory<T>, addr: usize, len: usize) -> (r: Self)
        requires
            old(mem)@.wf(),
            old(mem)@.blocks.len() < usize::MAX,
            addr != 0,
            Layout::array_spec::<T>(len) is Ok,
            addr + len * size_of::<T>() <= usize::MAX,
        ensures
            final(mem)@.wf(),
            final(mem)@ == old(mem)@.with_block(
                addr,
                Layout::array_spec::<T>(len)->Ok_0,
                BlockKind::External,
            ),
            r@ == (Ptr {
                addr,
                block: old(mem)@.blocks.len() as usize,
                index: 0,
                shape: Shape::Slice(len),
            }),
            final(mem)@.is_uninit(r@),
    {
        Self::new_unchecked(Uninit::from_maybe_uninit_slice(mem, addr, len))
    }

    /// Copies the values of `slice` into the cells, one each, and returns
    /// the handle to them. Nothing is destroyed: the cells held no value.
    pub fn write_slice(
        self,
        mem: &mut Memory<T>,
        slice: &[T],
    ) -> (init: PinnedInit<[T]>) where T: Copy
        requires
            old(mem)@.wf(),
            old(mem)@.is_uninit(self@),
            self@.count() == slice@.len(),
        ensures
            init@ == self@,
            final(mem)@ == old(mem)@.after_store_run(
                self@.block as int,
                self@.index as int,
                slice@,
            ),
            final(mem)@.wf(),
            final(mem)@.is_init(self@),
            old(mem)@.same_outside(final(mem)@, self@),
    {
        PinnedInit::new_unchecked(self.into_inner_unchecked().write_slice(mem, slice))
    }

    /// Copies the values of `array` into the cells, one each, and returns
    /// the handle to them. Nothing is destroyed: the cells held no value.
    pub fn write_array<const N: usize>(
        self,
        mem: &mut Memory<T>,
        array: [T; N],
    ) -> (init: PinnedInit<[T]>) where
        T: Copy,

        requires
            old(mem)@.wf(),
            old(mem)@.is_uninit(self@),
            self@.count() == N,
        ensures
            init@ == self@,
            final(mem)@ == old(mem)@.after_store_run(
                self@.block as int,
                self@.index as int,
                array@,
            ),
            final(mem)@.wf(),
            final(mem)@.is_init(self@),
            old(mem)@.same_outside(final(mem)@, self@),
    {
        self.write_slice(mem, array.as_slice())
    }

    /// Number of cells behind the handle.
    pub fn len(&self) -> (n: usize)
        ensures
            n == self@.count(),
    {
        self.as_ptr().len()
    }

    /// Whether the handle covers no cell at all.
    pub fn is_empty(&self) -> (r: bool)
        ensures
            r == (self@.count() == 0),
    {
        self.len() == 0
    }
}

impl<T: ?Sized + Target> PinnedInit<T> {
    /// Pins a value. The caller vouches that it will stay where it is
    /// until it is destroyed.
    pub fn new_unchecked(init: Init<T>) -> (r: Self)
        ensures
            r@ == init@,
    {
        PinnedInit { init }
    }

    /// The plain handle. The caller goes on treating the value as pinned.
    pub fn into_inner_unchecked(this: Self) -> (r: Init<T>)
        ensures
            r@ == this@,
    {
        this.init
    }

    /// The pointer, for reading.
    pub fn as_ptr(&self) -> (p: Ptr)
        ensures
            p == self@,
    {
        self.init.as_ptr()
    }

    /// The pointer, which is not null.
    pub fn as_non_null_ptr(&self) -> (p: Ptr)
        ensures
            p == self@,
            p.in_range(size_of::<T::Elem>()),
            T::shaped(p.shape),
    {
        self.init.as_non_null_ptr()
    }

    /// Destroys the values behind the handle, lowest index first, and
    /// leaves their cells empty.
    pub fn destroy(self, mem: &mut Memory<T::Elem>)
        requires
            old(mem)@.wf(),
            old(mem)@.is_init(self@),
        ensures
            final(mem)@.wf(),
            final(mem)@ == old(mem)@.after_destroy_run(
                self@.block as int,
                self@.index as int,
                self@.count(),
            ),
    {
        self.init.destroy(mem)
    }
}

impl<T: ?Sized + Target + Unpin> PinnedInit<T> {
    /// Pins a value of a type that does not care whether it moves.
    pub fn new(init: Init<T>) -> (r: Self)
        ensures
            r@ == init@,
    {
        Self::new_unchecked(init)
    }

    /// The plain handle, for a type that does not care whether it moves.
    pub fn into_inner(this: Self) -> (r: Init<T>)
        ensures
            r@ == this@,
    {
        Self::into_inner_unchecked(this)
    }
}

impl<T> PinnedInit<T> {
    /// The value behind the handle.
    pub fn get<'a>(&self, mem: &'a Memory<T>) -> (r: &'a T)
        requires
            mem@.is_init(self@),
        ensures
            Some(*r) == mem@.cell(self@.block as int, self@.index as int),
    {
        self.init.get(mem)
    }
}

impl<T> PinnedInit<[T]> {
    /// Number of values behind the handle.
    pub fn len(&self) -> (n: usize)
        ensures
            n == self@.count(),
    {
        self.as_ptr().len()
    }

    /// Whether the handle covers no value at all.
    pub fn is_empty(&self) -> (r: bool)
        ensures
            r == (self@.count() == 0),
    {
        self.len() == 0
    }
}

} // verus!
