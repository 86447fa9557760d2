//! The two handles: a slot that holds no value yet, and a slot that holds
//! one.
//!
//! A handle wraps a pointer that is not null. [`Uninit`] says that the cells
//! behind the pointer are allocated and empty; [`Init`] says that each of
//! them holds a value. Initializing an `Uninit` gives the `Init` over the same
//! pointer. Neither handle can be copied.

use vstd::prelude::*;
use core::marker::PhantomData;
use vstd::layout::size_of;
use crate::layout::Layout;
use crate::memory::{BlockKind, Memory, Ptr, Shape};

verus! {

/// What a handle can point to: a single value, or a slice of values.
pub trait Target {
    /// The type of the value in one cell.
    type Elem;

    /// Whether a pointer to such a target has this shape.
    spec fn shaped(shape: Shape) -> bool;
}

impl<T> Target for T {
    type Elem = T;

    open spec fn shaped(shape: Shape) -> bool {
        shape == Shape::Fixed
    }
}

impl<T> Target for [T] {
    type Elem = T;

    open spec fn shaped(shape: Shape) -> bool {
        shape is Slice
    }
}

/// Exclusive access to cells that are allocated but hold no value.
pub struct Uninit<T: ?Sized + Target> {
    ptr: Ptr,
    marker: PhantomData<T>,
}

/// Exclusive access to cells that each hold a value. Whoever has the
/// handle has to see that the values are destroyed.
pub struct Init<T: ?Sized + Target> {
    ptr: Ptr,
    marker: PhantomData<T>,
}

impl<T: ?Sized + Target> View for Uninit<T> {
    type V = Ptr;

    closed spec fn view(&self) -> Ptr {
        self.ptr
    }
}

impl<T: ?Sized + Target> View for Init<T> {
    type V = Ptr;

    closed spec fn view(&self) -> Ptr {
        self.ptr
    }
}

impl<T: ?Sized + Target> Uninit<T> {
    #[verifier::type_invariant]
    spec fn inv(self) -> bool {
        self.ptr.in_range(size_of::<T::Elem>()) && T::shaped(self.ptr.shape)
    }

    /// Wraps a pointer. The caller vouches that it is not null, that the
    /// cells behind it lie in the address space, and that they are
    /// allocated and empty: every later use of the handle asks for that.
    pub fn from_raw(ptr: Ptr) -> (r: Self)
        requires
            ptr.in_range(size_of::<T::Elem>()),
            T::shaped(ptr.shape),
        ensures
            r@ == ptr,
    {
        Self::from_raw_nonnull(ptr)
    }

    /// Wraps a pointer that is known not to be null.
    pub fn from_raw_nonnull(ptr: Ptr) -> (r: Self)
        requires
            ptr.in_range(size_of::<T::Elem>()),
            T::shaped(ptr.shape),
        ensures
            r@ == ptr,
    {
        Uninit { ptr, marker: PhantomData }
    }

    /// The pointer, for reading.
    pub fn as_ptr(&self) -> (p: Ptr)
        ensures
            p == self@,
    {
        self.ptr
    }

    /// The pointer, for writing.
    pub fn as_mut_ptr(&mut self) -> (p: Ptr)
        ensures
            p == old(self)@,
            final(self)@ == old(self)@,
    {
        self.ptr
    }

    /// The pointer, which is not null.
    pub fn as_non_null_ptr(&self) -> (p: Ptr)
        ensures
            p == self@,
            p.in_range(size_of::<T::Elem>()),
            T::shaped(p.shape),
    {
        proof {
            use_type_invariant(self);
        }
        self.ptr
    }

    /// Turns the handle into the one for initialized cells. The cells
    /// must hold values by now.
    pub fn assume_init(self, mem: &Memory<T::Elem>) -> (init: Init<T>)
        requires
            mem@.is_init(self@),
        ensures
            init@ == self@,
    {
        Init::from_raw_nonnull(self.as_non_null_ptr())
    }
}

impl<T> Uninit<T> {
    /// The handle to a buffer for one value that the caller owns, such
    /// as a slot on the stack, at the address where the caller has it.
    pub fn from_maybe_uninit(mem: &mut Memory<T>, addr: usize) -> (r: Self)
        requires
            old(mem)@.wf(),
            old(mem)@.blocks.len() < usize::MAX,
            addr != 0,
            addr + size_of::<T>() <= usize::MAX,
        ensures
            final(mem)@.wf(),
            final(mem)@ == old(mem)@.with_block(
                addr,
                Layout { size: size_of::<T>() as usize, align: vstd::layout::align_of::<T>() as usize },
                BlockKind::External,
            ),
            r@ == (Ptr {
                addr,
                block: old(mem)@.blocks.len() as usize,
                index: 0,
                shape: Shape::Fixed,
            }),
            final(mem)@.is_uninit(r@),
    {
        let layout = Layout::new::<T>();
        let at = mem.adopt(addr, layout);
        let ptr = at.cast();
        proof {
            assert((0 + 1) * size_of::<T>() == size_of::<T>()) by (nonlinear_arith);
        }
        Self::from_raw_nonnull(ptr)
    }

    /// Runs `init` on this slot.
    pub fn try_init<I: crate::traits::TryInitialize<T>>(self, mem: &mut Memory<T>, init: I) -> (res:
        Result<Init<T>, I::Error>)
        requires
            old(mem)@.wf(),
            old(mem)@.is_uninit(self@),
            init.accepts(old(mem)@, self@),
        ensures
            final(mem)@.wf(),
            old(mem)@.same_outside(final(mem)@, self@),
            match res {
                Ok(r) => r@ == self@ && final(mem)@.is_init(self@),
                Err(_) => final(mem)@.is_uninit(self@),
            },
            init.infallible() ==> res is Ok,
            init.done(old(mem)@, self@, final(mem)@, crate::traits::outcome(res)),
    {
        init.try_init(mem, self)
    }

    /// Runs `init`, which cannot fail, on this slot.
    pub fn init<I: crate::traits::Initialize<T>>(self, mem: &mut Memory<T>, init: I) -> (r: Init<T>)
        requires
            old(mem)@.wf(),
            old(mem)@.is_uninit(self@),
            init.accepts(old(mem)@, self@),
            init.infallible(),
        ensures
            final(mem)@.wf(),
            old(mem)@.same_outside(final(mem)@, self@),
            r@ == self@,
            final(mem)@.is_init(self@),
            init.done(old(mem)@, self@, final(mem)@, Ok(())),
    {
        init.init(mem, self)
    }

    /// Stores `value` in the slot and returns the handle to the value.
    /// Nothing is destroyed: the slot held no value.
    pub fn write(self, mem: &mut Memory<T>, value: T) -> (init: Init<T>)
        requires
            old(mem)@.wf(),
            old(mem)@.is_uninit(self@),
        ensures
            init@ == self@,
            final(mem)@ == old(mem)@.after_store(self@.block as int, self@.index as int, value),
            final(mem)@.wf(),
            final(mem)@.is_init(self@),
    {
        let mut this = self;
        proof {
            use_type_invariant(&this);
        }
        let p = this.as_mut_ptr();
        mem.write(p, value);
        this.assume_init(mem)
    }
}

impl<T> Uninit<[T]> {
    /// The handle to a buffer for `len` values that the caller owns, at
    /// the address where the caller has it.
    pub fn from_maybe_uninit_slice(mem: &mut Memory<T>, addr: usize, len: usize) -> (r: Self)
        requires
            old(mem)@.wf(),
            old(mem)@.blocks.len() < usize::MAX,
            addr != 0,
            Layout::array_spec::<T>(len) is Ok,
            addr + len * size_of::<T>() <= usize::MAX,
        ensures
            final(mem)@.wf(),
            final(mem)@ == old(mem)@.with_block(
                addr,
                Layout::array_spec::<T>(len)->Ok_0,
                BlockKind::External,
            ),
            r@ == (Ptr {
                addr,
                block: old(mem)@.blocks.len() as usize,
                index: 0,
                shape: Shape::Slice(len),
            }),
            final(mem)@.is_uninit(r@),
    {
        let layout = match Layout::array::<T>(len) {
            Ok(layout) => layout,
            Err(_) => vstd::pervasive::unreached(),
        };
        let at = mem.adopt(addr, layout);
        let ptr = Ptr::slice_from_raw_parts(at.cast(), len);
        Self::from_raw_nonnull(ptr)
    }

    /// Copies the values of `slice` into the cells, one each, and returns
    /// the handle to them. Nothing is destroyed: the cells held no value.
    pub fn write_slice(self, mem: &mut Memory<T>, slice: &[T]) -> (init: Init<[T]>) where T: Copy
        requires
            old(mem)@.wf(),
            old(mem)@.is_uninit(self@),
            self@.count() == slice@.len(),
        ensures
            init@ == self@,
            final(mem)@ == old(mem)@.after_store_run(
                self@.block as int,
                self@.index as int,
                slice@,
            ),
            final(mem)@.wf(),
            final(mem)@.is_init(self@),
            old(mem)@.same_outside(final(mem)@, self@),
    {
        let mut this = self;
        let base = this.as_mut_ptr();
        let first = base.first();
        let len: usize = this.len();
        let mut k: usize = 0;
        while k < len
            invariant
                k <= len,
                len == slice@.len(),
                len == base.count(),
                base == this@,
                this@ == self@,
                first == (Ptr { shape: Shape::Fixed, ..base }),
                old(mem)@.wf(),
                old(mem)@.is_uninit(base),
                mem@
                    == old(mem)@.after_store_run(base.block as int, base.index as int, slice@.take(k as int)),
            decreases len - k,
        {
            proof {
                old(mem)@.lemma_store_run(base.block as int, base.index as int, slice@.take(k as int));
                old(mem)@.lemma_valid_element(base, k as int);
                assert(slice@.take(k + 1).drop_last() =~= slice@.take(k as int));
            }
            let cell = first.add::<T>(k);
            mem.write(cell, slice[k]);
            k = k + 1;
        }
        proof {
            assert(slice@.take(len as int) =~= slice@);
            old(mem)@.lemma_store_run_same_outside(base, slice@);
        }
        this.assume_init(mem)
    }

    /// Copies the values of `array` into the cells, one each, and returns
    /// the handle to them. Nothing is destroyed: the cells held no value.
    pub fn write_array<const N: usize>(
        self,
        mem: &mut Memory<T>,
        array: [T; N],
    ) -> (init: Init<[T]>) where
        T: Copy,

        requires
            old(mem)@.wf(),
            old(mem)@.is_uninit(self@),
            self@.count() == N,
        ensures
            init@ == self@,
            final(mem)@ == old(mem)@.after_store_run(
                self@.block as int,
                self@.index as int,
                array@,
            ),
            final(mem)@.wf(),
            final(mem)@.is_init(self@),
            old(mem)@.same_outside(final(mem)@, self@),
    {
        self.write_slice(mem, array.as_slice())
    }

    /// Number of cells behind the handle.
    pub fn len(&self) -> (n: usize)
        ensures
            n == self@.count(),
    {
        self.as_ptr().len()
    }

    /// Whether the handle covers no cell at all.
    pub fn is_empty(&self) -> (r: bool)
        ensures
            r == (self@.count() == 0),
    {
        self.len() == 0
    }
}

impl<T: ?Sized + Target> Init<T> {
    #[verifier::type_invariant]
    spec fn inv(self) -> bool {
        self.ptr.in_range(size_of::<T::Elem>()) && T::shaped(self.ptr.shape)
    }

    /// Wraps a pointer. The caller vouches that it is not null, that the
    /// cells behind it lie in the address space, and that each of them
    /// holds a value: every later use of the handle asks for that.
    pub fn from_raw(ptr: Ptr) -> (r: Self)
        requires
            ptr.in_range(size_of::<T::Elem>()),
            T::shaped(ptr.shape),
        ensures
            r@ == ptr,
    {
        Self::from_raw_nonnull(ptr)
    }

    /// Wraps a pointer that is known not to be null.
    pub fn from_raw_nonnull(ptr: Ptr) -> (r: Self)
        requires
            ptr.in_range(size_of::<T::Elem>()),
            T::shaped(ptr.shape),
        ensures
            r@ == ptr,
    {
        Init { ptr, marker: PhantomData }
    }

    /// The pointer, for reading.
    pub fn as_ptr(&self) -> (p: Ptr)
        ensures
            p == self@,
    {
        self.ptr
    }

    /// The pointer, for writing.
    pub fn as_mut_ptr(&mut self) -> (p: Ptr)
        ensures
            p == old(self)@,
            final(self)@ == old(self)@,
    {
        self.ptr
    }

    /// Gives the pointer out and the handle up. No destructor runs: from
    /// here on the caller has to see to that.
    pub fn into_raw(self) -> (p: Ptr)
        ensures
            p == self@,
            p.in_range(size_of::<T::Elem>()),
            T::shaped(p.shape),
    {
        proof {
            use_type_invariant(&self);
        }
        self.ptr
    }

    /// The pointer, which is not null.
    pub fn as_non_null_ptr(&self) -> (p: Ptr)
        ensures
            p == self@,
            p.in_range(size_of::<T::Elem>()),
            T::shaped(p.shape),
    {
        proof {
            use_type_invariant(self);
        }
        self.ptr
    }

    /// Destroys the values behind the handle, lowest index first, and
    /// leaves their cells empty.
    pub fn destroy(self, mem: &mut Memory<T::Elem>)
        requires
            old(mem)@.wf(),
            old(mem)@.is_init(self@),
        ensures
            final(mem)@.wf(),
            final(mem)@ == old(mem)@.after_destroy_run(
                self@.block as int,
                self@.index as int,
                self@.count(),
            ),
    {
        let p = self.into_raw();
        mem.drop_in_place(p);
    }
}

impl<T> Init<T> {
    /// The value behind the handle.
    pub fn get<'a>(&self, mem: &'a Memory<T>) -> (r: &'a T)
        requires
            mem@.is_init(self@),
        ensures
            Some(*r) == mem@.cell(self@.block as int, self@.index as int),
    {
        let p = self.as_non_null_ptr();
        mem.read(p)
    }
}

impl<T> Init<[T]> {
    /// The value with index `k` in the slice.
    pub fn get<'a>(&self, mem: &'a Memory<T>, k: usize) -> (r: &'a T)
        requires
            mem@.wf(),
            mem@.is_init(self@),
            k < self@.count(),
        ensures
            Some(*r) == mem@.cell(self@.block as int, self@.index + k),
    {
        let p = self.as_non_null_ptr();
        proof {
            mem@.lemma_valid_element(p, k as int);
        }
        let cell = p.first().add::<T>(k);
        mem.read(cell)
    }

    /// Number of values behind the handle.
    pub fn len(&self) -> (n: usize)
        ensures
            n == self@.count(),
    {
        self.as_ptr().len()
    }

    /// Whether the handle covers no value at all.
    pub fn is_empty(&self) -> (r: bool)
        ensures
            r == (self@.count() == 0),
    {
        self.len() == 0
    }
}

} // verus!
