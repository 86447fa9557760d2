//! Iterators over the cells of a slice.
//!
//! [`RawIter`] walks the pointers to the cells, from either end.
//! [`UninitIter`], [`InitIter`] and their pinned forms hand out one handle
//! for each cell, and give back the handle to what is left.

use vstd::prelude::*;
use vstd::layout::size_of;
use core::marker::PhantomData;
use crate::memory::{Memory, Ptr, Shape};
use crate::pin_ptr::{PinnedInit, PinnedUninit};
use crate::ptr::{Init, Uninit};

verus! {

/// An iterator over the pointers to the cells of a slice.
///
/// For cells of no bytes every cell has the same address, so the iterator
/// counts the cells that are left. For other cells it keeps the address
/// one past the last cell.
pub struct RawIter<T> {
    start: Ptr,
    end: usize,
    left: Ghost<nat>,
    marker: PhantomData<T>,
}

impl<T> RawIter<T> {
    #[verifier::type_invariant]
    spec fn inv(self) -> bool {
        &&& self.start.shape == Shape::Fixed
        &&& self.start.addr != 0
        &&& self.start.index + self.left@ <= usize::MAX
        &&& if size_of::<T>() == 0 {
            self.end == self.left@
        } else {
            self.end == self.start.addr + self.left@ * size_of::<T>()
        }
    }

    /// The cells that are left lie in the address space, away from
    /// address 0.
    pub open spec fn in_range(&self) -> bool {
        &&& self.start().addr != 0
        &&& self.start().shape == Shape::Fixed
        &&& self.start().addr + self.remaining() * size_of::<T>() <= usize::MAX
        &&& self.start().index + self.remaining() <= usize::MAX
    }

    /// The pointer to the first cell that is left.
    pub closed spec fn start(&self) -> Ptr {
        self.start
    }

    /// How many cells are left.
    pub closed spec fn remaining(&self) -> nat {
        self.left@
    }

    /// The slice pointer to the cells that are left.
    pub open spec fn rest(&self) -> Ptr {
        Ptr { shape: Shape::Slice(self.remaining() as usize), ..self.start() }
    }

    /// An iterator over the cells behind the slice pointer `ptr`.
    pub fn new(ptr: Ptr) -> (it: Self)
        requires
            ptr.in_range(size_of::<T>()),
        ensures
            it.start() == (Ptr { shape: Shape::Fixed, ..ptr }),
            it.remaining() == ptr.count(),
            it.in_range(),
    {
        let len: usize = ptr.len();
        if core::mem::size_of::<T>() == 0 {
            RawIter { start: ptr.first(), end: len, left: Ghost(len as nat), marker: PhantomData }
        } else {
            let start = ptr.first();
            let end = start.add::<T>(len);
            RawIter { start, end: end.addr, left: Ghost(len as nat), marker: PhantomData }
        }
    }

    /// The slice pointer to the cells that are left.
    pub fn as_slice(&self) -> (p: Ptr)
        ensures
            self.in_range(),
            p == self.rest(),
            p.count() == self.remaining(),
            p.in_range(size_of::<T>()),
    {
        let len: usize = self.len();
        proof {
            use_type_invariant(self);
        }
        Ptr::slice_from_raw_parts(self.start, len)
    }

    /// How many cells are left.
    pub fn len(&self) -> (n: usize)
        ensures
            n == self.remaining(),
    {
        self.size_hint().0
    }

    /// The pointer to the first cell that is left, if there is one.
    pub fn next(&mut self) -> (r: Option<Ptr>)
        ensures
            final(self).in_range(),
            r matches Some(p) ==> p.in_range(size_of::<T>()) && p.shape == Shape::Fixed,
            old(self).remaining() == 0 ==> r is None && final(self).start() == old(self).start()
                && final(self).remaining() == 0,
            old(self).remaining() > 0 ==> r == Some(old(self).start())
                && final(self).start() == old(self).start().element(1, size_of::<T>())
                && final(self).remaining() == old(self).remaining() - 1,
    {
        proof {
            use_type_invariant(&*self);
            Self::lemma_stride(self.left@ - 1);
        }
        if core::mem::size_of::<T>() == 0 {
            let end: usize = self.end;
            let end: usize = match end.checked_sub(1) {
                Some(end) => end,
                None => {
                    return None;
                },
            };
            let ptr = self.start;
            *self = RawIter {
                start: ptr.add::<T>(1),
                end,
                left: Ghost((self.left@ - 1) as nat),
                marker: PhantomData,
            };
            Some(ptr)
        } else if self.end == self.start.addr {
            None
        } else {
            let ptr = self.start;
            let next = self.start.add::<T>(1);
            *self = RawIter {
                start: next,
                end: self.end,
                left: Ghost((self.left@ - 1) as nat),
                marker: PhantomData,
            };
            Some(ptr)
        }
    }

    /// Skips `n` cells and returns the pointer to the one after them.
    ///
    /// With `n` cells or fewer left there is none: the iterator is then
    /// empty, except that for cells of no bytes it stays as it is where
    /// fewer than `n` are left.
    pub fn nth(&mut self, n: usize) -> (r: Option<Ptr>)
        ensures
            final(self).in_range(),
            r matches Some(p) ==> p.in_range(size_of::<T>()) && p.shape == Shape::Fixed,
            n < old(self).remaining() ==>
                r == Some(old(self).start().element(n as int, size_of::<T>()))
                && final(self).start() == old(self).start().element(n + 1, size_of::<T>())
                && final(self).remaining() == old(self).remaining() - n - 1,
            n >= old(self).remaining() ==> r is None && final(self).start() == old(self).start(),
            n >= old(self).remaining() && (n == old(self).remaining() || size_of::<T>() != 0)
                ==> final(self).remaining() == 0,
            n > old(self).remaining() && size_of::<T>() == 0 ==>
                final(self).remaining() == old(self).remaining(),
    {
        proof {
            use_type_invariant(&*self);
            Self::lemma_stride(n as int);
            Self::lemma_stride_sum(self.left@ - n - 1, n + 1);
        }
        if core::mem::size_of::<T>() == 0 {
            let end: usize = self.end;
            let end: usize = match end.checked_sub(n) {
                Some(end) => end,
                None => {
                    return None;
                },
            };
            if end == 0 {
                *self = RawIter { start: self.start, end, left: Ghost(0nat), marker: PhantomData };
                return None;
            }
            let ptr = self.start.add::<T>(n);
            *self = RawIter {
                start: ptr.add::<T>(1),
                end: end - 1,
                left: Ghost((self.left@ - n - 1) as nat),
                marker: PhantomData,
            };
            Some(ptr)
        } else if self.len() <= n {
            *self = RawIter {
                start: self.start,
                end: self.start.addr,
                left: Ghost(0nat),
                marker: PhantomData,
            };
            None
        } else {
            let ptr = self.start.add::<T>(n);
            *self = RawIter {
                start: ptr.add::<T>(1),
                end: self.end,
                left: Ghost((self.left@ - n - 1) as nat),
                marker: PhantomData,
            };
            Some(ptr)
        }
    }

    /// How many cells are left, as a lower and an upper bound.
    pub fn size_hint(&self) -> (r: (usize, Option<usize>))
        ensures
            self.in_range(),
            r.0 == self.remaining(),
            r.1 == Some(r.0),
    {
        proof {
            use_type_invariant(self);
        }
        let len: usize = if core::mem::size_of::<T>() == 0 {
            self.end
        } else {
            proof {
                vstd::arithmetic::div_mod::lemma_div_multiples_vanish(
                    self.left@ as int,
                    size_of::<T>() as int,
                );
                assert(self.left@ * size_of::<T>()
                    == size_of::<T>() * self.left@) by (nonlinear_arith);
            }
            (self.end - self.start.addr) / core::mem::size_of::<T>()
        };
        (len, Some(len))
    }

    /// How many cells are left.
    pub fn count(self) -> (n: usize)
        ensures
            n == self.remaining(),
    {
        self.len()
    }

    /// The pointer to the last cell that is left, if there is one.
    pub fn last(self) -> (r: Option<Ptr>)
        ensures
            r matches Some(p) ==> p.in_range(size_of::<T>()) && p.shape == Shape::Fixed,
            self.remaining() == 0 ==> r is None,
            self.remaining() > 0 ==> r == Some(
                self.start().element(self.remaining() - 1, size_of::<T>()),
            ),
    {
        let mut this = self;
        this.next_back()
    }

    /// The pointer to the last cell that is left, if there is one.
    pub fn next_back(&mut self) -> (r: Option<Ptr>)
        ensures
            final(self).in_range(),
            r matches Some(p) ==> p.in_range(size_of::<T>()) && p.shape == Shape::Fixed,
            final(self).start() == old(self).start(),
            old(self).remaining() == 0 ==> r is None && final(self).remaining() == 0,
            old(self).remaining() > 0 ==> r == Some(
                old(self).start().element(old(self).remaining() - 1, size_of::<T>()),
            ) && final(self).remaining() == old(self).remaining() - 1,
    {
        proof {
            use_type_invariant(&*self);
            Self::lemma_stride(self.left@ as int);
            Self::lemma_stride(self.left@ - 1);
        }
        if core::mem::size_of::<T>() == 0 {
            let end: usize = self.end;
            let end: usize = match end.checked_sub(1) {
                Some(end) => end,
                None => {
                    return None;
                },
            };
            *self = RawIter {
                start: self.start,
                end,
                left: Ghost((self.left@ - 1) as nat),
                marker: PhantomData,
            };
            Some(self.start.add::<T>(end))
        } else if self.end == self.start.addr {
            None
        } else {
            let len: usize = self.len();
            *self = RawIter {
                start: self.start,
                end: self.end - core::mem::size_of::<T>(),
                left: Ghost((self.left@ - 1) as nat),
                marker: PhantomData,
            };
            Some(self.start.add::<T>(len - 1))
        }
    }

    /// Skips `n` cells from the back and returns the pointer to the one
    /// before them.
    ///
    /// With `n` cells or fewer left there is none: the iterator is then
    /// empty, except that for cells of no bytes it stays as it is where
    /// fewer than `n` are left.
    pub fn nth_back(&mut self, n: usize) -> (r: Option<Ptr>)
        ensures
            final(self).in_range(),
            r matches Some(p) ==> p.in_range(size_of::<T>()) && p.shape == Shape::Fixed,
            final(self).start() == old(self).start(),
            n < old(self).remaining() ==> r == Some(
                old(self).start().element(old(self).remaining() - n - 1, size_of::<T>()),
            ) && final(self).remaining() == old(self).remaining() - n - 1,
            n >= old(self).remaining() ==> r is None,
            n >= old(self).remaining() && (n == old(self).remaining() || size_of::<T>() != 0)
                ==> final(self).remaining() == 0,
            n > old(self).remaining() && size_of::<T>() == 0 ==>
                final(self).remaining() == old(self).remaining(),
    {
        proof {
            use_type_invariant(&*self);
            Self::lemma_stride(self.left@ as int);
            Self::lemma_stride(n + 1);
            Self::lemma_stride(self.left@ - n - 1);
        }
        if core::mem::size_of::<T>() == 0 {
            let end: usize = self.end;
            let end: usize = match end.checked_sub(n) {
                Some(end) => end,
                None => {
                    return None;
                },
            };
            if end == 0 {
                *self = RawIter { start: self.start, end, left: Ghost(0nat), marker: PhantomData };
                return None;
            }
            *self = RawIter {
                start: self.start,
                end: end - 1,
                left: Ghost((self.left@ - n - 1) as nat),
                marker: PhantomData,
            };
            Some(self.start.add::<T>(end - 1))
        } else {
            let len: usize = self.len();
            if len <= n {
                *self = RawIter {
                    start: self.start,
                    end: self.start.addr,
                    left: Ghost(0nat),
                    marker: PhantomData,
                };
                None
            } else {
                proof {
                    Self::lemma_stride_sum(self.left@ - n - 1, n + 1);
                }
                let back: usize = (n + 1) * core::mem::size_of::<T>();
                *self = RawIter {
                    start: self.start,
                    end: self.end - back,
                    left: Ghost((self.left@ - n - 1) as nat),
                    marker: PhantomData,
                };
                Some(self.start.add::<T>(len - n - 1))
            }
        }
    }

    /// `k` cells take `k` strides, and one cell more takes one stride
    /// more.
    proof fn lemma_stride(k: int)
        ensures
            (k + 1) * size_of::<T>() == k * size_of::<T>() + size_of::<T>(),
            k >= 0 ==> k * size_of::<T>() >= 0,
            0 * size_of::<T>() == 0,
            1 * size_of::<T>() == size_of::<T>(),
            size_of::<T>() == 0 ==> k * size_of::<T>() == 0,
            k > 0 && size_of::<T>() > 0 ==> k * size_of::<T>() >= size_of::<T>(),
    {
        let s = size_of::<T>() as int;
        assert(k > 0 && s > 0 ==> k * s >= s) by (nonlinear_arith);
        assert((k + 1) * s == k * s + s) by (nonlinear_arith);
        assert(k >= 0 ==> k * s >= 0) by (nonlinear_arith)
            requires
                s >= 0,
        ;
        assert(s == 0 ==> k * s == 0) by (nonlinear_arith);
    }

    /// The strides of two runs of cells add up.
    proof fn lemma_stride_sum(j: int, k: int)
        ensures
            (j + k) * size_of::<T>() == j * size_of::<T>() + k * size_of::<T>(),
    {
        let s = size_of::<T>() as int;
        assert((j + k) * s == j * s + k * s) by (nonlinear_arith);
    }
}

/// An iterator that hands out the handle to each empty cell of a slice.
pub struct UninitIter<T> {
    raw: RawIter<T>,
}

impl<T> UninitIter<T> {
    /// The pointer to the first cell that is left.
    pub closed spec fn start(&self) -> Ptr {
        self.raw.start()
    }

    /// How many cells are left.
    pub closed spec fn remaining(&self) -> nat {
        self.raw.remaining()
    }

    /// The slice pointer to the cells that are left.
    pub open spec fn rest(&self) -> Ptr {
        Ptr { shape: Shape::Slice(self.remaining() as usize), ..self.start() }
    }

    /// An iterator over the cells behind `uninit`.
    pub fn new(uninit: Uninit<[T]>) -> (it: Self)
        ensures
            it.start() == (Ptr { shape: Shape::Fixed, ..uninit@ }),
            it.remaining() == uninit@.count(),
    {
        UninitIter { raw: RawIter::new(uninit.as_non_null_ptr()) }
    }

    /// The handle to the cells that are left.
    pub fn finish(self) -> (r: Uninit<[T]>)
        ensures
            r@ == self.rest(),
    {
        let ptr = self.raw.as_slice();
        Uninit::from_raw_nonnull(ptr)
    }

    /// The handle to the first cell that is left, if there is one.
    pub fn next(&mut self) -> (r: Option<Uninit<T>>)
        ensures
            old(self).remaining() == 0 ==> r is None && final(self).start() == old(self).start()
                && final(self).remaining() == 0,
            old(self).remaining() > 0 ==>
                r is Some
                    && r->Some_0@ == old(self).start()
                    && final(self).start() == old(self).start().element(1, size_of::<T>())
                    && final(self).remaining()
                == old(self).remaining() - 1,
    {
        let ptr = self.raw.next();
        match ptr {
            Some(p) => Some(Uninit::from_raw_nonnull(p)),
            None => None,
        }
    }

    /// Skips `n` cells and returns the handle to the one after them.
    ///
    /// With `n` cells or fewer left there is none: the iterator is then
    /// empty, except that for cells of no bytes it stays as it is where
    /// fewer than `n` are left.
    pub fn nth(&mut self, n: usize) -> (r: Option<Uninit<T>>)
        ensures
            n < old(self).remaining() ==> r is Some && r->Some_0@ == old(self).start().element(
                n as int,
                size_of::<T>(),
            )
                && final(self).start() == old(self).start().element(n + 1, size_of::<T>())
                && final(self).remaining() == old(self).remaining() - n - 1,
            n >= old(self).remaining() ==> r is None && final(self).start() == old(self).start(),
            n >= old(self).remaining() && (n == old(self).remaining() || size_of::<T>() != 0)
                ==> final(self).remaining() == 0,
            n > old(self).remaining() && size_of::<T>() == 0 ==>
                final(self).remaining() == old(self).remaining(),
    {
        let ptr = self.raw.nth(n);
        match ptr {
            Some(p) => Some(Uninit::from_raw_nonnull(p)),
            None => None,
        }
    }

    /// How many cells are left, as a lower and an upper bound.
    pub fn size_hint(&self) -> (r: (usize, Option<usize>))
        ensures
            r.0 == self.remaining(),
            r.1 == Some(r.0),
    {
        self.raw.size_hint()
    }

    /// The handle to the last cell that is left, if there is one.
    pub fn next_back(&mut self) -> (r: Option<Uninit<T>>)
        ensures
            final(self).start() == old(self).start(),
            old(self).remaining() == 0 ==> r is None && final(self).remaining() == 0,
            old(self).remaining() > 0 ==> r is Some && r->Some_0@ == old(self).start().element(
                old(self).remaining() - 1,
                size_of::<T>(),
            ) && final(self).remaining() == old(self).remaining() - 1,
    {
        let ptr = self.raw.next_back();
        match ptr {
            Some(p) => Some(Uninit::from_raw_nonnull(p)),
            None => None,
        }
    }

    /// Skips `n` cells from the back and returns the handle to the one
    /// before them.
    ///
    /// With `n` cells or fewer left there is none: the iterator is then
    /// empty, except that for cells of no bytes it stays as it is where
    /// fewer than `n` are left.
    pub fn nth_back(&mut self, n: usize) -> (r: Option<Uninit<T>>)
        ensures
            final(self).start() == old(self).start(),
            n < old(self).remaining() ==> r is Some && r->Some_0@ == old(self).start().element(
                old(self).remaining() - n - 1,
                size_of::<T>(),
            ) && final(self).remaining() == old(self).remaining() - n - 1,
            n >= old(self).remaining() ==> r is None,
            n >= old(self).remaining() && (n == old(self).remaining() || size_of::<T>() != 0)
                ==> final(self).remaining() == 0,
            n > old(self).remaining() && size_of::<T>() == 0 ==>
                final(self).remaining() == old(self).remaining(),
    {
        let ptr = self.raw.nth_back(n);
        match ptr {
            Some(p) => Some(Uninit::from_raw_nonnull(p)),
            None => None,
        }
    }
}

/// An iterator that hands out the handle to each value of a slice. The
/// values that it has not handed out are its own to destroy.
pub struct InitIter<T> {
    raw: RawIter<T>,
}

impl<T> InitIter<T> {
    /// The pointer to the first cell that is left.
    pub closed spec fn start(&self) -> Ptr {
        self.raw.start()
    }

    /// How many cells are left.
    pub closed spec fn remaining(&self) -> nat {
        self.raw.remaining()
    }

    /// The slice pointer to the cells that are left.
    pub open spec fn rest(&self) -> Ptr {
        Ptr { shape: Shape::Slice(self.remaining() as usize), ..self.start() }
    }

    /// An iterator over the cells behind `init`.
    pub fn new(init: Init<[T]>) -> (it: Self)
        ensures
            it.start() == (Ptr { shape: Shape::Fixed, ..init@ }),
            it.remaining() == init@.count(),
    {
        InitIter { raw: RawIter::new(init.into_raw()) }
    }

    /// The handle to the cells that are left.
    pub fn finish(self) -> (r: Init<[T]>)
        ensures
            r@ == self.rest(),
    {
        let ptr = self.raw.as_slice();
        Init::from_raw_nonnull(ptr)
    }

    /// The handle to the first cell that is left, if there is one.
    pub fn next(&mut self) -> (r: Option<Init<T>>)
        ensures
            old(self).remaining() == 0 ==> r is None && final(self).start() == old(self).start()
                && final(self).remaining() == 0,
            old(self).remaining() > 0 ==>
                r is Some
                    && r->Some_0@ == old(self).start()
                    && final(self).start() == old(self).start().element(1, size_of::<T>())
                    && final(self).remaining()
                == old(self).remaining() - 1,
    {
        let ptr = self.raw.next();
        match ptr {
            Some(p) => Some(Init::from_raw_nonnull(p)),
            None => None,
        }
    }

    /// Skips `n` cells and returns the handle to the one after them.
    ///
    /// With `n` cells or fewer left there is none: the iterator is then
    /// empty, except that for cells of no bytes it stays as it is where
    /// fewer than `n` are left.
    pub fn nth(&mut self, n: usize) -> (r: Option<Init<T>>)
        ensures
            n < old(self).remaining() ==> r is Some && r->Some_0@ == old(self).start().element(
                n as int,
                size_of::<T>(),
            )
                && final(self).start() == old(self).start().element(n + 1, size_of::<T>())
                && final(self).remaining() == old(self).remaining() - n - 1,
            n >= old(self).remaining() ==> r is None && final(self).start() == old(self).start(),
            n >= old(self).remaining() && (n == old(self).remaining() || size_of::<T>() != 0)
                ==> final(self).remaining() == 0,
            n > old(self).remaining() && size_of::<T>() == 0 ==>
                final(self).remaining() == old(self).remaining(),
    {
        let ptr = self.raw.nth(n);
        match ptr {
            Some(p) => Some(Init::from_raw_nonnull(p)),
            None => None,
        }
    }

    /// How many cells are left, as a lower and an upper bound.
    pub fn size_hint(&self) -> (r: (usize, Option<usize>))
        ensures
            r.0 == self.remaining(),
            r.1 == Some(r.0),
    {
        self.raw.size_hint()
    }

    /// The handle to the last cell that is left, if there is one.
    pub fn next_back(&mut self) -> (r: Option<Init<T>>)
        ensures
            final(self).start() == old(self).start(),
            old(self).remaining() == 0 ==> r is None && final(self).remaining() == 0,
            old(self).remaining() > 0 ==> r is Some && r->Some_0@ == old(self).start().element(
                old(self).remaining() - 1,
                size_of::<T>(),
            ) && final(self).remaining() == old(self).remaining() - 1,
    {
        let ptr = self.raw.next_back();
        match ptr {
            Some(p) => Some(Init::from_raw_nonnull(p)),
            None => None,
        }
    }

    /// Skips `n` cells from the back and returns the handle to the one
    /// before them.
    ///
    /// With `n` cells or fewer left there is none: the iterator is then
    /// empty, except that for cells of no bytes it stays as it is where
    /// fewer than `n` are left.
    pub fn nth_back(&mut self, n: usize) -> (r: Option<Init<T>>)
        ensures
            final(self).start() == old(self).start(),
            n < old(self).remaining() ==> r is Some && r->Some_0@ == old(self).start().element(
                old(self).remaining() - n - 1,
                size_of::<T>(),
            ) && final(self).remaining() == old(self).remaining() - n - 1,
            n >= old(self).remaining() ==> r is None,
            n >= old(self).remaining() && (n == old(self).remaining() || size_of::<T>() != 0)
                ==> final(self).remaining() == 0,
            n > old(self).remaining() && size_of::<T>() == 0 ==>
                final(self).remaining() == old(self).remaining(),
    {
        let ptr = self.raw.nth_back(n);
        match ptr {
            Some(p) => Some(Init::from_raw_nonnull(p)),
            None => None,
        }
    }

    /// Gives the iterator up: the values that are left are destroyed,
    /// lowest index first.
    pub fn discard(self, mem: &mut Memory<T>)
        requires
            old(mem)@.wf(),
            old(mem)@.is_init(self.rest()),
        ensures
            final(mem)@.wf(),
            final(mem)@ == old(mem)@.after_destroy_run(
                self.start().block as int,
                self.start().index as int,
                self.remaining(),
            ),
    {
        let ptr = self.raw.as_slice();
        mem.drop_in_place(ptr);
    }
}

/// An iterator that hands out the handle to each empty cell of a pinned
/// slice.
pub struct PinnedUninitIter<T> {
    raw: UninitIter<T>,
}

impl<T> PinnedUninitIter<T> {
    /// The pointer to the first cell that is left.
    pub closed spec fn start(&self) -> Ptr {
        self.raw.start()
    }

    /// How many cells are left.
    pub closed spec fn remaining(&self) -> nat {
        self.raw.remaining()
    }

    /// The slice pointer to the cells that are left.
    pub open spec fn rest(&self) -> Ptr {
        Ptr { shape: Shape::Slice(self.remaining() as usize), ..self.start() }
    }

    /// An iterator over the cells behind `uninit`.
    pub fn new(uninit: PinnedUninit<[T]>) -> (it: Self)
        ensures
            it.start() == (Ptr { shape: Shape::Fixed, ..uninit@ }),
            it.remaining() == uninit@.count(),
    {
        PinnedUninitIter { raw: UninitIter::new(uninit.into_inner_unchecked()) }
    }

    /// The handle to the cells that are left.
    pub fn finish(self) -> (r: PinnedUninit<[T]>)
        ensures
            r@ == self.rest(),
    {
        PinnedUninit::new_unchecked(self.raw.finish())
    }

    /// The handle to the first cell that is left, if there is one.
    pub fn next(&mut self) -> (r: Option<PinnedUninit<T>>)
        ensures
            old(self).remaining() == 0 ==> r is None && final(self).start() == old(self).start()
                && final(self).remaining() == 0,
            old(self).remaining() > 0 ==>
                r is Some
                    && r->Some_0@ == old(self).start()
                    && final(self).start() == old(self).start().element(1, size_of::<T>())
                    && final(self).remaining()
                == old(self).remaining() - 1,
    {
        let ptr = self.raw.next();
        match ptr {
            Some(p) => Some(PinnedUninit::new_unchecked(p)),
            None => None,
        }
    }

    /// Skips `n` cells and returns the handle to the one after them.
    ///
    /// With `n` cells or fewer left there is none: the iterator is then
    /// empty, except that for cells of no bytes it stays as it is where
    /// fewer than `n` are left.
    pub fn nth(&mut self, n: usize) -> (r: Option<PinnedUninit<T>>)
        ensures
            n < old(self).remaining() ==> r is Some && r->Some_0@ == old(self).start().element(
                n as int,
                size_of::<T>(),
            )
                && final(self).start() == old(self).start().element(n + 1, size_of::<T>())
                && final(self).remaining() == old(self).remaining() - n - 1,
            n >= old(self).remaining() ==> r is None && final(self).start() == old(self).start(),
            n >= old(self).remaining() && (n == old(self).remaining() || size_of::<T>() != 0)
                ==> final(self).remaining() == 0,
            n > old(self).remaining() && size_of::<T>() == 0 ==>
                final(self).remaining() == old(self).remaining(),
    {
        let ptr = self.raw.nth(n);
        match ptr {
            Some(p) => Some(PinnedUninit::new_unchecked(p)),
            None => None,
        }
    }

    /// How many cells are left, as a lower and an upper bound.
    pub fn size_hint(&self) -> (r: (usize, Option<usize>))
        ensures
            r.0 == self.remaining(),
            r.1 == Some(r.0),
    {
        self.raw.size_hint()
    }

    /// The handle to the last cell that is left, if there is one.
    pub fn next_back(&mut self) -> (r: Option<PinnedUninit<T>>)
        ensures
            final(self).start() == old(self).start(),
            old(self).remaining() == 0 ==> r is None && final(self).remaining() == 0,
            old(self).remaining() > 0 ==> r is Some && r->Some_0@ == old(self).start().element(
                old(self).remaining() - 1,
                size_of::<T>(),
            ) && final(self).remaining() == old(self).remaining() - 1,
    {
        let ptr = self.raw.next_back();
        match ptr {
            Some(p) => Some(PinnedUninit::new_unchecked(p)),
            None => None,
        }
    }

    /// Skips `n` cells from the back and returns the handle to the one
    /// before them.
    ///
    /// With `n` cells or fewer left there is none: the iterator is then
    /// empty, except that for cells of no bytes it stays as it is where
    /// fewer than `n` are left.
    pub fn nth_back(&mut self, n: usize) -> (r: Option<PinnedUninit<T>>)
        ensures
            final(self).start() == old(self).start(),
            n < old(self).remaining() ==> r is Some && r->Some_0@ == old(self).start().element(
                old(self).remaining() - n - 1,
                size_of::<T>(),
            ) && final(self).remaining() == old(self).remaining() - n - 1,
            n >= old(self).remaining() ==> r is None,
            n >= old(self).remaining() && (n == old(self).remaining() || size_of::<T>() != 0)
                ==> final(self).remaining() == 0,
            n > old(self).remaining() && size_of::<T>() == 0 ==>
                final(self).remaining() == old(self).remaining(),
    {
        let ptr = self.raw.nth_back(n);
        match ptr {
            Some(p) => Some(PinnedUninit::new_unchecked(p)),
            None => None,
        }
    }
}

/// An iterator that hands out the handle to each value of a pinned slice.
/// The values that it has not handed out are its own to destroy.
pub struct PinnedInitIter<T> {
    raw: InitIter<T>,
}

impl<T> PinnedInitIter<T> {
    /// The pointer to the first cell that is left.
    pub closed spec fn start(&self) -> Ptr {
        self.raw.start()
    }

    /// How many cells are left.
    pub closed spec fn remaining(&self) -> nat {
        self.raw.remaining()
    }

    /// The slice pointer to the cells that are left.
    pub open spec fn rest(&self) -> Ptr {
        Ptr { shape: Shape::Slice(self.remaining() as usize), ..self.start() }
    }

    /// An iterator over the cells behind `init`.
    pub fn new(init: PinnedInit<[T]>) -> (it: Self)
        ensures
            it.start() == (Ptr { shape: Shape::Fixed, ..init@ }),
            it.remaining() == init@.count(),
    {
        PinnedInitIter { raw: InitIter::new(PinnedInit::into_inner_unchecked(init)) }
    }

    /// The handle to the cells that are left.
    pub fn finish(self) -> (r: PinnedInit<[T]>)
        ensures
            r@ == self.rest(),
    {
        PinnedInit::new_unchecked(self.raw.finish())
    }

    /// The handle to the first cell that is left, if there is one.
    pub fn next(&mut self) -> (r: Option<PinnedInit<T>>)
        ensures
            old(self).remaining() == 0 ==> r is None && final(self).start() == old(self).start()
                && final(self).remaining() == 0,
            old(self).remaining() > 0 ==>
                r is Some
                    && r->Some_0@ == old(self).start()
                    && final(self).start() == old(self).start().element(1, size_of::<T>())
                    && final(self).remaining()
                == old(self).remaining() - 1,
    {
        let ptr = self.raw.next();
        match ptr {
            Some(p) => Some(PinnedInit::new_unchecked(p)),
            None => None,
        }
    }

    /// Skips `n` cells and returns the handle to the one after them.
    ///
    /// With `n` cells or fewer left there is none: the iterator is then
    /// empty, except that for cells of no bytes it stays as it is where
    /// fewer than `n` are left.
    pub fn nth(&mut self, n: usize) -> (r: Option<PinnedInit<T>>)
        ensures
            n < old(self).remaining() ==> r is Some && r->Some_0@ == old(self).start().element(
                n as int,
                size_of::<T>(),
            )
                && final(self).start() == old(self).start().element(n + 1, size_of::<T>())
                && final(self).remaining() == old(self).remaining() - n - 1,
            n >= old(self).remaining() ==> r is None && final(self).start() == old(self).start(),
            n >= old(self).remaining() && (n == old(self).remaining() || size_of::<T>() != 0)
                ==> final(self).remaining() == 0,
            n > old(self).remaining() && size_of::<T>() == 0 ==>
                final(self).remaining() == old(self).remaining(),
    {
        let ptr = self.raw.nth(n);
        match ptr {
            Some(p) => Some(PinnedInit::new_unchecked(p)),
            None => None,
        }
    }

    /// How many cells are left, as a lower and an upper bound.
    pub fn size_hint(&self) -> (r: (usize, Option<usize>))
        ensures
            r.0 == self.remaining(),
            r.1 == Some(r.0),
    {
        self.raw.size_hint()
    }

    /// The handle to the last cell that is left, if there is one.
    pub fn next_back(&mut self) -> (r: Option<PinnedInit<T>>)
        ensures
            final(self).start() == old(self).start(),
            old(self).remaining() == 0 ==> r is None && final(self).remaining() == 0,
            old(self).remaining() > 0 ==> r is Some && r->Some_0@ == old(self).start().element(
                old(self).remaining() - 1,
                size_of::<T>(),
            ) && final(self).remaining() == old(self).remaining() - 1,
    {
        let ptr = self.raw.next_back();
        match ptr {
            Some(p) => Some(PinnedInit::new_unchecked(p)),
            None => None,
        }
    }

    /// Skips `n` cells from the back and returns the handle to the one
    /// before them.
    ///
    /// With `n` cells or fewer left there is none: the iterator is then
    /// empty, except that for cells of no bytes it stays as it is where
    /// fewer than `n` are left.
    pub fn nth_back(&mut self, n: usize) -> (r: Option<PinnedInit<T>>)
        ensures
            final(self).start() == old(self).start(),
            n < old(self).remaining() ==> r is Some && r->Some_0@ == old(self).start().element(
                old(self).remaining() - n - 1,
                size_of::<T>(),
            ) && final(self).remaining() == old(self).remaining() - n - 1,
            n >= old(self).remaining() ==> r is None,
            n >= old(self).remaining() && (n == old(self).remaining() || size_of::<T>() != 0)
                ==> final(self).remaining() == 0,
            n > old(self).remaining() && size_of::<T>() == 0 ==>
                final(self).remaining() == old(self).remaining(),
    {
        let ptr = self.raw.nth_back(n);
        match ptr {
            Some(p) => Some(PinnedInit::new_unchecked(p)),
            None => None,
        }
    }

    /// Gives the iterator up: the values that are left are destroyed,
    /// lowest index first.
    pub fn discard(self, mem: &mut Memory<T>)
        requires
            old(mem)@.wf(),
            old(mem)@.is_init(self.rest()),
        ensures
            final(mem)@.wf(),
            final(mem)@ == old(mem)@.after_destroy_run(
                self.start().block as int,
                self.start().index as int,
                self.remaining(),
            ),
    {
        self.raw.discard(mem)
    }
}

} // verus!
