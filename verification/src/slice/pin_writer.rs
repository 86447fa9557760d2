use vstd::prelude::*;
use vstd::layout::size_of;
use crate::memory::{Event, MemState, Memory, Ptr, Shape};
use crate::pin_ptr::{PinnedInit, PinnedUninit};
use crate::func::{
    pin_fn_accepts, pin_fn_done, try_pin_fn_accepts, try_pin_fn_done, PinInitFn, TryPinInitFn,
};
use crate::traits::outcome;
use crate::traits::{PinInitialize, TryPinInitialize};

verus! {

/// Fills an empty pinned slice with values, lowest index first.
///
/// The writer keeps count of the cells that it has filled. At every moment
/// the cells before the count hold values and the cells from the count on
/// are empty, so that giving the writer up destroys the values written so
/// far and nothing else.
pub struct PinSliceWriter<T> {
    uninit: PinnedUninit<[T]>,
    current: Ptr,
    remaining: usize,
}

impl<T> PinSliceWriter<T> {
    /// The writer's pointer to the next cell and its count of the cells
    /// that are left agree with each other.
    pub closed spec fn coherent(&self) -> bool {
        &&& self.remaining <= self.uninit@.count()
        &&& self.current.block == self.uninit@.block
        &&& self.current.shape == Shape::Fixed
        &&& self.current.index == self.uninit@.index + (self.uninit@.count() - self.remaining)
        &&& self.current.addr == self.uninit@.addr + (self.uninit@.count() - self.remaining)
            * size_of::<T>()
    }

    /// The slice that the writer fills.
    pub closed spec fn target(&self) -> Ptr {
        self.uninit@
    }

    /// How many cells are still empty.
    pub closed spec fn remaining(&self) -> nat {
        self.remaining as nat
    }

    /// How many cells hold a value by now.
    pub open spec fn written(&self) -> nat {
        (self.target().count() - self.remaining()) as nat
    }

    /// The cell that is filled next.
    pub open spec fn next(&self) -> Ptr {
        self.target().element(self.written() as int, size_of::<T>())
    }

    /// In `mem` the slice is allocated, the cells written so far hold
    /// values, and the others are empty.
    pub open spec fn valid_in(&self, mem: MemState<T>) -> bool {
        &&& self.coherent()
        &&& mem.valid(self.target())
        &&& self.remaining() <= self.target().count()
        &&& forall|i: int|
            self.target().index <= i < self.target().index + self.written() ==> (
            #[trigger] mem.cell(self.target().block as int, i)) is Some
        &&& forall|i: int|
            self.target().index + self.written() <= i < self.target().end() ==> (
            #[trigger] mem.cell(self.target().block as int, i)) is None
    }

    /// Cell `k` of `target` holds in `mem` what a successful call of `f` on
    /// that cell left there.
    pub open spec fn try_filled_by<E, F>(f: F, target: Ptr, k: int, mem: MemState<T>) -> bool where
        F: Fn(Memory<T>, PinnedUninit<T>) -> (Memory<T>, Result<PinnedInit<T>, E>),
     {
        exists|m1: MemState<T>, m2: MemState<T>|
            {
                &&& m1.wf()
                &&& m1.is_uninit(target.element(k, size_of::<T>()))
                &&& #[trigger] try_pin_fn_done::<F, T, E>(
                    f,
                    m1,
                    target.element(k, size_of::<T>()),
                    m2,
                    Ok(()),
                )
                &&& m2.cell(target.block as int, target.index + k) == mem.cell(
                    target.block as int,
                    target.index + k,
                )
            }
    }

    /// Cell `k` of `target` holds in `mem` what a call of `f` on that cell
    /// left there.
    pub open spec fn filled_by<F>(f: F, target: Ptr, k: int, mem: MemState<T>) -> bool where
        F: Fn(Memory<T>, PinnedUninit<T>) -> (Memory<T>, PinnedInit<T>),
     {
        exists|m1: MemState<T>, m2: MemState<T>|
            {
                &&& m1.wf()
                &&& m1.is_uninit(target.element(k, size_of::<T>()))
                &&& #[trigger] pin_fn_done::<F, T>(f, m1, target.element(k, size_of::<T>()), m2)
                &&& m2.cell(target.block as int, target.index + k) == mem.cell(
                    target.block as int,
                    target.index + k,
                )
            }
    }

    /// A writer that has filled no cell of `uninit` yet.
    pub fn new(uninit: PinnedUninit<[T]>) -> (w: Self)
        ensures
            w.coherent(),
            w.target() == uninit@,
            w.remaining() == uninit@.count(),
    {
        let mut uninit = uninit;
        let len: usize = uninit.len();
        let ptr = uninit.as_mut_ptr().first();
        PinSliceWriter { uninit, current: ptr, remaining: len }
    }

    /// Whether every cell holds a value.
    pub fn is_finished(&self) -> (r: bool)
        ensures
            r == (self.remaining() == 0),
    {
        self.remaining == 0
    }

    /// Runs `init` on the next cell. On success the writer moves on by one
    /// cell; on failure it stays where it is.
    pub fn try_write<I: TryPinInitialize<T>>(
        &mut self,
        mem: &mut Memory<T>,
        init: I,
    ) -> (res: Result<
        (),
        I::Error,
    >)
        requires
            old(mem)@.wf(),
            old(self).valid_in(old(mem)@),
            old(self).remaining() > 0,
            init.pin_accepts(old(mem)@, old(self).next()),
        ensures
            final(mem)@.wf(),
            final(self).target() == old(self).target(),
            final(self).valid_in(final(mem)@),
            old(mem)@.same_outside(final(mem)@, old(self).next()),
            res is Ok ==> final(self).remaining() == old(self).remaining() - 1,
            res is Err ==> final(self).remaining() == old(self).remaining(),
            init.pin_infallible() ==> res is Ok,
            init.pin_done(old(mem)@, old(self).next(), final(mem)@, res),
            res is Ok ==> res == Ok::<(), I::Error>(()),
    {
        self.try_init_unchecked(mem, init)
    }

    /// Runs `init` on the next cell. On success the writer moves on by one
    /// cell; on failure it stays where it is.
    pub fn try_init_unchecked<I: TryPinInitialize<T>>(
        &mut self,
        mem: &mut Memory<T>,
        init: I,
    ) -> (res: Result<(), I::Error>)
        requires
            old(mem)@.wf(),
            old(self).valid_in(old(mem)@),
            old(self).remaining() > 0,
            init.pin_accepts(old(mem)@, old(self).next()),
        ensures
            final(mem)@.wf(),
            final(self).target() == old(self).target(),
            final(self).valid_in(final(mem)@),
            old(mem)@.same_outside(final(mem)@, old(self).next()),
            res is Ok ==> final(self).remaining() == old(self).remaining() - 1,
            res is Err ==> final(self).remaining() == old(self).remaining(),
            init.pin_infallible() ==> res is Ok,
            init.pin_done(old(mem)@, old(self).next(), final(mem)@, res),
            res is Ok ==> res == Ok::<(), I::Error>(()),
    {
        proof {
            let k = self.written() as int;
            let s = size_of::<T>() as int;
            old(mem)@.lemma_valid_element(self.target(), k);
            assert((k + 1) * s == k * s + 1 * s) by (nonlinear_arith);
        }
        let output = crate::raw::try_pin_init_in_place::<T, I>(init, mem, self.current);
        if output.is_ok() {
            self.current = self.current.add::<T>(1);
            self.remaining -= 1;
        }
        output
    }

    /// Runs `init`, which cannot fail, on the next cell, and moves on by
    /// one cell.
    pub fn init<I: PinInitialize<T>>(&mut self, mem: &mut Memory<T>, init: I)
        requires
            old(mem)@.wf(),
            old(self).valid_in(old(mem)@),
            old(self).remaining() > 0,
            init.pin_accepts(old(mem)@, old(self).next()),
            init.pin_infallible(),
        ensures
            final(mem)@.wf(),
            final(self).target() == old(self).target(),
            final(self).valid_in(final(mem)@),
            old(mem)@.same_outside(final(mem)@, old(self).next()),
            final(self).remaining() == old(self).remaining() - 1,
            init.pin_done(old(mem)@, old(self).next(), final(mem)@, Ok(())),
    {
        self.init_unchecked(mem, init)
    }

    /// Runs `init`, which cannot fail, on the next cell, and moves on by
    /// one cell.
    pub fn init_unchecked<I: PinInitialize<T>>(&mut self, mem: &mut Memory<T>, init: I)
        requires
            old(mem)@.wf(),
            old(self).valid_in(old(mem)@),
            old(self).remaining() > 0,
            init.pin_accepts(old(mem)@, old(self).next()),
            init.pin_infallible(),
        ensures
            final(mem)@.wf(),
            final(self).target() == old(self).target(),
            final(self).valid_in(final(mem)@),
            old(mem)@.same_outside(final(mem)@, old(self).next()),
            final(self).remaining() == old(self).remaining() - 1,
            init.pin_done(old(mem)@, old(self).next(), final(mem)@, Ok(())),
    {
        proof {
            let k = self.written() as int;
            let s = size_of::<T>() as int;
            old(mem)@.lemma_valid_element(self.target(), k);
            assert((k + 1) * s == k * s + 1 * s) by (nonlinear_arith);
        }
        crate::raw::pin_init_in_place::<T, I>(init, mem, self.current);
        self.current = self.current.add::<T>(1);
        self.remaining -= 1;
    }

    /// Calls `f` on each cell that is still empty, lowest index first, and
    /// returns the handle to the slice once every cell holds a value. When
    /// `f` fails, the values written so far are destroyed and the error is
    /// returned.
    pub fn try_for_each<E, F>(
        self,
        mem: &mut Memory<T>,
        f: F,
    ) -> (res: Result<PinnedInit<[T]>, E>) where
        F: Fn(Memory<T>, PinnedUninit<T>) -> (Memory<T>, Result<PinnedInit<T>, E>),

        requires
            old(mem)@.wf(),
            self.valid_in(old(mem)@),
            forall|m: MemState<T>, k: int|
                self.written() <= k < self.target().count() && m.wf() && old(mem)@.same_outside(
                    m,
                    self.target(),
                ) && m.is_uninit(self.target().element(k, size_of::<T>())) ==>
                    #[trigger] try_pin_fn_accepts(
                    f,
                    m,
                    self.target().element(k, size_of::<T>()),
                ),
        ensures
            final(mem)@.wf(),
            old(mem)@.same_outside(final(mem)@, self.target()),
            match res {
                Ok(init) => init@ == self.target() && final(mem)@.is_init(self.target()),
                Err(_) => final(mem)@.is_uninit(self.target()),
            },
            res is Ok ==> forall|k: int|
                self.written() <= k < self.target().count() ==> #[trigger] Self::try_filled_by(
                    f,
                    self.target(),
                    k,
                    final(mem)@,
                ),
            res matches Err(e) ==> exists|k: int, m1: MemState<T>, m2: MemState<T>|
                {
                    &&& self.written() <= k < self.target().count()
                    &&& old(mem)@.same_outside(m2, self.target())
                    &&& m1.wf()
                    &&& m1.is_uninit(self.target().element(k, size_of::<T>()))
                    &&& #[trigger] try_pin_fn_done::<F, T, E>(
                        f,
                        m1,
                        self.target().element(k, size_of::<T>()),
                        m2,
                        Err(e),
                    )
                    &&& final(mem)@ == m2.after_destroy_run(
                        self.target().block as int,
                        self.target().index as int,
                        k as nat,
                    )
                },
    {
        let mut this = self;
        proof {
            old(mem)@.lemma_same_outside_refl(self.target());
        }
        while !this.is_finished()
            invariant
                mem@.wf(),
                this.valid_in(mem@),
                this.target() == self.target(),
                self.written() <= this.written(),
                old(mem)@.same_outside(mem@, self.target()),
                forall|k: int|
                    self.written() <= k < this.written() ==> #[trigger] Self::try_filled_by(
                        f,
                        self.target(),
                        k,
                        mem@,
                    ),
                forall|m: MemState<T>, k: int|
                    self.written() <= k < self.target().count() && m.wf() && old(mem)@.same_outside(
                        m,
                        self.target(),
                    ) && m.is_uninit(self.target().element(k, size_of::<T>())) ==>
                        #[trigger] try_pin_fn_accepts(
                        f,
                        m,
                        self.target().element(k, size_of::<T>()),
                    ),
            decreases this.remaining(),
        {
            let ghost before = mem@;
            let ghost slot = this.next();
            proof {
                before.lemma_valid_element(this.target(), this.written() as int);
                assert(try_pin_fn_accepts(f, before, slot));
            }
            let ghost done_before = this.written();
            let step = this.try_write(mem, TryPinInitFn::new(&f));
            proof {
                old(mem)@.lemma_same_outside_trans(before, mem@, self.target());
                let target = self.target();
                assert(try_pin_fn_done::<F, T, E>(f, before, slot, mem@, step)) by {
                    let (m, u, out) = choose|
                        m: Memory<T>,
                        u: PinnedUninit<T>,
                        out: (Memory<T>, Result<PinnedInit<T>, E>),
                    |
                        m@ == before && u@ == slot && out.0@ == mem@ && outcome(out.1) == step
                            && #[trigger] call_ensures(&f, (m, u), out);
                }
                assert forall|k: int| self.written() <= k < done_before implies #[trigger] Self::try_filled_by(
                    f,
                    target,
                    k,
                    mem@,
                ) by {
                    assert(Self::try_filled_by(f, target, k, before));
                    let (m1, m2) = choose|m1: MemState<T>, m2: MemState<T>| #[trigger]
                        try_pin_fn_done::<F, T, E>(f, m1, target.element(k, size_of::<T>()), m2, Ok(()))
                            && m2.cell(target.block as int, target.index + k) == before.cell(
                            target.block as int,
                            target.index + k,
                        );
                    assert(mem@.cell(target.block as int, target.index + k) == before.cell(
                        target.block as int,
                        target.index + k,
                    ));
                }
            }
            match step {
                Ok(()) => {},
                Err(e) => {
                    let ghost failed = mem@;
                    this.discard(mem);
                    proof {
                        old(mem)@.lemma_same_outside_trans(failed, mem@, self.target());
                    }
                    let r: Result<PinnedInit<[T]>, E> = Err(e);
                    assert(r matches Err(x) ==> x == e);
                    return r;
                },
            }
        }
        Ok(this.finish(mem))
    }

    /// Calls `f` on each cell that is still empty, lowest index first, and
    /// returns the handle to the slice, in which every cell holds a value
    /// now.
    pub fn for_each<F>(self, mem: &mut Memory<T>, f: F) -> (init: PinnedInit<[T]>) where
        F: Fn(Memory<T>, PinnedUninit<T>) -> (Memory<T>, PinnedInit<T>),

        requires
            old(mem)@.wf(),
            self.valid_in(old(mem)@),
            forall|m: MemState<T>, k: int|
                self.written() <= k < self.target().count() && m.wf() && old(mem)@.same_outside(
                    m,
                    self.target(),
                ) && m.is_uninit(self.target().element(k, size_of::<T>())) ==>
                    #[trigger] pin_fn_accepts(
                    f,
                    m,
                    self.target().element(k, size_of::<T>()),
                ),
        ensures
            final(mem)@.wf(),
            old(mem)@.same_outside(final(mem)@, self.target()),
            init@ == self.target(),
            final(mem)@.is_init(self.target()),
            forall|k: int|
                self.written() <= k < self.target().count() ==> #[trigger] Self::filled_by(
                    f,
                    self.target(),
                    k,
                    final(mem)@,
                ),
    {
        let mut this = self;
        proof {
            old(mem)@.lemma_same_outside_refl(self.target());
        }
        while !this.is_finished()
            invariant
                mem@.wf(),
                this.valid_in(mem@),
                this.target() == self.target(),
                self.written() <= this.written(),
                old(mem)@.same_outside(mem@, self.target()),
                forall|k: int|
                    self.written() <= k < this.written() ==> #[trigger] Self::filled_by(
                        f,
                        self.target(),
                        k,
                        mem@,
                    ),
                forall|m: MemState<T>, k: int|
                    self.written() <= k < self.target().count() && m.wf() && old(mem)@.same_outside(
                        m,
                        self.target(),
                    ) && m.is_uninit(self.target().element(k, size_of::<T>())) ==>
                        #[trigger] pin_fn_accepts(
                        f,
                        m,
                        self.target().element(k, size_of::<T>()),
                    ),
            decreases this.remaining(),
        {
            let ghost before = mem@;
            let ghost slot = this.next();
            proof {
                before.lemma_valid_element(this.target(), this.written() as int);
                assert(pin_fn_accepts(f, before, slot));
            }
            let ghost done_before = this.written();
            this.init(mem, PinInitFn::new(&f));
            proof {
                old(mem)@.lemma_same_outside_trans(before, mem@, self.target());
                let target = self.target();
                assert(pin_fn_done::<F, T>(f, before, slot, mem@)) by {
                    let (m, u, out) = choose|m: Memory<T>, u: PinnedUninit<T>, out: (Memory<T>, PinnedInit<T>)|
                        m@ == before && u@ == slot && out.0@ == mem@ && #[trigger] call_ensures(
                            &f,
                            (m, u),
                            out,
                        );
                }
                assert forall|k: int| self.written() <= k < done_before implies #[trigger] Self::filled_by(
                    f,
                    target,
                    k,
                    mem@,
                ) by {
                    assert(Self::filled_by(f, target, k, before));
                    let (m1, m2) = choose|m1: MemState<T>, m2: MemState<T>| #[trigger]
                        pin_fn_done::<F, T>(f, m1, target.element(k, size_of::<T>()), m2)
                            && m2.cell(
                            target.block as int,
                            target.index + k,
                        ) == before.cell(target.block as int, target.index + k);
                    assert(mem@.cell(target.block as int, target.index + k) == before.cell(
                        target.block as int,
                        target.index + k,
                    ));
                }
            }
        }
        this.finish(mem)
    }

    /// The handle to the slice, now that every cell holds a value.
    pub fn finish(self, mem: &Memory<T>) -> (init: PinnedInit<[T]>)
        requires
            self.valid_in(mem@),
            self.remaining() == 0,
        ensures
            init@ == self.target(),
            mem@.is_init(init@),
    {
        self.finish_unchecked(mem)
    }

    /// The handle to the slice, now that every cell holds a value.
    pub fn finish_unchecked(self, mem: &Memory<T>) -> (init: PinnedInit<[T]>)
        requires
            self.valid_in(mem@),
            self.remaining() == 0,
        ensures
            init@ == self.target(),
            mem@.is_init(init@),
    {
        let uninit = self.uninit;
        uninit.assume_init(mem)
    }

    /// Gives the writer up: the values written so far are destroyed,
    /// lowest index first, and no other cell is touched.
    pub fn discard(self, mem: &mut Memory<T>)
        requires
            old(mem)@.wf(),
            self.valid_in(old(mem)@),
        ensures
            final(mem)@.wf(),
            final(mem)@ == old(mem)@.after_destroy_run(
                self.target().block as int,
                self.target().index as int,
                self.written(),
            ),
            final(mem)@.is_uninit(self.target()),
            old(mem)@.same_outside(final(mem)@, self.target()),
    {
        let len: usize = self.uninit.len();
        let ptr = self.uninit.as_ptr().first();
        let len: usize = len.wrapping_sub(self.remaining);
        let ptr = Ptr::slice_from_raw_parts(ptr, len);
        proof {
            old(mem)@.lemma_valid_prefix(self.target(), len);
        }
        mem.drop_in_place(ptr);
        proof {
            let target = self.target();
            old(mem)@.lemma_destroy_run(target.block as int, target.index as int, self.written());
            old(mem)@.lemma_destroy_run_same_outside(target, target.index as int, self.written());
        }
    }

    /// What giving up a writer does, for a writer that has written `k` of
    /// the `n` cells of its slice: the destructors of the first `k` cells
    /// run, lowest index first, and nothing else happens. The trace grows
    /// by those `k` runs, the first `k` cells are empty afterwards, and
    /// every other cell, the other `n - k` of the slice among them, is as
    /// it was.
    pub proof fn law_discard_destroys_prefix(&self, mem: MemState<T>)
        requires
            mem.wf(),
            self.valid_in(mem),
        ensures
            ({
                let target = self.target();
                let k = self.written();
                let post = mem.after_destroy_run(target.block as int, target.index as int, k);
                &&& post.trace.len() == mem.trace.len() + k
                &&& post.trace.subrange(0, mem.trace.len() as int) == mem.trace
                &&& forall|j: int|
                    0 <= j < k ==> #[trigger] post.trace[mem.trace.len() + j] == (Event::Destroyed {
                        block: target.block,
                        index: (target.index + j) as usize,
                    })
                &&& forall|i: int|
                    target.index <= i < target.index + k ==> (#[trigger] post.cell(
                        target.block as int,
                        i,
                    )) is None
                &&& forall|b: int, i: int|
                    0 <= b < mem.blocks.len() && !(b == target.block && target.index <= i
                        < target.index + k) ==> #[trigger] post.cell(b, i) == mem.cell(b, i)
                &&& forall|b: int|
                    0 <= b < mem.blocks.len() ==>
                        (#[trigger] post.blocks[b]).same_frame(mem.blocks[b])
                &&& post.next == mem.next
            }),
    {
        let target = self.target();
        mem.lemma_destroy_run(target.block as int, target.index as int, self.written());
    }
}

} // verus!
