//! Filling slices: the writers, and the initializers built on them.
//!
//! A writer fills the cells of an empty slice one by one. When it is given
//! up before the end, the values written so far are destroyed and the rest
//! of the slice is left alone.

mod pin_writer;
mod writer;

pub use pin_writer::PinSliceWriter;
pub use writer::SliceWriter;

use vstd::prelude::*;
use vstd::layout::size_of;
use vstd::pervasive::cloned;
use vstd::std_specs::iter::IteratorSpec;
use crate::memory::{MemState, Memory, Ptr};
use crate::ptr::{Init, Uninit};
use crate::func::{try_fn_done, try_pin_fn_done};
use crate::pin_ptr::{PinnedInit, PinnedUninit};
use crate::traits::{outcome, TryInitialize, TryPinInitialize};

verus! {

/// The writer under its shorter name.
pub type Writer<T> = SliceWriter<T>;

/// A slice initializer that initializes each cell with a clone of the
/// initializer inside.
pub struct SliceInit<I>(I);

impl<I> SliceInit<I> {
    /// The initializer inside.
    pub closed spec fn inner(&self) -> I {
        self.0
    }

    /// A slice initializer that runs a clone of `init` on each cell.
    pub fn new(init: I) -> (r: Self)
        ensures
            r.inner() == init,
    {
        Self(init)
    }
}

/// Cell `k` of the slice `ptr` holds in `mem` what a successful run of a
/// clone of `init` on that cell left there.
pub open spec fn made_by_clone<I: TryInitialize<T> + Clone, T>(
    init: I,
    ptr: Ptr,
    k: int,
    mem: MemState<T>,
) -> bool {
    exists|c: I, m1: MemState<T>, m2: MemState<T>|
        {
            &&& cloned(init, c)
            &&& m1.wf()
            &&& m1.is_uninit(ptr.element(k, size_of::<T>()))
            &&& #[trigger] c.done(m1, ptr.element(k, size_of::<T>()), m2, Ok(()))
            &&& m2.cell(ptr.block as int, ptr.index + k) == mem.cell(ptr.block as int, ptr.index + k)
        }
}

/// The run of a clone of `init` on cell `k` of the slice `ptr` failed with
/// `e`, and `mem` is what was left when the values before cell `k` had been
/// destroyed again.
pub open spec fn failed_at<I: TryInitialize<T> + Clone, T>(
    init: I,
    pre: MemState<T>,
    ptr: Ptr,
    k: int,
    e: I::Error,
    mem: MemState<T>,
) -> bool {
    exists|c: I, m1: MemState<T>, m2: MemState<T>|
        {
            &&& cloned(init, c)
            &&& pre.same_outside(m2, ptr)
            &&& m1.wf()
            &&& m1.is_uninit(ptr.element(k, size_of::<T>()))
            &&& #[trigger] c.done(m1, ptr.element(k, size_of::<T>()), m2, Err(e))
            &&& mem == m2.after_destroy_run(ptr.block as int, ptr.index as int, k as nat)
        }
}

impl<I: TryInitialize<T> + Clone, T> TryInitialize<[T]> for SliceInit<I> {
    type Error = I::Error;

    /// Every clone of the initializer inside accepts every cell of the
    /// slice, whatever the clones before it did to the cells before it.
    open spec fn accepts(&self, mem: MemState<T>, ptr: Ptr) -> bool {
        forall|c: I, m: MemState<T>, k: int|
            cloned(self.inner(), c) && 0 <= k < ptr.count() && m.wf() && mem.same_outside(m, ptr)
                && m.is_uninit(ptr.element(k, size_of::<T>())) ==> #[trigger] c.accepts(
                m,
                ptr.element(k, size_of::<T>()),
            )
    }

    open spec fn infallible(&self) -> bool {
        forall|c: I| cloned(self.inner(), c) ==> #[trigger] c.infallible()
    }

    /// After success each cell holds what a clone left there. After
    /// failure at some cell the values of the cells before it have been
    /// destroyed, lowest index first.
    open spec fn done(
        &self,
        pre: MemState<T>,
        ptr: Ptr,
        post: MemState<T>,
        res: Result<(), I::Error>,
    ) -> bool {
        match res {
            Ok(_) => forall|k: int|
                0 <= k < ptr.count() ==> #[trigger] made_by_clone(self.inner(), ptr, k, post),
            Err(e) => exists|k: int|
                0 <= k < ptr.count() && #[trigger] failed_at(self.inner(), pre, ptr, k, e, post),
        }
    }

    fn try_init(
        self,
        mem: &mut Memory<T>,
        ptr: Uninit<[T]>,
    ) -> (res: Result<Init<[T]>, Self::Error>) {
        let ghost target = ptr@;
        let ghost pre = mem@;
        let inner = &self.0;
        let f = |m: Memory<T>, u: Uninit<T>| -> (out: (Memory<T>, Result<Init<T>, I::Error>))
            requires
                m@.wf(),
                m@.is_uninit(u@),
                forall|c: I| cloned(*inner, c) ==> #[trigger] c.accepts(m@, u@),
            ensures
                out.0@.wf(),
                m@.same_outside(out.0@, u@),
                match out.1 {
                    Ok(r) => r@ == u@ && out.0@.is_init(u@),
                    Err(_) => out.0@.is_uninit(u@),
                },
                exists|c: I| cloned(*inner, c) && #[trigger] c.done(m@, u@, out.0@, outcome(out.1)),
                (forall|c: I| cloned(*inner, c) ==> #[trigger] c.infallible()) ==> out.1 is Ok,
            {
                let mut m = m;
                let c = inner.clone();
                let r = u.try_init(&mut m, c);
                (m, r)
            };
        let writer = SliceWriter::new(ptr);
        let res = writer.try_for_each(mem, f);
        proof {
            let size = size_of::<T>();
            if res is Ok {
                assert forall|k: int| 0 <= k < target.count() implies #[trigger] made_by_clone(
                    self.inner(),
                    target,
                    k,
                    mem@,
                ) by {
                    assert(SliceWriter::<T>::try_filled_by(f, target, k, mem@));
                    let (m1, m2) = choose|m1: MemState<T>, m2: MemState<T>|
                        {
                            &&& m1.wf()
                            &&& m1.is_uninit(target.element(k, size))
                            &&& #[trigger] try_fn_done::<_, T, I::Error>(
                                f,
                                m1,
                                target.element(k, size),
                                m2,
                                Ok(()),
                            )
                            &&& m2.cell(target.block as int, target.index + k) == mem@.cell(
                                target.block as int,
                                target.index + k,
                            )
                        };
                    let (m, u, out) = choose|
                        m: Memory<T>,
                        u: Uninit<T>,
                        out: (Memory<T>, Result<Init<T>, I::Error>),
                    |
                        m@ == m1 && u@ == target.element(k, size) && out.0@ == m2 && outcome(out.1)
                            == Ok::<(), I::Error>(()) && #[trigger] call_ensures(f, (m, u), out);
                    let c = choose|c: I|
                        cloned(*inner, c) && #[trigger] c.done(m@, u@, out.0@, outcome(out.1));
                }
            } else {
                let e = res->Err_0;
                let (k, m1, m2) = choose|k: int, m1: MemState<T>, m2: MemState<T>|
                    {
                        &&& 0 <= k < target.count()
                        &&& pre.same_outside(m2, target)
                        &&& m1.wf()
                        &&& m1.is_uninit(target.element(k, size))
                        &&& #[trigger] try_fn_done::<_, T, I::Error>(
                            f,
                            m1,
                            target.element(k, size),
                            m2,
                            Err(e),
                        )
                        &&& mem@ == m2.after_destroy_run(
                            target.block as int,
                            target.index as int,
                            k as nat,
                        )
                    };
                let (m, u, out) = choose|
                    m: Memory<T>,
                    u: Uninit<T>,
                    out: (Memory<T>, Result<Init<T>, I::Error>),
                |
                    m@ == m1 && u@ == target.element(k, size) && out.0@ == m2 && outcome(out.1)
                        == Err::<(), I::Error>(e) && #[trigger] call_ensures(f, (m, u), out);
                let c = choose|c: I|
                    cloned(*inner, c) && #[trigger] c.done(m@, u@, out.0@, outcome(out.1));
                assert(failed_at(self.inner(), pre, target, k, e, mem@));
                assert(match outcome(res) {
                    Ok(_) => true,
                    Err(e2) => e2 == e,
                });
            }
        }
        res
    }
}

/// Cell `k` of the slice `ptr` holds in `mem` what a successful run of a
/// clone of the pinned initializer `init` on that cell left there.
pub open spec fn pin_made_by_clone<I: TryPinInitialize<T> + Clone, T>(
    init: I,
    ptr: Ptr,
    k: int,
    mem: MemState<T>,
) -> bool {
    exists|c: I, m1: MemState<T>, m2: MemState<T>|
        {
            &&& cloned(init, c)
            &&& m1.wf()
            &&& m1.is_uninit(ptr.element(k, size_of::<T>()))
            &&& #[trigger] c.pin_done(m1, ptr.element(k, size_of::<T>()), m2, Ok(()))
            &&& m2.cell(ptr.block as int, ptr.index + k) == mem.cell(ptr.block as int, ptr.index + k)
        }
}

/// The run of a clone of the pinned initializer `init` on cell `k` of the slice `ptr` failed with
/// `e`, and `mem` is what was left when the values before cell `k` had been
/// destroyed again.
pub open spec fn pin_failed_at<I: TryPinInitialize<T> + Clone, T>(
    init: I,
    pre: MemState<T>,
    ptr: Ptr,
    k: int,
    e: I::Error,
    mem: MemState<T>,
) -> bool {
    exists|c: I, m1: MemState<T>, m2: MemState<T>|
        {
            &&& cloned(init, c)
            &&& pre.same_outside(m2, ptr)
            &&& m1.wf()
            &&& m1.is_uninit(ptr.element(k, size_of::<T>()))
            &&& #[trigger] c.pin_done(m1, ptr.element(k, size_of::<T>()), m2, Err(e))
            &&& mem == m2.after_destroy_run(ptr.block as int, ptr.index as int, k as nat)
        }
}

impl<I: TryPinInitialize<T> + Clone, T> TryPinInitialize<[T]> for SliceInit<I> {
    type Error = I::Error;

    /// Every clone of the initializer inside accepts every cell of the
    /// slice, whatever the clones before it did to the cells before it.
    open spec fn pin_accepts(&self, mem: MemState<T>, ptr: Ptr) -> bool {
        forall|c: I, m: MemState<T>, k: int|
            cloned(self.inner(), c) && 0 <= k < ptr.count() && m.wf() && mem.same_outside(m, ptr)
                && m.is_uninit(ptr.element(k, size_of::<T>())) ==> #[trigger] c.pin_accepts(
                m,
                ptr.element(k, size_of::<T>()),
            )
    }

    open spec fn pin_infallible(&self) -> bool {
        forall|c: I| cloned(self.inner(), c) ==> #[trigger] c.pin_infallible()
    }

    /// After success each cell holds what a clone left there. After
    /// failure at some cell the values of the cells before it have been
    /// destroyed, lowest index first.
    open spec fn pin_done(
        &self,
        pre: MemState<T>,
        ptr: Ptr,
        post: MemState<T>,
        res: Result<(), I::Error>,
    ) -> bool {
        match res {
            Ok(_) => forall|k: int|
                0 <= k < ptr.count() ==> #[trigger] pin_made_by_clone(self.inner(), ptr, k, post),
            Err(e) => exists|k: int|
                0 <= k < ptr.count() && #[trigger] pin_failed_at(self.inner(), pre, ptr, k, e, post),
        }
    }

    fn try_pin_init(
        self,
        mem: &mut Memory<T>,
        ptr: PinnedUninit<[T]>,
    ) -> (res: Result<PinnedInit<[T]>, Self::Error>) {
        let ghost target = ptr@;
        let ghost pre = mem@;
        let inner = &self.0;
        let f = |m: Memory<T>, u: PinnedUninit<T>| -> (out: (Memory<T>, Result<PinnedInit<T>, I::Error>))
            requires
                m@.wf(),
                m@.is_uninit(u@),
                forall|c: I| cloned(*inner, c) ==> #[trigger] c.pin_accepts(m@, u@),
            ensures
                out.0@.wf(),
                m@.same_outside(out.0@, u@),
                match out.1 {
                    Ok(r) => r@ == u@ && out.0@.is_init(u@),
                    Err(_) => out.0@.is_uninit(u@),
                },
                exists|c: I| cloned(*inner, c) && #[trigger] c.pin_done(m@, u@, out.0@, outcome(out.1)),
                (forall|c: I| cloned(*inner, c) ==> #[trigger] c.pin_infallible()) ==> out.1 is Ok,
            {
                let mut m = m;
                let c = inner.clone();
                let r = u.try_init(&mut m, c);
                (m, r)
            };
        let writer = PinSliceWriter::new(ptr);
        let res = writer.try_for_each(mem, f);
        proof {
            let size = size_of::<T>();
            if res is Ok {
                assert forall|k: int| 0 <= k < target.count() implies #[trigger] pin_made_by_clone(
                    self.inner(),
                    target,
                    k,
                    mem@,
                ) by {
                    assert(PinSliceWriter::<T>::try_filled_by(f, target, k, mem@));
                    let (m1, m2) = choose|m1: MemState<T>, m2: MemState<T>|
                        {
                            &&& m1.wf()
                            &&& m1.is_uninit(target.element(k, size))
                            &&& #[trigger] try_pin_fn_done::<_, T, I::Error>(
                                f,
                                m1,
                                target.element(k, size),
                                m2,
                                Ok(()),
                            )
                            &&& m2.cell(target.block as int, target.index + k) == mem@.cell(
                                target.block as int,
                                target.index + k,
                            )
                        };
                    let (m, u, out) = choose|
                        m: Memory<T>,
                        u: PinnedUninit<T>,
                        out: (Memory<T>, Result<PinnedInit<T>, I::Error>),
                    |
                        m@ == m1 && u@ == target.element(k, size) && out.0@ == m2 && outcome(out.1)
                            == Ok::<(), I::Error>(()) && #[trigger] call_ensures(f, (m, u), out);
                    let c = choose|c: I|
                        cloned(*inner, c) && #[trigger] c.pin_done(m@, u@, out.0@, outcome(out.1));
                }
            } else {
                let e = res->Err_0;
                let (k, m1, m2) = choose|k: int, m1: MemState<T>, m2: MemState<T>|
                    {
                        &&& 0 <= k < target.count()
                        &&& pre.same_outside(m2, target)
                        &&& m1.wf()
                        &&& m1.is_uninit(target.element(k, size))
                        &&& #[trigger] try_pin_fn_done::<_, T, I::Error>(
                            f,
                            m1,
                            target.element(k, size),
                            m2,
                            Err(e),
                        )
                        &&& mem@ == m2.after_destroy_run(
                            target.block as int,
                            target.index as int,
                            k as nat,
                        )
                    };
                let (m, u, out) = choose|
                    m: Memory<T>,
                    u: PinnedUninit<T>,
                    out: (Memory<T>, Result<PinnedInit<T>, I::Error>),
                |
                    m@ == m1 && u@ == target.element(k, size) && out.0@ == m2 && outcome(out.1)
                        == Err::<(), I::Error>(e) && #[trigger] call_ensures(f, (m, u), out);
                let c = choose|c: I|
                    cloned(*inner, c) && #[trigger] c.pin_done(m@, u@, out.0@, outcome(out.1));
                assert(pin_failed_at(self.inner(), pre, target, k, e, mem@));
                assert(match outcome(res) {
                    Ok(_) => true,
                    Err(e2) => e2 == e,
                });
            }
        }
        res
    }
}

/// A slice initializer that takes the initializer for each cell from an
/// iterator.
pub struct SliceIterInit<I>(I);

impl<I: Iterator> SliceIterInit<I> {
    /// The iterator inside.
    pub closed spec fn inner(&self) -> I {
        self.0
    }

    /// A slice initializer that runs one item of `iter` on each cell.
    pub fn new(iter: I) -> (r: Self)
        ensures
            r.inner() == iter,
    {
        Self(iter)
    }
}

/// Why a slice could not be filled from an iterator.
#[derive(Debug)]
pub enum SliceIterInitError<T> {
    /// The iterator ended before the slice was full.
    NotEnoughItems,
    /// An initializer that the iterator gave failed.
    Init(T),
}

/// Cell `k` of the slice `ptr` holds in `mem` what a successful run of
/// some initializer of type `I` on that cell left there.
pub open spec fn made_by_item<I: TryInitialize<T>, T>(ptr: Ptr, k: int, mem: MemState<T>) -> bool {
    exists|item: I, m1: MemState<T>, m2: MemState<T>|
        {
            &&& m1.wf()
            &&& m1.is_uninit(ptr.element(k, size_of::<T>()))
            &&& #[trigger] item.done(m1, ptr.element(k, size_of::<T>()), m2, Ok(()))
            &&& m2.cell(ptr.block as int, ptr.index + k) == mem.cell(ptr.block as int, ptr.index + k)
        }
}

/// An initializer of type `I` can fail with `e` on cell `k` of the slice `ptr`
/// and leave the memory `m2`.
pub open spec fn fails_with<I: TryInitialize<T>, T>(
    ptr: Ptr,
    k: int,
    e: I::Error,
    m2: MemState<T>,
) -> bool {
    exists|item: I, m1: MemState<T>|
        {
            &&& m1.wf()
            &&& m1.is_uninit(ptr.element(k, size_of::<T>()))
            &&& #[trigger] item.done(m1, ptr.element(k, size_of::<T>()), m2, Err(e))
        }
}

/// Filling the slice `ptr` stopped at cell `k` and left the memory `m2`,
/// and `mem` is what was left when the values before cell `k` had been
/// destroyed again. With an error `e`, an initializer of type `I` failed with it
/// on cell `k`.
pub open spec fn stopped_from<I: TryInitialize<T>, T>(
    pre: MemState<T>,
    ptr: Ptr,
    k: int,
    e: SliceIterInitError<I::Error>,
    m2: MemState<T>,
    mem: MemState<T>,
) -> bool {
    &&& pre.same_outside(m2, ptr)
    &&& mem == m2.after_destroy_run(ptr.block as int, ptr.index as int, k as nat)
    &&& e matches SliceIterInitError::Init(inner) ==> fails_with::<I, T>(ptr, k, inner, m2)
}

/// Filling the slice `ptr` stopped at cell `k`, and `mem` is what was left
/// when the values before cell `k` had been destroyed again.
pub open spec fn stopped_at<I: TryInitialize<T>, T>(
    pre: MemState<T>,
    ptr: Ptr,
    k: int,
    e: SliceIterInitError<I::Error>,
    mem: MemState<T>,
) -> bool {
    exists|m2: MemState<T>| #[trigger] stopped_from::<I, T>(pre, ptr, k, e, m2, mem)
}

/// Cell `k` of the slice `ptr` holds in `mem` what a successful run of
/// `item` on that cell left there.
pub open spec fn made_by<I: TryInitialize<T>, T>(
    item: I,
    ptr: Ptr,
    k: int,
    mem: MemState<T>,
) -> bool {
    exists|m1: MemState<T>, m2: MemState<T>|
        {
            &&& m1.wf()
            &&& m1.is_uninit(ptr.element(k, size_of::<T>()))
            &&& #[trigger] item.done(m1, ptr.element(k, size_of::<T>()), m2, Ok(()))
            &&& m2.cell(ptr.block as int, ptr.index + k) == mem.cell(ptr.block as int, ptr.index + k)
        }
}

/// The run of `item` on cell `k` of the slice `ptr` failed with `e`, and
/// `mem` is what was left when the values before cell `k` had been
/// destroyed again.
pub open spec fn item_failed<I: TryInitialize<T>, T>(
    item: I,
    pre: MemState<T>,
    ptr: Ptr,
    k: int,
    e: I::Error,
    mem: MemState<T>,
) -> bool {
    exists|m1: MemState<T>, m2: MemState<T>|
        {
            &&& pre.same_outside(m2, ptr)
            &&& m1.wf()
            &&& m1.is_uninit(ptr.element(k, size_of::<T>()))
            &&& #[trigger] item.done(m1, ptr.element(k, size_of::<T>()), m2, Err(e))
            &&& mem == m2.after_destroy_run(ptr.block as int, ptr.index as int, k as nat)
        }
}

/// What filling the slice `ptr` with the initializers `items`, one for
/// each cell and in their order, comes to: success where there are enough
/// of them and each succeeds on its cell; the error of the first that
/// fails; or the report that they ran out.
pub open spec fn filled_from<I: TryInitialize<T>, T>(
    items: Seq<I>,
    pre: MemState<T>,
    ptr: Ptr,
    post: MemState<T>,
    res: Result<(), SliceIterInitError<I::Error>>,
) -> bool {
    match res {
        Ok(_) => ptr.count() <= items.len() && forall|k: int|
            0 <= k < ptr.count() ==> #[trigger] made_by(items[k], ptr, k, post),
        Err(SliceIterInitError::NotEnoughItems) => items.len() < ptr.count() && stopped_at::<I, T>(
            pre,
            ptr,
            items.len() as int,
            SliceIterInitError::NotEnoughItems,
            post,
        ),
        Err(SliceIterInitError::Init(e)) => exists|k: int|
            0 <= k < ptr.count() && k < items.len() && #[trigger] item_failed(
                items[k],
                pre,
                ptr,
                k,
                e,
                post,
            ),
    }
}

impl<I: Iterator, T> TryInitialize<[T]> for SliceIterInit<I> where I::Item: TryInitialize<T> {
    type Error = SliceIterInitError<<I::Item as TryInitialize<T>>::Error>;

    /// Whatever the iterator gives accepts every cell of the slice,
    /// whatever was done to the cells before it.
    open spec fn accepts(&self, mem: MemState<T>, ptr: Ptr) -> bool {
        forall|item: I::Item, m: MemState<T>, k: int|
            0 <= k < ptr.count() && m.wf() && mem.same_outside(m, ptr) && m.is_uninit(
                ptr.element(k, size_of::<T>()),
            ) ==> #[trigger] item.accepts(m, ptr.element(k, size_of::<T>()))
    }

    open spec fn infallible(&self) -> bool {
        false
    }

    /// After success each cell holds what an initializer left there.
    /// After failure at some cell the values of the cells before it have
    /// been destroyed, lowest index first.
    open spec fn done(
        &self,
        pre: MemState<T>,
        ptr: Ptr,
        post: MemState<T>,
        res: Result<(), SliceIterInitError<<I::Item as TryInitialize<T>>::Error>>,
    ) -> bool {
        match res {
            Ok(_) => forall|k: int|
                0 <= k < ptr.count() ==> #[trigger] made_by_item::<I::Item, T>(ptr, k, post),
            Err(e) => exists|k: int|
                0 <= k < ptr.count() && #[trigger] stopped_at::<I::Item, T>(pre, ptr, k, e, post),
        }
    }

    fn try_init(
        self,
        mem: &mut Memory<T>,
        ptr: Uninit<[T]>,
    ) -> (res: Result<Init<[T]>, Self::Error>)
        ensures
            self.inner().obeys_prophetic_iter_laws() ==> filled_from::<I::Item, T>(
                self.inner().remaining(),
                old(mem)@,
                ptr@,
                final(mem)@,
                outcome(res),
            ),
    {
        let ghost target = ptr@;
        let ghost pre = mem@;
        let ghost size = size_of::<T>();
        let ghost obeys = self.inner().obeys_prophetic_iter_laws();
        let ghost items = self.inner().remaining();
        let mut this = self;
        let mut writer = SliceWriter::new(ptr);
        proof {
            pre.lemma_same_outside_refl(target);
        }
        while !writer.is_finished()
            invariant
                mem@.wf(),
                writer.valid_in(mem@),
                writer.target() == target,
                target == ptr@,
                pre == old(mem)@,
                pre.same_outside(mem@, target),
                size == size_of::<T>(),
                obeys == self.inner().obeys_prophetic_iter_laws(),
                items == self.inner().remaining(),
                obeys == this.inner().obeys_prophetic_iter_laws(),
                obeys ==> writer.written() <= items.len() && this.inner().remaining()
                    == items.subrange(writer.written() as int, items.len() as int),
                obeys ==> forall|k: int|
                    0 <= k < writer.written() ==> #[trigger] made_by(items[k], target, k, mem@),
                forall|k: int|
                    0 <= k < writer.written() ==>
                        #[trigger] made_by_item::<I::Item, T>(target, k, mem@),
                forall|item: I::Item, m: MemState<T>, k: int|
                    0 <= k < target.count() && m.wf() && pre.same_outside(m, target) && m.is_uninit(
                        target.element(k, size),
                    ) ==> #[trigger] item.accepts(m, target.element(k, size)),
            decreases writer.remaining(),
        {
            let ghost before = mem@;
            let ghost at = writer.written();
            proof {
                before.lemma_valid_element(target, at as int);
            }
            let item = match this.0.next() {
                Some(item) => item,
                None => {
                    writer.discard(mem);
                    proof {
                        pre.lemma_same_outside_trans(before, mem@, target);
                        assert(stopped_from::<I::Item, T>(
                            pre,
                            target,
                            at as int,
                            SliceIterInitError::NotEnoughItems,
                            before,
                            mem@,
                        ));
                        assert(stopped_at::<I::Item, T>(
                            pre,
                            target,
                            at as int,
                            SliceIterInitError::NotEnoughItems,
                            mem@,
                        ));
                    }
                    return Err(SliceIterInitError::NotEnoughItems);
                },
            };
            let step = writer.try_write(mem, item);
            proof {
                pre.lemma_same_outside_trans(before, mem@, target);
                assert forall|k: int| 0 <= k < at implies #[trigger] made_by_item::<I::Item, T>(
                    target,
                    k,
                    mem@,
                ) by {
                    assert(made_by_item::<I::Item, T>(target, k, before));
                    let (it, m1, m2) = choose|it: I::Item, m1: MemState<T>, m2: MemState<T>| #[trigger]
                        it.done(m1, target.element(k, size), m2, Ok(())) && m2.cell(
                            target.block as int,
                            target.index + k,
                        ) == before.cell(target.block as int, target.index + k);
                    assert(mem@.cell(target.block as int, target.index + k) == before.cell(
                        target.block as int,
                        target.index + k,
                    ));
                }
                if obeys {
                    assert forall|k: int| 0 <= k < at implies #[trigger] made_by(
                        items[k],
                        target,
                        k,
                        mem@,
                    ) by {
                        assert(made_by(items[k], target, k, before));
                        let (m1, m2) = choose|m1: MemState<T>, m2: MemState<T>| #[trigger]
                            items[k].done(m1, target.element(k, size), m2, Ok(())) && m2.cell(
                                target.block as int,
                                target.index + k,
                            ) == before.cell(target.block as int, target.index + k);
                        assert(mem@.cell(target.block as int, target.index + k) == before.cell(
                            target.block as int,
                            target.index + k,
                        ));
                    }
                }
            }
            match step {
                Ok(()) => {
                },
                Err(e) => {
                    let ghost failed = mem@;
                    writer.discard(mem);
                    proof {
                        pre.lemma_same_outside_trans(failed, mem@, target);
                        assert(stopped_from::<I::Item, T>(
                            pre,
                            target,
                            at as int,
                            SliceIterInitError::Init(e),
                            failed,
                            mem@,
                        ));
                        assert(stopped_at::<I::Item, T>(
                            pre,
                            target,
                            at as int,
                            SliceIterInitError::Init(e),
                            mem@,
                        ));
                        if obeys {
                            assert(item_failed(items[at as int], pre, target, at as int, e, mem@));
                        }
                    }
                    let r: Result<Init<[T]>, Self::Error> = Err(SliceIterInitError::Init(e));
                    return r;
                },
            }
        }
        let r: Result<Init<[T]>, Self::Error> = Ok(writer.finish(mem));
        r
    }
}

/// Cell `k` of the slice `ptr` holds in `mem` what a successful run of
/// some pinned initializer of type `I` on that cell left there.
pub open spec fn pin_made_by_item<I: TryPinInitialize<T>, T>(ptr: Ptr, k: int, mem: MemState<T>) -> bool {
    exists|item: I, m1: MemState<T>, m2: MemState<T>|
        {
            &&& m1.wf()
            &&& m1.is_uninit(ptr.element(k, size_of::<T>()))
            &&& #[trigger] item.pin_done(m1, ptr.element(k, size_of::<T>()), m2, Ok(()))
            &&& m2.cell(ptr.block as int, ptr.index + k) == mem.cell(ptr.block as int, ptr.index + k)
        }
}

/// A pinned initializer of type `I` can fail with `e` on cell `k` of the slice `ptr`
/// and leave the memory `m2`.
pub open spec fn pin_fails_with<I: TryPinInitialize<T>, T>(
    ptr: Ptr,
    k: int,
    e: I::Error,
    m2: MemState<T>,
) -> bool {
    exists|item: I, m1: MemState<T>|
        {
            &&& m1.wf()
            &&& m1.is_uninit(ptr.element(k, size_of::<T>()))
            &&& #[trigger] item.pin_done(m1, ptr.element(k, size_of::<T>()), m2, Err(e))
        }
}

/// Filling the slice `ptr` stopped at cell `k` and left the memory `m2`,
/// and `mem` is what was left when the values before cell `k` had been
/// destroyed again. With an error `e`, a pinned initializer of type `I` failed with it
/// on cell `k`.
pub open spec fn pin_stopped_from<I: TryPinInitialize<T>, T>(
    pre: MemState<T>,
    ptr: Ptr,
    k: int,
    e: SliceIterInitError<I::Error>,
    m2: MemState<T>,
    mem: MemState<T>,
) -> bool {
    &&& pre.same_outside(m2, ptr)
    &&& mem == m2.after_destroy_run(ptr.block as int, ptr.index as int, k as nat)
    &&& e matches SliceIterInitError::Init(inner) ==> pin_fails_with::<I, T>(ptr, k, inner, m2)
}

/// Filling the slice `ptr` stopped at cell `k`, and `mem` is what was left
/// when the values before cell `k` had been destroyed again.
pub open spec fn pin_stopped_at<I: TryPinInitialize<T>, T>(
    pre: MemState<T>,
    ptr: Ptr,
    k: int,
    e: SliceIterInitError<I::Error>,
    mem: MemState<T>,
) -> bool {
    exists|m2: MemState<T>| #[trigger] pin_stopped_from::<I, T>(pre, ptr, k, e, m2, mem)
}

/// Cell `k` of the slice `ptr` holds in `mem` what a successful run of
/// the pinned initializer `item` on that cell left there.
pub open spec fn pin_made_by<I: TryPinInitialize<T>, T>(
    item: I,
    ptr: Ptr,
    k: int,
    mem: MemState<T>,
) -> bool {
    exists|m1: MemState<T>, m2: MemState<T>|
        {
            &&& m1.wf()
            &&& m1.is_uninit(ptr.element(k, size_of::<T>()))
            &&& #[trigger] item.pin_done(m1, ptr.element(k, size_of::<T>()), m2, Ok(()))
            &&& m2.cell(ptr.block as int, ptr.index + k) == mem.cell(ptr.block as int, ptr.index + k)
        }
}

/// The run of the pinned initializer `item` on cell `k` of the slice `ptr` failed with `e`, and
/// `mem` is what was left when the values before cell `k` had been
/// destroyed again.
pub open spec fn pin_item_failed<I: TryPinInitialize<T>, T>(
    item: I,
    pre: MemState<T>,
    ptr: Ptr,
    k: int,
    e: I::Error,
    mem: MemState<T>,
) -> bool {
    exists|m1: MemState<T>, m2: MemState<T>|
        {
            &&& pre.same_outside(m2, ptr)
            &&& m1.wf()
            &&& m1.is_uninit(ptr.element(k, size_of::<T>()))
            &&& #[trigger] item.pin_done(m1, ptr.element(k, size_of::<T>()), m2, Err(e))
            &&& mem == m2.after_destroy_run(ptr.block as int, ptr.index as int, k as nat)
        }
}

/// What filling the slice `ptr` with the pinned initializers `items`, one for
/// each cell and in their order, comes to: success where there are enough
/// of them and each succeeds on its cell; the error of the first that
/// fails; or the report that they ran out.
pub open spec fn pin_filled_from<I: TryPinInitialize<T>, T>(
    items: Seq<I>,
    pre: MemState<T>,
    ptr: Ptr,
    post: MemState<T>,
    res: Result<(), SliceIterInitError<I::Error>>,
) -> bool {
    match res {
        Ok(_) => ptr.count() <= items.len() && forall|k: int|
            0 <= k < ptr.count() ==> #[trigger] pin_made_by(items[k], ptr, k, post),
        Err(SliceIterInitError::NotEnoughItems) => items.len() < ptr.count() && pin_stopped_at::<I, T>(
            pre,
            ptr,
            items.len() as int,
            SliceIterInitError::NotEnoughItems,
            post,
        ),
        Err(SliceIterInitError::Init(e)) => exists|k: int|
            0 <= k < ptr.count() && k < items.len() && #[trigger] pin_item_failed(
                items[k],
                pre,
                ptr,
                k,
                e,
                post,
            ),
    }
}

impl<I: Iterator, T> TryPinInitialize<[T]> for SliceIterInit<I> where I::Item: TryPinInitialize<T> {
    type Error = SliceIterInitError<<I::Item as TryPinInitialize<T>>::Error>;

    /// Whatever the iterator gives accepts every cell of the slice,
    /// whatever was done to the cells before it.
    open spec fn pin_accepts(&self, mem: MemState<T>, ptr: Ptr) -> bool {
        forall|item: I::Item, m: MemState<T>, k: int|
            0 <= k < ptr.count() && m.wf() && mem.same_outside(m, ptr) && m.is_uninit(
                ptr.element(k, size_of::<T>()),
            ) ==> #[trigger] item.pin_accepts(m, ptr.element(k, size_of::<T>()))
    }

    open spec fn pin_infallible(&self) -> bool {
        false
    }

    /// After success each cell holds what an initializer left there.
    /// After failure at some cell the values of the cells before it have
    /// been destroyed, lowest index first.
    open spec fn pin_done(
        &self,
        pre: MemState<T>,
        ptr: Ptr,
        post: MemState<T>,
        res: Result<(), SliceIterInitError<<I::Item as TryPinInitialize<T>>::Error>>,
    ) -> bool {
        match res {
            Ok(_) => forall|k: int|
                0 <= k < ptr.count() ==> #[trigger] pin_made_by_item::<I::Item, T>(ptr, k, post),
            Err(e) => exists|k: int|
                0 <= k < ptr.count() && #[trigger] pin_stopped_at::<I::Item, T>(pre, ptr, k, e, post),
        }
    }

    fn try_pin_init(
        self,
        mem: &mut Memory<T>,
        ptr: PinnedUninit<[T]>,
    ) -> (res: Result<PinnedInit<[T]>, Self::Error>)
        ensures
            self.inner().obeys_prophetic_iter_laws() ==> pin_filled_from::<I::Item, T>(
                self.inner().remaining(),
                old(mem)@,
                ptr@,
                final(mem)@,
                outcome(res),
            ),
    {
        let ghost target = ptr@;
        let ghost pre = mem@;
        let ghost size = size_of::<T>();
        let ghost obeys = self.inner().obeys_prophetic_iter_laws();
        let ghost items = self.inner().remaining();
        let mut this = self;
        let mut writer = PinSliceWriter::new(ptr);
        proof {
            pre.lemma_same_outside_refl(target);
        }
        while !writer.is_finished()
            invariant
                mem@.wf(),
                writer.valid_in(mem@),
                writer.target() == target,
                target == ptr@,
                pre == old(mem)@,
                pre.same_outside(mem@, target),
                size == size_of::<T>(),
                obeys == self.inner().obeys_prophetic_iter_laws(),
                items == self.inner().remaining(),
                obeys == this.inner().obeys_prophetic_iter_laws(),
                obeys ==> writer.written() <= items.len() && this.inner().remaining()
                    == items.subrange(writer.written() as int, items.len() as int),
                obeys ==> forall|k: int|
                    0 <= k < writer.written() ==> #[trigger] pin_made_by(items[k], target, k, mem@),
                forall|k: int|
                    0 <= k < writer.written() ==>
                        #[trigger] pin_made_by_item::<I::Item, T>(target, k, mem@),
                forall|item: I::Item, m: MemState<T>, k: int|
                    0 <= k < target.count() && m.wf() && pre.same_outside(m, target) && m.is_uninit(
                        target.element(k, size),
                    ) ==> #[trigger] item.pin_accepts(m, target.element(k, size)),
            decreases writer.remaining(),
        {
            let ghost before = mem@;
            let ghost at = writer.written();
            proof {
                before.lemma_valid_element(target, at as int);
            }
            let item = match this.0.next() {
                Some(item) => item,
                None => {
                    writer.discard(mem);
                    proof {
                        pre.lemma_same_outside_trans(before, mem@, target);
                        assert(pin_stopped_from::<I::Item, T>(
                            pre,
                            target,
                            at as int,
                            SliceIterInitError::NotEnoughItems,
                            before,
                            mem@,
                        ));
                        assert(pin_stopped_at::<I::Item, T>(
                            pre,
                            target,
                            at as int,
                            SliceIterInitError::NotEnoughItems,
                            mem@,
                        ));
                    }
                    return Err(SliceIterInitError::NotEnoughItems);
                },
            };
            let step = writer.try_write(mem, item);
            proof {
                pre.lemma_same_outside_trans(before, mem@, target);
                assert forall|k: int| 0 <= k < at implies #[trigger] pin_made_by_item::<I::Item, T>(
                    target,
                    k,
                    mem@,
                ) by {
                    assert(pin_made_by_item::<I::Item, T>(target, k, before));
                    let (it, m1, m2) = choose|it: I::Item, m1: MemState<T>, m2: MemState<T>| #[trigger]
                        it.pin_done(m1, target.element(k, size), m2, Ok(())) && m2.cell(
                            target.block as int,
                            target.index + k,
                        ) == before.cell(target.block as int, target.index + k);
                    assert(mem@.cell(target.block as int, target.index + k) == before.cell(
                        target.block as int,
                        target.index + k,
                    ));
                }
                if obeys {
                    assert forall|k: int| 0 <= k < at implies #[trigger] pin_made_by(
                        items[k],
                        target,
                        k,
                        mem@,
                    ) by {
                        assert(pin_made_by(items[k], target, k, before));
                        let (m1, m2) = choose|m1: MemState<T>, m2: MemState<T>| #[trigger]
                            items[k].pin_done(m1, target.element(k, size), m2, Ok(())) && m2.cell(
                                target.block as int,
                                target.index + k,
                            ) == before.cell(target.block as int, target.index + k);
                        assert(mem@.cell(target.block as int, target.index + k) == before.cell(
                            target.block as int,
                            target.index + k,
                        ));
                    }
                }
            }
            match step {
                Ok(()) => {
                },
                Err(e) => {
                    let ghost failed = mem@;
                    writer.discard(mem);
                    proof {
                        pre.lemma_same_outside_trans(failed, mem@, target);
                        assert(pin_stopped_from::<I::Item, T>(
                            pre,
                            target,
                            at as int,
                            SliceIterInitError::Init(e),
                            failed,
                            mem@,
                        ));
                        assert(pin_stopped_at::<I::Item, T>(
                            pre,
                            target,
                            at as int,
                            SliceIterInitError::Init(e),
                            mem@,
                        ));
                        if obeys {
                            assert(pin_item_failed(items[at as int], pre, target, at as int, e, mem@));
                        }
                    }
                    let r: Result<PinnedInit<[T]>, Self::Error> = Err(SliceIterInitError::Init(e));
                    return r;
                },
            }
        }
        let r: Result<PinnedInit<[T]>, Self::Error> = Ok(writer.finish(mem));
        r
    }
}

} // verus!
