//! A value that points into itself, as an example of pinned
//! initialization.
//!
//! A [`SelfRef`] holds two numbers and a pointer to one of them. The pointer
//! is the address of the value itself, so the value must stay where it was
//! made: it is made in a pinned slot and reached through the memory from
//! then on.

use vstd::prelude::*;
use vstd::layout::size_of;
use crate::boxed::{can_reserve, emplace_pin, emplace_slot, PinBoxed};
use crate::func::PinInitFn;
use crate::layout::{Layout, SizedLayoutProvider, SliceLayoutProvider};
use crate::macros::bind_pin;
use crate::memory::{MemState, Memory, Ptr, Shape};
use crate::pin_ptr::{PinnedInit, PinnedUninit};
use crate::slice::PinSliceWriter;
use core::convert::Infallible;
use crate::traits::TryPinInitialize;

verus! {

/// One of the two numbers of a [`SelfRef`].
#[derive(Clone, Copy, Debug, PartialEq, Eq, Structural)]
pub enum Field {
    /// The first number.
    First,
    /// The second number.
    Second,
}

/// Two numbers and a pointer to one of them.
#[derive(Clone, Copy, Debug)]
pub struct SelfRef {
    first: i32,
    second: i32,
    current: Ptr,
    field: Field,
}

impl SelfRef {
    /// The first number.
    pub closed spec fn first(&self) -> i32 {
        self.first
    }

    /// The second number.
    pub closed spec fn second(&self) -> i32 {
        self.second
    }

    /// Where the value believes itself to stand.
    pub closed spec fn home(&self) -> Ptr {
        self.current
    }

    /// The number that the pointer inside designates.
    pub closed spec fn field(&self) -> Field {
        self.field
    }

    /// The value that [`SelfRef::new_in`] stores in the slot `home`: the
    /// first number is `value`, the second is 0, and the pointer goes to the
    /// first.
    pub closed spec fn fresh(value: i32, home: Ptr) -> SelfRef {
        SelfRef { first: value, second: 0, current: home, field: Field::First }
    }

    /// The same value with the pointer turned to `field`.
    pub closed spec fn turned(self, field: Field) -> SelfRef {
        SelfRef { field, ..self }
    }

    /// The number that the pointer inside designates.
    pub open spec fn pointee(&self) -> i32 {
        match self.field() {
            Field::First => self.first(),
            Field::Second => self.second(),
        }
    }

    /// What was made stands as it was made.
    pub proof fn lemma_fresh(value: i32, home: Ptr)
        ensures
            Self::fresh(value, home).first() == value,
            Self::fresh(value, home).second() == 0,
            Self::fresh(value, home).home() == home,
            Self::fresh(value, home).field() == Field::First,
            Self::fresh(value, home).pointee() == value,
    {
    }

    /// Turning the pointer changes nothing else.
    pub proof fn lemma_turned(self, field: Field)
        ensures
            self.turned(field).first() == self.first(),
            self.turned(field).second() == self.second(),
            self.turned(field).home() == self.home(),
            self.turned(field).field() == field,
    {
    }

    /// Constructs the value in the pinned slot `uninit`.
    pub fn new_in(value: i32, mem: &mut Memory<SelfRef>, uninit: PinnedUninit<SelfRef>) -> (init:
        PinnedInit<SelfRef>)
        requires
            old(mem)@.wf(),
            old(mem)@.is_uninit(uninit@),
        ensures
            init@ == uninit@,
            final(mem)@ == old(mem)@.after_store(
                uninit@.block as int,
                uninit@.index as int,
                Self::fresh(value, uninit@),
            ),
            final(mem)@.wf(),
            final(mem)@.is_init(uninit@),
            old(mem)@.same_outside(final(mem)@, uninit@),
    {
        let mut uninit = uninit;
        let whole = uninit.as_non_null_ptr();
        let current = bind_pin::<SelfRef, SelfRef>(&mut uninit, whole).as_mut_ptr();
        proof {
            old(mem)@.lemma_store_same_outside(whole, Self::fresh(value, whole));
        }
        uninit.write(mem, SelfRef { first: value, second: 0, current, field: Field::First })
    }

    /// The pinned initializer that constructs the value.
    pub fn init(value: i32) -> (r: SelfRefInit)
        ensures
            r.value() == value,
    {
        SelfRefInit { value }
    }

    /// Constructs the value on the heap, pinned.
    pub fn new(mem: &mut Memory<SelfRef>, value: i32) -> (boxed: PinBoxed<SelfRef>)
        requires
            old(mem)@.wf(),
            can_reserve(old(mem)@, Self::layout()),
        ensures
            final(mem)@.wf(),
            boxed.owned_in(final(mem)@),
            boxed.layout() == Self::layout(),
            boxed.ptr() == emplace_slot::<SelfRef, SizedLayoutProvider>(
                SizedLayoutProvider,
                old(mem)@,
            ),
            final(mem)@ == old(mem)@.after_reserve(Self::layout()).after_store(
                boxed.ptr().block as int,
                0,
                Self::fresh(value, boxed.ptr()),
            ),
    {
        emplace_pin::<SelfRef, SizedLayoutProvider, SelfRefInit>(
            mem,
            SizedLayoutProvider,
            Self::init(value),
        )
    }

    /// Constructs `count` values in a slice on the heap, pinned. Their
    /// first numbers are `value`, `value + 1` and so on.
    pub fn many(mem: &mut Memory<SelfRef>, value: i32, count: usize) -> (boxed: PinBoxed<[SelfRef]>)
        requires
            old(mem)@.wf(),
            Layout::array_spec::<SelfRef>(count) is Ok,
            can_reserve(old(mem)@, Layout::array_spec::<SelfRef>(count)->Ok_0),
            value + count <= i32::MAX,
        ensures
            final(mem)@.wf(),
            boxed.owned_in(final(mem)@),
            boxed.layout() == Layout::array_spec::<SelfRef>(count)->Ok_0,
            boxed.ptr() == emplace_slot::<[SelfRef], SliceLayoutProvider>(
                SliceLayoutProvider(count),
                old(mem)@,
            ),
            final(mem)@ == Self::filled(
                old(mem)@.after_reserve(Layout::array_spec::<SelfRef>(count)->Ok_0),
                boxed.ptr(),
                value,
                count as nat,
            ),
    {
        let make = |m: Memory<SelfRef>, uninit: PinnedUninit<[SelfRef]>| -> (out: (
            Memory<SelfRef>,
            PinnedInit<[SelfRef]>,
        ))
            requires
                m@.wf(),
                m@.is_uninit(uninit@),
                value + uninit@.count() <= i32::MAX,
            ensures
                out.0@.wf(),
                m@.same_outside(out.0@, uninit@),
                out.1@ == uninit@,
                out.0@.is_init(uninit@),
                out.0@ == Self::filled(m@, uninit@, value, uninit@.count()),
            {
                let mut m = m;
                let init = Self::fill(value, &mut m, uninit);
                (m, init)
            };
        let init = PinInitFn::new(make);
        proof {
            if old(mem)@.blocks.len() < usize::MAX {
                old(mem)@.lemma_reserve(
                    Layout::array_spec::<SelfRef>(count)->Ok_0,
                    Shape::Slice(count),
                );
            }
        }
        emplace_pin::<[SelfRef], SliceLayoutProvider, _>(mem, SliceLayoutProvider(count), init)
    }

    /// Memory after the first `k` cells of the slice `ptr` were filled
    /// with fresh values, whose first numbers start at `value`.
    pub open spec fn filled(
        pre: MemState<SelfRef>,
        ptr: Ptr,
        value: i32,
        k: nat,
    ) -> MemState<SelfRef>
        decreases k,
    {
        if k == 0 {
            pre
        } else {
            Self::filled(pre, ptr, value, (k - 1) as nat).after_store(
                ptr.block as int,
                ptr.index + k - 1,
                Self::fresh(
                    (value + k - 1) as i32,
                    ptr.element(k - 1, size_of::<SelfRef>()),
                ),
            )
        }
    }

    fn fill(value: i32, mem: &mut Memory<SelfRef>, uninit: PinnedUninit<[SelfRef]>) -> (init:
        PinnedInit<[SelfRef]>)
        requires
            old(mem)@.wf(),
            old(mem)@.is_uninit(uninit@),
            value + uninit@.count() <= i32::MAX,
        ensures
            init@ == uninit@,
            final(mem)@.wf(),
            old(mem)@.same_outside(final(mem)@, uninit@),
            final(mem)@.is_init(uninit@),
            final(mem)@ == Self::filled(old(mem)@, uninit@, value, uninit@.count()),
    {
        let ghost first = value;
        let ghost target = uninit@;
        let mut value = value;
        let mut writer = PinSliceWriter::new(uninit);
        proof {
            old(mem)@.lemma_same_outside_refl(target);
        }
        while !writer.is_finished()
            invariant
                mem@.wf(),
                writer.valid_in(mem@),
                writer.target() == target,
                value == first + writer.written(),
                first + target.count() <= i32::MAX,
                old(mem)@.same_outside(mem@, target),
                mem@ == Self::filled(old(mem)@, target, first, writer.written()),
            decreases writer.remaining(),
        {
            writer.init(mem, Self::init(value));
            value += 1;
        }
        writer.finish(mem)
    }

    /// The layout of one value.
    pub open spec fn layout() -> Layout {
        Layout {
            size: size_of::<SelfRef>() as usize,
            align: vstd::layout::align_of::<SelfRef>() as usize,
        }
    }

    /// The number that the pointer inside designates, read through the
    /// pointer. The value has to stand where it was made.
    pub fn get(&self, mem: &Memory<SelfRef>) -> (r: i32)
        requires
            mem@.valid(self.home()),
            mem@.cell(self.home().block as int, self.home().index as int) == Some(*self),
        ensures
            r == self.pointee(),
    {
        let target = mem.read(self.current);
        match self.field {
            Field::First => target.first,
            Field::Second => target.second,
        }
    }

    /// Turns the pointer inside the pinned value at `at` to its first
    /// number.
    pub fn set_first(mem: &mut Memory<SelfRef>, at: Ptr)
        requires
            old(mem)@.wf(),
            old(mem)@.valid(at),
            at.count() >= 1,
            old(mem)@.cell(at.block as int, at.index as int) is Some,
        ensures
            final(mem)@.wf(),
            final(mem)@ == old(mem)@.after_store(
                at.block as int,
                at.index as int,
                old(mem)@.cell(at.block as int, at.index as int)->Some_0.turned(Field::First),
            ),
    {
        let mut this = *mem.read(at);
        this.field = Field::First;
        let _ = mem.replace(at, this);
    }

    /// Turns the pointer inside the pinned value at `at` to its second
    /// number.
    pub fn set_second(mem: &mut Memory<SelfRef>, at: Ptr)
        requires
            old(mem)@.wf(),
            old(mem)@.valid(at),
            at.count() >= 1,
            old(mem)@.cell(at.block as int, at.index as int) is Some,
        ensures
            final(mem)@.wf(),
            final(mem)@ == old(mem)@.after_store(
                at.block as int,
                at.index as int,
                old(mem)@.cell(at.block as int, at.index as int)->Some_0.turned(Field::Second),
            ),
    {
        let mut this = *mem.read(at);
        this.field = Field::Second;
        let _ = mem.replace(at, this);
    }
}

/// The pinned initializer of a [`SelfRef`].
#[derive(Clone, Copy, Debug)]
pub struct SelfRefInit {
    value: i32,
}

impl SelfRefInit {
    /// The first number of the value to construct.
    pub closed spec fn value(&self) -> i32 {
        self.value
    }
}

impl TryPinInitialize<SelfRef> for SelfRefInit {
    type Error = Infallible;

    open spec fn pin_accepts(&self, mem: MemState<SelfRef>, ptr: Ptr) -> bool {
        true
    }

    open spec fn pin_infallible(&self) -> bool {
        true
    }

    /// The slot holds the fresh value, which points to the slot.
    open spec fn pin_done(
        &self,
        pre: MemState<SelfRef>,
        ptr: Ptr,
        post: MemState<SelfRef>,
        res: Result<(), Infallible>,
    ) -> bool {
        res is Ok && post == pre.after_store(
            ptr.block as int,
            ptr.index as int,
            SelfRef::fresh(self.value(), ptr),
        )
    }

    fn try_pin_init(self, mem: &mut Memory<SelfRef>, ptr: PinnedUninit<SelfRef>) -> (res: Result<
        PinnedInit<SelfRef>,
        Self::Error,
    >) {
        Ok(SelfRef::new_in(self.value, mem, ptr))
    }
}

} // verus!
