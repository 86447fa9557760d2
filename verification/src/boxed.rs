//! Values on the heap, constructed in place.
//!
//! [`try_emplace`] asks a layout provider for a layout, the allocator for a
//! block with that layout, and an initializer for the value. When the
//! initializer fails the block goes back to the allocator before the error
//! is returned. A layout of no bytes needs no block: the allocator is not
//! called for it.

use vstd::prelude::*;
use crate::layout::{Layout, LayoutError};
use crate::memory::{
    count_of, lemma_count_none, lemma_count_prefix, Addr, BlockKind, Event, MemState, Memory, Ptr,
};
use vstd::layout::{align_of, size_of};
use crate::ptr::{Init, Target};
use crate::traits::{LayoutProvider, TryInitialize, TryPinInitialize};

verus! {

/// Why a value could not be put on the heap.
#[derive(Debug)]
pub enum AllocError<E> {
    /// The initializer failed.
    Init(E),
    /// The layout could not be computed.
    Layout(LayoutError),
    /// The allocator had no block with this layout to give.
    Alloc(Layout),
}

/// What is left to do about an error for a caller that cannot go on
/// without the value.
#[derive(Clone, Copy, Debug, PartialEq, Eq, Structural)]
pub enum Fatal {
    /// Stop with the message that initialization failed.
    InitFailed,
    /// Stop with the message that there is no layout.
    NoLayout,
    /// Report to the allocator that it failed for this layout.
    OutOfMemory(Layout),
}

impl Fatal {
    /// The message to stop with.
    pub fn message(&self) -> (text: &'static str)
        ensures
            text@ == match *self {
                Fatal::InitFailed => "Failed to initialize value"@,
                Fatal::NoLayout => "Could not compute layout for value"@,
                Fatal::OutOfMemory(_) => "memory allocation failed"@,
            },
    {
        match self {
            Fatal::InitFailed => "Failed to initialize value",
            Fatal::NoLayout => "Could not compute layout for value",
            Fatal::OutOfMemory(_) => "memory allocation failed",
        }
    }
}

/// Says how to stop on `err`.
pub fn handle<E>(err: &AllocError<E>) -> (fatal: Fatal)
    ensures
        fatal == match *err {
            AllocError::Init(_) => Fatal::InitFailed,
            AllocError::Layout(_) => Fatal::NoLayout,
            AllocError::Alloc(layout) => Fatal::OutOfMemory(layout),
        },
{
    match err {
        AllocError::Init(_) => Fatal::InitFailed,
        AllocError::Layout(_) => Fatal::NoLayout,
        AllocError::Alloc(layout) => Fatal::OutOfMemory(*layout),
    }
}

/// A block that holds no value yet. Whoever has it gives it back to where
/// it came from, unless a value was constructed in it.
struct RawAllocation {
    addr: Addr,
    layout: Layout,
}

impl RawAllocation {
    /// Gives the block back: to the allocator, if it came from there.
    fn release<T>(self, mem: &mut Memory<T>)
        requires
            old(mem)@.wf(),
            self.addr.block < old(mem)@.blocks.len(),
            old(mem)@.blocks[self.addr.block as int].live,
            old(mem)@.blocks[self.addr.block as int].kind == (if self.layout.size == 0 {
                BlockKind::Dangling
            } else {
                BlockKind::Heap
            }),
            old(mem)@.blocks[self.addr.block as int].base == self.addr.addr,
            old(mem)@.blocks[self.addr.block as int].layout == self.layout,
            old(mem)@.vacant(self.addr.block as int),
        ensures
            final(mem)@.wf(),
            final(mem)@ == old(mem)@.after_release(self.addr.block as int),
    {
        if self.layout.size() == 0 {
            mem.retire(self.addr)
        } else {
            mem.deallocate(self.addr, self.layout)
        }
    }
}

/// Whether in `mem` the pointer `ptr` covers the values of a whole live
/// block that was set aside under `layout`: the block starts where the
/// pointer points, and holds no value but those behind the pointer.
pub open spec fn owns<E>(mem: MemState<E>, ptr: Ptr, layout: Layout) -> bool {
    &&& mem.is_init(ptr)
    &&& ptr.index == 0
    &&& mem.blocks[ptr.block as int].base == ptr.addr
    &&& mem.blocks[ptr.block as int].layout == layout
    &&& mem.blocks[ptr.block as int].kind == (if layout.size == 0 {
        BlockKind::Dangling
    } else {
        BlockKind::Heap
    })
    &&& forall|i: int|
        (#[trigger] mem.cell(ptr.block as int, i)) is Some ==> ptr.covers(ptr.block as int, i)
}

/// A value on the heap, or a slice of values, together with the block
/// that holds it. Whoever has the handle has to release it.
pub struct Boxed<T: ?Sized + Target> {
    init: Init<T>,
    layout: Layout,
}

impl<T: ?Sized + Target> Boxed<T> {
    /// The pointer to the value.
    pub closed spec fn ptr(&self) -> Ptr {
        self.init@
    }

    /// The layout of the block.
    pub closed spec fn layout(&self) -> Layout {
        self.layout
    }

    /// In `mem` the handle stands for a whole live block that was set
    /// aside under its layout, and the values of the block are those
    /// behind the pointer.
    pub open spec fn owned_in(&self, mem: MemState<T::Elem>) -> bool {
        owns(mem, self.ptr(), self.layout())
    }

    /// Takes over a block and the values in it.
    pub fn from_raw(ptr: Ptr, layout: Layout) -> (b: Self)
        requires
            ptr.in_range(size_of::<T::Elem>()),
            T::shaped(ptr.shape),
        ensures
            b.ptr() == ptr,
            b.layout() == layout,
    {
        Boxed { init: Init::from_raw(ptr), layout }
    }

    /// The pointer to the value.
    pub fn as_ptr(&self) -> (p: Ptr)
        ensures
            p == self.ptr(),
    {
        self.init.as_ptr()
    }

    /// Destroys the values, lowest index first, and then gives the block
    /// back: to the allocator, if it came from there.
    pub fn release(self, mem: &mut Memory<T::Elem>)
        requires
            old(mem)@.wf(),
            self.owned_in(old(mem)@),
        ensures
            final(mem)@.wf(),
            final(mem)@ == old(mem)@.after_destroy_run(
                self.ptr().block as int,
                0,
                self.ptr().count(),
            ).after_release(self.ptr().block as int),
            !final(mem)@.blocks[self.ptr().block as int].live,
            final(mem)@.vacant(self.ptr().block as int),
    {
        let layout = self.layout;
        let ptr = self.init.as_ptr();
        self.init.destroy(mem);
        proof {
            old(mem)@.lemma_destroy_run(ptr.block as int, 0, ptr.count());
        }
        let alloc = RawAllocation { addr: Addr { addr: ptr.addr, block: ptr.block }, layout };
        let ghost emptied = mem@;
        alloc.release(mem);
        proof {
            assert forall|i: int| (#[trigger] mem@.cell(ptr.block as int, i)) is None by {
                assert(emptied.cell(ptr.block as int, i) is None);
            }
        }
    }

    /// Pins the value: it will stay where it is until it is released.
    pub fn into_pin(self) -> (p: PinBoxed<T>)
        ensures
            p.ptr() == self.ptr(),
            p.layout() == self.layout(),
    {
        PinBoxed { boxed: self }
    }
}

impl<T> Boxed<T> {
    /// The value.
    pub fn get<'a>(&self, mem: &'a Memory<T>) -> (r: &'a T)
        requires
            mem@.is_init(self.ptr()),
        ensures
            Some(*r) == mem@.cell(self.ptr().block as int, self.ptr().index as int),
    {
        self.init.get(mem)
    }
}

/// A pinned value on the heap, or a pinned slice of values, together with
/// the block that holds it. The values are destroyed before the block is
/// given back.
pub struct PinBoxed<T: ?Sized + Target> {
    boxed: Boxed<T>,
}

impl<T: ?Sized + Target> PinBoxed<T> {
    /// The pointer to the value.
    pub closed spec fn ptr(&self) -> Ptr {
        self.boxed.ptr()
    }

    /// The layout of the block.
    pub closed spec fn layout(&self) -> Layout {
        self.boxed.layout()
    }

    /// In `mem` the handle stands for a whole live block that was set
    /// aside under its layout, and the values of the block are those
    /// behind the pointer.
    pub open spec fn owned_in(&self, mem: MemState<T::Elem>) -> bool {
        owns(mem, self.ptr(), self.layout())
    }

    /// The pointer to the value.
    pub fn as_ptr(&self) -> (p: Ptr)
        ensures
            p == self.ptr(),
    {
        self.boxed.as_ptr()
    }

    /// Destroys the values, lowest index first, and then gives the block
    /// back: to the allocator, if it came from there.
    pub fn release(self, mem: &mut Memory<T::Elem>)
        requires
            old(mem)@.wf(),
            self.owned_in(old(mem)@),
        ensures
            final(mem)@.wf(),
            final(mem)@ == old(mem)@.after_destroy_run(
                self.ptr().block as int,
                0,
                self.ptr().count(),
            ).after_release(self.ptr().block as int),
            !final(mem)@.blocks[self.ptr().block as int].live,
            final(mem)@.vacant(self.ptr().block as int),
    {
        self.boxed.release(mem)
    }
}

impl<T> PinBoxed<T> {
    /// The value.
    pub fn get<'a>(&self, mem: &'a Memory<T>) -> (r: &'a T)
        requires
            mem@.is_init(self.ptr()),
        ensures
            Some(*r) == mem@.cell(self.ptr().block as int, self.ptr().index as int),
    {
        self.boxed.get(mem)
    }
}

/// The slot that [`try_emplace`] hands to the initializer, for this
/// provider and this memory before the call.
pub open spec fn emplace_slot<T: ?Sized + Target, L: LayoutProvider<T>>(
    provider: L,
    mem: MemState<T::Elem>,
) -> Ptr {
    Ptr {
        addr: mem.reserve_addr(provider.layout()->Ok_0).addr,
        block: mem.blocks.len() as usize,
        index: 0,
        shape: provider.shape(),
    }
}

/// Whether room for this layout can be set aside: a layout of no bytes
/// needs none, any other needs room in the allocator's arena.
pub open spec fn can_reserve<E>(mem: MemState<E>, layout: Layout) -> bool {
    layout.size == 0 || mem.can_alloc(layout)
}

/// An address that is a multiple of an alignment is a multiple of every
/// alignment that divides it.
proof fn lemma_aligned(addr: int, align: int, lesser: int)
    requires
        align > 0,
        addr % align == 0,
        align % lesser == 0,
        lesser > 0,
    ensures
        addr % lesser == 0,
{
    vstd::arithmetic::div_mod::lemma_fundamental_div_mod(addr, align);
    vstd::arithmetic::div_mod::lemma_fundamental_div_mod(align, lesser);
    let q = addr / align;
    let r = align / lesser;
    assert(addr == lesser * (r * q)) by (nonlinear_arith)
        requires
            addr == align * q,
            align == lesser * r,
    ;
    vstd::arithmetic::div_mod::lemma_mod_multiples_basic(r * q, lesser);
    assert(lesser * (r * q) == (r * q) * lesser) by (nonlinear_arith);
}

/// Whether `init`, run on the slot that [`try_emplace`] makes for
/// `provider`, is known not to fail.
pub open spec fn emplace_succeeds<T: ?Sized + Target, L: LayoutProvider<T>, I: TryInitialize<T>>(
    mem: MemState<T::Elem>,
    provider: L,
    init: I,
) -> bool {
    init.infallible() || forall|mid: MemState<T::Elem>, e: I::Error|
        !#[trigger] init.done(
            mem.after_reserve(provider.layout()->Ok_0),
            emplace_slot::<T, L>(provider, mem),
            mid,
            Err(e),
        )
}

/// Whether `init`, run on the slot that [`try_emplace_pin`] makes for
/// `provider`, is known not to fail.
pub open spec fn emplace_pin_succeeds<
    T: ?Sized + Target,
    L: LayoutProvider<T>,
    I: TryPinInitialize<T>,
>(mem: MemState<T::Elem>, provider: L, init: I) -> bool {
    init.pin_infallible() || forall|mid: MemState<T::Elem>, e: I::Error|
        !#[trigger] init.pin_done(
            mem.after_reserve(provider.layout()->Ok_0),
            emplace_slot::<T, L>(provider, mem),
            mid,
            Err(e),
        )
}

/// Constructs a value on the heap, in place, where nothing can go wrong:
/// the layout exists, there is room for it, and the initializer does not
/// fail.
pub fn emplace<T: ?Sized + Target, L, I>(mem: &mut Memory<T::Elem>, provider: L, init: I) -> (boxed:
    Boxed<T>) where I: TryInitialize<T>, L: LayoutProvider<T>
    requires
        old(mem)@.wf(),
        provider.layout() is Ok,
        can_reserve(old(mem)@, provider.layout()->Ok_0),
        old(mem)@.blocks.len() < usize::MAX ==> init.accepts(
            old(mem)@.after_reserve(provider.layout()->Ok_0),
            emplace_slot::<T, L>(provider, old(mem)@),
        ),
        emplace_succeeds::<T, L, I>(old(mem)@, provider, init),
    ensures
        final(mem)@.wf(),
        boxed.ptr() == emplace_slot::<T, L>(provider, old(mem)@),
        boxed.layout() == provider.layout()->Ok_0,
        boxed.owned_in(final(mem)@),
        (boxed.ptr().addr as int) % (align_of::<T::Elem>() as int) == 0,
        old(mem)@.after_reserve(provider.layout()->Ok_0).same_outside(final(mem)@, boxed.ptr()),
        init.done(
            old(mem)@.after_reserve(provider.layout()->Ok_0),
            boxed.ptr(),
            final(mem)@,
            Ok(()),
        ),
{
    match try_emplace::<T, L, I>(mem, provider, init) {
        Ok(boxed) => boxed,
        Err(_) => vstd::pervasive::unreached(),
    }
}

/// Constructs a pinned value on the heap, in place, where nothing can go
/// wrong: the layout exists, there is room for it, and the initializer
/// does not fail.
pub fn emplace_pin<T: ?Sized + Target, L, I>(
    mem: &mut Memory<T::Elem>,
    provider: L,
    init: I,
) -> (boxed:
    PinBoxed<T>) where I: TryPinInitialize<T>, L: LayoutProvider<T>
    requires
        old(mem)@.wf(),
        provider.layout() is Ok,
        can_reserve(old(mem)@, provider.layout()->Ok_0),
        old(mem)@.blocks.len() < usize::MAX ==> init.pin_accepts(
            old(mem)@.after_reserve(provider.layout()->Ok_0),
            emplace_slot::<T, L>(provider, old(mem)@),
        ),
        emplace_pin_succeeds::<T, L, I>(old(mem)@, provider, init),
    ensures
        final(mem)@.wf(),
        boxed.ptr() == emplace_slot::<T, L>(provider, old(mem)@),
        boxed.layout() == provider.layout()->Ok_0,
        boxed.owned_in(final(mem)@),
        (boxed.ptr().addr as int) % (align_of::<T::Elem>() as int) == 0,
        old(mem)@.after_reserve(provider.layout()->Ok_0).same_outside(final(mem)@, boxed.ptr()),
        init.pin_done(
            old(mem)@.after_reserve(provider.layout()->Ok_0),
            boxed.ptr(),
            final(mem)@,
            Ok(()),
        ),
{
    match try_emplace_pin::<T, L, I>(mem, provider, init) {
        Ok(boxed) => boxed,
        Err(_) => vstd::pervasive::unreached(),
    }
}

/// Constructs a value on the heap, in place.
///
/// The layout comes from `provider`; where it has bytes, the block comes
/// from the allocator. `init` then runs on the empty block. When it fails
/// the block is given back, and nothing else has changed but what the
/// initializer did and undid within the block.
pub fn try_emplace<T: ?Sized + Target, L, I>(
    mem: &mut Memory<T::Elem>,
    provider: L,
    init: I,
) -> (res: Result<Boxed<T>, AllocError<I::Error>>) where I: TryInitialize<T>, L: LayoutProvider<T>
    requires
        old(mem)@.wf(),
        provider.layout() is Ok && can_reserve(old(mem)@, provider.layout()->Ok_0)
            && old(mem)@.blocks.len() < usize::MAX ==> init.accepts(
            old(mem)@.after_reserve(provider.layout()->Ok_0),
            emplace_slot::<T, L>(provider, old(mem)@),
        ),
    ensures
        final(mem)@.wf(),
        res matches Err(AllocError::Layout(e)) ==> provider.layout() == Err::<Layout, LayoutError>(
            e,
        ) && final(mem)@ == old(mem)@,
        res matches Err(AllocError::Alloc(l)) ==> provider.layout() == Ok::<Layout, LayoutError>(l)
            && !can_reserve(old(mem)@, l) && final(mem)@ == old(mem)@,
        res matches Err(AllocError::Init(e)) ==> {
            let slot = emplace_slot::<T, L>(provider, old(mem)@);
            let reserved = old(mem)@.after_reserve(provider.layout()->Ok_0);
            &&& provider.layout() is Ok
            &&& can_reserve(old(mem)@, provider.layout()->Ok_0)
            &&& exists|mid: MemState<T::Elem>|
                {
                    &&& reserved.same_outside(mid, slot)
                    &&& mid.is_uninit(slot)
                    &&& #[trigger] init.done(reserved, slot, mid, Err(e))
                    &&& final(mem)@ == mid.after_release(slot.block as int)
                }
        },
        res matches Ok(boxed) ==> {
            let slot = emplace_slot::<T, L>(provider, old(mem)@);
            let reserved = old(mem)@.after_reserve(provider.layout()->Ok_0);
            &&& provider.layout() is Ok
            &&& can_reserve(old(mem)@, provider.layout()->Ok_0)
            &&& boxed.ptr() == slot
            &&& boxed.layout() == provider.layout()->Ok_0
            &&& boxed.owned_in(final(mem)@)
            &&& (boxed.ptr().addr as int) % (align_of::<T::Elem>() as int) == 0
            &&& reserved.same_outside(final(mem)@, slot)
            &&& init.done(reserved, slot, final(mem)@, Ok(()))
        },
        init.infallible() ==> !(res matches Err(AllocError::Init(_))),
{
    let layout = match provider.layout_for() {
        Ok(layout) => layout,
        Err(err) => {
            return Err(AllocError::Layout(err));
        },
    };
    let raw: Option<Addr> = if layout.size() == 0 {
        Some(mem.dangling(layout))
    } else {
        mem.allocate(layout)
    };
    let (addr, ptr) = match raw {
        Some(addr) => {
            vstd::layout::layout_for_type_is_valid::<T::Elem>();
            proof {
                reveal(vstd::arithmetic::power2::is_pow2);
                old(mem)@.lemma_reserve(layout, provider.shape());
                lemma_aligned(addr.addr as int, layout.align as int, align_of::<T::Elem>() as int);
            }
            (addr, provider.cast_nonnull(addr))
        },
        None => {
            return Err(AllocError::Alloc(layout));
        },
    };
    let alloc = RawAllocation { addr, layout };
    match crate::raw::try_init_in_place::<T, I>(init, mem, ptr) {
        Ok(()) => (),
        Err(err) => {
            alloc.release(mem);
            let r: Result<Boxed<T>, AllocError<I::Error>> = Err(AllocError::Init(err));
            assert(r matches Err(AllocError::Init(e)) ==> e == err);
            return r;
        },
    }
    proof {
        mem@.lemma_valid_in_range(ptr);
    }
    Ok(Boxed::from_raw(ptr, layout))
}

/// Constructs a pinned value on the heap, in place.
///
/// The layout comes from `provider`; where it has bytes, the block comes
/// from the allocator. `init` then runs on the empty block, which is pinned
/// from then on. When it fails the block is given back, and nothing else
/// has changed but what the initializer did and undid within the block.
pub fn try_emplace_pin<T: ?Sized + Target, L, I>(
    mem: &mut Memory<T::Elem>,
    provider: L,
    init: I,
) -> (res: Result<PinBoxed<T>, AllocError<I::Error>>) where
    I: TryPinInitialize<T>,
    L: LayoutProvider<T>,

    requires
        old(mem)@.wf(),
        provider.layout() is Ok && can_reserve(old(mem)@, provider.layout()->Ok_0)
            && old(mem)@.blocks.len() < usize::MAX ==> init.pin_accepts(
            old(mem)@.after_reserve(provider.layout()->Ok_0),
            emplace_slot::<T, L>(provider, old(mem)@),
        ),
    ensures
        final(mem)@.wf(),
        res matches Err(AllocError::Layout(e)) ==> provider.layout() == Err::<Layout, LayoutError>(
            e,
        ) && final(mem)@ == old(mem)@,
        res matches Err(AllocError::Alloc(l)) ==> provider.layout() == Ok::<Layout, LayoutError>(l)
            && !can_reserve(old(mem)@, l) && final(mem)@ == old(mem)@,
        res matches Err(AllocError::Init(e)) ==> {
            let slot = emplace_slot::<T, L>(provider, old(mem)@);
            let reserved = old(mem)@.after_reserve(provider.layout()->Ok_0);
            &&& provider.layout() is Ok
            &&& can_reserve(old(mem)@, provider.layout()->Ok_0)
            &&& exists|mid: MemState<T::Elem>|
                {
                    &&& reserved.same_outside(mid, slot)
                    &&& mid.is_uninit(slot)
                    &&& #[trigger] init.pin_done(reserved, slot, mid, Err(e))
                    &&& final(mem)@ == mid.after_release(slot.block as int)
                }
        },
        res matches Ok(boxed) ==> {
            let slot = emplace_slot::<T, L>(provider, old(mem)@);
            let reserved = old(mem)@.after_reserve(provider.layout()->Ok_0);
            &&& provider.layout() is Ok
            &&& can_reserve(old(mem)@, provider.layout()->Ok_0)
            &&& boxed.ptr() == slot
            &&& boxed.layout() == provider.layout()->Ok_0
            &&& boxed.owned_in(final(mem)@)
            &&& (boxed.ptr().addr as int) % (align_of::<T::Elem>() as int) == 0
            &&& reserved.same_outside(final(mem)@, slot)
            &&& init.pin_done(reserved, slot, final(mem)@, Ok(()))
        },
        init.pin_infallible() ==> !(res matches Err(AllocError::Init(_))),
{
    let layout = match provider.layout_for() {
        Ok(layout) => layout,
        Err(err) => {
            return Err(AllocError::Layout(err));
        },
    };
    let raw: Option<Addr> = if layout.size() == 0 {
        Some(mem.dangling(layout))
    } else {
        mem.allocate(layout)
    };
    let (addr, ptr) = match raw {
        Some(addr) => {
            vstd::layout::layout_for_type_is_valid::<T::Elem>();
            proof {
                reveal(vstd::arithmetic::power2::is_pow2);
                old(mem)@.lemma_reserve(layout, provider.shape());
                lemma_aligned(addr.addr as int, layout.align as int, align_of::<T::Elem>() as int);
            }
            (addr, provider.cast_nonnull(addr))
        },
        None => {
            return Err(AllocError::Alloc(layout));
        },
    };
    let alloc = RawAllocation { addr, layout };
    match crate::raw::try_pin_init_in_place::<T, I>(init, mem, ptr) {
        Ok(()) => (),
        Err(err) => {
            alloc.release(mem);
            let r: Result<PinBoxed<T>, AllocError<I::Error>> = Err(AllocError::Init(err));
            assert(r matches Err(AllocError::Init(e)) ==> e == err);
            return r;
        },
    }
    proof {
        mem@.lemma_valid_in_range(ptr);
    }
    Ok(Boxed::from_raw(ptr, layout).into_pin())
}

/// A layout of no bytes needs no allocation: room for it can always be set
/// aside, at the address that equals its alignment, and the allocator is
/// not called for it and keeps what it has.
pub proof fn law_zero_size_needs_no_allocation<E>(mem: MemState<E>, layout: Layout)
    requires
        layout.size == 0,
    ensures
        can_reserve(mem, layout),
        mem.reserve_addr(layout).addr == layout.align,
        mem.after_reserve(layout).trace == mem.trace,
        mem.after_reserve(layout).next == mem.next,
        mem.after_reserve(layout).limit == mem.limit,
{
}

/// The life of a value on the heap, from [`try_emplace`] to
/// [`Boxed::release`]: the block is allocated once, then the initializer
/// works within the block, then the destructor of each value runs once,
/// lowest index first, and last of all the block is deallocated once, under
/// the layout it was allocated with.
///
/// Here `pre` is the memory before the value is emplaced, `mid` the memory
/// after it, and `slot` the pointer to the value.
pub proof fn law_one_allocation_one_deallocation<E>(
    pre: MemState<E>,
    layout: Layout,
    slot: Ptr,
    mid: MemState<E>,
)
    requires
        pre.wf(),
        layout.wf(),
        layout.size > 0,
        pre.can_alloc(layout),
        pre.blocks.len() < usize::MAX,
        slot.block == pre.blocks.len(),
        slot.index == 0,
        slot.count() * size_of::<E>() <= layout.size,
        pre.after_reserve(layout).same_outside(mid, slot),
        mid.is_init(slot),
    ensures
        ({
            let post = mid.after_destroy_run(slot.block as int, 0, slot.count()).after_release(
                slot.block as int,
            );
            let b = slot.block;
            &&& forall|l: Layout|
                #[trigger] count_of(post.trace, Event::Allocated { block: b, layout: l }) == (if l
                    == layout {
                    1nat
                } else {
                    0nat
                })
            &&& forall|l: Layout|
                #[trigger] count_of(post.trace, Event::Deallocated { block: b, layout: l }) == (if l
                    == layout {
                    1nat
                } else {
                    0nat
                })
            &&& post.trace[pre.trace.len() as int] == (Event::Allocated { block: b, layout })
            &&& post.trace.len() == mid.trace.len() + slot.count() + 1
            &&& forall|k: int|
                0 <= k < slot.count() ==> #[trigger] post.trace[mid.trace.len() + k] == (
                Event::Destroyed { block: b, index: k as usize })
            &&& post.trace.last() == (Event::Deallocated { block: b, layout })
            &&& !post.blocks[b as int].live
            &&& post.vacant(b as int)
        }),
{
    let b = slot.block;
    let reserved = pre.after_reserve(layout);
    let destroyed = mid.after_destroy_run(b as int, 0, slot.count());
    let post = destroyed.after_release(b as int);
    mid.lemma_destroy_run(b as int, 0, slot.count());
    let n0 = pre.trace.len() as int;
    let n1 = mid.trace.len() as int;
    let n2 = destroyed.trace.len() as int;
    assert forall|k: int| 0 <= k < n1 implies #[trigger] post.trace[k] == mid.trace[k] by {}
    assert forall|k: int| 0 <= k <= n0 implies #[trigger] mid.trace[k] == reserved.trace[k] by {}
    assert forall|k: int| n1 <= k < n2 implies (#[trigger] post.trace[k]) is Destroyed by {
        assert(destroyed.trace[n1 + (k - n1)] == (Event::Destroyed {
            block: b,
            index: (0 + (k - n1)) as usize,
        }));
    }
    assert forall|l: Layout|
        #[trigger] count_of(post.trace, Event::Allocated { block: b, layout: l })
            == (if l == layout {
            1nat
        } else {
            0nat
        }) by {
        let e = Event::Allocated { block: b, layout: l };
        lemma_count_prefix(post.trace, n0 + 1, e);
        let head = post.trace.subrange(0, n0 + 1);
        assert(head.drop_last() =~= post.trace.subrange(0, n0));
        lemma_count_none(post.trace.subrange(0, n0), e);
    }
    assert forall|l: Layout|
        #[trigger] count_of(post.trace, Event::Deallocated { block: b, layout: l })
            == (if l == layout {
            1nat
        } else {
            0nat
        }) by {
        let e = Event::Deallocated { block: b, layout: l };
        assert(post.trace.drop_last() =~= destroyed.trace);
        assert forall|k: int| 0 <= k < destroyed.trace.len() implies destroyed.trace[k] != e by {}
        lemma_count_none(destroyed.trace, e);
    }
    assert forall|i: int| (#[trigger] post.cell(b as int, i)) is None by {
        assert(destroyed.cell(b as int, i) is None);
    }
}

/// When the initializer fails, [`try_emplace`] gives the block back and
/// does nothing else: after the initializer has returned, the trace grows
/// by the one deallocation, which is the only one of the block, and by no
/// run of a destructor.
///
/// Here `pre` is the memory before the call, `mid` the memory as the
/// initializer left it, and `slot` the pointer that it was given.
pub proof fn law_rollback_on_failure<E>(pre: MemState<E>, layout: Layout, slot: Ptr, mid: MemState<E>)
    requires
        pre.wf(),
        layout.wf(),
        can_reserve(pre, layout),
        pre.blocks.len() < usize::MAX,
        slot.block == pre.blocks.len(),
        slot.index == 0,
        slot.count() * size_of::<E>() <= layout.size,
        pre.after_reserve(layout).same_outside(mid, slot),
        mid.is_uninit(slot),
    ensures
        ({
            let post = mid.after_release(slot.block as int);
            let b = slot.block;
            &&& layout.size > 0 ==> post.trace == mid.trace.push(
                Event::Deallocated { block: b, layout },
            )
            &&& layout.size > 0 ==>
                count_of(post.trace, Event::Deallocated { block: b, layout }) == 1
            &&& layout.size > 0 ==> count_of(post.trace, Event::Allocated { block: b, layout }) == 1
            &&& layout.size == 0 ==> post.trace == mid.trace
            &&& !post.blocks[b as int].live
            &&& post.vacant(b as int)
            &&& forall|k: int|
                mid.trace.len() <= k < post.trace.len() ==>
                    !((#[trigger] post.trace[k]) is Destroyed)
        }),
{
    let b = slot.block;
    let reserved = pre.after_reserve(layout);
    let post = mid.after_release(b as int);
    let n0 = pre.trace.len() as int;
    let n1 = mid.trace.len() as int;
    assert forall|i: int| (#[trigger] post.cell(b as int, i)) is None by {
        if !slot.covers(b as int, i) {
            assert(mid.cell(b as int, i) is None);
        }
    }
    if layout.size > 0 {
        assert forall|k: int| 0 <= k <= n0 implies #[trigger] mid.trace[k] == reserved.trace[k] by {}
        let d = Event::Deallocated { block: b, layout };
        assert(post.trace.drop_last() =~= mid.trace);
        lemma_count_none(mid.trace, d);
        let a = Event::Allocated { block: b, layout };
        lemma_count_prefix(post.trace, n0 + 1, a);
        let head = post.trace.subrange(0, n0 + 1);
        assert(head.drop_last() =~= post.trace.subrange(0, n0));
        lemma_count_none(post.trace.subrange(0, n0), a);
    }
}

} // verus!
