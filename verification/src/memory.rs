//! The memory that handles point into.
//!
//! Memory is a list of blocks. A block is a run of bytes with a base address
//! and a layout; it holds cells, each either empty or holding one value. A
//! pointer names a block, the index of a first cell in it, the address of
//! that cell and a shape: one cell, or a slice of cells. Beside the blocks
//! the memory keeps a trace of allocator calls and destructor runs, in the
//! order in which they happened.

use vstd::prelude::*;
use vstd::layout::size_of;
use crate::layout::Layout;

verus! {

/// Whether a pointer stands for a single value or for a slice of values.
#[derive(Clone, Copy, Debug, PartialEq, Eq, Structural)]
pub enum Shape {
    /// One value.
    Fixed,
    /// That many consecutive values.
    Slice(usize),
}

impl Shape {
    /// Number of values that the shape covers.
    pub open spec fn count(self) -> nat {
        match self {
            Shape::Fixed => 1,
            Shape::Slice(n) => n as nat,
        }
    }

    /// Number of values that the shape covers.
    pub fn len(&self) -> (r: usize)
        ensures
            r == self.count(),
    {
        match self {
            Shape::Fixed => 1,
            Shape::Slice(n) => *n,
        }
    }
}

/// The address of a byte, with the block that it belongs to.
#[derive(Clone, Copy, Debug, PartialEq, Eq, Structural)]
pub struct Addr {
    /// The address.
    pub addr: usize,
    /// The block that the address was derived from.
    pub block: usize,
}

/// A typed pointer: the cells `index .. index + shape.count()` of a block,
/// the first of them at address `addr`.
#[derive(Clone, Copy, Debug, PartialEq, Eq, Structural)]
pub struct Ptr {
    /// Address of the first cell.
    pub addr: usize,
    /// The block that the pointer was derived from.
    pub block: usize,
    /// Index of the first cell within the block.
    pub index: usize,
    /// One cell or a slice of cells.
    pub shape: Shape,
}

impl Ptr {
    /// Number of cells that the pointer covers.
    pub open spec fn count(self) -> nat {
        self.shape.count()
    }

    /// Index one past the last cell that the pointer covers.
    pub open spec fn end(self) -> int {
        self.index + self.count()
    }

    /// Whether cell `index` of block `block` is one that the pointer covers.
    pub open spec fn covers(self, block: int, index: int) -> bool {
        block == self.block && self.index <= index < self.end()
    }

    /// The pointer to the single cell `k` places after the first one, for
    /// cells of `stride` bytes.
    pub open spec fn element(self, k: int, stride: nat) -> Ptr {
        Ptr {
            addr: (self.addr + k * stride) as usize,
            block: self.block,
            index: (self.index + k) as usize,
            shape: Shape::Fixed,
        }
    }

    /// Whether the cells covered lie in the address space, for cells of
    /// `stride` bytes.
    pub open spec fn in_range(self, stride: nat) -> bool {
        &&& self.addr != 0
        &&& self.addr + self.count() * stride <= usize::MAX
        &&& self.index + self.count() <= usize::MAX
    }
}

impl Addr {
    /// The typed pointer to the single cell at this address, the first
    /// cell of its block.
    pub fn cast(self) -> (p: Ptr)
        ensures
            p == (Ptr { addr: self.addr, block: self.block, index: 0, shape: Shape::Fixed }),
    {
        Ptr { addr: self.addr, block: self.block, index: 0, shape: Shape::Fixed }
    }
}

impl Ptr {
    /// The pointer to the slice of `len` cells that starts where `p`
    /// points.
    pub fn slice_from_raw_parts(p: Ptr, len: usize) -> (r: Ptr)
        ensures
            r == (Ptr { shape: Shape::Slice(len), ..p }),
    {
        Ptr { addr: p.addr, block: p.block, index: p.index, shape: Shape::Slice(len) }
    }

    /// Number of cells that the pointer covers.
    pub fn len(&self) -> (r: usize)
        ensures
            r == self.count(),
    {
        self.shape.len()
    }

    /// The pointer to the first cell alone.
    pub fn first(self) -> (r: Ptr)
        ensures
            r == (Ptr { shape: Shape::Fixed, ..self }),
    {
        Ptr { addr: self.addr, block: self.block, index: self.index, shape: Shape::Fixed }
    }

    /// The pointer `n` cells of type `T` further on.
    pub fn add<T>(self, n: usize) -> (r: Ptr)
        requires
            self.addr + n * size_of::<T>() <= usize::MAX,
            self.index + n <= usize::MAX,
        ensures
            r == (Ptr {
                addr: (self.addr + n * size_of::<T>()) as usize,
                index: (self.index + n) as usize,
                ..self
            }),
    {
        let size: usize = core::mem::size_of::<T>();
        assert(n * size <= usize::MAX) by (nonlinear_arith)
            requires
                self.addr + n * size <= usize::MAX,
                self.addr >= 0,
        ;
        Ptr {
            addr: self.addr + n * size,
            block: self.block,
            index: self.index + n,
            shape: self.shape,
        }
    }
}

/// What the allocator and the destructors did, as the memory recorded it.
#[derive(Clone, Copy, Debug, PartialEq, Eq, Structural)]
pub enum Event {
    /// The allocator handed out a block with this layout.
    Allocated { block: usize, layout: Layout },
    /// The allocator took the block back, under this layout.
    Deallocated { block: usize, layout: Layout },
    /// The destructor of the value in this cell ran.
    Destroyed { block: usize, index: usize },
}

impl Event {
    /// The block that the event is about.
    pub open spec fn block(self) -> usize {
        match self {
            Event::Allocated { block, .. } => block,
            Event::Deallocated { block, .. } => block,
            Event::Destroyed { block, .. } => block,
        }
    }
}

/// How often `event` stands in `trace`.
pub open spec fn count_of(trace: Seq<Event>, event: Event) -> nat
    decreases trace.len(),
{
    if trace.len() == 0 {
        0
    } else {
        count_of(trace.drop_last(), event) + if trace.last() == event {
            1nat
        } else {
            0nat
        }
    }
}

/// An event that stands nowhere in a trace is counted zero times.
pub proof fn lemma_count_none(trace: Seq<Event>, event: Event)
    requires
        forall|k: int| 0 <= k < trace.len() ==> trace[k] != event,
    ensures
        count_of(trace, event) == 0,
    decreases trace.len(),
{
    if trace.len() > 0 {
        lemma_count_none(trace.drop_last(), event);
    }
}

/// An event that stands nowhere in a trace from place `n` on is counted
/// as often as in the first `n` places.
pub proof fn lemma_count_prefix(trace: Seq<Event>, n: int, event: Event)
    requires
        0 <= n <= trace.len(),
        forall|k: int| n <= k < trace.len() ==> trace[k] != event,
    ensures
        count_of(trace, event) == count_of(trace.subrange(0, n), event),
    decreases trace.len(),
{
    if trace.len() == n {
        assert(trace.subrange(0, n) =~= trace);
    } else {
        lemma_count_prefix(trace.drop_last(), n, event);
        assert(trace.drop_last().subrange(0, n) =~= trace.subrange(0, n));
    }
}

/// Where a block comes from.
#[derive(Clone, Copy, Debug, PartialEq, Eq, Structural)]
pub enum BlockKind {
    /// Handed out by the allocator.
    Heap,
    /// Stands for a region of no bytes: nothing was allocated for it.
    Dangling,
    /// A buffer that the caller owns, such as a slot on the stack.
    External,
}

/// A block, as contracts see it.
#[verifier::ext_equal]
pub struct BlockState<T> {
    /// Address of the first byte.
    pub base: usize,
    /// The layout that the block was made with.
    pub layout: Layout,
    /// Where the block comes from.
    pub kind: BlockKind,
    /// Whether the block may still be used.
    pub live: bool,
    /// The cells that hold a value, by index.
    pub cells: Map<int, T>,
}

impl<T> BlockState<T> {
    /// A block has a valid layout and lies in the address space, away
    /// from address 0.
    pub open spec fn wf(self) -> bool {
        &&& self.layout.wf()
        &&& self.base != 0
        &&& self.base + self.layout.size <= usize::MAX
    }

    /// Whether two blocks differ in their cells at most.
    pub open spec fn same_frame(self, other: Self) -> bool {
        &&& self.base == other.base
        &&& self.layout == other.layout
        &&& self.kind == other.kind
        &&& self.live == other.live
    }
}

/// Memory, as contracts see it.
#[verifier::ext_equal]
pub struct MemState<T> {
    /// The blocks, by number.
    pub blocks: Seq<BlockState<T>>,
    /// The lowest address that the allocator has not handed out.
    pub next: usize,
    /// The address at which the allocator's arena ends.
    pub limit: usize,
    /// Allocator calls and destructor runs, oldest first.
    pub trace: Seq<Event>,
}

/// The address at or after `addr` that is a multiple of `align`.
pub open spec fn align_up(addr: int, align: int) -> int {
    if addr % align == 0 {
        addr
    } else {
        addr + (align - addr % align)
    }
}

impl<T> MemState<T> {
    /// Memory with no block, whose allocator owns the addresses from
    /// `start` up to `limit`.
    pub open spec fn empty(start: usize, limit: usize) -> Self {
        MemState { blocks: Seq::empty(), next: start, limit, trace: Seq::empty() }
    }

    /// Every block is well formed, the allocator is within its arena, and
    /// the trace speaks of blocks that exist.
    pub open spec fn wf(self) -> bool {
        &&& 0 < self.next <= self.limit
        &&& self.blocks.len() <= usize::MAX
        &&& forall|k: int| 0 <= k < self.trace.len() ==>
            (#[trigger] self.trace[k]).block() < self.blocks.len()
        &&& forall|b: int| 0 <= b < self.blocks.len() ==> (#[trigger] self.blocks[b]).wf()
    }

    /// What cell `index` of block `block` holds.
    pub open spec fn cell(self, block: int, index: int) -> Option<T> {
        if self.blocks[block].cells.dom().contains(index) {
            Some(self.blocks[block].cells[index])
        } else {
            None
        }
    }

    /// The pointer names cells of a live block, within its bytes, and its
    /// address is that of its first cell.
    pub open spec fn valid(self, p: Ptr) -> bool {
        &&& 0 <= p.block < self.blocks.len()
        &&& self.blocks[p.block as int].live
        &&& p.addr != 0
        &&& p.addr == self.blocks[p.block as int].base + p.index * size_of::<T>()
        &&& p.end() * size_of::<T>() <= self.blocks[p.block as int].layout.size
        &&& p.end() <= usize::MAX
    }

    /// The pointer is valid and every cell it covers is empty.
    pub open spec fn is_uninit(self, p: Ptr) -> bool {
        &&& self.valid(p)
        &&& forall|i: int| p.index <= i < p.end() ==>
            (#[trigger] self.cell(p.block as int, i)) is None
    }

    /// The pointer is valid and every cell it covers holds a value.
    pub open spec fn is_init(self, p: Ptr) -> bool {
        &&& self.valid(p)
        &&& forall|i: int| p.index <= i < p.end() ==>
            (#[trigger] self.cell(p.block as int, i)) is Some
    }

    /// The block holds no value.
    pub open spec fn vacant(self, block: int) -> bool {
        forall|i: int| (#[trigger] self.cell(block, i)) is None
    }

    /// Memory after `value` was put into a cell.
    pub open spec fn after_store(self, block: int, index: int, value: T) -> Self {
        MemState {
            blocks: self.blocks.update(
                block,
                BlockState {
                    cells: self.blocks[block].cells.insert(index, value),
                    ..self.blocks[block]
                },
            ),
            ..self
        }
    }

    /// Memory after `values` were put into the cells from `start` on, one
    /// each, lowest index first.
    pub open spec fn after_store_run(self, block: int, start: int, values: Seq<T>) -> Self
        decreases values.len(),
    {
        if values.len() == 0 {
            self
        } else {
            self.after_store_run(block, start, values.drop_last()).after_store(
                block,
                start + values.len() - 1,
                values.last(),
            )
        }
    }

    /// Memory after the value of a cell was moved out of it.
    pub open spec fn after_clear(self, block: int, index: int) -> Self {
        MemState {
            blocks: self.blocks.update(
                block,
                BlockState { cells: self.blocks[block].cells.remove(index), ..self.blocks[block] },
            ),
            ..self
        }
    }

    /// Memory after the destructor of the value in a cell ran.
    pub open spec fn after_destroy(self, block: int, index: int) -> Self {
        MemState {
            trace: self.trace.push(Event::Destroyed { block: block as usize, index: index as usize }),
            ..self.after_clear(block, index)
        }
    }

    /// Memory after the destructors of the `n` cells from `start` on ran,
    /// lowest index first.
    pub open spec fn after_destroy_run(self, block: int, start: int, n: nat) -> Self
        decreases n,
    {
        if n == 0 {
            self
        } else {
            self.after_destroy_run(block, start, (n - 1) as nat).after_destroy(block, start + n - 1)
        }
    }

    /// Memory with one more block, which holds no value.
    pub open spec fn with_block(self, base: usize, layout: Layout, kind: BlockKind) -> Self {
        MemState {
            blocks: self.blocks.push(
                BlockState { base, layout, kind, live: true, cells: Map::empty() },
            ),
            ..self
        }
    }

    /// The address that the allocator hands out next for this layout.
    pub open spec fn alloc_base(self, layout: Layout) -> int {
        align_up(self.next as int, layout.align as int)
    }

    /// Whether the allocator's arena has room for this layout.
    pub open spec fn can_alloc(self, layout: Layout) -> bool {
        self.alloc_base(layout) + layout.size <= self.limit
    }

    /// Memory after the allocator handed out a block with this layout.
    pub open spec fn after_allocate(self, layout: Layout) -> Self {
        MemState {
            next: (self.alloc_base(layout) + layout.size) as usize,
            trace: self.trace.push(
                Event::Allocated { block: self.blocks.len() as usize, layout },
            ),
            ..self.with_block(self.alloc_base(layout) as usize, layout, BlockKind::Heap)
        }
    }

    /// Memory after a block for a region of no bytes was set up: its
    /// address is the alignment, and the allocator is not called.
    pub open spec fn after_dangling(self, layout: Layout) -> Self {
        self.with_block(layout.align, layout, BlockKind::Dangling)
    }

    /// Memory after room for this layout was set aside: by the allocator,
    /// or without it where the layout has no bytes.
    pub open spec fn after_reserve(self, layout: Layout) -> Self {
        if layout.size == 0 {
            self.after_dangling(layout)
        } else {
            self.after_allocate(layout)
        }
    }

    /// The address of the block that is set up where room is set aside.
    pub open spec fn reserve_addr(self, layout: Layout) -> Addr {
        Addr {
            addr: if layout.size == 0 {
                layout.align
            } else {
                self.alloc_base(layout) as usize
            },
            block: self.blocks.len() as usize,
        }
    }

    /// Memory after a block was given up. For a block of the allocator
    /// this is a deallocation, and recorded as one.
    pub open spec fn after_release(self, block: int) -> Self {
        MemState {
            blocks: self.blocks.update(block, BlockState { live: false, ..self.blocks[block] }),
            trace: if self.blocks[block].kind == BlockKind::Heap {
                self.trace.push(
                    Event::Deallocated { block: block as usize, layout: self.blocks[block].layout },
                )
            } else {
                self.trace
            },
            ..self
        }
    }

    /// Whether `event` is the run of a destructor on a cell that `p` covers.
    pub open spec fn destroys_within(p: Ptr, event: Event) -> bool {
        match event {
            Event::Destroyed { block, index } => p.covers(block as int, index as int),
            _ => false,
        }
    }

    /// Whether `post` can come from this memory by work on the cells that
    /// `p` covers alone: every block is where and what it was, every other
    /// cell holds what it held, the allocator was not called, and the only
    /// destructors that ran are those of cells that `p` covers.
    pub open spec fn same_outside(self, post: Self, p: Ptr) -> bool {
        &&& post.blocks.len() == self.blocks.len()
        &&& post.next == self.next
        &&& post.limit == self.limit
        &&& forall|b: int|
            0 <= b < self.blocks.len() ==> (#[trigger] post.blocks[b]).same_frame(self.blocks[b])
        &&& forall|b: int, i: int|
            0 <= b < self.blocks.len() && !p.covers(b, i) ==> #[trigger] post.cell(b, i)
                == self.cell(b, i)
        &&& self.trace.len() <= post.trace.len()
        &&& post.trace.subrange(0, self.trace.len() as int) == self.trace
        &&& forall|k: int|
            self.trace.len() <= k < post.trace.len() ==> Self::destroys_within(
                p,
                #[trigger] post.trace[k],
            )
    }

    /// A pointer that is valid covers cells in the address space: what a
    /// handle asks of its pointer.
    pub proof fn lemma_valid_in_range(self, p: Ptr)
        requires
            self.wf(),
            self.valid(p),
        ensures
            p.in_range(size_of::<T>()),
    {
        let s = size_of::<T>() as int;
        let i = p.index as int;
        let n = p.count() as int;
        let block = self.blocks[p.block as int];
        assert((i + n) * s == i * s + n * s) by (nonlinear_arith);
    }

    /// Each cell that a valid pointer covers has a valid pointer of its
    /// own, `k` strides further on.
    pub proof fn lemma_valid_element(self, p: Ptr, k: int)
        requires
            self.wf(),
            self.valid(p),
            0 <= k < p.count(),
        ensures
            self.valid(p.element(k, size_of::<T>())),
            p.element(k, size_of::<T>()).addr == p.addr + k * size_of::<T>(),
            p.element(k, size_of::<T>()).index == p.index + k,
            p.addr + (k + 1) * size_of::<T>() <= usize::MAX,
    {
        let s = size_of::<T>() as int;
        let i = p.index as int;
        let n = p.count() as int;
        let block = self.blocks[p.block as int];
        assert((i + k + 1) * s <= (i + n) * s) by (nonlinear_arith)
            requires
                0 <= k < n,
                0 <= s,
                0 <= i,
        ;
        assert((i + k + 1) * s == i * s + (k + 1) * s) by (nonlinear_arith);
        assert((i + k) * s == i * s + k * s) by (nonlinear_arith);
        assert((k + 1) * s == k * s + s) by (nonlinear_arith);
        assert(0 <= k * s) by (nonlinear_arith)
            requires
                0 <= k,
                0 <= s,
        ;
    }

    /// The first `n` cells that a valid pointer covers have a valid
    /// pointer of their own.
    pub proof fn lemma_valid_prefix(self, p: Ptr, n: usize)
        requires
            self.valid(p),
            n <= p.count(),
        ensures
            self.valid(Ptr { shape: Shape::Slice(n), ..p }),
    {
        let s = size_of::<T>() as int;
        let i = p.index as int;
        let c = p.count() as int;
        assert((i + n) * s <= (i + c) * s) by (nonlinear_arith)
            requires
                0 <= n <= c,
                0 <= s,
                0 <= i,
        ;
    }

    /// What setting room aside gives: one more block, live and without a
    /// value, at the address that was handed out; and a pointer to cells
    /// that fit into the layout is a pointer to empty cells.
    pub proof fn lemma_reserve(self, layout: Layout, shape: Shape)
        requires
            self.wf(),
            layout.wf(),
            layout.size == 0 || self.can_alloc(layout),
            shape.count() * size_of::<T>() <= layout.size,
            self.blocks.len() < usize::MAX,
        ensures
            ({
                let post = self.after_reserve(layout);
                let addr = self.reserve_addr(layout);
                let b = self.blocks.len() as int;
                &&& post.wf()
                &&& post.blocks.len() == self.blocks.len() + 1
                &&& post.blocks[b].live
                &&& post.blocks[b].base == addr.addr
                &&& post.blocks[b].layout == layout
                &&& post.blocks[b].kind == (if layout.size == 0 {
                    BlockKind::Dangling
                } else {
                    BlockKind::Heap
                })
                &&& post.vacant(b)
                &&& addr.addr != 0
                &&& (addr.addr as int) % (layout.align as int) == 0
                &&& post.is_uninit(Ptr { addr: addr.addr, block: addr.block, index: 0, shape })
                &&& forall|k: int| 0 <= k < self.blocks.len() ==> post.blocks[k] == self.blocks[k]
            }),
    {
        reveal(vstd::arithmetic::power2::is_pow2);
        let post = self.after_reserve(layout);
        let b = self.blocks.len() as int;
        let p = Ptr { addr: self.reserve_addr(layout).addr, block: b as usize, index: 0, shape };
        assert forall|i: int| (#[trigger] post.cell(b, i)) is None by {}
        let a = layout.align as int;
        let n = self.next as int;
        if layout.size != 0 {
            assert(align_up(n, a) % a == 0) by (nonlinear_arith)
                requires
                    a > 0,
                    n >= 0,
            ;
        } else {
            assert(a % a == 0) by (nonlinear_arith)
                requires
                    a > 0,
            ;
        }
    }

    /// Nothing changes where nothing is done.
    pub proof fn lemma_same_outside_refl(self, p: Ptr)
        ensures
            self.same_outside(self, p),
    {
        assert(self.trace.subrange(0, self.trace.len() as int) =~= self.trace);
    }

    /// Work on the cells of `p`, done twice, is work on the cells of `p`.
    pub proof fn lemma_same_outside_trans(self, mid: Self, post: Self, p: Ptr)
        requires
            self.same_outside(mid, p),
            mid.same_outside(post, p),
        ensures
            self.same_outside(post, p),
    {
        assert(post.trace.subrange(0, self.trace.len() as int) =~= mid.trace.subrange(
            0,
            self.trace.len() as int,
        ));
        assert forall|b: int| 0 <= b < self.blocks.len() implies (#[trigger] post.blocks[b]).same_frame(
            self.blocks[b],
        ) by {}
        assert forall|k: int| self.trace.len() <= k < post.trace.len() implies Self::destroys_within(
            p,
            #[trigger] post.trace[k],
        ) by {
            if k < mid.trace.len() {
                assert(post.trace[k] == post.trace.subrange(0, mid.trace.len() as int)[k]);
            }
        }
    }

    /// What a run of destructors changes: the cells of the run are empty,
    /// every other cell and every block is as it was, and the trace has
    /// grown by one entry for each cell of the run, in order.
    pub proof fn lemma_destroy_run(self, block: int, start: int, n: nat)
        requires
            0 <= block < self.blocks.len(),
            0 <= start,
            start + n <= usize::MAX,
        ensures
            ({
                let post = self.after_destroy_run(block, start, n);
                &&& post.blocks.len() == self.blocks.len()
                &&& post.next == self.next
                &&& post.limit == self.limit
                &&& post.wf() == self.wf()
                &&& forall|b: int|
                    0 <= b < self.blocks.len() ==> (#[trigger] post.blocks[b]).same_frame(
                        self.blocks[b],
                    )
                &&& forall|b: int, i: int|
                    0 <= b < self.blocks.len() ==> #[trigger] post.cell(b, i) == (if b == block
                        && start <= i < start + n {
                        None
                    } else {
                        self.cell(b, i)
                    })
                &&& post.trace.len() == self.trace.len() + n
                &&& post.trace.subrange(0, self.trace.len() as int) == self.trace
                &&& forall|k: int|
                    0 <= k < n ==>
                        #[trigger] post.trace[self.trace.len() + k] == (Event::Destroyed {
                        block: block as usize,
                        index: (start + k) as usize,
                    })
            }),
        decreases n,
    {
        let post = self.after_destroy_run(block, start, n);
        if n == 0 {
        } else {
            let mid = self.after_destroy_run(block, start, (n - 1) as nat);
            self.lemma_destroy_run(block, start, (n - 1) as nat);
            assert(post.trace.subrange(0, self.trace.len() as int) =~= mid.trace.subrange(
                0,
                self.trace.len() as int,
            ));
            assert forall|b: int| 0 <= b < self.blocks.len() implies (#[trigger] post.blocks[b]).same_frame(
                self.blocks[b],
            ) by {}
            assert forall|b: int, i: int| 0 <= b < self.blocks.len() implies #[trigger] post.cell(
                b,
                i,
            ) == (if b == block && start <= i < start + n {
                None
            } else {
                self.cell(b, i)
            }) by {
                assert(mid.cell(b, i) == (if b == block && start <= i < start + n - 1 {
                    None
                } else {
                    self.cell(b, i)
                }));
            }
            assert(post.wf() == self.wf()) by {
                if self.wf() {
                    assert forall|b: int| 0 <= b < post.blocks.len() implies (#[trigger] post.blocks[b]).wf() by {}
                }
                if post.wf() {
                    assert forall|b: int| 0 <= b < self.blocks.len() implies (#[trigger] self.blocks[b]).wf() by {
                        assert(post.blocks[b].same_frame(self.blocks[b]));
                    }
                }
            }
        }
    }

    /// What a run of stores changes: the cells of the run hold the values,
    /// in order, and everything else is as it was.
    pub proof fn lemma_store_run(self, block: int, start: int, values: Seq<T>)
        requires
            0 <= block < self.blocks.len(),
        ensures
            ({
                let post = self.after_store_run(block, start, values);
                &&& post.blocks.len() == self.blocks.len()
                &&& post.next == self.next
                &&& post.limit == self.limit
                &&& post.trace == self.trace
                &&& forall|b: int|
                    0 <= b < self.blocks.len() ==> (#[trigger] post.blocks[b]).same_frame(
                        self.blocks[b],
                    )
                &&& forall|b: int, i: int|
                    0 <= b < self.blocks.len() ==> #[trigger] post.cell(b, i) == (if b == block
                        && start <= i < start + values.len() {
                        Some(values[i - start])
                    } else {
                        self.cell(b, i)
                    })
            }),
        decreases values.len(),
    {
        let post = self.after_store_run(block, start, values);
        if values.len() > 0 {
            let mid = self.after_store_run(block, start, values.drop_last());
            self.lemma_store_run(block, start, values.drop_last());
            assert forall|b: int, i: int| 0 <= b < self.blocks.len() implies #[trigger] post.cell(
                b,
                i,
            ) == (if b == block && start <= i < start + values.len() {
                Some(values[i - start])
            } else {
                self.cell(b, i)
            }) by {
                assert(mid.cell(b, i) == (if b == block && start <= i < start + values.len() - 1 {
                    Some(values.drop_last()[i - start])
                } else {
                    self.cell(b, i)
                }));
            }
        }
    }

    /// A run of stores into cells that `p` covers is work on the cells of
    /// `p`, after which they hold values.
    pub proof fn lemma_store_run_same_outside(self, p: Ptr, values: Seq<T>)
        requires
            self.wf(),
            self.valid(p),
            values.len() == p.count(),
        ensures
            self.same_outside(self.after_store_run(p.block as int, p.index as int, values), p),
            self.after_store_run(p.block as int, p.index as int, values).is_init(p),
            self.after_store_run(p.block as int, p.index as int, values).wf(),
    {
        let post = self.after_store_run(p.block as int, p.index as int, values);
        self.lemma_store_run(p.block as int, p.index as int, values);
        assert(post.trace.subrange(0, self.trace.len() as int) =~= self.trace);
    }

    /// A run of destructors on cells that `p` covers is work on the cells
    /// of `p`.
    pub proof fn lemma_destroy_run_same_outside(self, p: Ptr, start: int, n: nat)
        requires
            0 <= p.block < self.blocks.len(),
            p.index <= start,
            start + n <= p.end(),
            p.end() <= usize::MAX,
        ensures
            self.same_outside(self.after_destroy_run(p.block as int, start, n), p),
    {
        let post = self.after_destroy_run(p.block as int, start, n);
        self.lemma_destroy_run(p.block as int, start, n);
        assert forall|k: int| self.trace.len() <= k < post.trace.len() implies Self::destroys_within(
            p,
            #[trigger] post.trace[k],
        ) by {
            let j = k - self.trace.len();
            assert(post.trace[self.trace.len() + j] == (Event::Destroyed {
                block: p.block as usize,
                index: (start + j) as usize,
            }));
        }
    }

    /// Storing into the first cell of `p` leaves everything outside `p`
    /// as it was.
    pub proof fn lemma_store_same_outside(self, p: Ptr, value: T)
        requires
            self.valid(p),
            p.count() >= 1,
        ensures
            self.same_outside(self.after_store(p.block as int, p.index as int, value), p),
    {
        let post = self.after_store(p.block as int, p.index as int, value);
        assert(post.trace.subrange(0, self.trace.len() as int) =~= self.trace);
    }
}

/// The lowest address of the allocator's arena.
pub const ARENA_BASE: usize = 4096;

/// The address at which an arena of `bytes` bytes ends.
pub open spec fn arena_end(bytes: usize) -> usize {
    if ARENA_BASE + bytes <= usize::MAX {
        (ARENA_BASE + bytes) as usize
    } else {
        usize::MAX
    }
}

struct Block<T> {
    base: usize,
    layout: Layout,
    kind: BlockKind,
    live: bool,
    cells: Vec<Option<T>>,
}

impl<T> Block<T> {
    spec fn state(&self) -> BlockState<T> {
        BlockState {
            base: self.base,
            layout: self.layout,
            kind: self.kind,
            live: self.live,
            cells: Map::new(
                |i: int| 0 <= i < self.cells.len() && self.cells[i] is Some,
                |i: int| self.cells[i]->Some_0,
            ),
        }
    }
}

/// Memory: blocks of cells, an allocator with a bounded arena, and the
/// trace of what the allocator and the destructors did.
pub struct Memory<T> {
    blocks: Vec<Block<T>>,
    next: usize,
    limit: usize,
    trace: Vec<Event>,
}

impl<T> View for Memory<T> {
    type V = MemState<T>;

    closed spec fn view(&self) -> MemState<T> {
        MemState {
            blocks: Seq::new(self.blocks.len() as nat, |b: int| self.blocks[b].state()),
            next: self.next,
            limit: self.limit,
            trace: self.trace@,
        }
    }
}

impl<T> Memory<T> {
    /// Memory with no block, whose allocator has an arena of `bytes` bytes.
    pub fn new(bytes: usize) -> (mem: Self)
        ensures
            mem@ == MemState::<T>::empty(ARENA_BASE, arena_end(bytes)),
            mem@.wf(),
    {
        let limit: usize = match ARENA_BASE.checked_add(bytes) {
            Some(end) => end,
            None => usize::MAX,
        };
        let mem = Memory { blocks: Vec::new(), next: ARENA_BASE, limit, trace: Vec::new() };
        mem
    }

    /// Asks the allocator for a block with this layout. `None` says that
    /// the arena has no room for it; memory is then as it was.
    pub fn allocate(&mut self, layout: Layout) -> (r: Option<Addr>)
        requires
            old(self)@.wf(),
            layout.wf(),
            layout.size > 0,
        ensures
            final(self)@.wf(),
            old(self)@.can_alloc(layout) ==>
                r == Some(old(self)@.reserve_addr(layout))
                    && final(self)@ == old(self)@.after_allocate(layout),
            !old(self)@.can_alloc(layout) ==> r is None && final(self)@ == old(self)@,
    {
        proof {
            reveal(vstd::arithmetic::power2::is_pow2);
        }
        let rem: usize = self.next % layout.align;
        let pad: usize = if rem == 0 {
            0
        } else {
            layout.align - rem
        };
        let base: usize = match self.next.checked_add(pad) {
            Some(base) => base,
            None => {
                return None;
            },
        };
        let end: usize = match base.checked_add(layout.size) {
            Some(end) => end,
            None => {
                return None;
            },
        };
        if end > self.limit {
            return None;
        }
        let block: usize = self.blocks.len();
        self.blocks.push(Block { base, layout, kind: BlockKind::Heap, live: true, cells: Vec::new() });
        self.trace.push(Event::Allocated { block, layout });
        self.next = end;
        assert(self@ =~~= old(self)@.after_allocate(layout));
        Some(Addr { addr: base, block })
    }

    /// Sets up a block for a region of no bytes. Its address is the
    /// alignment of the layout; the allocator is not called.
    pub fn dangling(&mut self, layout: Layout) -> (r: Addr)
        requires
            old(self)@.wf(),
            layout.wf(),
            layout.size == 0,
        ensures
            final(self)@.wf(),
            r == old(self)@.reserve_addr(layout),
            final(self)@ == old(self)@.after_dangling(layout),
    {
        proof {
            reveal(vstd::arithmetic::power2::is_pow2);
        }
        let block: usize = self.blocks.len();
        self.blocks.push(
            Block {
                base: layout.align,
                layout,
                kind: BlockKind::Dangling,
                live: true,
                cells: Vec::new(),
            },
        );
        assert(self@ =~~= old(self)@.after_dangling(layout));
        Addr { addr: layout.align, block }
    }

    /// Takes in a buffer that the caller owns, at the address where the
    /// caller has it.
    pub fn adopt(&mut self, addr: usize, layout: Layout) -> (r: Addr)
        requires
            old(self)@.wf(),
            layout.wf(),
            addr != 0,
            addr + layout.size <= usize::MAX,
        ensures
            final(self)@.wf(),
            r == (Addr { addr, block: old(self)@.blocks.len() as usize }),
            final(self)@ == old(self)@.with_block(addr, layout, BlockKind::External),
    {
        let block: usize = self.blocks.len();
        self.blocks.push(
            Block { base: addr, layout, kind: BlockKind::External, live: true, cells: Vec::new() },
        );
        assert(self@ =~~= old(self)@.with_block(addr, layout, BlockKind::External));
        Addr { addr, block }
    }

    /// Gives a block back to the allocator, under the layout that it was
    /// allocated with. The block holds no value any more.
    pub fn deallocate(&mut self, addr: Addr, layout: Layout)
        requires
            old(self)@.wf(),
            addr.block < old(self)@.blocks.len(),
            old(self)@.blocks[addr.block as int].live,
            old(self)@.blocks[addr.block as int].kind == BlockKind::Heap,
            old(self)@.blocks[addr.block as int].base == addr.addr,
            old(self)@.blocks[addr.block as int].layout == layout,
            old(self)@.vacant(addr.block as int),
        ensures
            final(self)@.wf(),
            final(self)@ == old(self)@.after_release(addr.block as int),
    {
        self.blocks[addr.block].live = false;
        self.trace.push(Event::Deallocated { block: addr.block, layout });
        assert(self@ =~~= old(self)@.after_release(addr.block as int)) by {
            assert forall|i: int|
                self@.blocks[addr.block as int].cells.dom().contains(i)
                    == old(self)@.blocks[addr.block as int].cells.dom().contains(i) by {}
        }
    }

    /// Gives up a block that did not come from the allocator. The block
    /// holds no value any more.
    pub fn retire(&mut self, addr: Addr)
        requires
            old(self)@.wf(),
            addr.block < old(self)@.blocks.len(),
            old(self)@.blocks[addr.block as int].live,
            old(self)@.blocks[addr.block as int].kind != BlockKind::Heap,
            old(self)@.vacant(addr.block as int),
        ensures
            final(self)@.wf(),
            final(self)@ == old(self)@.after_release(addr.block as int),
    {
        self.blocks[addr.block].live = false;
        assert(self@ =~~= old(self)@.after_release(addr.block as int));
    }

    /// Puts `value` into the first cell that `p` covers, which is empty.
    pub fn write(&mut self, p: Ptr, value: T)
        requires
            old(self)@.wf(),
            old(self)@.valid(p),
            p.count() >= 1,
            old(self)@.cell(p.block as int, p.index as int) is None,
        ensures
            final(self)@.wf(),
            final(self)@ == old(self)@.after_store(p.block as int, p.index as int, value),
    {
        let mut len: usize = self.blocks[p.block].cells.len();
        while len <= p.index
            invariant
                self@ == old(self)@,
                p.block < self.blocks.len(),
                p.index < usize::MAX,
                len == self.blocks[p.block as int].cells.len(),
            decreases p.index + 1 - len,
        {
            let ghost before = self@;
            self.blocks[p.block].cells.push(None);
            len = len + 1;
            assert(self@ =~~= before);
        }
        self.blocks[p.block].cells[p.index] = Some(value);
        assert(self@ =~~= old(self)@.after_store(p.block as int, p.index as int, value));
    }

    /// The value in the first cell that `p` covers.
    pub fn read(&self, p: Ptr) -> (r: &T)
        requires
            self@.valid(p),
            self@.cell(p.block as int, p.index as int) is Some,
        ensures
            Some(*r) == self@.cell(p.block as int, p.index as int),
    {
        self.blocks[p.block].cells[p.index].as_ref().unwrap()
    }

    /// Puts `value` into the first cell that `p` covers, in place of the
    /// value that the cell holds, and returns that one. No destructor runs.
    pub fn replace(&mut self, p: Ptr, value: T) -> (r: T)
        requires
            old(self)@.wf(),
            old(self)@.valid(p),
            p.count() >= 1,
            old(self)@.cell(p.block as int, p.index as int) is Some,
        ensures
            final(self)@.wf(),
            Some(r) == old(self)@.cell(p.block as int, p.index as int),
            final(self)@ == old(self)@.after_store(p.block as int, p.index as int, value),
    {
        let r = self.take(p);
        self.write(p, value);
        assert(self@ =~~= old(self)@.after_store(p.block as int, p.index as int, value));
        r
    }

    /// Moves the value out of the first cell that `p` covers. No
    /// destructor runs: the value is the caller's now.
    pub fn take(&mut self, p: Ptr) -> (r: T)
        requires
            old(self)@.wf(),
            old(self)@.valid(p),
            old(self)@.cell(p.block as int, p.index as int) is Some,
        ensures
            final(self)@.wf(),
            Some(r) == old(self)@.cell(p.block as int, p.index as int),
            final(self)@ == old(self)@.after_clear(p.block as int, p.index as int),
    {
        let r = self.blocks[p.block].cells[p.index].take().unwrap();
        assert(self@ =~~= old(self)@.after_clear(p.block as int, p.index as int));
        r
    }

    /// Runs the destructor of every value that `p` covers, lowest index
    /// first, and leaves the cells empty.
    pub fn drop_in_place(&mut self, p: Ptr)
        requires
            old(self)@.wf(),
            old(self)@.is_init(p),
        ensures
            final(self)@.wf(),
            final(self)@ == old(self)@.after_destroy_run(p.block as int, p.index as int, p.count()),
    {
        let n: usize = p.shape.len();
        let mut k: usize = 0;
        while k < n
            invariant
                k <= n,
                n == p.count(),
                old(self)@.wf(),
                old(self)@.is_init(p),
                self@ == old(self)@.after_destroy_run(p.block as int, p.index as int, k as nat),
                self@.wf(),
                forall|i: int|
                    p.index + k <= i < p.end() ==>
                        (#[trigger] self@.cell(p.block as int, i)) is Some,
                p.block < self@.blocks.len(),
            decreases n - k,
        {
            let ghost before = self@;
            assert(before.cell(p.block as int, p.index + k) is Some);
            let gone = self.blocks[p.block].cells[p.index + k].take();
            self.trace.push(Event::Destroyed { block: p.block, index: p.index + k });
            assert(self@ =~~= before.after_destroy(p.block as int, p.index + k));
            assert forall|i: int| p.index + k + 1 <= i < p.end() implies (#[trigger] self@.cell(
                p.block as int,
                i,
            )) is Some by {
                assert(before.cell(p.block as int, i) is Some);
            }
            k = k + 1;
        }
    }

    /// The allocator calls and destructor runs so far, oldest first.
    pub fn events(&self) -> (r: &Vec<Event>)
        ensures
            r@ == self@.trace,
    {
        &self.trace
    }

    /// How many blocks there are, live or not.
    pub fn block_count(&self) -> (r: usize)
        ensures
            r == self@.blocks.len(),
    {
        self.blocks.len()
    }

    /// Whether the block may still be used.
    pub fn is_live(&self, block: usize) -> (r: bool)
        ensures
            r == (block < self@.blocks.len() && self@.blocks[block as int].live),
    {
        block < self.blocks.len() && self.blocks[block].live
    }

    /// Whether the cell holds a value.
    pub fn holds(&self, block: usize, index: usize) -> (r: bool)
        ensures
            r == (block < self@.blocks.len() && self@.cell(block as int, index as int) is Some),
    {
        block < self.blocks.len() && index < self.blocks[block].cells.len()
            && self.blocks[block].cells[index].is_some()
    }
}

} // verus!
