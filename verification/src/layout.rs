//! Layouts of memory regions, and the two standard layout providers.
//!
//! A layout is a size in bytes together with an alignment. A layout provider
//! says which layout a target needs and turns the address of a fresh region
//! into a typed pointer to that target.

use vstd::prelude::*;
use vstd::arithmetic::power2::is_pow2;
use vstd::layout::{align_of, size_of, valid_layout};
use crate::memory::{Addr, Ptr, Shape};
use crate::traits::LayoutProvider;

verus! {

/// The size and alignment that a region of memory must have.
#[derive(Clone, Copy, Debug, PartialEq, Eq, Structural)]
pub struct Layout {
    /// Number of bytes.
    pub size: usize,
    /// Alignment of the first byte; a power of two.
    pub align: usize,
}

/// The size or alignment asked for cannot be the layout of any region.
#[derive(Clone, Copy, Debug, PartialEq, Eq, Structural)]
pub struct LayoutError;

/// Tells whether `n` is a power of two.
pub fn is_power_of_two(n: usize) -> (r: bool)
    ensures
        r == is_pow2(n as int),
{
    if n == 0 {
        proof {
            reveal(is_pow2);
        }
        return false;
    }
    let mut m: usize = n;
    while m % 2 == 0
        invariant
            m > 0,
            is_pow2(m as int) == is_pow2(n as int),
        decreases m,
    {
        proof {
            reveal(is_pow2);
        }
        m = m / 2;
    }
    proof {
        reveal(is_pow2);
    }
    m == 1
}

impl Layout {
    /// A layout is well formed when its alignment is a power of two and its
    /// size, rounded up to the alignment, still fits in `isize`.
    pub open spec fn wf(self) -> bool {
        valid_layout(self.size, self.align)
    }

    /// The layout with this size and alignment, where the pair is one.
    pub open spec fn from_size_align_spec(
        size: usize,
        align: usize,
    ) -> Result<Layout, LayoutError> {
        if valid_layout(size, align) {
            Ok(Layout { size, align })
        } else {
            Err(LayoutError)
        }
    }

    /// The layout of `n` consecutive values of `T`, where there is one.
    pub open spec fn array_spec<T>(n: usize) -> Result<Layout, LayoutError> {
        if valid_layout((n * size_of::<T>()) as usize, align_of::<T>() as usize)
            && n * size_of::<T>()
            <= usize::MAX {
            Ok(Layout { size: (n * size_of::<T>()) as usize, align: align_of::<T>() as usize })
        } else {
            Err(LayoutError)
        }
    }

    /// Builds a layout from a size and an alignment, or says that the pair
    /// is no layout.
    pub fn from_size_align(size: usize, align: usize) -> (r: Result<Layout, LayoutError>)
        ensures
            r == Layout::from_size_align_spec(size, align),
    {
        if !is_power_of_two(align) {
            return Err(LayoutError);
        }
        proof {
            reveal(is_pow2);
        }
        let max: usize = isize::MAX as usize;
        assert(max % align <= max) by (nonlinear_arith)
            requires
                align > 0,
        ;
        if size > max - max % align {
            return Err(LayoutError);
        }
        Ok(Layout { size, align })
    }

    /// The layout of one value of `T`.
    pub fn new<T>() -> (l: Layout)
        ensures
            l.wf(),
            l.size == size_of::<T>(),
            l.align == align_of::<T>(),
            l.size % l.align == 0,
    {
        vstd::layout::layout_for_type_is_valid::<T>();
        Layout { size: core::mem::size_of::<T>(), align: core::mem::align_of::<T>() }
    }

    /// The layout of `n` consecutive values of `T`. Fails when the total
    /// size overflows or is more than a region can have.
    pub fn array<T>(n: usize) -> (r: Result<Layout, LayoutError>)
        ensures
            r == Layout::array_spec::<T>(n),
            r is Ok ==> r->Ok_0.wf(),
    {
        let element = Layout::new::<T>();
        assert(element.size * n == n * size_of::<T>()) by (nonlinear_arith)
            requires
                element.size == size_of::<T>(),
        ;
        match element.size.checked_mul(n) {
            None => Err(LayoutError),
            Some(total) => Layout::from_size_align(total, element.align),
        }
    }

    /// Number of bytes.
    pub fn size(&self) -> (r: usize)
        ensures
            r == self.size,
    {
        self.size
    }

    /// Alignment of the first byte.
    pub fn align(&self) -> (r: usize)
        ensures
            r == self.align,
    {
        self.align
    }
}

/// The layout provider for a single value of a type whose size is known.
#[derive(Clone, Copy, Debug)]
pub struct SizedLayoutProvider;

impl<T> LayoutProvider<T> for SizedLayoutProvider {
    open spec fn layout(&self) -> Result<Layout, LayoutError> {
        Ok(Layout { size: size_of::<T>() as usize, align: align_of::<T>() as usize })
    }

    open spec fn shape(&self) -> Shape {
        Shape::Fixed
    }

    fn layout_for(&self) -> (r: Result<Layout, LayoutError>) {
        assert(1 * size_of::<T>() == size_of::<T>()) by (nonlinear_arith);
        let layout = Layout::new::<T>();
        assert((layout.align as int) % (align_of::<T>() as int) == 0) by (nonlinear_arith)
            requires
                layout.align == align_of::<T>(),
                layout.align > 0,
        ;
        Ok(layout)
    }

    fn cast(&self, addr: Addr) -> (p: Ptr) {
        addr.cast()
    }
}

/// The layout provider for a slice of that many values.
#[derive(Clone, Copy, Debug)]
pub struct SliceLayoutProvider(pub usize);

impl<T> LayoutProvider<[T]> for SliceLayoutProvider {
    open spec fn layout(&self) -> Result<Layout, LayoutError> {
        Layout::array_spec::<T>(self.0)
    }

    open spec fn shape(&self) -> Shape {
        Shape::Slice(self.0)
    }

    fn layout_for(&self) -> (r: Result<Layout, LayoutError>) {
        let element = Layout::new::<T>();
        assert((element.align as int) % (align_of::<T>() as int) == 0) by (nonlinear_arith)
            requires
                element.align == align_of::<T>(),
                element.align > 0,
        ;
        Layout::array::<T>(self.0)
    }

    fn cast(&self, addr: Addr) -> (p: Ptr) {
        Ptr::slice_from_raw_parts(addr.cast(), self.0)
    }
}

} // verus!
