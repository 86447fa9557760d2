//! Fallible construction of values in place.
//!
//! A caller hands over a slot of memory that is allocated but holds no value,
//! together with an initializer, and gets back a handle that stands for a
//! fully constructed value at the same address. Whatever was constructed
//! before a failure is destroyed again, also inside slices.
//!
//! Memory is an explicit value of type [`memory::Memory`]: every operation
//! that reads or changes a slot takes it as an argument, and the contracts
//! say what it holds before and after. The memory records each call of the
//! allocator and each run of a destructor, so that the contracts can say
//! what was destroyed and deallocated, how often and in which order.
//!
//! * [`memory`]: blocks, cells, pointers, the allocator and the trace.
//! * [`layout`]: layouts and the two layout providers.
//! * [`ptr`], [`pin_ptr`]: the handles to empty and to initialized slots.
//! * [`traits`]: layout providers and the four kinds of initializers.
//! * [`func`], [`pin`]: initializers made of functions, and the bridge
//!   between plain and pinned initializers.
//! * [`raw`]: initializers run on bare pointers.
//! * [`slice`], [`iter`]: writers, slice initializers and iterators.
//! * [`array`]: initializers for arrays.
//! * [`boxed`]: values on the heap.
//! * [`macros`]: narrowing a handle to a part.
//! * [`self_ref`]: a value that points into itself, as an example.

pub mod array;
pub mod boxed;
pub mod func;
pub mod iter;
pub mod layout;
pub mod macros;
pub mod memory;
pub mod pin;
pub mod pin_ptr;
pub mod ptr;
pub mod raw;
pub mod self_ref;
pub mod slice;
pub mod traits;

pub use layout::{Layout, LayoutError};
pub use memory::{Addr, Event, Memory, Ptr, Shape};
pub use pin_ptr::{PinnedInit, PinnedUninit};
pub use ptr::{Init, Target, Uninit};
