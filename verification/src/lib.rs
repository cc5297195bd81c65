//! A bump allocator for the time before a kernel's permanent allocators
//! work, with the proofs of what it promises.
//!
//! [`EarlyAllocator`] manages one memory range from both ends. [`Region`] is
//! its state as mathematical integers; the contracts of the allocator are
//! stated over it. [`region`] holds what is proved of one state and of one
//! grant, [`trace`] what is proved of every sequence of calls: that grants
//! stay inside the region and never overlap, that page addresses descend,
//! and that handing memory back changes nothing. [`align`] has the rounding
//! that both kinds of grant rest on, and [`hash`] the keys and the hasher of
//! the kernel's hash map.

pub mod align;
pub mod early;
pub mod hash;
pub mod region;
pub mod trace;

pub use early::{AllocError, EarlyAllocator};
pub use hash::{DefaultHasher, RandomState};
pub use region::Region;
