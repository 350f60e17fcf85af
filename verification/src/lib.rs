//! Memory management core of a small single-core kernel with a flat 32-bit
//! address space: a physical frame allocator, a two-level page table, and the
//! virtual memory allocator that ties the two together.
//!
//! Frames and pages are handled by index throughout. Byte addresses only
//! appear in [`layout`] and in the byte-granular adapters of
//! [`VirtualMemory`].
//!
//! - [`layout`]: the sizes of the address space and the index arithmetic.
//! - [`run`]: the free-space search as a mathematical function, the lowest
//!   run of a given length in a set of integers.
//! - [`pm`]: [`PhysicalMemory`], which frames are free, seeded from the
//!   firmware memory map.
//! - [`pt`]: [`PageDirectory`], [`PageTable`] and [`PageTableEntry`].
//! - [`space`]: [`AddressSpace`], the state of the allocator as a map from
//!   pages to frames and a set of free frames, with every operation as a
//!   function on it and the laws that hold between the operations.
//! - [`vm`]: [`VirtualMemory`], whose contracts say that each operation does
//!   to the real structures what the function of the same name does to the
//!   [`AddressSpace`].
//!
//! No function of this crate panics. Where the kernel would halt on broken
//! bookkeeping, such as freeing a page twice, the function asks its caller to
//! rule the case out.

pub mod layout;
pub mod pm;
pub mod pt;
pub mod run;
pub mod space;
pub mod vm;

pub use pm::{MemoryRegion, PhysicalMemory, RegionKind};
pub use pt::{PageDirectory, PageTable, PageTableEntry};
pub use space::AddressSpace;
pub use vm::VirtualMemory;
