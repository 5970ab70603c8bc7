//! Early-boot memory management for a 64-bit kernel: typed addresses, a
//! physical frame allocator whose free list lives inside the free pages, and
//! the four-level page-table hierarchy, together with the descriptor-table
//! and firmware-table layouts the boot path relies on.

pub mod acpi;
pub mod bits;
pub mod bytes;
pub mod memory;
pub mod physical_memory;
pub mod pmm;
pub mod x64;
