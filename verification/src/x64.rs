//! Structures that the x86-64 processor defines: paging structures,
//! descriptor tables and control registers.

pub mod entry;
pub mod gdt;
pub mod idt;
pub mod page_table;
pub mod registers;
