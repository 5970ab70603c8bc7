//! Firmware tables: the root pointer, the extended system description
//! table and the multiple APIC description table, read from their bytes.

pub mod madt;
pub mod root;
