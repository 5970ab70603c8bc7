//! Control registers.

use crate::bits::{field_of, lemma_low_mask_values};
use vstd::prelude::*;

verus! {

/// A value of control register 3, which locates the top-level paging
/// structure.
#[derive(Clone, Copy, Debug)]
pub struct Cr3 {
    x: u64,
}

impl View for Cr3 {
    type V = u64;

    closed spec fn view(&self) -> u64 {
        self.x
    }
}

/// The address bits of a register value are its bits 12 to 51.
proof fn lemma_cr3_address(x: u64)
    by (bit_vector)
    ensures
        x & (!0xFFFu64) & (!(0xFFFF_FFFF_FFFF_FFFFu64 << 52)) == field_of(x, 12, 40) << 12,
        field_of(x, 12, 40) << 12 == field_of(x, 12, 40) * 4096,
{
}

impl Cr3 {
    /// The physical address of the top-level paging structure: bits 12 to
    /// 51 of the register, with the other bits clear.
    pub open spec fn spec_address(&self) -> u64 {
        (field_of(self@, 12, 40) * 4096) as u64
    }

    /// The register value `x`.
    pub fn new(x: u64) -> (cr3: Self)
        ensures
            cr3@ == x,
    {
        Cr3 { x }
    }

    /// The physical address of the top-level paging structure.
    #[verifier::when_used_as_spec(spec_address)]
    pub fn address(&self) -> (address: u64)
        ensures
            address == self.spec_address(),
            address % 4096 == 0,
            address < 0x10_0000_0000_0000,
    {
        proof {
            lemma_cr3_address(self.x);
            lemma_low_mask_values();
            crate::bits::lemma_field_bound(self.x, 12, 40);
        }
        let m: u64 = 52;
        self.x & (!0xFFF) & (!(u64::MAX << m))
    }
}

} // verus!
