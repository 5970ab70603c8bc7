//! The root system description pointer and the extended system description
//! table.
//!
//! A firmware table is valid if all of its bytes add up to zero modulo 256.
//! The structures below hold the fields of a table; the bytes of a table
//! are those fields in the order in which they lie in memory, integers with
//! their low byte first.

use crate::bytes::{
    le_bytes_u32, le_bytes_u64, push_u32, push_u64, read_u32, read_u64, u32_at, u64_at,
};
use vstd::prelude::*;

verus! {

/// The length of the header that every system description table starts
/// with, in bytes.
pub const SDT_HEADER_LENGTH: u64 = 36;

/// The sum of the bytes.
pub open spec fn byte_sum(bytes: Seq<u8>) -> int
    decreases bytes.len(),
{
    if bytes.len() == 0 {
        0
    } else {
        byte_sum(bytes.drop_last()) + bytes.last()
    }
}

/// Whether the bytes add up to zero modulo 256.
pub open spec fn sums_to_zero(bytes: Seq<u8>) -> bool {
    byte_sum(bytes) % 256 == 0
}

/// The sum of two runs of bytes is the sum of their sums.
pub proof fn lemma_byte_sum_concat(first: Seq<u8>, second: Seq<u8>)
    ensures
        byte_sum(first + second) == byte_sum(first) + byte_sum(second),
    decreases second.len(),
{
    if second.len() == 0 {
        assert(first + second =~= first);
    } else {
        lemma_byte_sum_concat(first, second.drop_last());
        assert((first + second).drop_last() =~= first + second.drop_last());
    }
}

/// Whether the bytes of a table add up to zero modulo 256.
pub fn validate_checksum(bytes: &[u8]) -> (valid: bool)
    ensures
        valid == sums_to_zero(bytes@),
{
    let mut sum: u8 = 0;
    let mut i: usize = 0;
    assert(bytes@.take(0) =~= Seq::<u8>::empty());
    while i < bytes.len()
        invariant
            i <= bytes.len(),
            sum == byte_sum(bytes@.take(i as int)) % 256,
        decreases bytes.len() - i,
    {
        let byte = bytes[i];
        assert(bytes@.take(i + 1).drop_last() =~= bytes@.take(i as int));
        sum = sum.wrapping_add(byte);
        i += 1;
    }
    assert(bytes@.take(bytes@.len() as int) =~= bytes@);
    sum == 0
}

/// The root system description pointer of the first revision.
#[derive(Clone, Copy, Debug)]
pub struct RSDP32Bit {
    pub signature: [u8; 8],
    pub checksum: u8,
    pub oem_id: [u8; 6],
    pub revision: u8,
    pub rsdt_address: u32,
}

impl RSDP32Bit {
    /// The 20 bytes of the structure.
    pub open spec fn bytes(&self) -> Seq<u8> {
        self.signature@ + seq![self.checksum] + self.oem_id@ + seq![self.revision]
            + le_bytes_u32(self.rsdt_address)
    }

    /// The bytes of the structure.
    pub fn to_bytes(&self) -> (bytes: Vec<u8>)
        ensures
            bytes@ == self.bytes(),
    {
        let mut bytes: Vec<u8> = Vec::new();
        bytes.extend_from_slice(&self.signature);
        assert(bytes@ =~= self.signature@);
        bytes.push(self.checksum);
        bytes.extend_from_slice(&self.oem_id);
        assert(bytes@ =~= self.signature@ + seq![self.checksum] + self.oem_id@);
        bytes.push(self.revision);
        push_u32(&mut bytes, self.rsdt_address);
        assert(bytes@ =~= self.bytes());
        bytes
    }

    /// The structure that the 20 bytes hold.
    pub fn from_bytes(bytes: &[u8]) -> (rsdp: Self)
        requires
            bytes@.len() == 20,
        ensures
            rsdp.signature@ == bytes@.subrange(0, 8),
            rsdp.checksum == bytes@[8],
            rsdp.oem_id@ == bytes@.subrange(9, 15),
            rsdp.revision == bytes@[15],
            rsdp.rsdt_address == u32_at(bytes@, 16),
    {
        let rsdp = RSDP32Bit {
            signature: [
                bytes[0],
                bytes[1],
                bytes[2],
                bytes[3],
                bytes[4],
                bytes[5],
                bytes[6],
                bytes[7],
            ],
            checksum: bytes[8],
            oem_id: [bytes[9], bytes[10], bytes[11], bytes[12], bytes[13], bytes[14]],
            revision: bytes[15],
            rsdt_address: read_u32(bytes, 16),
        };
        assert(rsdp.signature@ =~= bytes@.subrange(0, 8));
        assert(rsdp.oem_id@ =~= bytes@.subrange(9, 15));
        rsdp
    }

    /// Whether the bytes of the structure add up to zero modulo 256.
    pub fn checksum(&self) -> (valid: bool)
        ensures
            valid == sums_to_zero(self.bytes()),
    {
        let bytes = self.to_bytes();
        validate_checksum(bytes.as_slice())
    }

    /// The revision of the firmware interface.
    pub fn revision(&self) -> (revision: u8)
        ensures
            revision == self.revision,
    {
        self.revision
    }
}

/// The root system description pointer of the second revision.
#[derive(Clone, Copy, Debug)]
pub struct RSDP64Bit {
    pub signature: [u8; 8],
    pub checksum: u8,
    pub oem_id: [u8; 6],
    pub revision: u8,
    pub deprecated: u32,
    pub length: u32,
    pub xsdt_address: u64,
    pub extended_checksum: u8,
    pub reserved: [u8; 3],
}

impl RSDP64Bit {
    /// The 36 bytes of the structure.
    pub open spec fn bytes(&self) -> Seq<u8> {
        self.signature@ + seq![self.checksum] + self.oem_id@ + seq![self.revision]
            + le_bytes_u32(self.deprecated) + le_bytes_u32(self.length)
            + le_bytes_u64(self.xsdt_address) + seq![self.extended_checksum]
            + self.reserved@
    }

    /// The bytes of the structure.
    pub fn to_bytes(&self) -> (bytes: Vec<u8>)
        ensures
            bytes@ == self.bytes(),
    {
        let mut bytes: Vec<u8> = Vec::new();
        bytes.extend_from_slice(&self.signature);
        assert(bytes@ =~= self.signature@);
        bytes.push(self.checksum);
        bytes.extend_from_slice(&self.oem_id);
        assert(bytes@ =~= self.signature@ + seq![self.checksum] + self.oem_id@);
        bytes.push(self.revision);
        push_u32(&mut bytes, self.deprecated);
        assert(bytes@ =~= self.signature@ + seq![self.checksum] + self.oem_id@
            + seq![self.revision] + le_bytes_u32(self.deprecated));
        push_u32(&mut bytes, self.length);
        assert(bytes@ =~= self.signature@ + seq![self.checksum] + self.oem_id@
            + seq![self.revision] + le_bytes_u32(self.deprecated) + le_bytes_u32(
            self.length,
        ));
        push_u64(&mut bytes, self.xsdt_address);
        assert(bytes@ =~= self.signature@ + seq![self.checksum] + self.oem_id@
            + seq![self.revision] + le_bytes_u32(self.deprecated) + le_bytes_u32(
            self.length,
        ) + le_bytes_u64(self.xsdt_address));
        bytes.push(self.extended_checksum);
        bytes.extend_from_slice(&self.reserved);
        assert(bytes@ =~= self.bytes());
        bytes
    }

    /// Whether the bytes of the structure add up to zero modulo 256.
    pub fn checksum(&self) -> (valid: bool)
        ensures
            valid == sums_to_zero(self.bytes()),
    {
        let bytes = self.to_bytes();
        validate_checksum(bytes.as_slice())
    }

    /// The structure that the 36 bytes hold.
    pub fn from_bytes(bytes: &[u8]) -> (rsdp: Self)
        requires
            bytes@.len() == 36,
        ensures
            rsdp.signature@ == bytes@.subrange(0, 8),
            rsdp.checksum == bytes@[8],
            rsdp.oem_id@ == bytes@.subrange(9, 15),
            rsdp.revision == bytes@[15],
            rsdp.deprecated == u32_at(bytes@, 16),
            rsdp.length == u32_at(bytes@, 20),
            rsdp.xsdt_address == u64_at(bytes@, 24),
            rsdp.extended_checksum == bytes@[32],
            rsdp.reserved@ == bytes@.subrange(33, 36),
    {
        let rsdp = RSDP64Bit {
            signature: [
                bytes[0],
                bytes[1],
                bytes[2],
                bytes[3],
                bytes[4],
                bytes[5],
                bytes[6],
                bytes[7],
            ],
            checksum: bytes[8],
            oem_id: [bytes[9], bytes[10], bytes[11], bytes[12], bytes[13], bytes[14]],
            revision: bytes[15],
            deprecated: read_u32(bytes, 16),
            length: read_u32(bytes, 20),
            xsdt_address: read_u64(bytes, 24),
            extended_checksum: bytes[32],
            reserved: [bytes[33], bytes[34], bytes[35]],
        };
        assert(rsdp.signature@ =~= bytes@.subrange(0, 8));
        assert(rsdp.oem_id@ =~= bytes@.subrange(9, 15));
        assert(rsdp.reserved@ =~= bytes@.subrange(33, 36));
        rsdp
    }

    /// The physical address of the extended system description table.
    pub fn xsdt_address(&self) -> (address: u64)
        ensures
            address == self.xsdt_address,
    {
        self.xsdt_address
    }
}

/// The header that every system description table starts with.
#[derive(Clone, Copy, Debug)]
pub struct SDTHeader {
    pub signature: [u8; 4],
    pub length: u32,
    pub revision: u8,
    pub checksum: u8,
    pub oem_id: [u8; 6],
    pub oem_table_id: [u8; 8],
    pub oem_revision: u32,
    pub creator_id: u32,
    pub creator_revision: u32,
}

impl SDTHeader {
    /// Whether the signature is the four given characters.
    pub open spec fn has_signature(&self, first: u8, second: u8, third: u8, fourth: u8) -> bool {
        self.signature@ == seq![first, second, third, fourth]
    }

    /// The header that the first 36 bytes of a table hold.
    pub fn from_bytes(bytes: &[u8]) -> (header: Self)
        requires
            bytes@.len() >= 36,
        ensures
            header.signature@ == bytes@.subrange(0, 4),
            header.length == u32_at(bytes@, 4),
            header.revision == bytes@[8],
            header.checksum == bytes@[9],
            header.oem_id@ == bytes@.subrange(10, 16),
            header.oem_table_id@ == bytes@.subrange(16, 24),
            header.oem_revision == u32_at(bytes@, 24),
            header.creator_id == u32_at(bytes@, 28),
            header.creator_revision == u32_at(bytes@, 32),
    {
        let header = SDTHeader {
            signature: [bytes[0], bytes[1], bytes[2], bytes[3]],
            length: read_u32(bytes, 4),
            revision: bytes[8],
            checksum: bytes[9],
            oem_id: [bytes[10], bytes[11], bytes[12], bytes[13], bytes[14], bytes[15]],
            oem_table_id: [
                bytes[16],
                bytes[17],
                bytes[18],
                bytes[19],
                bytes[20],
                bytes[21],
                bytes[22],
                bytes[23],
            ],
            oem_revision: read_u32(bytes, 24),
            creator_id: read_u32(bytes, 28),
            creator_revision: read_u32(bytes, 32),
        };
        assert(header.signature@ =~= bytes@.subrange(0, 4));
        assert(header.oem_id@ =~= bytes@.subrange(10, 16));
        assert(header.oem_table_id@ =~= bytes@.subrange(16, 24));
        header
    }

    /// Whether the signature is the four given characters.
    pub fn signature_is(&self, first: u8, second: u8, third: u8, fourth: u8) -> (same: bool)
        ensures
            same == self.has_signature(first, second, third, fourth),
    {
        let same = self.signature[0] == first && self.signature[1] == second && self.signature[2]
            == third && self.signature[3] == fourth;
        proof {
            if same {
                assert(self.signature@ =~= seq![first, second, third, fourth]);
            }
        }
        same
    }
}

/// The extended system description table: a header followed by the
/// physical addresses of the other tables, eight bytes each.
#[derive(Clone, Copy, Debug)]
pub struct XSDT {
    pub header: SDTHeader,
}

impl XSDT {
    /// The number of addresses in the table.
    pub open spec fn spec_length(&self) -> int {
        (self.header.length - SDT_HEADER_LENGTH) / 8
    }

    /// The `index`-th address in a table with the given bytes.
    pub open spec fn pointer_in(table: Seq<u8>, index: int) -> u64 {
        u64_at(table, 36 + 8 * index)
    }

    /// Whether the table, whose bytes are `table`, is valid: its signature
    /// is `XSDT` and its bytes add up to zero modulo 256.
    pub fn checksum(&self, table: &[u8]) -> (valid: bool)
        ensures
            valid == (self.header.has_signature(0x58, 0x53, 0x44, 0x54) && sums_to_zero(table@)),
    {
        if !self.header.signature_is(0x58, 0x53, 0x44, 0x54) {
            return false;
        }
        validate_checksum(table)
    }

    /// The number of addresses in the table. The length in the header must
    /// cover the header itself.
    pub fn length(&self) -> (length: u64)
        requires
            self.header.length >= SDT_HEADER_LENGTH,
        ensures
            length == self.spec_length(),
    {
        (self.header.length as u64 - SDT_HEADER_LENGTH) / 8
    }

    /// The `index`-th address in the table, whose bytes are `table`.
    pub fn get_pointer(&self, table: &[u8], index: u64) -> (address: u64)
        requires
            self.header.length >= SDT_HEADER_LENGTH,
            table@.len() == self.header.length,
            index < self.spec_length(),
        ensures
            address == Self::pointer_in(table@, index as int),
    {
        let start: usize = (36 + 8 * index) as usize;
        read_u64(table, start)
    }
}

} // verus!
