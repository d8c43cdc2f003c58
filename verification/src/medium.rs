//! In-memory storage medium: the synchronous block device the engine drives.
//!
//! It plays the role of the raw block link: whole-sector reads and writes
//! against a flat byte store, a capacity query, and a flush. A request that
//! reaches past the end of the medium fails as the link would, with a
//! transport error, and changes nothing.

use vstd::prelude::*;

use crate::bytesops::{copy_into, sub_bytes, zero_bytes, zeros};
use crate::errors::DiskError;
use crate::layout::SECTOR_SIZE;

verus! {

/// A medium is a whole number of 512-byte sectors, with a sector count that
/// fits the link's 32-bit addressing.
pub open spec fn medium_wf(m: Seq<u8>) -> bool {
    m.len() % 512 == 0 && m.len() <= u32::MAX as int * 512
}

/// Number of whole sectors of a medium.
pub open spec fn num_sectors(m: Seq<u8>) -> int {
    m.len() as int / 512
}

/// Bytes of physical sector `p`.
pub open spec fn sector_bytes(m: Seq<u8>, p: int) -> Seq<u8> {
    m.subrange(p * 512, p * 512 + 512)
}

/// Flat in-memory block store.
pub struct StorageMedium {
    bytes: Vec<u8>,
}

impl View for StorageMedium {
    type V = Seq<u8>;

    closed spec fn view(&self) -> Seq<u8> {
        self.bytes@
    }
}

impl StorageMedium {
    /// A freshly initialised medium: `block_count` sectors, all zero.
    pub fn new(block_count: u32) -> (r: StorageMedium)
        requires
            block_count as int * 512 <= usize::MAX as int,
        ensures
            r@ == zeros(block_count as int * 512),
            medium_wf(r@),
            num_sectors(r@) == block_count as int,
    {
        let n: usize = (block_count as usize) * SECTOR_SIZE;
        let bytes = zero_bytes(n);
        proof {
            vstd::arithmetic::div_mod::lemma_fundamental_div_mod_converse(
                block_count as int * 512,
                512,
                block_count as int,
                0,
            );
        }
        StorageMedium { bytes }
    }

    /// Block size and block count, as the link reports them.
    pub fn get_capacity(&self) -> (r: (u32, u32))
        requires
            medium_wf(self@),
        ensures
            r.0 == 512,
            r.1 as int == num_sectors(self@),
    {
        proof {
            vstd::arithmetic::div_mod::lemma_fundamental_div_mod(self@.len() as int, 512);
        }
        (512, (self.bytes.len() / SECTOR_SIZE) as u32)
    }

    /// Reads `nblocks` whole sectors starting at `lba`. A range that reaches
    /// past the end of the medium is a transport error.
    pub fn read_sectors(&self, lba: u32, nblocks: u32) -> (r: Result<Vec<u8>, DiskError>)
        requires
            medium_wf(self@),
        ensures
            r is Ok <==> lba as int + nblocks as int <= num_sectors(self@),
            r matches Ok(v) ==> v@ == self@.subrange(
                lba as int * 512,
                (lba as int + nblocks as int) * 512,
            ) && v@.len() == nblocks as int * 512,
            r matches Err(e) ==> e == DiskError::TransportError,
    {
        let count = self.bytes.len() / SECTOR_SIZE;
        proof {
            vstd::arithmetic::div_mod::lemma_fundamental_div_mod(self@.len() as int, 512);
        }
        if lba as u64 + nblocks as u64 > count as u64 {
            return Err(DiskError::TransportError);
        }
        proof {
            assert((lba as int + nblocks as int) * 512 == lba as int * 512 + nblocks as int * 512)
                by (nonlinear_arith);
            assert((lba as int + nblocks as int) * 512 <= num_sectors(self@) * 512)
                by (nonlinear_arith)
                requires
                    lba as int + nblocks as int <= num_sectors(self@),
            ;
        }
        let start: usize = (lba as usize) * SECTOR_SIZE;
        let end: usize = start + (nblocks as usize) * SECTOR_SIZE;
        Ok(sub_bytes(&self.bytes, start, end))
    }

    /// Writes `data` (a whole number of sectors) starting at sector `lba`.
    /// A range that reaches past the end of the medium is a transport error
    /// and changes nothing.
    pub fn write_sectors(&mut self, lba: u32, data: &Vec<u8>) -> (r: Result<(), DiskError>)
        requires
            medium_wf(old(self)@),
            data@.len() % 512 == 0,
        ensures
            r is Ok <==> lba as int * 512 + data@.len() <= old(self)@.len(),
            r matches Ok(()) ==> final(self)@ == old(self)@.subrange(0, lba as int * 512) + data@
                + old(self)@.subrange(lba as int * 512 + data@.len(), old(self)@.len() as int),
            r matches Err(e) ==> e == DiskError::TransportError && final(self)@ == old(self)@,
            final(self)@.len() == old(self)@.len(),
            medium_wf(final(self)@),
    {
        proof {
            vstd::arithmetic::div_mod::lemma_fundamental_div_mod(old(self)@.len() as int, 512);
        }
        if data.len() > self.bytes.len() {
            return Err(DiskError::TransportError);
        }
        if (lba as u64) * 512 > (self.bytes.len() - data.len()) as u64 {
            return Err(DiskError::TransportError);
        }
        let off: usize = (lba as usize) * SECTOR_SIZE;
        copy_into(&mut self.bytes, off, data);
        Ok(())
    }

    /// Asks the link to flush; the in-memory store is always durable.
    pub fn flush(&self) -> (r: Result<(), DiskError>)
        ensures
            r is Ok,
    {
        Ok(())
    }

    /// Flips the bits of `mask` in the byte at `index`. This models on-medium
    /// corruption, the event tamper detection is about.
    pub fn xor_byte(&mut self, index: usize, mask: u8)
        requires
            index < old(self)@.len(),
        ensures
            final(self)@ == old(self)@.update(index as int, old(self)@[index as int] ^ mask),
    {
        let b = self.bytes[index];
        self.bytes.set(index, b ^ mask);
    }

    /// Bytes of one sector, for inspection.
    pub fn sector(&self, lba: u32) -> (r: Result<Vec<u8>, DiskError>)
        requires
            medium_wf(self@),
        ensures
            r is Ok <==> (lba as int) < num_sectors(self@),
            r matches Ok(v) ==> v@ == sector_bytes(self@, lba as int),
            r matches Err(e) ==> e == DiskError::TransportError,
    {
        let r = self.read_sectors(lba, 1);
        proof {
            if (lba as int) < num_sectors(self@) {
                assert((lba as int + 1) * 512 == lba as int * 512 + 512) by (nonlinear_arith);
            }
        }
        r
    }
}

/// A well-formed medium has at most `u32::MAX` sectors, and its byte length
/// is exactly its sector count times the sector size.
pub proof fn lemma_num_sectors_bound(m: Seq<u8>)
    requires
        medium_wf(m),
    ensures
        num_sectors(m) <= u32::MAX as int,
        num_sectors(m) * 512 == m.len(),
        0 <= num_sectors(m),
{
    vstd::arithmetic::div_mod::lemma_fundamental_div_mod(m.len() as int, 512);
    assert(num_sectors(m) <= u32::MAX as int) by {
        if num_sectors(m) > u32::MAX as int {
            assert(num_sectors(m) * 512 > u32::MAX as int * 512) by (nonlinear_arith)
                requires
                    num_sectors(m) > u32::MAX as int,
            ;
        }
    }
}

/// Overwriting exactly one sector changes that sector's bytes and no
/// other's.
pub proof fn lemma_single_sector_write(m0: Seq<u8>, m1: Seq<u8>, p: int, data: Seq<u8>)
    requires
        data.len() == 512,
        0 <= p,
        p * 512 + 512 <= m0.len(),
        m1 == m0.subrange(0, p * 512) + data + m0.subrange(p * 512 + 512, m0.len() as int),
    ensures
        m1.len() == m0.len(),
        sector_bytes(m1, p) == data,
        forall|q: int|
            0 <= q && q != p && q * 512 + 512 <= m0.len() ==> #[trigger] sector_bytes(m1, q)
                == sector_bytes(m0, q),
{
    assert(sector_bytes(m1, p) =~= data);
    assert forall|q: int|
        0 <= q && q != p && q * 512 + 512 <= m0.len() implies #[trigger] sector_bytes(m1, q)
        == sector_bytes(m0, q) by {
        if q < p {
            assert(q * 512 + 512 <= p * 512) by (nonlinear_arith)
                requires
                    q < p,
            ;
        } else {
            assert(p * 512 + 512 <= q * 512) by (nonlinear_arith)
                requires
                    p < q,
            ;
        }
        assert(sector_bytes(m1, q) =~= sector_bytes(m0, q));
    }
}

} // verus!
