use vstd::prelude::*;

use crate::bytes::{be_u16_at, be_u32_at, be_u64_at, read_be_u16, read_be_u32, read_be_u64};
use crate::entry::cluster_aligned;
use crate::error::IOError;
use crate::host::read_ok;
use super::{ImageView, QCow2BDS, REFT_OFFSET_MASK};

verus! {

/// The index of the refcount entry for `offset` inside its refcount block.
pub open spec fn refblock_index(v: ImageView, offset: u64) -> u32 {
    ((offset >> (v.cluster_bits as u64)) as u32) & ((v.refblock_size - 1) as u32)
}

/// The raw refcount table entry that covers `offset`; zero beyond the end of the table.
pub open spec fn reftable_entry(v: ImageView, offset: u64) -> u64 {
    let i = offset >> (v.reftable_bits as u64);
    if i >= v.reftable.len() { 0 } else { v.reftable[i as int] }
}

/// The refcount that a sub-byte entry holds: entry `index` of width `1 << order` bits.
pub open spec fn sub_byte_refcount(byte: u8, index: u32, order: u8) -> u64 {
    let shift = ((index << (order as u32)) & 7u32) as u8;
    let mask = (((1u16 << (1u16 << (order as u16))) - 1u16) as u16) as u8;
    ((byte >> shift) & mask) as u64
}

/// The reference count of the cluster at `offset`, as the refcount structures on disk
/// record it: zero where no refcount block covers it.
pub open spec fn refcount_of(v: ImageView, offset: u64) -> Result<u64, IOError> {
    let block = reftable_entry(v, offset) & REFT_OFFSET_MASK;
    let idx = refblock_index(v, offset);
    let f = v.file;
    if block == 0 {
        Ok(0)
    } else if !cluster_aligned(block, v.cluster_size) {
        Err(IOError::InvalidMetadata)
    } else if v.refcount_order == 6 {
        let pos = block + idx * 8;
        if read_ok(f, pos, 8) { Ok(be_u64_at(f, pos)) } else { Err(IOError::GenericError) }
    } else if v.refcount_order == 5 {
        let pos = block + idx * 4;
        if read_ok(f, pos, 4) { Ok(be_u32_at(f, pos) as u64) } else { Err(IOError::GenericError) }
    } else if v.refcount_order == 4 {
        let pos = block + idx * 2;
        if read_ok(f, pos, 2) { Ok(be_u16_at(f, pos) as u64) } else { Err(IOError::GenericError) }
    } else {
        let pos = block + (idx >> (3 - v.refcount_order) as u32);
        if read_ok(f, pos, 1) {
            Ok(sub_byte_refcount(f[pos], idx, v.refcount_order))
        } else {
            Err(IOError::GenericError)
        }
    }
}

/// Extracts entry `index` of width `1 << order` bits (`order` below 3) from a refcount byte.
pub fn refcount_in_byte(byte: u8, index: u32, order: u8) -> (r: u64)
    requires
        order <= 3,
    ensures
        r == sub_byte_refcount(byte, index, order),
{
    let width: u16 = 1u16 << (order as u16);
    assert(1 <= width <= 8) by (bit_vector)
        requires
            width == 1u16 << (order as u16),
            order <= 3,
    ;
    let full: u16 = 1u16 << width;
    assert(2 <= full <= 256) by (bit_vector)
        requires
            full == 1u16 << width,
            1 <= width <= 8,
    ;
    let mask: u8 = (full - 1) as u8;
    let shift: u32 = (index << (order as u32)) & 7u32;
    assert(shift < 8) by (bit_vector)
        requires
            shift == (index << (order as u32)) & 7u32,
    ;
    ((byte >> (shift as u8)) & mask) as u64
}

impl QCow2BDS {
    /// Looks up the reference count of the cluster at `offset` in the refcount structures.
    pub fn get_refcount(&self, offset: u64) -> (r: Result<u64, IOError>)
        requires
            self.wf(),
        ensures
            r == refcount_of(self@, offset),
    {
        proof {
            self.lemma_view_fields();
            super::lemma_geometry(self@);
        }
        // Bounds the file's length by usize::MAX for the overflow case below.
        let _file_len = self.file.len();
        let cluster_index = offset >> (self.cluster_bits as u64);
        let reftable_index = offset >> (self.reftable_bits as u64);
        let refblock_index: u32 = (#[verifier::truncate] (cluster_index as u32)) & (self.refblock_size - 1);
        let entry = if reftable_index >= self.reftable.len() as u64 {
            0u64
        } else {
            self.reftable[reftable_index as usize]
        };
        let refblock_offset = entry & REFT_OFFSET_MASK;
        if refblock_offset == 0 {
            return Ok(0);
        }
        if (refblock_offset & ((self.cluster_size - 1) as u64)) != 0 {
            return Err(IOError::InvalidMetadata);
        }
        let order = self.refcount_order;
        let rbs = self.refblock_size;
        let cb = self.cluster_bits as u32;
        assert(refblock_index < 0x1000000) by (bit_vector)
            requires
                refblock_index == (cluster_index as u32) & ((rbs - 1) as u32),
                1 <= rbs <= 0x1000000,
        ;
        let width: u64 = if order == 6 { 8 } else if order == 5 { 4 } else if order == 4 { 2 } else { 1 };
        let byte_offset: u64 = if order >= 4 {
            (refblock_index as u64) * width
        } else {
            (refblock_index >> ((3 - order) as u32)) as u64
        };
        if refblock_offset > u64::MAX - byte_offset {
            return Err(IOError::GenericError);
        }
        let data = match self.file.pread(refblock_offset + byte_offset, width as usize) {
            Ok(d) => d,
            Err(e) => return Err(e),
        };
        if order == 6 {
            Ok(read_be_u64(data.as_slice(), 0))
        } else if order == 5 {
            Ok(read_be_u32(data.as_slice(), 0) as u64)
        } else if order == 4 {
            Ok(read_be_u16(data.as_slice(), 0) as u64)
        } else {
            Ok(refcount_in_byte(data[0], refblock_index, order))
        }
    }

    /// Changes the reference count of the cluster at `offset` by `delta`. Writing refcounts
    /// is not supported: the refcount structures on disk are left as they are.
    pub fn change_refcount(&mut self, offset: u64, delta: i8) -> (r: Result<(), IOError>)
        ensures
            r == Err::<(), IOError>(IOError::UnsupportedImageFeature),
            final(self)@ == old(self)@,
    {
        Err(IOError::UnsupportedImageFeature)
    }
}

} // verus!
