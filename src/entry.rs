use vstd::prelude::*;

use crate::error::IOError;

verus! {

/// Bits of an L1 entry that hold the L2 table offset.
pub const L1E_OFFSET_MASK: u64 = 0x00fffffffffffe00u64;
/// Bits of a standard L2 entry that hold the host cluster offset.
pub const L2E_OFFSET_MASK: u64 = 0x00fffffffffffe00u64;
/// Bits of a compressed L2 entry that hold its offset and sector count.
pub const L2E_COMPRESSED_MASK: u64 = 0x3fffffffffffffffu64;
/// The referenced cluster is used by this image alone and may be changed in place.
pub const OFLAG_COPIED: u64 = 0x8000000000000000u64;
/// The L2 entry describes a compressed cluster.
pub const OFLAG_COMPRESSED: u64 = 0x4000000000000000u64;
/// The L2 entry's cluster reads as zeros.
pub const OFLAG_ZERO: u64 = 1u64;
/// Size of a sector, the unit of a compressed cluster's length.
pub const SECTOR_SIZE: u64 = 512u64;

/// A decoded entry of the L1 table.
#[derive(Debug, Clone, Copy, PartialEq, Eq, Structural)]
pub enum L1Entry {
    /// No L2 table exists for this range.
    Unallocated,
    /// The L2 table's offset, and whether it is owned by this image alone (COPIED).
    Allocated(u64, bool),
}

/// A decoded entry of an L2 table.
#[derive(Debug, Clone, Copy, PartialEq, Eq, Structural)]
pub enum L2Entry {
    /// The cluster is not allocated here.
    Unallocated,
    /// Data lies at the host offset; the flag is COPIED.
    Normal(u64, bool),
    /// The cluster reads as zeros; storage may still be reserved at the offset.
    Zero(Option<u64>, bool),
    /// A compressed cluster: host offset and byte length.
    Compressed(u64, u64),
}

/// Whether `off` is a multiple of `cluster_size` (a power of two).
pub open spec fn cluster_aligned(off: u64, cluster_size: u32) -> bool {
    off & ((cluster_size - 1) as u64) == 0
}

/// The L1 entry that the raw word `bits` encodes.
pub open spec fn l1_decode(bits: u64, cluster_size: u32) -> Result<L1Entry, IOError> {
    let off = bits & L1E_OFFSET_MASK;
    if off == 0 {
        Ok(L1Entry::Unallocated)
    } else if !cluster_aligned(off, cluster_size) {
        Err(IOError::InvalidMetadata)
    } else {
        Ok(L1Entry::Allocated(off, bits & OFLAG_COPIED != 0))
    }
}

/// The raw word that stores an L1 entry.
pub open spec fn l1_encode(e: L1Entry) -> u64 {
    match e {
        L1Entry::Unallocated => 0,
        L1Entry::Allocated(off, copied) => if copied { off | OFLAG_COPIED } else { off },
    }
}

/// The low bits of a compressed L2 entry that hold the host offset.
pub open spec fn compressed_offset_mask(shift: u8) -> u64 {
    ((1u64 << shift) - 1) as u64
}

/// The L2 entry that the raw word `bits` encodes.
pub open spec fn l2_decode(bits: u64, cluster_size: u32, shift: u8) -> Result<L2Entry, IOError> {
    if bits & OFLAG_COMPRESSED != 0 {
        let sectors = (bits & L2E_COMPRESSED_MASK) >> shift;
        Ok(L2Entry::Compressed(bits & compressed_offset_mask(shift), (sectors * SECTOR_SIZE) as u64))
    } else {
        let off = bits & L2E_OFFSET_MASK;
        let copied = bits & OFLAG_COPIED != 0;
        if !cluster_aligned(off, cluster_size) {
            Err(IOError::InvalidMetadata)
        } else if bits & OFLAG_ZERO != 0 {
            if off == 0 {
                Ok(L2Entry::Zero(None, false))
            } else {
                Ok(L2Entry::Zero(Some(off), copied))
            }
        } else if off == 0 {
            Ok(L2Entry::Unallocated)
        } else {
            Ok(L2Entry::Normal(off, copied))
        }
    }
}

/// The sector count that a compressed cluster of `len` bytes is stored with.
pub open spec fn sectors_of(len: u64) -> u64 {
    ((len + 511) / 512) as u64
}

/// Whether `e` can be stored: a compressed entry's offset and sector count must fit their bits.
pub open spec fn l2_encodable(e: L2Entry, shift: u8) -> bool {
    match e {
        L2Entry::Compressed(off, len) => {
            &&& len <= u64::MAX - 511
            &&& off & !compressed_offset_mask(shift) == 0
            &&& (sectors_of(len) << shift) >> shift == sectors_of(len)
        },
        _ => true,
    }
}

/// The raw word that stores an L2 entry.
pub open spec fn l2_encode(e: L2Entry, shift: u8) -> u64 {
    match e {
        L2Entry::Unallocated => 0,
        L2Entry::Normal(off, copied) => if copied { off | OFLAG_COPIED } else { off },
        L2Entry::Zero(None, _) => OFLAG_ZERO,
        L2Entry::Zero(Some(off), copied) => if copied {
            off | OFLAG_COPIED | OFLAG_ZERO
        } else {
            off | OFLAG_ZERO
        },
        L2Entry::Compressed(off, len) => off | (sectors_of(len) << shift) | OFLAG_COMPRESSED,
    }
}

/// Whether `cluster_bits` is a cluster size this engine handles.
pub open spec fn valid_cluster_bits(cluster_bits: u32) -> bool {
    9 <= cluster_bits <= 21
}

/// The bit at which a compressed entry's sector count starts, for a given cluster size.
pub open spec fn compressed_shift_of(cluster_bits: u32) -> u8 {
    (63 - (cluster_bits - 8)) as u8
}

/// A host offset that an entry can point at: nonzero, inside the offset bits, cluster-aligned.
pub open spec fn valid_host_offset(off: u64, cluster_size: u32) -> bool {
    off != 0 && off & !L1E_OFFSET_MASK == 0 && cluster_aligned(off, cluster_size)
}

/// Whether `e` is an L1 entry that a well-formed image can hold.
pub open spec fn valid_l1_entry(e: L1Entry, cluster_size: u32) -> bool {
    match e {
        L1Entry::Unallocated => true,
        L1Entry::Allocated(off, _) => valid_host_offset(off, cluster_size),
    }
}

/// Whether `e` is an L2 entry that a well-formed image can hold.
pub open spec fn valid_l2_entry(e: L2Entry, cluster_size: u32, shift: u8) -> bool {
    match e {
        L2Entry::Unallocated => true,
        L2Entry::Normal(off, _) => valid_host_offset(off, cluster_size),
        L2Entry::Zero(None, copied) => !copied,
        L2Entry::Zero(Some(off), _) => valid_host_offset(off, cluster_size),
        L2Entry::Compressed(off, len) => {
            &&& off & !compressed_offset_mask(shift) == 0
            &&& len % 512 == 0
            &&& (len / 512) < (1u64 << ((62 - shift) as u64))
        },
    }
}

/// Decoding an encoded valid L1 entry gives the entry back, for every supported cluster size.
pub proof fn lemma_l1_round_trip(e: L1Entry, cluster_bits: u32)
    requires
        valid_cluster_bits(cluster_bits),
        valid_l1_entry(e, (1u32 << cluster_bits) as u32),
    ensures
        l1_decode(l1_encode(e), (1u32 << cluster_bits) as u32) == Ok::<L1Entry, IOError>(e),
{
    if let L1Entry::Allocated(off, copied) = e {
        let bits = l1_encode(e);
        assert(off & !0x00fffffffffffe00u64 == 0);
        assert(bits & 0x00fffffffffffe00u64 == off && (bits & 0x8000000000000000u64 != 0) == copied) by (bit_vector)
            requires
                off & !0x00fffffffffffe00u64 == 0,
                bits == if copied { off | 0x8000000000000000u64 } else { off },
        ;
    } else {
        assert(0u64 & 0x00fffffffffffe00u64 == 0) by (bit_vector);
    }
}

/// Decoding an encoded valid L2 entry gives the entry back, for every supported cluster size.
pub proof fn lemma_l2_round_trip(e: L2Entry, cluster_bits: u32)
    requires
        valid_cluster_bits(cluster_bits),
        valid_l2_entry(e, (1u32 << cluster_bits) as u32, compressed_shift_of(cluster_bits)),
    ensures
        l2_encodable(e, compressed_shift_of(cluster_bits)),
        l2_decode(
            l2_encode(e, compressed_shift_of(cluster_bits)),
            (1u32 << cluster_bits) as u32,
            compressed_shift_of(cluster_bits),
        ) == Ok::<L2Entry, IOError>(e),
{
    let shift = compressed_shift_of(cluster_bits);
    let cs = (1u32 << cluster_bits) as u32;
    let bits = l2_encode(e, shift);
    assert(50 <= shift <= 62);
    match e {
        L2Entry::Unallocated => {
            assert(bits & OFLAG_COMPRESSED == 0 && bits & L2E_OFFSET_MASK == 0 && bits & OFLAG_ZERO == 0) by (bit_vector)
                requires
                    bits == 0u64,
            ;
            assert(cluster_aligned(0, cs)) by (bit_vector);
        },
        L2Entry::Normal(off, copied) => {
            assert(bits & 0x4000000000000000u64 == 0 && bits & 0x00fffffffffffe00u64 == off
                && (bits & 0x8000000000000000u64 != 0) == copied && bits & 1u64 == 0) by (bit_vector)
                requires
                    off & !0x00fffffffffffe00u64 == 0,
                    bits == if copied { off | 0x8000000000000000u64 } else { off },
            ;
        },
        L2Entry::Zero(None, _) => {
            assert(bits & 0x4000000000000000u64 == 0 && bits & 0x00fffffffffffe00u64 == 0
                && bits & 1u64 != 0) by (bit_vector)
                requires
                    bits == 1u64,
            ;
            assert(cluster_aligned(0, cs)) by (bit_vector);
        },
        L2Entry::Zero(Some(off), copied) => {
            assert(bits & 0x4000000000000000u64 == 0 && bits & 0x00fffffffffffe00u64 == off
                && (bits & 0x8000000000000000u64 != 0) == copied && bits & 1u64 != 0) by (bit_vector)
                requires
                    off & !0x00fffffffffffe00u64 == 0,
                    bits == if copied {
                        off | 0x8000000000000000u64 | 1u64
                    } else {
                        off | 1u64
                    },
            ;
        },
        L2Entry::Compressed(off, len) => {
            let secs = sectors_of(len);
            assert((1u64 << ((62 - shift) as u64)) <= 0x1000u64) by (bit_vector)
                requires
                    50 <= shift <= 62,
            ;
            assert(len <= u64::MAX - 511);
            assert(secs == len / 512);
            assert(secs * 512 == len);
            let mask = compressed_offset_mask(shift);
            assert(bits & 0x4000000000000000u64 != 0
                && bits & mask == off
                && (bits & 0x3fffffffffffffffu64) >> shift == secs
                && (secs << shift) >> shift == secs) by (bit_vector)
                requires
                    50 <= shift <= 62,
                    mask == ((1u64 << shift) - 1) as u64,
                    off & !mask == 0,
                    secs < (1u64 << ((62 - shift) as u64)),
                    bits == off | (secs << shift) | 0x4000000000000000u64,
            ;
        },
    }
}

impl L1Entry {
    /// Decodes a raw L1 word; a misaligned L2 table offset is invalid metadata.
    pub fn from_bits(l1_entry: u64, cluster_size: u32) -> (r: Result<L1Entry, IOError>)
        requires
            cluster_size >= 1,
        ensures
            r == l1_decode(l1_entry, cluster_size),
    {
        let l2_offset = l1_entry & L1E_OFFSET_MASK;
        if l2_offset == 0 {
            Ok(L1Entry::Unallocated)
        } else if (l2_offset & ((cluster_size - 1) as u64)) != 0 {
            Err(IOError::InvalidMetadata)
        } else {
            Ok(L1Entry::Allocated(l2_offset, (l1_entry & OFLAG_COPIED) != 0))
        }
    }

    /// Encodes the entry as a raw L1 word.
    pub fn to_bits(&self) -> (r: u64)
        ensures
            r == l1_encode(*self),
    {
        match *self {
            L1Entry::Unallocated => 0u64,
            L1Entry::Allocated(offset, false) => offset,
            L1Entry::Allocated(offset, true) => offset | OFLAG_COPIED,
        }
    }
}

impl L2Entry {
    /// Decodes a raw L2 word; a misaligned offset of a standard entry is invalid metadata.
    pub fn from_bits(l2_entry: u64, cluster_size: u32, compressed_shift: u8) -> (r: Result<L2Entry, IOError>)
        requires
            cluster_size >= 1,
            9 <= compressed_shift <= 62,
        ensures
            r == l2_decode(l2_entry, cluster_size, compressed_shift),
    {
        if (l2_entry & OFLAG_COMPRESSED) != 0 {
            assert(1u64 << compressed_shift >= 1) by (bit_vector)
                requires
                    compressed_shift < 64,
            ;
            let offset = l2_entry & ((1u64 << compressed_shift) - 1);
            let sectors = (l2_entry & L2E_COMPRESSED_MASK) >> compressed_shift;
            assert(sectors <= 0x1fffffffffffffu64) by (bit_vector)
                requires
                    sectors == (l2_entry & 0x3fffffffffffffffu64) >> compressed_shift,
                    9 <= compressed_shift <= 62,
            ;
            assert(sectors * 512 <= u64::MAX) by (nonlinear_arith)
                requires
                    sectors <= 0x1fffffffffffffu64,
            ;
            let length = sectors * SECTOR_SIZE;
            Ok(L2Entry::Compressed(offset, length))
        } else {
            let offset = l2_entry & L2E_OFFSET_MASK;
            let copied = (l2_entry & OFLAG_COPIED) != 0;
            if (offset & ((cluster_size - 1) as u64)) != 0 {
                Err(IOError::InvalidMetadata)
            } else if (l2_entry & OFLAG_ZERO) != 0 {
                if offset == 0 {
                    Ok(L2Entry::Zero(None, false))
                } else {
                    Ok(L2Entry::Zero(Some(offset), copied))
                }
            } else if offset == 0 {
                Ok(L2Entry::Unallocated)
            } else {
                Ok(L2Entry::Normal(offset, copied))
            }
        }
    }

    /// Encodes the entry as a raw L2 word.
    pub fn to_bits(&self, compressed_shift: u8) -> (r: u64)
        requires
            compressed_shift < 64,
            l2_encodable(*self, compressed_shift),
        ensures
            r == l2_encode(*self, compressed_shift),
    {
        match *self {
            L2Entry::Unallocated => 0u64,
            L2Entry::Normal(offset, false) => offset,
            L2Entry::Normal(offset, true) => offset | OFLAG_COPIED,
            L2Entry::Zero(None, _) => OFLAG_ZERO,
            L2Entry::Zero(Some(offset), false) => offset | OFLAG_ZERO,
            L2Entry::Zero(Some(offset), true) => offset | OFLAG_COPIED | OFLAG_ZERO,
            L2Entry::Compressed(offset, length) => {
                assert(length <= u64::MAX - 511);
                let secs = (length + 511) / SECTOR_SIZE;
                offset | (secs << compressed_shift) | OFLAG_COMPRESSED
            },
        }
    }
}

} // verus!
