use vstd::prelude::*;

pub mod allocation;
pub mod header;
pub mod io;
pub mod open;
pub mod refcount;
pub mod split;

use crate::entry::{cluster_aligned, L1E_OFFSET_MASK};
use crate::host::HostFile;

verus! {

/// Smallest supported cluster size, as a power of two.
pub const MIN_CLUSTER_BITS: u32 = 9;
/// Largest supported cluster size, as a power of two.
pub const MAX_CLUSTER_BITS: u32 = 21;
/// Largest L1 table, in bytes.
pub const MAX_L1_SIZE: u32 = 0x02000000u32;
/// Largest refcount table, in entries.
pub const MAX_REFTABLE_SIZE: u32 = 0x00800000u32;
/// Bits of a refcount table entry that hold the refcount block offset.
pub const REFT_OFFSET_MASK: u64 = 0xfffffffffffffe00u64;

/// An open qcow2 image: its geometry, its L1 table and refcount table, the host file that
/// holds it and the optional backing image.
pub struct QCow2BDS {
    pub(crate) file: HostFile,
    pub(crate) backing: Option<HostFile>,
    pub(crate) backing_file_name: Vec<u8>,
    pub(crate) disk_size: u64,
    pub(crate) qcow_version: u8,
    pub(crate) cluster_bits: u8,
    pub(crate) cluster_size: u32,
    pub(crate) cluster_sectors: u32,
    pub(crate) l1_bits: u8,
    pub(crate) l1_size: u32,
    pub(crate) l2_bits: u8,
    pub(crate) l2_size: u32,
    pub(crate) l1_offset: u64,
    pub(crate) l1_table: Vec<u64>,
    pub(crate) refcount_order: u8,
    pub(crate) reftable_bits: u8,
    pub(crate) refblock_size: u32,
    pub(crate) reftable_offset: u64,
    pub(crate) reftable_size: u32,
    pub(crate) reftable: Vec<u64>,
    pub(crate) first_free_cluster_offset: u64,
}

/// The mathematical state of an open image.
pub struct ImageView {
    pub version: u8,
    pub disk_size: u64,
    pub cluster_bits: u8,
    pub cluster_size: u32,
    pub l1_bits: u8,
    pub l2_bits: u8,
    pub l2_size: u32,
    pub l1_offset: u64,
    pub l1_table: Seq<u64>,
    pub refcount_order: u8,
    pub reftable_bits: u8,
    pub refblock_size: u32,
    pub reftable: Seq<u64>,
    /// Where the search for a free cluster starts.
    pub hint: u64,
    /// The bytes of the image file.
    pub file: Seq<u8>,
    /// The bytes of the backing image, if there is one.
    pub backing: Option<Seq<u8>>,
}

impl View for QCow2BDS {
    type V = ImageView;

    closed spec fn view(&self) -> ImageView {
        ImageView {
            version: self.qcow_version,
            disk_size: self.disk_size,
            cluster_bits: self.cluster_bits,
            cluster_size: self.cluster_size,
            l1_bits: self.l1_bits,
            l2_bits: self.l2_bits,
            l2_size: self.l2_size,
            l1_offset: self.l1_offset,
            l1_table: self.l1_table@,
            refcount_order: self.refcount_order,
            reftable_bits: self.reftable_bits,
            refblock_size: self.refblock_size,
            reftable: self.reftable@,
            hint: self.first_free_cluster_offset,
            file: self.file@,
            backing: match self.backing {
                Some(b) => Some(b@),
                None => None,
            },
        }
    }
}

/// The geometry that a cluster size and refcount width determine, as `ImageView` holds it.
pub open spec fn geometry_ok(v: ImageView) -> bool {
    let cb = v.cluster_bits as u32;
    &&& MIN_CLUSTER_BITS <= cb <= MAX_CLUSTER_BITS
    &&& v.cluster_size == 1u32 << cb
    &&& v.l2_bits == cb - 3
    &&& v.l2_size == 1u32 << (cb - 3) as u32
    &&& v.l1_bits == cb + cb - 3
    &&& v.refcount_order <= 6
    &&& v.refblock_size == 1u32 << (cb + 3 - v.refcount_order) as u32
    &&& v.reftable_bits == cb + cb + 3 - v.refcount_order
}

/// The invariant of an open image: its geometry is consistent, its tables are within their
/// bounds, and the L1 table addresses the whole virtual disk.
pub open spec fn image_wf(v: ImageView) -> bool {
    &&& geometry_ok(v)
    &&& 0 < v.l1_table.len() <= MAX_L1_SIZE / 8
    &&& v.reftable.len() <= MAX_REFTABLE_SIZE
    &&& v.disk_size <= (v.l1_table.len() as u64) << (v.l1_bits as u64)
    &&& cluster_aligned(v.hint, v.cluster_size)
    &&& v.hint <= L1E_OFFSET_MASK + v.cluster_size
}

/// Two states of one image share their layout: only the file's bytes, the L1 table's entries
/// and the allocation hint may differ.
pub open spec fn same_layout(a: ImageView, b: ImageView) -> bool {
    &&& a.version == b.version
    &&& a.disk_size == b.disk_size
    &&& a.cluster_bits == b.cluster_bits
    &&& a.cluster_size == b.cluster_size
    &&& a.l1_bits == b.l1_bits
    &&& a.l2_bits == b.l2_bits
    &&& a.l2_size == b.l2_size
    &&& a.l1_offset == b.l1_offset
    &&& a.l1_table.len() == b.l1_table.len()
    &&& a.refcount_order == b.refcount_order
    &&& a.reftable_bits == b.reftable_bits
    &&& a.refblock_size == b.refblock_size
    &&& a.reftable == b.reftable
    &&& a.backing == b.backing
}

/// Masking with `cluster_size - 1` takes the remainder modulo the cluster size.
pub proof fn lemma_mask_is_mod(g: u64, cluster_bits: u32)
    requires
        9 <= cluster_bits <= 21,
    ensures
        g & (((1u64 << (cluster_bits as u64)) - 1) as u64) == g % (1u64 << (cluster_bits as u64)),
        g % (1u64 << (cluster_bits as u64)) < (1u64 << (cluster_bits as u64)),
        (1u64 << (cluster_bits as u64)) > 0,
{
    let cb = cluster_bits as u64;
    vstd::arithmetic::power2::lemma2_to64();
    if cb < 21 {
        vstd::arithmetic::power2::lemma_pow2_strictly_increases(cb as nat, 21);
    }
    vstd::bits::lemma_u64_shl_is_mul(1, cb);
    vstd::bits::lemma_u64_low_bits_mask_is_mod(g, cb as nat);
    vstd::arithmetic::power2::lemma_pow2_pos(cb as nat);
}

/// The only cluster-aligned offset in `[off, off + cluster_size)` is `off` itself.
pub proof fn lemma_aligned_between(off: u64, k: u64, cluster_bits: u32)
    requires
        9 <= cluster_bits <= 21,
        cluster_aligned(off, (1u32 << cluster_bits) as u32),
        cluster_aligned(k, (1u32 << cluster_bits) as u32),
        off <= k < off + (1u32 << cluster_bits),
        off + (1u32 << cluster_bits) <= u64::MAX,
    ensures
        k == off,
{
    let cs = (1u32 << cluster_bits) as u32;
    assert(cs as u64 == 1u64 << (cluster_bits as u64)) by (bit_vector)
        requires
            9 <= cluster_bits <= 21,
            cs == (1u32 << cluster_bits) as u32,
    ;
    let c = cs as u64;
    assert(k == off) by (bit_vector)
        requires
            9 <= cluster_bits <= 21,
            c == 1u64 << (cluster_bits as u64),
            off & ((c - 1) as u64) == 0,
            k & ((c - 1) as u64) == 0,
            off <= k,
            k < off + c,
            off + c <= 0xffffffffffffffffu64,
    ;
}

/// An offset inside the offset bits of an entry is at most the offset mask.
pub proof fn lemma_offset_bound(off: u64)
    requires
        off & !L1E_OFFSET_MASK == 0,
    ensures
        off <= L1E_OFFSET_MASK,
{
    assert(off <= 0x00fffffffffffe00u64) by (bit_vector)
        requires
            off & !0x00fffffffffffe00u64 == 0,
    ;
}

/// Facts about offsets aligned to a supported cluster size.
pub proof fn lemma_aligned(off: u64, other: u64, cluster_bits: u32)
    requires
        9 <= cluster_bits <= 21,
        cluster_aligned(off, (1u32 << cluster_bits) as u32),
        cluster_aligned(other, (1u32 << cluster_bits) as u32),
        off <= L1E_OFFSET_MASK,
        other <= L1E_OFFSET_MASK,
    ensures
        off & 511 == 0,
        off & !L1E_OFFSET_MASK == 0,
        cluster_aligned((off + (1u32 << cluster_bits)) as u64, (1u32 << cluster_bits) as u32),
        off != other ==> off + (1u32 << cluster_bits) <= other || other + (1u32 << cluster_bits) <= off,
{
    let cs = (1u32 << cluster_bits) as u32;
    assert(512 <= cs <= 0x200000 && cs as u64 == 1u64 << (cluster_bits as u64)) by (bit_vector)
        requires
            9 <= cluster_bits <= 21,
            cs == (1u32 << cluster_bits) as u32,
    ;
    let c = cs as u64;
    assert(off & 511 == 0 && off & !0x00fffffffffffe00u64 == 0 && ((off + c) as u64) & ((c - 1) as u64) == 0
        && (off != other ==> off + c <= other || other + c <= off)) by (bit_vector)
        requires
            9 <= cluster_bits <= 21,
            c == 1u64 << (cluster_bits as u64),
            off & ((c - 1) as u64) == 0,
            other & ((c - 1) as u64) == 0,
            off <= 0x00fffffffffffe00u64,
            other <= 0x00fffffffffffe00u64,
    ;
}

/// The sizes that a consistent geometry implies.
pub proof fn lemma_geometry(v: ImageView)
    requires
        geometry_ok(v),
    ensures
        512 <= v.cluster_size <= 0x200000,
        64 <= v.l2_size <= 0x40000,
        v.l1_bits <= 39,
        v.reftable_bits <= 45,
        1 <= v.refblock_size <= 0x1000000,
        v.l2_size == v.cluster_size / 8,
{
    let cb = v.cluster_bits as u32;
    let ro = v.refcount_order as u32;
    let cs = v.cluster_size;
    let l2 = v.l2_size;
    let rbs = v.refblock_size;
    assert(512 <= cs <= 0x200000 && 64 <= l2 <= 0x40000 && l2 == cs / 8) by (bit_vector)
        requires
            9 <= cb <= 21,
            cs == 1u32 << cb,
            l2 == 1u32 << ((cb - 3) as u32),
    ;
    assert(1 <= rbs <= 0x1000000) by (bit_vector)
        requires
            9 <= cb <= 21,
            ro <= 6,
            rbs == 1u32 << ((cb + 3 - ro) as u32),
    ;
}

/// What the driver reports about an open image.
#[derive(Debug, Clone, Copy, PartialEq, Eq, Structural)]
pub struct BlockDriverInfo {
    pub cluster_size: u32,
    pub unallocated_blocks_are_zero: bool,
    pub can_write_zeroes_with_unmap: bool,
}

impl QCow2BDS {
    /// The cluster size; unallocated blocks read as zero; zero writes cannot unmap.
    pub fn bdrv_get_info(&self) -> (r: BlockDriverInfo)
        ensures
            r == (BlockDriverInfo {
                cluster_size: self@.cluster_size,
                unallocated_blocks_are_zero: true,
                can_write_zeroes_with_unmap: false,
            }),
    {
        BlockDriverInfo {
            cluster_size: self.cluster_size,
            unallocated_blocks_are_zero: true,
            can_write_zeroes_with_unmap: false,
        }
    }

    /// The invariant of an open image.
    pub open spec fn wf(&self) -> bool {
        image_wf(self@)
    }

    pub(crate) proof fn lemma_view_fields(&self)
        ensures
            self@.cluster_bits == self.cluster_bits,
            self@.cluster_size == self.cluster_size,
            self@.l1_bits == self.l1_bits,
            self@.l2_bits == self.l2_bits,
            self@.l2_size == self.l2_size,
            self@.l1_table == self.l1_table@,
            self@.reftable == self.reftable@,
            self@.refcount_order == self.refcount_order,
            self@.reftable_bits == self.reftable_bits,
            self@.refblock_size == self.refblock_size,
            self@.hint == self.first_free_cluster_offset,
            self@.file == self.file@,
            self@.l1_offset == self.l1_offset,
            self@.disk_size == self.disk_size,
    {
    }

    /// The size in bytes of a cluster.
    pub fn cluster_size(&self) -> (r: u32)
        ensures
            r == self@.cluster_size,
    {
        self.cluster_size
    }

    /// The size in bytes of the virtual disk.
    pub fn disk_size(&self) -> (r: u64)
        ensures
            r == self@.disk_size,
    {
        self.disk_size
    }

    /// The bytes of the image file.
    pub fn file_bytes(&self) -> (r: &HostFile)
        ensures
            r@ == self@.file,
    {
        &self.file
    }

    /// The name of the backing file, as stored in the image.
    pub fn backing_file_name(&self) -> (r: &Vec<u8>) {
        &self.backing_file_name
    }

    /// Closes the image and hands back the image file and the backing file.
    pub fn into_files(self) -> (r: (HostFile, Option<HostFile>))
        ensures
            r.0@ == self@.file,
    {
        (self.file, self.backing)
    }
}

} // verus!
