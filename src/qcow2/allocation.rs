use vstd::prelude::*;

use crate::bytes::{be_bytes_u64, push_be_u64};
use crate::entry::{
    cluster_aligned, compressed_shift_of, l1_encode, l2_encodable, l2_encode, valid_host_offset,
    L1Entry, L2Entry, L1E_OFFSET_MASK,
};
use crate::error::IOError;
use crate::host::{read_ok, write_ok, written};
use super::io::{copy_into, zero_buffer, zeros, HostOffsetInfo};
use super::refcount::refcount_of;
use super::{image_wf, lemma_aligned, lemma_offset_bound, lemma_geometry, same_layout, ImageView, QCow2BDS};

verus! {

/// Whether the allocator passes over the cluster at `k`: its refcount reads as nonzero, or it
/// is the cluster at offset zero, which holds the header.
pub open spec fn cluster_in_use(v: ImageView, k: u64) -> bool {
    refcount_of(v, k) matches Ok(c) && (c > 0 || k == 0)
}

/// `off` is the first free cluster at or after the allocation hint of `v`.
pub open spec fn first_free(v: ImageView, off: u64) -> bool {
    &&& valid_host_offset(off, v.cluster_size)
    &&& refcount_of(v, off) == Ok::<u64, IOError>(0)
    &&& off >= v.hint
    &&& forall|k: u64| v.hint <= k < off && cluster_aligned(k, v.cluster_size) ==> #[trigger] cluster_in_use(v, k)
}

/// Why allocation from `v` fails with `e`: every addressable cluster from the hint on is in use
/// (`NoSpaceLeft`), or a refcount lookup on the way failed with `e`.
pub open spec fn alloc_failure(v: ImageView, e: IOError) -> bool {
    if e == IOError::NoSpaceLeft {
        forall|k: u64| v.hint <= k <= L1E_OFFSET_MASK && cluster_aligned(k, v.cluster_size) ==> #[trigger] cluster_in_use(v, k)
    } else {
        exists|k: u64| v.hint <= k <= L1E_OFFSET_MASK && #[trigger] refcount_of(v, k) == Err::<u64, IOError>(e)
    }
}

/// `after` is `before` once the cluster at `off` has been handed out: the first free cluster at
/// or after the allocation hint, with the hint moved past it.
pub open spec fn allocation_step(before: ImageView, after: ImageView, off: u64) -> bool {
    &&& first_free(before, off)
    &&& after == ImageView { hint: (off + before.cluster_size) as u64, ..before }
}

/// Two allocations in a row never hand out the same cluster: the second lies past the first.
pub proof fn lemma_allocations_distinct(s0: ImageView, s1: ImageView, s2: ImageView, a: u64, b: u64)
    requires
        image_wf(s0),
        allocation_step(s0, s1, a),
        allocation_step(s1, s2, b),
    ensures
        a != b,
        b >= a + s0.cluster_size,
{
    lemma_geometry(s0);
    lemma_offset_bound(a);
}

/// The position of the L1 entry with index `i`.
pub open spec fn l1_entry_pos(v: ImageView, i: u32) -> int {
    v.l1_offset + 8 * i
}

/// The state after the L1 entry with index `i` has been set to `e`, on disk and in memory.
pub open spec fn l1_updated(v: ImageView, i: u32, e: L1Entry) -> ImageView {
    ImageView {
        file: written(v.file, l1_entry_pos(v, i), be_bytes_u64(l1_encode(e))),
        l1_table: v.l1_table.update(i as int, l1_encode(e)),
        ..v
    }
}

/// Whether `hoi` names an L1 entry of the image `v` and its cluster geometry.
pub open spec fn hoi_fits(v: ImageView, hoi: HostOffsetInfo) -> bool {
    &&& hoi.l1_index < v.l1_table.len()
    &&& hoi.l2_index < v.l2_size
    &&& hoi.cluster_size == v.cluster_size
    &&& hoi.compressed_shift == compressed_shift_of(v.cluster_bits as u32)
    &&& hoi.offset_in_cluster < v.cluster_size
}

/// The bytes of an L2 table after its entry `i` has been replaced by `bits`.
pub open spec fn table_patched(table: Seq<u8>, i: u32, bits: u64) -> Seq<u8> {
    table.subrange(0, 8 * i) + be_bytes_u64(bits) + table.subrange(8 * i + 8, table.len() as int)
}

/// The L2 table offset and COPIED flag of an L1 entry; zero and false when unallocated.
pub open spec fn l2_table_of(e: L1Entry) -> (u64, bool) {
    match e {
        L1Entry::Allocated(o, c) => (o, c),
        L1Entry::Unallocated => (0u64, false),
    }
}

/// Whether the 8-byte L1 entry at `p` overlaps the cluster at `c`.
pub open spec fn l1_slot_overlaps(p: int, c: u64, cs: u32) -> bool {
    p < c + cs && c < p + 8
}

/// The shared L2 table of `hoi` with its entry replaced by the encoded L2 entry of `hoi`.
pub open spec fn patched_table(v: ImageView, hoi: HostOffsetInfo) -> Seq<u8> {
    let t = l2_table_of(hoi.l1_entry).0;
    table_patched(
        v.file.subrange(t as int, t + v.cluster_size),
        hoi.l2_index,
        l2_encode(hoi.l2_entry.unwrap(), hoi.compressed_shift),
    )
}

/// Why allocating an L2 table for `hoi` in image `v` fails with `e`: allocation fails, or the
/// first free cluster holds the L1 entry's position, or the cluster or the L1 entry's position
/// cannot be written.
pub open spec fn alloc_l2_failure(v: ImageView, hoi: HostOffsetInfo, e: IOError) -> bool {
    let p = l1_entry_pos(v, hoi.l1_index);
    ||| alloc_failure(v, e)
    ||| exists|n: u64| #[trigger] first_free(v, n) && {
        ||| (e == IOError::InvalidMetadata && l1_slot_overlaps(p, n, v.cluster_size))
        ||| (e == IOError::GenericError && (!write_ok(n as int, v.cluster_size as int) || !write_ok(p, 8)))
    }
}

/// `after` is `before` with the L2 entry of `hoi` stored, and `h` describes where it now lives.
/// An owned (COPIED) table gets the entry written in place. A shared table keeps every byte:
/// a patched copy goes into the first free cluster, and the L1 entry, on disk and in memory,
/// now points at it, COPIED.
pub open spec fn l2_update_done(before: ImageView, after: ImageView, hoi: HostOffsetInfo, h: HostOffsetInfo) -> bool {
    let (l2_offset, copied) = l2_table_of(hoi.l1_entry);
    let bits = l2_encode(hoi.l2_entry.unwrap(), hoi.compressed_shift);
    let cs = before.cluster_size;
    let f0 = before.file;
    let f1 = after.file;
    if copied {
        &&& h == hoi
        &&& after == ImageView { file: written(f0, l2_offset + 8 * hoi.l2_index, be_bytes_u64(bits)), ..before }
    } else {
        &&& h.l1_entry matches L1Entry::Allocated(n, true) && {
            &&& first_free(before, n)
            &&& n != l2_offset
            &&& after == l1_updated(
                ImageView { file: written(f0, n as int, patched_table(before, hoi)), hint: (n + cs) as u64, ..before },
                hoi.l1_index,
                h.l1_entry,
            )
            &&& f1.subrange(n as int, n + cs) == patched_table(before, hoi)
        }
        &&& h == HostOffsetInfo { l1_entry: h.l1_entry, ..hoi }
        &&& forall|k: int| l2_offset <= k < l2_offset + cs ==> #[trigger] f1[k] == f0[k]
    }
}

/// Why storing the L2 entry of `hoi` in image `v` fails with `e`. In place: the entry's
/// position cannot be written. By copy: the L1 entry's position is not addressable or lies in
/// the shared table, the shared table cannot be read, allocation fails, or the first free
/// cluster is the table itself or holds the L1 entry's position, or cannot be written.
pub open spec fn l2_update_failure(v: ImageView, hoi: HostOffsetInfo, e: IOError) -> bool {
    let (t, copied) = l2_table_of(hoi.l1_entry);
    let cs = v.cluster_size;
    let p = l1_entry_pos(v, hoi.l1_index);
    if copied {
        e == IOError::GenericError && !write_ok(t + 8 * hoi.l2_index, 8)
    } else {
        ||| (e == IOError::GenericError && p + 8 > u64::MAX)
        ||| (e == IOError::InvalidMetadata && l1_slot_overlaps(p, t, cs))
        ||| (e == IOError::GenericError && !read_ok(v.file, t as int, cs as int))
        ||| alloc_failure(v, e)
        ||| exists|n: u64| #[trigger] first_free(v, n) && {
            ||| (e == IOError::InvalidMetadata && (n == t || l1_slot_overlaps(p, n, cs)))
            ||| (e == IOError::GenericError && (!write_ok(n as int, cs as int) || !write_ok(p, 8)))
        }
    }
}

impl QCow2BDS {
    /// Finds a free cluster at or after the allocation hint and moves the hint past it. The
    /// scan ends with `NoSpaceLeft` once offsets leave the range that entries can address.
    /// The cluster at offset zero holds the header and is never handed out, whatever its
    /// refcount reads.
    pub fn allocate_cluster(&mut self) -> (r: Result<u64, IOError>)
        requires
            old(self).wf(),
        ensures
            final(self).wf(),
            r matches Ok(off) ==> allocation_step(old(self)@, final(self)@, off),
            r.is_err() ==> final(self)@ == old(self)@,
            r matches Err(e) ==> alloc_failure(old(self)@, e),
    {
        proof {
            self.lemma_view_fields();
            lemma_geometry(self@);
        }
        let cs = self.cluster_size as u64;
        let ghost cb = self.cluster_bits as u32;
        let mut offset = self.first_free_cluster_offset;
        loop
            invariant
                self.wf(),
                cs == self@.cluster_size,
                512 <= cs <= 0x200000,
                cluster_aligned(offset, self@.cluster_size),
                offset >= self@.hint,
                offset <= L1E_OFFSET_MASK + cs,
                self@.cluster_size == (1u32 << cb) as u32,
                9 <= cb <= 21,
                forall|k: u64| self@.hint <= k < offset && cluster_aligned(k, self@.cluster_size) ==> #[trigger] cluster_in_use(self@, k),
            ensures
                forall|k: u64| self@.hint <= k < offset && cluster_aligned(k, self@.cluster_size) ==> #[trigger] cluster_in_use(self@, k),
                offset <= L1E_OFFSET_MASK,
                offset != 0,
                cluster_aligned(offset, self@.cluster_size),
                offset >= self@.hint,
                refcount_of(self@, offset) == Ok::<u64, IOError>(0),
            decreases u64::MAX - offset,
        {
            if offset > L1E_OFFSET_MASK {
                return Err(IOError::NoSpaceLeft);
            }
            let rc = match self.get_refcount(offset) {
                Ok(rc) => rc,
                Err(e) => return Err(e),
            };
            if rc == 0 && offset != 0 {
                break;
            }
            proof {
                lemma_aligned(offset, offset, cb);
                assert forall|k: u64| self@.hint <= k < offset + cs && cluster_aligned(k, self@.cluster_size) implies #[trigger] cluster_in_use(self@, k) by {
                    if k >= offset {
                        super::lemma_aligned_between(offset, k, cb);
                    }
                }
            }
            offset = offset + cs;
        }
        proof {
            lemma_aligned(offset, offset, cb);
        }
        // Writing refcounts is not supported; the cluster is claimed through the hint alone.
        let _ = self.change_refcount(offset, 1);
        self.first_free_cluster_offset = offset + cs;
        Ok(offset)
    }

    /// Writes the L1 entry of `hoi` to disk, then mirrors it in the in-memory L1 table; when
    /// the write fails, neither is changed.
    pub fn update_l1_entry(&mut self, hoi: &HostOffsetInfo) -> (r: Result<(), IOError>)
        requires
            old(self).wf(),
            hoi.l1_index < old(self)@.l1_table.len(),
        ensures
            final(self).wf(),
            write_ok(l1_entry_pos(old(self)@, hoi.l1_index), 8) <==> r.is_ok(),
            r.is_ok() ==> final(self)@ == l1_updated(old(self)@, hoi.l1_index, hoi.l1_entry),
            r.is_err() ==> final(self)@ == old(self)@ && r == Err::<(), IOError>(IOError::GenericError),
    {
        proof {
            self.lemma_view_fields();
        }
        let idx = hoi.l1_index as usize;
        let bits = hoi.l1_entry.to_bits();
        let mut data: Vec<u8> = Vec::new();
        push_be_u64(&mut data, bits);
        assert(data@ =~= be_bytes_u64(bits));
        let rel = (hoi.l1_index as u64) * 8;
        if self.l1_offset > u64::MAX - rel {
            return Err(IOError::GenericError);
        }
        match self.file.pwrite(self.l1_offset + rel, data.as_slice()) {
            Ok(()) => {},
            Err(e) => return Err(e),
        }
        self.l1_table.set(idx, bits);
        Ok(())
    }

    /// Stores the L2 entry of `hoi`. A table owned by this image alone (COPIED) is changed in
    /// place. A shared table is never changed: it is copied whole into a new cluster with the
    /// entry replaced, and the L1 entry is repointed at the copy, now COPIED.
    pub fn update_l2_entry(&mut self, hoi: HostOffsetInfo) -> (r: Result<HostOffsetInfo, IOError>)
        requires
            old(self).wf(),
            hoi_fits(old(self)@, hoi),
            hoi.l1_entry matches L1Entry::Allocated(o, _) && valid_host_offset(o, old(self)@.cluster_size),
            hoi.l2_entry matches Some(e) && l2_encodable(e, hoi.compressed_shift),
        ensures
            final(self).wf(),
            same_layout(old(self)@, final(self)@),
            r matches Ok(h) ==> l2_update_done(old(self)@, final(self)@, hoi, h),
            r matches Err(e) ==> l2_update_failure(old(self)@, hoi, e),
            r.is_err() ==> final(self)@.l1_table == old(self)@.l1_table,
            r.is_err() ==> forall|k: int| #![auto] l2_table_of(hoi.l1_entry).0 <= k < l2_table_of(hoi.l1_entry).0 + old(self)@.cluster_size
                ==> final(self)@.file[k] == old(self)@.file[k],
            hoi.l1_entry matches L1Entry::Allocated(_, true) && r.is_err() ==> final(self)@ == old(self)@,
    {
        proof {
            self.lemma_view_fields();
            lemma_geometry(self@);
        }
        let (l2_offset, copied) = match hoi.l1_entry {
            L1Entry::Allocated(o, c) => (o, c),
            L1Entry::Unallocated => (0u64, false),
        };
        let entry = match hoi.l2_entry {
            Some(e) => e,
            None => L2Entry::Unallocated,
        };
        let bits = entry.to_bits(hoi.compressed_shift);
        let mut data: Vec<u8> = Vec::new();
        push_be_u64(&mut data, bits);
        assert(data@ =~= be_bytes_u64(bits));
        assert(l2_offset <= L1E_OFFSET_MASK) by (bit_vector)
            requires
                l2_offset & !0x00fffffffffffe00u64 == 0,
        ;
        let rel = (hoi.l2_index as u64) * 8;
        if copied {
            match self.file.pwrite(l2_offset + rel, data.as_slice()) {
                Ok(()) => {},
                Err(e) => return Err(e),
            }
            return Ok(hoi);
        }
        let cs = self.cluster_size as usize;
        // The L1 entry must lie outside the shared table, which stays as it is.
        let l1_rel = (hoi.l1_index as u64) * 8;
        if self.l1_offset > u64::MAX - 8 - l1_rel {
            return Err(IOError::GenericError);
        }
        let l1_pos = self.l1_offset + l1_rel;
        if l1_pos < l2_offset + cs as u64 && l2_offset < l1_pos + 8 {
            return Err(IOError::InvalidMetadata);
        }
        let mut table = match self.file.pread(l2_offset, cs) {
            Ok(t) => t,
            Err(e) => return Err(e),
        };
        let ghost old_table = table@;
        let ghost f0 = self@.file;
        let ghost v0 = self@;
        copy_into(&mut table, rel as usize, &data);
        assert(table@ =~= table_patched(old_table, hoi.l2_index, bits));
        let new_offset = match self.allocate_cluster() {
            Ok(o) => o,
            Err(e) => return Err(e),
        };
        proof {
            lemma_offset_bound(new_offset);
            assert(first_free(v0, new_offset));
        }
        if new_offset == l2_offset || (l1_pos < new_offset + cs as u64 && new_offset < l1_pos + 8) {
            return Err(IOError::InvalidMetadata);
        }
        proof {
            lemma_offset_bound(new_offset);
        }
        proof {
            lemma_aligned(new_offset, l2_offset, self.cluster_bits as u32);
        }
        match self.file.pwrite(new_offset, table.as_slice()) {
            Ok(()) => {},
            Err(e) => return Err(e),
        }
        let ghost f_mid = self@.file;
        assert(f_mid.subrange(new_offset as int, new_offset + cs) =~= table@);
        let mut res = hoi;
        res.l1_entry = L1Entry::Allocated(new_offset, true);
        match self.update_l1_entry(&res) {
            Ok(()) => {},
            Err(e) => return Err(e),
        }
        proof {
            let f1 = self@.file;
            assert forall|k: int| l2_offset <= k < l2_offset + cs implies f1[k] == f0[k] by {
                assert(f_mid[k] == f0[k]);
            }
            assert(f1.subrange(new_offset as int, new_offset + cs) =~= table@) by {
                assert forall|k: int| new_offset <= k < new_offset + cs implies f1[k] == table@[k - new_offset] by {
                    assert(f_mid[k] == table@[k - new_offset]);
                }
            }
            assert(res == HostOffsetInfo { l1_entry: res.l1_entry, ..hoi });
            assert(old_table == f0.subrange(l2_offset as int, l2_offset + cs));
            assert(l2_update_done(v0, self@, hoi, res));
        }
        Ok(res)
    }

    /// Allocates a cluster for a new L2 table, fills it with zeros, and points the L1 entry of
    /// `hoi` at it, COPIED, on disk and in memory. The returned info has that L1 entry and an
    /// unallocated L2 entry. A first free cluster that holds the L1 entry's own position is
    /// refused as invalid metadata.
    pub fn allocate_l2(&mut self, hoi: HostOffsetInfo) -> (r: Result<HostOffsetInfo, IOError>)
        requires
            old(self).wf(),
            hoi_fits(old(self)@, hoi),
        ensures
            final(self).wf(),
            same_layout(old(self)@, final(self)@),
            r matches Ok(h) ==> h.l1_entry matches L1Entry::Allocated(n, true) && {
                let cs = old(self)@.cluster_size;
                &&& first_free(old(self)@, n)
                &&& h == HostOffsetInfo { l1_entry: h.l1_entry, l2_entry: Some(L2Entry::Unallocated), ..hoi }
                &&& final(self)@ == l1_updated(
                    ImageView { file: written(old(self)@.file, n as int, zeros(cs as nat)), hint: (n + cs) as u64, ..old(self)@ },
                    hoi.l1_index,
                    h.l1_entry,
                )
                &&& final(self)@.file.subrange(n as int, n + cs) == zeros(cs as nat)
            },
            r.is_err() ==> final(self)@.l1_table == old(self)@.l1_table,
            r matches Err(e) ==> alloc_l2_failure(old(self)@, hoi, e),
    {
        proof {
            self.lemma_view_fields();
            lemma_geometry(self@);
        }
        let ghost v0 = self@;
        let cs = self.cluster_size as usize;
        let offset = match self.allocate_cluster() {
            Ok(o) => o,
            Err(e) => return Err(e),
        };
        proof {
            lemma_offset_bound(offset);
            assert(first_free(v0, offset));
        }
        let l1_rel = (hoi.l1_index as u64) * 8;
        if self.l1_offset > u64::MAX - 8 - l1_rel {
            return Err(IOError::GenericError);
        }
        let l1_pos = self.l1_offset + l1_rel;
        if l1_pos < offset + cs as u64 && offset < l1_pos + 8 {
            return Err(IOError::InvalidMetadata);
        }
        let zero_data = zero_buffer(cs);
        match self.file.pwrite(offset, zero_data.as_slice()) {
            Ok(()) => {},
            Err(_) => return Err(IOError::GenericError),
        }
        let ghost f_mid = self@.file;
        assert(f_mid.subrange(offset as int, offset + cs) =~= zeros(cs as nat));
        let mut res = hoi;
        res.l1_entry = L1Entry::Allocated(offset, true);
        match self.update_l1_entry(&res) {
            Ok(()) => {},
            Err(e) => return Err(e),
        }
        proof {
            let f1 = self@.file;
            assert(f1.subrange(offset as int, offset + cs) =~= zeros(cs as nat)) by {
                assert forall|k: int| offset <= k < offset + cs implies f1[k] == 0u8 by {
                    assert(f_mid[k] == 0u8);
                }
            }
        }
        res.l2_entry = Some(L2Entry::Unallocated);
        Ok(res)
    }

    /// Allocates a data cluster for the guest offset of `hoi` and stores it in the L2 entry as
    /// `Normal`, COPIED, through `update_l2_entry`.
    pub fn allocate_data_cluster(&mut self, hoi: HostOffsetInfo) -> (r: Result<HostOffsetInfo, IOError>)
        requires
            old(self).wf(),
            hoi_fits(old(self)@, hoi),
            hoi.l1_entry matches L1Entry::Allocated(o, _) && valid_host_offset(o, old(self)@.cluster_size),
        ensures
            final(self).wf(),
            same_layout(old(self)@, final(self)@),
            r matches Ok(h) ==> h.l2_entry matches Some(L2Entry::Normal(n, true)) && {
                &&& first_free(old(self)@, n)
                &&& l2_update_done(
                    ImageView { hint: (n + old(self)@.cluster_size) as u64, ..old(self)@ },
                    final(self)@,
                    HostOffsetInfo { l2_entry: Some(L2Entry::Normal(n, true)), ..hoi },
                    h,
                )
            },
            r matches Err(e) ==> alloc_failure(old(self)@, e) || exists|n: u64| #[trigger] first_free(old(self)@, n)
                && l2_update_failure(
                    ImageView { hint: (n + old(self)@.cluster_size) as u64, ..old(self)@ },
                    HostOffsetInfo { l2_entry: Some(L2Entry::Normal(n, true)), ..hoi },
                    e,
                ),
    {
        let ghost v0 = self@;
        let offset = match self.allocate_cluster() {
            Ok(o) => o,
            Err(e) => return Err(e),
        };
        proof {
            assert(first_free(v0, offset));
        }
        let mut res = hoi;
        res.l2_entry = Some(L2Entry::Normal(offset, true));
        let r = self.update_l2_entry(res);
        match r {
            Ok(h) => {
                assert(h.l2_entry == res.l2_entry);
            },
            Err(_) => {},
        }
        r
    }

    /// Releases the cluster that an L2 entry points at: moves the allocation hint back to it
    /// when it lies before the hint, then drops its refcount. Entries without storage need
    /// nothing. Writing refcounts is not supported, so releasing storage reports that.
    pub fn free_cluster(&mut self, l2e: L2Entry) -> (r: Result<(), IOError>)
        requires
            old(self).wf(),
        ensures
            final(self).wf(),
            match l2e {
                L2Entry::Unallocated | L2Entry::Zero(None, _) => r.is_ok() && final(self)@ == old(self)@,
                L2Entry::Normal(off, _) | L2Entry::Zero(Some(off), _) | L2Entry::Compressed(off, _) => {
                    let start = off & !((old(self)@.cluster_size - 1) as u64);
                    &&& r == Err::<(), IOError>(IOError::UnsupportedImageFeature)
                    &&& final(self)@ == ImageView {
                        hint: if start < old(self)@.hint { start } else { old(self)@.hint },
                        ..old(self)@
                    }
                },
            },
    {
        proof {
            self.lemma_view_fields();
            lemma_geometry(self@);
        }
        let offset = match l2e {
            L2Entry::Unallocated => return Ok(()),
            L2Entry::Zero(None, _) => return Ok(()),
            L2Entry::Normal(o, _) => o,
            L2Entry::Zero(Some(o), _) => o,
            L2Entry::Compressed(o, _) => o,
        };
        let mask = (self.cluster_size - 1) as u64;
        let start = offset & !mask;
        assert(start & mask == 0) by (bit_vector)
            requires
                start == offset & !mask,
        ;
        if start < self.first_free_cluster_offset {
            self.first_free_cluster_offset = start;
        }
        self.change_refcount(offset, -1)
    }
}

} // verus!
