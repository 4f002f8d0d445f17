use vstd::prelude::*;

use crate::bytes::be_u64_at;
use crate::entry::{compressed_shift_of, l1_decode, l2_decode, valid_host_offset, L1Entry, L2Entry, L1E_OFFSET_MASK};
use crate::error::IOError;
use crate::host::{read_ok, write_ok, written};
use super::allocation::{hoi_fits, l2_table_of};
use super::{image_wf, lemma_geometry, same_layout, ImageView, QCow2BDS};

verus! {

/// An I/O vector: the buffers of one request, in order. A read fills `Mut` buffers; a write
/// consumes `Const` buffers.
pub enum MNMIOV {
    Mut(Vec<Vec<u8>>),
    Const(Vec<Vec<u8>>),
}

/// The buffer handed to the per-cluster step: one to fill (`Mut`) or one to consume (`Const`).
pub enum MNMIOVSlice {
    Mut(Vec<u8>),
    Const(Vec<u8>),
}

/// Where a guest offset leads: its position in the L1 and L2 tables and the entries found.
#[derive(Debug, Clone, Copy, PartialEq, Eq, Structural)]
pub struct HostOffsetInfo {
    pub guest_offset: u64,
    pub cluster_size: u32,
    pub compressed_shift: u8,
    pub l1_index: u32,
    pub l2_index: u32,
    pub offset_in_cluster: u32,
    pub l1_entry: L1Entry,
    /// Absent when no L2 table exists for the offset.
    pub l2_entry: Option<L2Entry>,
}

/// The L1 index of a guest offset.
pub open spec fn l1_index_of(v: ImageView, g: u64) -> u64 {
    g >> (v.l1_bits as u64)
}

/// The L2 index of a guest offset.
pub open spec fn l2_index_of(v: ImageView, g: u64) -> u32 {
    (#[verifier::truncate] ((g >> (v.cluster_bits as u64)) as u32)) & ((v.l2_size - 1) as u32)
}

/// The position of a guest offset inside its cluster.
pub open spec fn in_cluster_of(v: ImageView, g: u64) -> u32 {
    (g & ((v.cluster_size - 1) as u64)) as u32
}

/// The position of the L2 entry for `g` in a table that starts at `l2_offset`.
pub open spec fn l2_entry_pos(v: ImageView, g: u64, l2_offset: u64) -> int {
    l2_offset + l2_index_of(v, g) * 8
}

/// The L2 entry that the table at `l2_offset` holds for `g`, if the file can be read there.
pub open spec fn l2_lookup(v: ImageView, g: u64, l2_offset: u64) -> Result<L2Entry, IOError> {
    let pos = l2_entry_pos(v, g, l2_offset);
    if !read_ok(v.file, pos, 8) {
        Err(IOError::GenericError)
    } else {
        l2_decode(be_u64_at(v.file, pos), v.cluster_size, compressed_shift_of(v.cluster_bits as u32))
    }
}

/// The translation of guest offset `g` through the L1 table and, where one exists, the L2 table.
pub open spec fn host_offset_info(v: ImageView, g: u64) -> Result<HostOffsetInfo, IOError> {
    match l1_decode(v.l1_table[l1_index_of(v, g) as int], v.cluster_size) {
        Err(e) => Err(e),
        Ok(l1e) => {
            let base = HostOffsetInfo {
                guest_offset: g,
                cluster_size: v.cluster_size,
                compressed_shift: compressed_shift_of(v.cluster_bits as u32),
                l1_index: l1_index_of(v, g) as u32,
                l2_index: l2_index_of(v, g),
                offset_in_cluster: in_cluster_of(v, g),
                l1_entry: l1e,
                l2_entry: None,
            };
            match l1e {
                L1Entry::Unallocated => Ok(base),
                L1Entry::Allocated(l2_offset, _) => match l2_lookup(v, g, l2_offset) {
                    Err(e) => Err(e),
                    Ok(l2e) => Ok(HostOffsetInfo { l2_entry: Some(l2e), ..base }),
                },
            }
        },
    }
}

/// `n` zero bytes.
pub open spec fn zeros(n: nat) -> Seq<u8> {
    Seq::new(n, |i: int| 0u8)
}

/// What `n` bytes at guest offset `g` read as where this image leaves them to its backing
/// image: the backing image's bytes, or zeros when there is none.
pub open spec fn backing_read(v: ImageView, g: u64, n: nat) -> Result<Seq<u8>, IOError> {
    match v.backing {
        None => Ok(zeros(n)),
        Some(b) => if read_ok(b, g as int, n as int) {
            Ok(b.subrange(g as int, g + n))
        } else {
            Err(IOError::GenericError)
        },
    }
}

/// What `n` bytes at the guest offset of `h` read as, by the entries that `h` holds.
pub open spec fn cluster_read(v: ImageView, h: HostOffsetInfo, n: nat) -> Result<Seq<u8>, IOError> {
    match h.l2_entry {
        None => backing_read(v, h.guest_offset, n),
        Some(L2Entry::Unallocated) => backing_read(v, h.guest_offset, n),
        Some(L2Entry::Zero(_, _)) => Ok(zeros(n)),
        Some(L2Entry::Compressed(_, _)) => Err(IOError::UnsupportedImageFeature),
        Some(L2Entry::Normal(off, _)) => {
            let pos = off + h.offset_in_cluster;
            if read_ok(v.file, pos, n as int) {
                Ok(v.file.subrange(pos, pos + n))
            } else {
                Err(IOError::GenericError)
            }
        },
    }
}

/// What `n` bytes at guest offset `g`, all inside one cluster, read as.
pub open spec fn read_at(v: ImageView, g: u64, n: nat) -> Result<Seq<u8>, IOError> {
    match host_offset_info(v, g) {
        Err(e) => Err(e),
        Ok(h) => cluster_read(v, h, n),
    }
}

/// A guest offset inside the virtual disk has an entry in the L1 table.
pub proof fn lemma_in_disk(v: ImageView, g: u64)
    requires
        image_wf(v),
        g < v.disk_size,
    ensures
        l1_index_of(v, g) < v.l1_table.len(),
{
    lemma_geometry(v);
    let n = v.l1_table.len() as u64;
    let b = v.l1_bits as u64;
    let d = v.disk_size;
    assert(g >> b < n) by (bit_vector)
        requires
            g < d,
            d <= n << b,
            n <= 0x400000,
            b <= 39,
    ;
}

/// A successful translation names an entry of the image's tables, with entries that are valid.
pub proof fn lemma_hoi_fits(v: ImageView, g: u64)
    requires
        image_wf(v),
        g < v.disk_size,
    ensures
        host_offset_info(v, g) matches Ok(h) ==> {
            &&& hoi_fits(v, h)
            &&& h.guest_offset == g
            &&& h.offset_in_cluster == g % (v.cluster_size as u64)
            &&& (h.l1_entry matches L1Entry::Allocated(o, _) ==> valid_host_offset(o, v.cluster_size))
            &&& (h.l2_entry matches Some(L2Entry::Normal(o, _)) ==> valid_host_offset(o, v.cluster_size))
            &&& (h.l2_entry.is_some() ==> h.l1_entry != L1Entry::Unallocated)
        },
{
    lemma_geometry(v);
    lemma_in_disk(v, g);
    let cs = v.cluster_size;
    let c = cs as u64;
    let cb = v.cluster_bits as u32;
    let l2 = v.l2_size;
    let idx = l2_index_of(v, g);
    let inc = in_cluster_of(v, g);
    assert(c == 1u64 << (cb as u64)) by (bit_vector)
        requires
            9 <= cb <= 21,
            cs == 1u32 << cb,
            c == cs as u64,
    ;
    super::lemma_mask_is_mod(g, cb);
    assert(idx < l2) by (bit_vector)
        requires
            idx == (#[verifier::truncate] ((g >> (cb as u64)) as u32)) & ((l2 - 1) as u32),
            64 <= l2,
    ;
    let raw = v.l1_table[l1_index_of(v, g) as int];
    let o = raw & L1E_OFFSET_MASK;
    assert(o & !0x00fffffffffffe00u64 == 0) by (bit_vector)
        requires
            o == raw & 0x00fffffffffffe00u64,
    ;
    if let Ok(h) = host_offset_info(v, g) {
        if let L1Entry::Allocated(l2_offset, _) = h.l1_entry {
            let pos = l2_entry_pos(v, g, l2_offset);
            let raw2 = be_u64_at(v.file, pos);
            let o2 = raw2 & 0x00fffffffffffe00u64;
            assert(o2 & !0x00fffffffffffe00u64 == 0) by (bit_vector)
                requires
                    o2 == raw2 & 0x00fffffffffffe00u64,
            ;
        }
    }
}

/// Reading back what was written in place: once `data` has been written at the host position
/// of guest offset `g` in an owned data cluster, reading `g` gives `data`, provided the write
/// left the L2 entry that leads there untouched.
pub proof fn lemma_write_then_read(v0: ImageView, v1: ImageView, g: u64, data: Seq<u8>)
    requires
        image_wf(v0),
        g < v0.disk_size,
        host_offset_info(v0, g) matches Ok(h) && h.l2_entry matches Some(L2Entry::Normal(off, true)) && {
            let pos = off + h.offset_in_cluster;
            let entry = match h.l1_entry {
                L1Entry::Allocated(l2_offset, _) => l2_entry_pos(v0, g, l2_offset),
                L1Entry::Unallocated => 0,
            };
            &&& v1 == ImageView { file: written(v0.file, pos, data), ..v0 }
            &&& (pos + data.len() <= entry || entry + 8 <= pos)
        },
    ensures
        read_at(v1, g, data.len()) == Ok::<Seq<u8>, IOError>(data),
{
    let h = host_offset_info(v0, g).unwrap();
    if let L1Entry::Allocated(l2_offset, _) = h.l1_entry {
        let e = l2_entry_pos(v0, g, l2_offset);
        assert(read_ok(v0.file, e, 8));
        assert forall|k: int| e <= k < e + 8 implies v1.file[k] == v0.file[k] by {}
        assert(be_u64_at(v1.file, e) == be_u64_at(v0.file, e));
    }
    assert(host_offset_info(v1, g) == host_offset_info(v0, g));
    if let Some(L2Entry::Normal(off, _)) = h.l2_entry {
        let pos = off + h.offset_in_cluster;
        assert(v1.file.subrange(pos, pos + data.len()) =~= data);
    }
}

/// A fresh image, all of whose L1 entries are zero and which has no backing file, reads as
/// zeros at every offset of the virtual disk.
pub proof fn lemma_fresh_image_reads_zero(v: ImageView, g: u64, n: nat)
    requires
        image_wf(v),
        g < v.disk_size,
        v.backing.is_none(),
        forall|i: int| 0 <= i < v.l1_table.len() ==> #[trigger] v.l1_table[i] == 0u64,
    ensures
        read_at(v, g, n) == Ok::<Seq<u8>, IOError>(zeros(n)),
{
    lemma_in_disk(v, g);
    assert(v.l1_table[l1_index_of(v, g) as int] == 0u64);
    assert(0u64 & 0x00fffffffffffe00u64 == 0) by (bit_vector);
}

/// Translation is a function of the image state: equal states translate a guest offset alike.
pub proof fn lemma_translation_deterministic(v1: ImageView, v2: ImageView, g: u64)
    requires
        v1 == v2,
    ensures
        host_offset_info(v1, g) == host_offset_info(v2, g),
        read_at(v1, g, 1) == read_at(v2, g, 1),
{
}

/// Without a backing file, a range left unallocated by the L1 table, or marked zero without
/// storage in the L2 table, reads as exactly `n` zero bytes.
pub proof fn lemma_zero_fill(v: ImageView, g: u64, n: nat)
    requires
        v.backing.is_none(),
        host_offset_info(v, g) matches Ok(h) && (h.l1_entry == L1Entry::Unallocated || h.l2_entry
            matches Some(L2Entry::Zero(None, _))),
    ensures
        read_at(v, g, n) == Ok::<Seq<u8>, IOError>(zeros(n)),
        zeros(n).len() == n,
        forall|i: int| 0 <= i < n ==> zeros(n)[i] == 0u8,
{
}

/// Overwrites `dst[at .. at + src.len()]` with `src`.
pub fn copy_into(dst: &mut Vec<u8>, at: usize, src: &Vec<u8>)
    requires
        at + src@.len() <= old(dst)@.len(),
    ensures
        final(dst)@ == old(dst)@.subrange(0, at as int) + src@ + old(dst)@.subrange(
            at + src@.len(),
            old(dst)@.len() as int,
        ),
{
    let n = src.len();
    let dlen = dst.len();
    let mut i: usize = 0;
    while i < n
        invariant
            n == src@.len(),
            dlen == dst@.len(),
            at + n <= dst@.len(),
            dst@.len() == old(dst)@.len(),
            i <= n,
            forall|j: int| 0 <= j < dst@.len() ==> dst@[j] == (if at <= j < at + i {
                src@[j - at]
            } else {
                old(dst)@[j]
            }),
        decreases n - i,
    {
        dst.set(at + i, src[i]);
        i = i + 1;
    }
    assert(dst@ =~= old(dst)@.subrange(0, at as int) + src@ + old(dst)@.subrange(
        at + src@.len(),
        old(dst)@.len() as int,
    ));
}

/// The first `bytes` bytes of the buffer that `src` holds.
pub open spec fn slice_data(src: MNMIOVSlice, bytes: u32) -> Seq<u8> {
    match src {
        MNMIOVSlice::Const(b) => b@.subrange(0, bytes as int),
        MNMIOVSlice::Mut(b) => b@.subrange(0, bytes as int),
    }
}

/// Whether two byte vectors are equal.
pub fn bytes_equal(a: &Vec<u8>, b: &Vec<u8>) -> (r: bool)
    ensures
        r == (a@ == b@),
{
    if a.len() != b.len() {
        return false;
    }
    let mut i: usize = 0;
    while i < a.len()
        invariant
            a@.len() == b@.len(),
            i <= a@.len(),
            forall|j: int| 0 <= j < i ==> a@[j] == b@[j],
        decreases a@.len() - i,
    {
        if a[i] != b[i] {
            return false;
        }
        i = i + 1;
    }
    assert(a@ =~= b@);
    true
}

/// Copies `src[at .. at + n]` into a new vector.
pub fn copy_out(src: &Vec<u8>, at: usize, n: usize) -> (r: Vec<u8>)
    requires
        at + n <= src@.len(),
    ensures
        r@ == src@.subrange(at as int, at + n),
{
    let mut out: Vec<u8> = Vec::with_capacity(n);
    let slen = src.len();
    let mut i: usize = 0;
    while i < n
        invariant
            at + n <= src@.len(),
            slen == src@.len(),
            i <= n,
            out@ == src@.subrange(at as int, at + i),
        decreases n - i,
    {
        out.push(src[at + i]);
        i = i + 1;
        assert(out@ =~= src@.subrange(at as int, at + i));
    }
    out
}

/// `n` zero bytes, as a scratch buffer.
pub fn zero_buffer(n: usize) -> (r: Vec<u8>)
    ensures
        r@ == zeros(n as nat),
{
    let mut out: Vec<u8> = Vec::with_capacity(n);
    let mut i: usize = 0;
    while i < n
        invariant
            i <= n,
            out@ == zeros(i as nat),
        decreases n - i,
    {
        out.push(0u8);
        i = i + 1;
        assert(out@ =~= zeros(i as nat));
    }
    out
}

impl QCow2BDS {
    /// Translates a guest offset: decodes its L1 entry and, where an L2 table exists, reads and
    /// decodes its L2 entry.
    pub fn find_host_offset(&self, offset: u64) -> (r: Result<HostOffsetInfo, IOError>)
        requires
            self.wf(),
            offset < self@.disk_size,
        ensures
            r == host_offset_info(self@, offset),
    {
        proof {
            self.lemma_view_fields();
            lemma_geometry(self@);
            lemma_in_disk(self@, offset);
        }
        let cluster_offset_mask = (self.cluster_size - 1) as u64;
        let l2_mask: u32 = self.l2_size - 1;
        let l1_index = (offset >> (self.l1_bits as u64)) as usize;
        let cb = self.cluster_bits;
        let l1_raw = self.l1_table[l1_index];
        let l1_entry = match L1Entry::from_bits(l1_raw, self.cluster_size) {
            Ok(e) => e,
            Err(e) => return Err(e),
        };
        let l2_index: u32 = (#[verifier::truncate] ((offset >> (cb as u64)) as u32)) & l2_mask;
        let res = HostOffsetInfo {
            guest_offset: offset,
            cluster_size: self.cluster_size,
            compressed_shift: 63 - (cb - 8),
            l1_index: l1_index as u32,
            l2_index,
            offset_in_cluster: (offset & cluster_offset_mask) as u32,
            l1_entry,
            l2_entry: None,
        };
        let l2_offset = match l1_entry {
            L1Entry::Unallocated => return Ok(res),
            L1Entry::Allocated(o, _) => o,
        };
        assert(l2_offset <= 0x00fffffffffffe00u64) by (bit_vector)
            requires
                l2_offset == l1_raw & 0x00fffffffffffe00u64,
        ;
        assert(l2_index <= l2_mask) by (bit_vector)
            requires
                l2_index == (#[verifier::truncate] ((offset >> (cb as u64)) as u32)) & l2_mask,
        ;
        let entry_pos = l2_offset + (res.l2_index as u64) * 8;
        let raw = match self.file.pread_be_u64(entry_pos) {
            Ok(x) => x,
            Err(e) => return Err(e),
        };
        match L2Entry::from_bits(raw, res.cluster_size, res.compressed_shift) {
            Ok(l2e) => Ok(HostOffsetInfo { l2_entry: Some(l2e), ..res }),
            Err(e) => Err(e),
        }
    }

    /// Reads `n` bytes at guest offset `offset` from the backing image, or zeros without one.
    pub fn do_backing_read(&self, offset: u64, n: usize) -> (r: Result<Vec<u8>, IOError>)
        ensures
            match backing_read(self@, offset, n as nat) {
                Ok(d) => r matches Ok(v) && v@ == d,
                Err(e) => r == Err::<Vec<u8>, IOError>(e),
            },
    {
        match &self.backing {
            None => Ok(zero_buffer(n)),
            Some(b) => b.pread(offset, n),
        }
    }

    /// Reads `n` bytes at the guest offset of `hoi`, by the entries it holds.
    pub fn do_read_cluster(&self, hoi: &HostOffsetInfo, n: usize) -> (r: Result<Vec<u8>, IOError>)
        ensures
            match cluster_read(self@, *hoi, n as nat) {
                Ok(d) => r matches Ok(v) && v@ == d,
                Err(e) => r == Err::<Vec<u8>, IOError>(e),
            },
    {
        match hoi.l2_entry {
            None => self.do_backing_read(hoi.guest_offset, n),
            Some(L2Entry::Unallocated) => self.do_backing_read(hoi.guest_offset, n),
            Some(L2Entry::Zero(_, _)) => Ok(zero_buffer(n)),
            Some(L2Entry::Compressed(_, _)) => Err(IOError::UnsupportedImageFeature),
            Some(L2Entry::Normal(offset, _)) => {
                // Bounds the file's length by usize::MAX for the overflow case below.
                let _file_len = self.file.len();
                if offset > u64::MAX - (hoi.offset_in_cluster as u64) {
                    return Err(IOError::GenericError);
                }
                self.file.pread(offset + hoi.offset_in_cluster as u64, n)
            },
        }
    }

    /// Reads `bytes` bytes at guest offset `offset`, all inside one cluster, into the start of
    /// the buffer that `full_dest_mnm` holds; the rest of the buffer is left as it was.
    pub fn read_cluster(&self, offset: u64, bytes: u32, full_dest_mnm: &mut MNMIOVSlice, flags: u32) -> (r: Result<(), IOError>)
        requires
            self.wf(),
            offset < self@.disk_size,
            *old(full_dest_mnm) matches MNMIOVSlice::Mut(buf) && bytes <= buf@.len(),
        ensures
            match read_at(self@, offset, bytes as nat) {
                Ok(d) => {
                    &&& r.is_ok()
                    &&& *old(full_dest_mnm) matches MNMIOVSlice::Mut(b0)
                    &&& *final(full_dest_mnm) matches MNMIOVSlice::Mut(b1)
                    &&& b1@ == d + b0@.subrange(bytes as int, b0@.len() as int)
                },
                Err(e) => r == Err::<(), IOError>(e) && *final(full_dest_mnm) == *old(full_dest_mnm),
            },
    {
        let hoi = match self.find_host_offset(offset) {
            Ok(h) => h,
            Err(e) => return Err(e),
        };
        let data = match self.do_read_cluster(&hoi, bytes as usize) {
            Ok(d) => d,
            Err(e) => return Err(e),
        };
        match full_dest_mnm {
            MNMIOVSlice::Mut(buf) => {
                copy_into(buf, 0, &data);
                assert(buf@.subrange(0, 0) + data@ =~= data@);
            },
            MNMIOVSlice::Const(_) => {},
        }
        Ok(())
    }

    /// Writes `data` into a newly allocated data cluster for the guest offset of `hoi`, with an
    /// L2 table allocated first where none exists. The rest of the new cluster holds what it
    /// read as before: the backing image's bytes, or zeros.
    fn write_new_cluster(&mut self, hoi: HostOffsetInfo, data: &Vec<u8>) -> (r: Result<(), IOError>)
        requires
            old(self).wf(),
            hoi_fits(old(self)@, hoi),
            hoi.offset_in_cluster <= hoi.guest_offset,
            hoi.offset_in_cluster + data@.len() <= old(self)@.cluster_size,
            hoi.l1_entry matches L1Entry::Allocated(o, _) ==> valid_host_offset(o, old(self)@.cluster_size),
            hoi.l2_entry.is_none() || hoi.l2_entry == Some(L2Entry::Unallocated),
            hoi.l2_entry.is_some() ==> hoi.l1_entry != L1Entry::Unallocated,
        ensures
            final(self).wf(),
            same_layout(old(self)@, final(self)@),
    {
        proof {
            self.lemma_view_fields();
            lemma_geometry(self@);
        }
        let inc = hoi.offset_in_cluster as usize;
        let cs = self.cluster_size as usize;
        let mut cluster = match self.do_backing_read(hoi.guest_offset - hoi.offset_in_cluster as u64, cs) {
            Ok(c) => c,
            Err(e) => return Err(e),
        };
        copy_into(&mut cluster, inc, data);
        assert(cluster@.subrange(inc as int, inc + data@.len()) =~= data@);
        let h = if hoi.l2_entry.is_none() {
            match self.allocate_l2(hoi) {
                Ok(h) => h,
                Err(e) => return Err(e),
            }
        } else {
            hoi
        };
        let n = match self.allocate_data_cluster(h) {
            Ok(h2) => match h2.l2_entry {
                Some(L2Entry::Normal(n, _)) => n,
                _ => return Err(IOError::InvalidMetadata),
            },
            Err(e) => return Err(e),
        };
        proof {
            super::lemma_offset_bound(n);
        }
        match self.file.pwrite(n, cluster.as_slice()) {
            Ok(()) => {},
            Err(e) => return Err(e),
        }
        Ok(())
    }

    /// Writes `data` over a data cluster at `off` that other images share: the cluster is
    /// copied into a new one, which the L2 entry then points at, and the data goes there.
    fn write_copied_cluster(&mut self, hoi: HostOffsetInfo, off: u64, data: &Vec<u8>) -> (r: Result<(), IOError>)
        requires
            old(self).wf(),
            hoi_fits(old(self)@, hoi),
            hoi.offset_in_cluster + data@.len() <= old(self)@.cluster_size,
            valid_host_offset(off, old(self)@.cluster_size),
            hoi.l1_entry matches L1Entry::Allocated(o, _) && valid_host_offset(o, old(self)@.cluster_size),
        ensures
            final(self).wf(),
            same_layout(old(self)@, final(self)@),
    {
        proof {
            self.lemma_view_fields();
            lemma_geometry(self@);
            super::lemma_offset_bound(off);
        }
        let cs = self.cluster_size as usize;
        let cluster = match self.file.pread(off, cs) {
            Ok(c) => c,
            Err(e) => return Err(e),
        };
        let new_offset = match self.allocate_cluster() {
            Ok(o) => o,
            Err(e) => return Err(e),
        };
        match self.file.pwrite(new_offset, cluster.as_slice()) {
            Ok(()) => {},
            Err(e) => return Err(e),
        }
        let mut res = hoi;
        res.l2_entry = Some(L2Entry::Normal(new_offset, true));
        match self.update_l2_entry(res) {
            Ok(_) => {},
            Err(e) => return Err(e),
        }
        proof {
            super::lemma_offset_bound(new_offset);
        }
        let p = new_offset + hoi.offset_in_cluster as u64;
        match self.file.pwrite(p, data.as_slice()) {
            Ok(()) => {},
            Err(e) => return Err(e),
        }
        Ok(())
    }

    /// Writes `bytes` bytes, all inside one cluster, from the start of the buffer that `src`
    /// holds to guest offset `offset`. An owned data cluster is written in place; a shared one
    /// is copied into a new cluster first, which the L2 entry then points at. Where no data
    /// cluster exists, one is allocated, and an L2 table with it where none exists. Writing over
    /// zero or compressed clusters is not supported. The range is read back at the end: if it
    /// does not read as the data written, the image's structures overlap, which is reported as
    /// invalid metadata.
    pub fn write_cluster(&mut self, offset: u64, bytes: u32, src: &MNMIOVSlice, flags: u32) -> (r: Result<(), IOError>)
        requires
            old(self).wf(),
            offset < old(self)@.disk_size,
            bytes + offset % (old(self)@.cluster_size as u64) <= old(self)@.cluster_size,
            *src matches MNMIOVSlice::Const(buf) && bytes <= buf@.len(),
        ensures
            final(self).wf(),
            same_layout(old(self)@, final(self)@),
            ({
                let data = slice_data(*src, bytes);
                &&& (r.is_ok() ==> read_at(final(self)@, offset, bytes as nat) == Ok::<Seq<u8>, IOError>(data))
                &&& match host_offset_info(old(self)@, offset) {
                    Err(e) => r == Err::<(), IOError>(e) && final(self)@ == old(self)@,
                    Ok(h) => match h.l2_entry {
                        Some(L2Entry::Zero(_, _)) | Some(L2Entry::Compressed(_, _)) => {
                            r == Err::<(), IOError>(IOError::UnsupportedImageFeature) && final(self)@ == old(self)@
                        },
                        Some(L2Entry::Normal(off, true)) => {
                            let pos = off + h.offset_in_cluster;
                            let slot = l2_entry_pos(old(self)@, offset, l2_table_of(h.l1_entry).0);
                            &&& (r.is_ok() ==> write_ok(pos, bytes as int))
                            &&& (write_ok(pos, bytes as int) && (pos + bytes <= slot || slot + 8 <= pos) ==> r.is_ok())
                            &&& (r.is_ok() ==> final(self)@ == ImageView {
                                file: written(old(self)@.file, pos, data),
                                ..old(self)@
                            })
                        },
                        _ => true,
                    },
                }
            }),
    {
        proof {
            self.lemma_view_fields();
            lemma_geometry(self@);
            lemma_hoi_fits(self@, offset);
        }
        let buf = match src {
            MNMIOVSlice::Const(b) => b,
            MNMIOVSlice::Mut(b) => b,
        };
        let data = copy_out(buf, 0, bytes as usize);
        assert(data@ == slice_data(*src, bytes));
        let ghost v0 = self@;
        let hoi = match self.find_host_offset(offset) {
            Ok(h) => h,
            Err(e) => return Err(e),
        };
        let inc = hoi.offset_in_cluster as u64;
        match hoi.l2_entry {
            Some(L2Entry::Zero(_, _)) => return Err(IOError::UnsupportedImageFeature),
            Some(L2Entry::Compressed(_, _)) => return Err(IOError::UnsupportedImageFeature),
            Some(L2Entry::Normal(off, true)) => {
                proof {
                    super::lemma_offset_bound(off);
                }
                match self.file.pwrite(off + inc, data.as_slice()) {
                    Ok(()) => {},
                    Err(e) => return Err(e),
                }
                proof {
                    let pos = off + inc;
                    let slot = l2_entry_pos(v0, offset, l2_table_of(hoi.l1_entry).0);
                    if pos + bytes <= slot || slot + 8 <= pos {
                        lemma_write_then_read(v0, self@, offset, data@);
                    }
                }
            },
            Some(L2Entry::Normal(off, false)) => {
                match self.write_copied_cluster(hoi, off, &data) {
                    Ok(()) => {},
                    Err(e) => return Err(e),
                }
            },
            _ => {
                let ghost c = self@.cluster_size as u64;
                assert(offset % c <= offset) by (nonlinear_arith)
                    requires
                        c > 0,
                ;
                match self.write_new_cluster(hoi, &data) {
                    Ok(()) => {},
                    Err(e) => return Err(e),
                }
            },
        }
        let back_hoi = match self.find_host_offset(offset) {
            Ok(h) => h,
            Err(_) => return Err(IOError::InvalidMetadata),
        };
        let back = match self.do_read_cluster(&back_hoi, bytes as usize) {
            Ok(b) => b,
            Err(_) => return Err(IOError::InvalidMetadata),
        };
        if !bytes_equal(&back, &data) {
            return Err(IOError::InvalidMetadata);
        }
        Ok(())
    }
}

} // verus!
