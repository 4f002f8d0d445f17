use vstd::prelude::*;

use crate::bytes::{
    be_bytes_u32, be_bytes_u64, be_u32_at, be_u64_at, lemma_be_u32_round_trip, lemma_be_u64_round_trip,
    push_be_u32, push_be_u64, read_be_u32, read_be_u64,
};
use crate::error::IOError;

verus! {

/// Length in bytes of the on-disk header record that this engine reads.
pub const HEADER_SIZE: usize = 104;
/// The four bytes that open every qcow2 image ("QFI\xfb").
pub const QCOW2_MAGIC: u32 = 0x514649fbu32;

/// The fixed header at the start of a qcow2 image, fields in host byte order.
#[derive(Debug, Clone, Copy, PartialEq, Eq, Structural, Default)]
pub struct QCow2Header {
    pub magic: u32,
    pub version: u32,
    pub backing_file_offset: u64,
    pub backing_file_size: u32,
    pub cluster_bits: u32,
    pub size: u64,
    pub crypt_method: u32,
    pub l1_size: u32,
    pub l1_table_offset: u64,
    pub refcount_table_offset: u64,
    pub refcount_table_clusters: u32,
    pub nb_snapshots: u32,
    pub snapshots_offset: u64,
    pub incompatible_features: u64,
    pub compatible_features: u64,
    pub autoclear_features: u64,
    pub refcount_order: u32,
    pub header_length: u32,
}

/// The header that the first `HEADER_SIZE` bytes of `s` hold, every field big-endian.
pub open spec fn header_decode(s: Seq<u8>) -> QCow2Header {
    QCow2Header {
        magic: be_u32_at(s, 0),
        version: be_u32_at(s, 4),
        backing_file_offset: be_u64_at(s, 8),
        backing_file_size: be_u32_at(s, 16),
        cluster_bits: be_u32_at(s, 20),
        size: be_u64_at(s, 24),
        crypt_method: be_u32_at(s, 32),
        l1_size: be_u32_at(s, 36),
        l1_table_offset: be_u64_at(s, 40),
        refcount_table_offset: be_u64_at(s, 48),
        refcount_table_clusters: be_u32_at(s, 56),
        nb_snapshots: be_u32_at(s, 60),
        snapshots_offset: be_u64_at(s, 64),
        incompatible_features: be_u64_at(s, 72),
        compatible_features: be_u64_at(s, 80),
        autoclear_features: be_u64_at(s, 88),
        refcount_order: be_u32_at(s, 96),
        header_length: be_u32_at(s, 100),
    }
}

/// The on-disk bytes of a header, every field big-endian, in declaration order.
pub open spec fn header_encode(h: QCow2Header) -> Seq<u8> {
    be_bytes_u32(h.magic) + be_bytes_u32(h.version) + be_bytes_u64(h.backing_file_offset)
        + be_bytes_u32(h.backing_file_size) + be_bytes_u32(h.cluster_bits) + be_bytes_u64(h.size)
        + be_bytes_u32(h.crypt_method) + be_bytes_u32(h.l1_size) + be_bytes_u64(h.l1_table_offset)
        + be_bytes_u64(h.refcount_table_offset) + be_bytes_u32(h.refcount_table_clusters)
        + be_bytes_u32(h.nb_snapshots) + be_bytes_u64(h.snapshots_offset)
        + be_bytes_u64(h.incompatible_features) + be_bytes_u64(h.compatible_features)
        + be_bytes_u64(h.autoclear_features) + be_bytes_u32(h.refcount_order)
        + be_bytes_u32(h.header_length)
}

proof fn lemma_u32_field(s: Seq<u8>, o: int, x: u32)
    requires
        0 <= o,
        o + 4 <= s.len(),
        s.subrange(o, o + 4) == be_bytes_u32(x),
    ensures
        be_u32_at(s, o) == x,
{
    lemma_be_u32_round_trip(x);
    assert(s[o] == be_bytes_u32(x)[0] && s[o + 1] == be_bytes_u32(x)[1]);
    assert(s[o + 2] == be_bytes_u32(x)[2] && s[o + 3] == be_bytes_u32(x)[3]);
}

proof fn lemma_u64_field(s: Seq<u8>, o: int, x: u64)
    requires
        0 <= o,
        o + 8 <= s.len(),
        s.subrange(o, o + 8) == be_bytes_u64(x),
    ensures
        be_u64_at(s, o) == x,
{
    lemma_be_u64_round_trip(x);
    let b = be_bytes_u64(x);
    assert(s[o] == b[0] && s[o + 1] == b[1] && s[o + 2] == b[2] && s[o + 3] == b[3]);
    assert(s[o + 4] == b[4] && s[o + 5] == b[5] && s[o + 6] == b[6] && s[o + 7] == b[7]);
}

proof fn lemma_prefix_split(s: Seq<u8>, p: Seq<u8>, x: Seq<u8>)
    requires
        (p + x).len() <= s.len(),
        s.subrange(0, (p + x).len() as int) == p + x,
    ensures
        s.subrange(0, p.len() as int) == p,
        s.subrange(p.len() as int, (p + x).len() as int) == x,
{
    assert(s.subrange(0, p.len() as int) =~= (p + x).subrange(0, p.len() as int));
    assert((p + x).subrange(0, p.len() as int) =~= p);
    assert forall|i: int| 0 <= i < x.len() implies s.subrange(p.len() as int, (p + x).len() as int)[i] == x[i] by {
        let j = p.len() + i;
        assert(s.subrange(0, (p + x).len() as int)[j] == s[j]);
        assert((p + x)[j] == x[i]);
        assert(s.subrange(p.len() as int, (p + x).len() as int)[i] == s[j]);
    }
    assert(s.subrange(p.len() as int, (p + x).len() as int) =~= x);
}

/// Decoding the encoding of any header gives the same field values.
pub proof fn lemma_header_round_trip(h: QCow2Header)
    ensures
        header_encode(h).len() == HEADER_SIZE,
        header_decode(header_encode(h)) == h,
{
    let s = header_encode(h);
    let p0 = Seq::<u8>::empty();
    let p1 = p0 + be_bytes_u32(h.magic);
    let p2 = p1 + be_bytes_u32(h.version);
    let p3 = p2 + be_bytes_u64(h.backing_file_offset);
    let p4 = p3 + be_bytes_u32(h.backing_file_size);
    let p5 = p4 + be_bytes_u32(h.cluster_bits);
    let p6 = p5 + be_bytes_u64(h.size);
    let p7 = p6 + be_bytes_u32(h.crypt_method);
    let p8 = p7 + be_bytes_u32(h.l1_size);
    let p9 = p8 + be_bytes_u64(h.l1_table_offset);
    let p10 = p9 + be_bytes_u64(h.refcount_table_offset);
    let p11 = p10 + be_bytes_u32(h.refcount_table_clusters);
    let p12 = p11 + be_bytes_u32(h.nb_snapshots);
    let p13 = p12 + be_bytes_u64(h.snapshots_offset);
    let p14 = p13 + be_bytes_u64(h.incompatible_features);
    let p15 = p14 + be_bytes_u64(h.compatible_features);
    let p16 = p15 + be_bytes_u64(h.autoclear_features);
    let p17 = p16 + be_bytes_u32(h.refcount_order);
    let p18 = p17 + be_bytes_u32(h.header_length);
    assert(s =~= p18.subrange(0, 104));
    assert(p18.subrange(0, 104) =~= p18);
    lemma_prefix_split(s, p17, be_bytes_u32(h.header_length));
    lemma_u32_field(s, 100, h.header_length);
    lemma_prefix_split(s, p16, be_bytes_u32(h.refcount_order));
    lemma_u32_field(s, 96, h.refcount_order);
    lemma_prefix_split(s, p15, be_bytes_u64(h.autoclear_features));
    lemma_u64_field(s, 88, h.autoclear_features);
    lemma_prefix_split(s, p14, be_bytes_u64(h.compatible_features));
    lemma_u64_field(s, 80, h.compatible_features);
    lemma_prefix_split(s, p13, be_bytes_u64(h.incompatible_features));
    lemma_u64_field(s, 72, h.incompatible_features);
    lemma_prefix_split(s, p12, be_bytes_u64(h.snapshots_offset));
    lemma_u64_field(s, 64, h.snapshots_offset);
    lemma_prefix_split(s, p11, be_bytes_u32(h.nb_snapshots));
    lemma_u32_field(s, 60, h.nb_snapshots);
    lemma_prefix_split(s, p10, be_bytes_u32(h.refcount_table_clusters));
    lemma_u32_field(s, 56, h.refcount_table_clusters);
    lemma_prefix_split(s, p9, be_bytes_u64(h.refcount_table_offset));
    lemma_u64_field(s, 48, h.refcount_table_offset);
    lemma_prefix_split(s, p8, be_bytes_u64(h.l1_table_offset));
    lemma_u64_field(s, 40, h.l1_table_offset);
    lemma_prefix_split(s, p7, be_bytes_u32(h.l1_size));
    lemma_u32_field(s, 36, h.l1_size);
    lemma_prefix_split(s, p6, be_bytes_u32(h.crypt_method));
    lemma_u32_field(s, 32, h.crypt_method);
    lemma_prefix_split(s, p5, be_bytes_u64(h.size));
    lemma_u64_field(s, 24, h.size);
    lemma_prefix_split(s, p4, be_bytes_u32(h.cluster_bits));
    lemma_u32_field(s, 20, h.cluster_bits);
    lemma_prefix_split(s, p3, be_bytes_u32(h.backing_file_size));
    lemma_u32_field(s, 16, h.backing_file_size);
    lemma_prefix_split(s, p2, be_bytes_u64(h.backing_file_offset));
    lemma_u64_field(s, 8, h.backing_file_offset);
    lemma_prefix_split(s, p1, be_bytes_u32(h.version));
    lemma_u32_field(s, 4, h.version);
    lemma_prefix_split(s, p0, be_bytes_u32(h.magic));
    lemma_u32_field(s, 0, h.magic);
}

impl QCow2Header {
    /// Decodes the header from the big-endian bytes at the start of an image; fails when
    /// fewer than `HEADER_SIZE` bytes are given.
    pub fn from_be(bytes: &[u8]) -> (r: Result<QCow2Header, IOError>)
        ensures
            bytes@.len() >= HEADER_SIZE <==> r.is_ok(),
            r matches Ok(h) ==> h == header_decode(bytes@),
            r matches Err(e) ==> e == IOError::GenericError,
    {
        if bytes.len() < HEADER_SIZE {
            return Err(IOError::GenericError);
        }
        Ok(QCow2Header {
            magic: read_be_u32(bytes, 0),
            version: read_be_u32(bytes, 4),
            backing_file_offset: read_be_u64(bytes, 8),
            backing_file_size: read_be_u32(bytes, 16),
            cluster_bits: read_be_u32(bytes, 20),
            size: read_be_u64(bytes, 24),
            crypt_method: read_be_u32(bytes, 32),
            l1_size: read_be_u32(bytes, 36),
            l1_table_offset: read_be_u64(bytes, 40),
            refcount_table_offset: read_be_u64(bytes, 48),
            refcount_table_clusters: read_be_u32(bytes, 56),
            nb_snapshots: read_be_u32(bytes, 60),
            snapshots_offset: read_be_u64(bytes, 64),
            incompatible_features: read_be_u64(bytes, 72),
            compatible_features: read_be_u64(bytes, 80),
            autoclear_features: read_be_u64(bytes, 88),
            refcount_order: read_be_u32(bytes, 96),
            header_length: read_be_u32(bytes, 100),
        })
    }

    /// Encodes the header as its on-disk big-endian bytes.
    pub fn to_be(&self) -> (r: Vec<u8>)
        ensures
            r@ == header_encode(*self),
    {
        let mut out: Vec<u8> = Vec::new();
        push_be_u32(&mut out, self.magic);
        push_be_u32(&mut out, self.version);
        push_be_u64(&mut out, self.backing_file_offset);
        push_be_u32(&mut out, self.backing_file_size);
        push_be_u32(&mut out, self.cluster_bits);
        push_be_u64(&mut out, self.size);
        push_be_u32(&mut out, self.crypt_method);
        push_be_u32(&mut out, self.l1_size);
        push_be_u64(&mut out, self.l1_table_offset);
        push_be_u64(&mut out, self.refcount_table_offset);
        push_be_u32(&mut out, self.refcount_table_clusters);
        push_be_u32(&mut out, self.nb_snapshots);
        push_be_u64(&mut out, self.snapshots_offset);
        push_be_u64(&mut out, self.incompatible_features);
        push_be_u64(&mut out, self.compatible_features);
        push_be_u64(&mut out, self.autoclear_features);
        push_be_u32(&mut out, self.refcount_order);
        push_be_u32(&mut out, self.header_length);
        assert(out@ =~= header_encode(*self));
        out
    }
}

} // verus!
