use vstd::prelude::*;

use crate::bytes::{be_u64_at, read_be_u64};
use crate::host::{read_ok, HostFile};
use super::header::{header_decode, QCow2Header, HEADER_SIZE, QCOW2_MAGIC};
use super::{image_wf, QCow2BDS, MAX_L1_SIZE, MAX_REFTABLE_SIZE};

verus! {

/// Why a header is refused; each names the field that fails.
#[derive(Debug, Clone, Copy, PartialEq, Eq, Structural)]
pub enum HeaderError {
    /// The magic number is not that of a qcow2 image.
    NotQcow2,
    /// The version is neither 2 nor 3.
    UnsupportedVersion,
    /// `cluster_bits` is outside the supported range.
    UnsupportedClusterSize,
    /// A version 3 header is shorter than 104 bytes.
    HeaderTooShort,
    /// A version 3 header is longer than a cluster.
    HeaderExceedsCluster,
    /// The backing file name starts beyond the first cluster.
    InvalidBackingFileOffset,
    /// The backing file name is longer than 1023 bytes or passes the first cluster.
    BackingFileNameTooLong,
    /// A version 3 image sets incompatible feature bits.
    UnsupportedIncompatibleFeatures,
    /// Refcounts are wider than 64 bits.
    RefcountOrderTooLarge,
    /// The image is encrypted.
    UnsupportedEncryption,
    /// The L1 table has more entries than allowed.
    L1TableTooLarge,
    /// The L1 table is empty or does not cover the virtual disk.
    L1TableTooSmall,
    /// The refcount table has more entries than allowed.
    RefcountTableTooLarge,
}

/// The part of an image that could not be read while opening it.
#[derive(Debug, Clone, Copy, PartialEq, Eq, Structural)]
pub enum ImagePart {
    Header,
    L1Table,
    RefcountTable,
    BackingFileName,
}

/// Why an image could not be opened.
#[derive(Debug, Clone, Copy, PartialEq, Eq, Structural)]
pub enum OpenError {
    /// A part of the image lies beyond the end of the file.
    Unreadable(ImagePart),
    /// The header holds an unsupported or inconsistent value.
    InvalidHeader(HeaderError),
}

/// The width of a refcount, as a power of two of bits: version 2 images always use 16 bits.
pub open spec fn refcount_order_of(h: QCow2Header) -> u32 {
    if h.version > 2 { h.refcount_order } else { 4 }
}

/// The number of refcount table entries that the header declares.
pub open spec fn reftable_entries(h: QCow2Header) -> u64 {
    ((h.refcount_table_clusters as u64) << ((h.cluster_bits - 3) as u64)) as u64
}

/// The first check, in order, that the header fails; `None` when it passes them all.
pub open spec fn header_error(h: QCow2Header) -> Option<HeaderError> {
    let cs = 1u64 << (h.cluster_bits as u64);
    if h.magic != QCOW2_MAGIC {
        Some(HeaderError::NotQcow2)
    } else if h.version < 2 || h.version > 3 {
        Some(HeaderError::UnsupportedVersion)
    } else if h.cluster_bits < 9 || h.cluster_bits > 21 {
        Some(HeaderError::UnsupportedClusterSize)
    } else if h.version > 2 && h.header_length < 104 {
        Some(HeaderError::HeaderTooShort)
    } else if h.version > 2 && h.header_length as u64 > cs {
        Some(HeaderError::HeaderExceedsCluster)
    } else if h.backing_file_offset > cs {
        Some(HeaderError::InvalidBackingFileOffset)
    } else if h.backing_file_size > 1023 || h.backing_file_size as u64 > cs - h.backing_file_offset {
        Some(HeaderError::BackingFileNameTooLong)
    } else if h.version > 2 && h.incompatible_features != 0 {
        Some(HeaderError::UnsupportedIncompatibleFeatures)
    } else if h.version > 2 && h.refcount_order > 6 {
        Some(HeaderError::RefcountOrderTooLarge)
    } else if h.crypt_method != 0 {
        Some(HeaderError::UnsupportedEncryption)
    } else if h.l1_size > MAX_L1_SIZE / 8 {
        Some(HeaderError::L1TableTooLarge)
    } else if h.l1_size == 0 || ((h.l1_size as u64) << ((2 * h.cluster_bits - 3) as u64)) < h.size {
        Some(HeaderError::L1TableTooSmall)
    } else if reftable_entries(h) > MAX_REFTABLE_SIZE as u64 {
        Some(HeaderError::RefcountTableTooLarge)
    } else {
        None
    }
}

/// A valid header stops being accepted when any one of its magic, version, cluster size or
/// encryption method is corrupted.
pub proof fn lemma_header_corruption_rejected(h: QCow2Header, magic: u32, version: u32, crypt: u32)
    requires
        header_error(h).is_none(),
        magic != QCOW2_MAGIC,
        version < 2 || version > 3,
        crypt != 0,
    ensures
        header_error(QCow2Header { magic, ..h }) == Some(HeaderError::NotQcow2),
        header_error(QCow2Header { version, ..h }) == Some(HeaderError::UnsupportedVersion),
        header_error(QCow2Header { cluster_bits: 8, ..h }) == Some(HeaderError::UnsupportedClusterSize),
        header_error(QCow2Header { crypt_method: crypt, ..h }) == Some(HeaderError::UnsupportedEncryption),
{
}

/// The `n` big-endian 64-bit entries stored from `off` in `s`.
pub open spec fn be_table(s: Seq<u8>, off: int, n: int) -> Seq<u64> {
    Seq::new(n as nat, |i: int| be_u64_at(s, off + 8 * i))
}

/// Checks a decoded header, in the order of `header_error`.
pub fn check_header(h: &QCow2Header) -> (r: Result<(), HeaderError>)
    ensures
        r.is_ok() <==> header_error(*h).is_none(),
        r matches Err(e) ==> header_error(*h) == Some(e),
{
    if h.magic != QCOW2_MAGIC {
        return Err(HeaderError::NotQcow2);
    }
    if h.version < 2 || h.version > 3 {
        return Err(HeaderError::UnsupportedVersion);
    }
    if h.cluster_bits < 9 || h.cluster_bits > 21 {
        return Err(HeaderError::UnsupportedClusterSize);
    }
    let cbits = h.cluster_bits;
    let cs: u64 = 1u64 << (cbits as u64);
    assert(cs >= 512 && cs <= 0x200000) by (bit_vector)
        requires
            cs == 1u64 << (cbits as u64),
            9 <= cbits <= 21,
    ;
    if h.version > 2 && h.header_length < 104 {
        return Err(HeaderError::HeaderTooShort);
    }
    if h.version > 2 && h.header_length as u64 > cs {
        return Err(HeaderError::HeaderExceedsCluster);
    }
    if h.backing_file_offset > cs {
        return Err(HeaderError::InvalidBackingFileOffset);
    }
    if h.backing_file_size > 1023 || h.backing_file_size as u64 > cs - h.backing_file_offset {
        return Err(HeaderError::BackingFileNameTooLong);
    }
    if h.version > 2 && h.incompatible_features != 0 {
        return Err(HeaderError::UnsupportedIncompatibleFeatures);
    }
    if h.version > 2 && h.refcount_order > 6 {
        return Err(HeaderError::RefcountOrderTooLarge);
    }
    if h.crypt_method != 0 {
        return Err(HeaderError::UnsupportedEncryption);
    }
    if h.l1_size > MAX_L1_SIZE / 8 {
        return Err(HeaderError::L1TableTooLarge);
    }
    let l1_bits: u64 = (2 * h.cluster_bits - 3) as u64;
    if h.l1_size == 0 || ((h.l1_size as u64) << l1_bits) < h.size {
        return Err(HeaderError::L1TableTooSmall);
    }
    let entries: u64 = (h.refcount_table_clusters as u64) << ((h.cluster_bits - 3) as u64);
    if entries > MAX_REFTABLE_SIZE as u64 {
        return Err(HeaderError::RefcountTableTooLarge);
    }
    Ok(())
}

/// Decodes `n` big-endian 64-bit entries from the start of `bytes`.
fn decode_table(bytes: &Vec<u8>, n: usize) -> (r: Vec<u64>)
    requires
        8 * n <= bytes@.len(),
    ensures
        r@ == be_table(bytes@, 0, n as int),
{
    let mut table: Vec<u64> = Vec::with_capacity(n);
    let blen = bytes.len();
    let mut i: usize = 0;
    while i < n
        invariant
            8 * n <= bytes@.len(),
            blen == bytes@.len(),
            i <= n,
            table@ =~= be_table(bytes@, 0, i as int),
        decreases n - i,
    {
        assert(8 * i + 8 <= 8 * n) by (nonlinear_arith)
            requires
                i < n,
        ;
        table.push(read_be_u64(bytes.as_slice(), 8 * i));
        i = i + 1;
        assert(table@ =~= be_table(bytes@, 0, i as int));
    }
    table
}

impl QCow2BDS {
    /// Opens the image that `file` holds: reads and checks its header, then reads its L1
    /// table, refcount table and backing file name. `backing` is the backing image, if any.
    pub fn do_open(file: HostFile, backing: Option<HostFile>) -> (r: Result<QCow2BDS, OpenError>)
        ensures
            !read_ok(file@, 0, HEADER_SIZE as int) ==> r == Err::<QCow2BDS, OpenError>(
                OpenError::Unreadable(ImagePart::Header),
            ),
            read_ok(file@, 0, HEADER_SIZE as int) ==> ({
                let h = header_decode(file@);
                let l1_bytes = 8 * h.l1_size;
                let rt_bytes = 8 * reftable_entries(h);
                &&& (header_error(h) matches Some(e) ==> r == Err::<QCow2BDS, OpenError>(
                    OpenError::InvalidHeader(e),
                ))
                &&& (header_error(h).is_none() ==> match r {
                    Ok(s) => {
                        &&& s.wf()
                        &&& s@.file == file@
                        &&& s@.backing == match backing {
                            Some(b) => Some(b@),
                            None => None::<Seq<u8>>,
                        }
                        &&& s@.disk_size == h.size
                        &&& s@.version == h.version
                        &&& s@.cluster_bits == h.cluster_bits
                        &&& s@.refcount_order == refcount_order_of(h)
                        &&& s@.l1_offset == h.l1_table_offset
                        &&& s@.l1_table == be_table(file@, h.l1_table_offset as int, h.l1_size as int)
                        &&& s@.reftable == be_table(
                            file@,
                            h.refcount_table_offset as int,
                            reftable_entries(h) as int,
                        )
                        &&& s@.hint == 0
                        &&& read_ok(file@, h.l1_table_offset as int, l1_bytes as int)
                        &&& read_ok(file@, h.refcount_table_offset as int, rt_bytes as int)
                    },
                    Err(OpenError::Unreadable(ImagePart::L1Table)) => !read_ok(
                        file@,
                        h.l1_table_offset as int,
                        l1_bytes as int,
                    ),
                    Err(OpenError::Unreadable(ImagePart::RefcountTable)) => !read_ok(
                        file@,
                        h.refcount_table_offset as int,
                        rt_bytes as int,
                    ),
                    Err(OpenError::Unreadable(ImagePart::BackingFileName)) => !read_ok(
                        file@,
                        h.backing_file_offset as int,
                        h.backing_file_size as int,
                    ),
                    Err(_) => false,
                })
            }),
    {
        let hbytes = match file.pread(0, HEADER_SIZE) {
            Ok(b) => b,
            Err(_) => return Err(OpenError::Unreadable(ImagePart::Header)),
        };
        assert(hbytes@.len() == HEADER_SIZE);
        let header = match QCow2Header::from_be(hbytes.as_slice()) {
            Ok(h) => h,
            Err(_) => return Err(OpenError::Unreadable(ImagePart::Header)),
        };
        assert(header == header_decode(file@)) by {
            assert(header_decode(hbytes@) == header_decode(file@));
        }
        if let Err(e) = check_header(&header) {
            return Err(OpenError::InvalidHeader(e));
        }
        let cluster_bits: u8 = header.cluster_bits as u8;
        let cb = header.cluster_bits;
        let cluster_size: u32 = 1u32 << cb;
        let refcount_order: u8 = if header.version > 2 { header.refcount_order as u8 } else { 4u8 };
        let ro = refcount_order as u32;
        let l2_bits: u8 = cluster_bits - 3;
        let l2_size: u32 = 1u32 << (cb - 3);
        let l1_bits: u8 = cluster_bits + l2_bits;
        let refblock_bits: u32 = cb + 3 - ro;
        let refblock_size: u32 = 1u32 << refblock_bits;
        let reftable_bits: u8 = (cb + refblock_bits) as u8;
        let reftable_size: u64 = (header.refcount_table_clusters as u64) << ((cb - 3) as u64);
        assert(cluster_size >= 512 && cluster_size <= 0x200000 && refblock_size >= 1) by (bit_vector)
            requires
                cluster_size == 1u32 << cb,
                refblock_size == 1u32 << refblock_bits,
                9 <= cb <= 21,
                refblock_bits <= 24,
        ;

        let l1_len: usize = header.l1_size as usize;
        let l1_bytes = match file.pread(header.l1_table_offset, 8 * l1_len) {
            Ok(b) => b,
            Err(_) => return Err(OpenError::Unreadable(ImagePart::L1Table)),
        };
        let l1_table = decode_table(&l1_bytes, l1_len);
        assert(l1_table@ =~= be_table(file@, header.l1_table_offset as int, header.l1_size as int));

        let rt_len: usize = reftable_size as usize;
        let rt_bytes = match file.pread(header.refcount_table_offset, 8 * rt_len) {
            Ok(b) => b,
            Err(_) => return Err(OpenError::Unreadable(ImagePart::RefcountTable)),
        };
        let reftable = decode_table(&rt_bytes, rt_len);
        assert(reftable@ =~= be_table(
            file@,
            header.refcount_table_offset as int,
            reftable_size as int,
        ));

        let backing_file_name = match file.pread(header.backing_file_offset, header.backing_file_size as usize) {
            Ok(b) => b,
            Err(_) => return Err(OpenError::Unreadable(ImagePart::BackingFileName)),
        };

        let s = QCow2BDS {
            file,
            backing,
            backing_file_name,
            disk_size: header.size,
            qcow_version: header.version as u8,
            cluster_bits,
            cluster_size,
            cluster_sectors: cluster_size >> 9u32,
            l1_bits,
            l1_size: header.l1_size,
            l2_bits,
            l2_size,
            l1_offset: header.l1_table_offset,
            l1_table,
            refcount_order,
            reftable_bits,
            refblock_size,
            reftable_offset: header.refcount_table_offset,
            reftable_size: reftable_size as u32,
            reftable,
            first_free_cluster_offset: 0,
        };
        let cs_mask = (cluster_size - 1) as u64;
        assert(0u64 & cs_mask == 0) by (bit_vector);
        assert(image_wf(s@));
        Ok(s)
    }
}

} // verus!
