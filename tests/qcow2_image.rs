use qcow2_engine::entry::{L1Entry, L2Entry};
use qcow2_engine::error::IOError;
use qcow2_engine::host::HostFile;
use qcow2_engine::qcow2::header::QCow2Header;
use qcow2_engine::qcow2::io::{MNMIOVSlice, MNMIOV};
use qcow2_engine::qcow2::open::{check_header, HeaderError, ImagePart, OpenError};
use qcow2_engine::qcow2::refcount::refcount_in_byte;
use qcow2_engine::qcow2::split::plan_chunks;
use qcow2_engine::qcow2::QCow2BDS;

const CS: usize = 512;

fn header(refcount_order: u32) -> QCow2Header {
    QCow2Header {
        magic: 0x514649fb,
        version: 3,
        backing_file_offset: 0,
        backing_file_size: 0,
        cluster_bits: 9,
        size: 32768,
        crypt_method: 0,
        l1_size: 1,
        l1_table_offset: 512,
        refcount_table_offset: 1024,
        refcount_table_clusters: 1,
        nb_snapshots: 0,
        snapshots_offset: 0,
        incompatible_features: 0,
        compatible_features: 0,
        autoclear_features: 0,
        refcount_order,
        header_length: 104,
    }
}

fn put_u64(img: &mut [u8], at: usize, x: u64) {
    img[at..at + 8].copy_from_slice(&x.to_be_bytes());
}

/// A fresh image with 512-byte clusters: header, L1 table, refcount table, and one refcount
/// block (16-bit entries) that marks those four clusters as used.
fn fresh_image() -> Vec<u8> {
    let mut img = vec![0u8; 4 * CS];
    let h = header(4).to_be();
    img[..h.len()].copy_from_slice(&h);
    put_u64(&mut img, 1024, 1536);
    for c in 0..4 {
        img[1536 + 2 * c + 1] = 1;
    }
    img
}

fn open(img: Vec<u8>) -> QCow2BDS {
    match QCow2BDS::do_open(HostFile::new(img), None) {
        Ok(s) => s,
        Err(e) => panic!("open failed: {:?}", e),
    }
}

fn read(s: &mut QCow2BDS, offset: u64, n: usize) -> Result<Vec<u8>, IOError> {
    let (r, bufs) = s.bdrv_co_preadv(offset, n as u64, vec![vec![0xaau8; n]], 0);
    r.map(|_| bufs.into_iter().next().unwrap())
}

#[test]
fn fresh_empty_image_reads_zero() {
    let mut s = open(fresh_image());
    assert_eq!(read(&mut s, 0, 4096).unwrap(), vec![0u8; 4096]);
    assert_eq!(read(&mut s, 32768 - 100, 100).unwrap(), vec![0u8; 100]);
}

#[test]
fn allocate_then_read_back() {
    let mut s = open(fresh_image());
    let data: Vec<u8> = (0..1000u32).map(|i| (i * 7 + 3) as u8).collect();
    s.bdrv_co_pwritev(0, 1000, vec![data.clone()], 0).unwrap();
    assert_eq!(read(&mut s, 0, 1000).unwrap(), data);
    assert_eq!(read(&mut s, 1000, 24).unwrap(), vec![0u8; 24]);
}

#[test]
fn write_over_buffers_then_read_in_other_buffers() {
    let mut s = open(fresh_image());
    let a = vec![1u8; 300];
    let b = vec![2u8; 500];
    s.bdrv_co_pwritev(200, 800, vec![a, b], 0).unwrap();
    let (r, bufs) = s.bdrv_co_preadv(100, 1000, vec![vec![9u8; 100], vec![], vec![9u8; 900]], 0);
    r.unwrap();
    assert_eq!(bufs[0], vec![0u8; 100]);
    assert!(bufs[1].is_empty());
    assert_eq!(&bufs[2][..300], &[1u8; 300][..]);
    assert_eq!(&bufs[2][300..800], &[2u8; 500][..]);
    assert_eq!(&bufs[2][800..], &[0u8; 100][..]);
}

#[test]
fn refcount_order_zero_reads_single_bits() {
    let mut img = fresh_image();
    let h = header(0).to_be();
    img[..h.len()].copy_from_slice(&h);
    for b in &mut img[1536..2048] {
        *b = 0;
    }
    img[1536] = 0b0000_0011;
    let s = open(img);
    assert_eq!(s.get_refcount(0), Ok(1));
    assert_eq!(s.get_refcount(512), Ok(1));
    assert_eq!(s.get_refcount(1024), Ok(0));
    assert_eq!(refcount_in_byte(0b0000_0011, 0, 0), 1);
    assert_eq!(refcount_in_byte(0b0000_0011, 1, 0), 1);
    assert_eq!(refcount_in_byte(0b0000_0011, 2, 0), 0);
}

#[test]
fn refcount_order_four_and_six() {
    let s = open(fresh_image());
    assert_eq!(s.get_refcount(0), Ok(1));
    assert_eq!(s.get_refcount(1536), Ok(1));
    assert_eq!(s.get_refcount(2048), Ok(0));
    assert_eq!(s.get_refcount(1 << 30), Ok(0));
    let mut img = fresh_image();
    let h = header(6).to_be();
    img[..h.len()].copy_from_slice(&h);
    for b in &mut img[1536..2048] {
        *b = 0;
    }
    put_u64(&mut img, 1536 + 8, 0x0102_0304_0506_0708);
    let s = open(img);
    assert_eq!(s.get_refcount(512), Ok(0x0102_0304_0506_0708));
    assert_eq!(s.get_refcount(0), Ok(0));
}

#[test]
fn split_across_cluster_boundary() {
    let cs = 512u32;
    let start = 4096u64 - 5;
    let total = cs as u64 + 10;
    let chunks = plan_chunks(start, total, cs, &vec![total as usize]);
    assert_eq!(chunks.len(), 3);
    assert_eq!(chunks.iter().map(|c| c.len as u64).sum::<u64>(), total);
    assert_eq!(chunks[0].offset, start);
    assert_eq!(chunks[0].len, 5);
    assert_eq!(chunks[1].offset, 4096);
    assert_eq!(chunks[1].len, cs);
    assert_eq!(chunks[2].len, 5);
    for c in &chunks {
        assert!((c.offset % cs as u64) + c.len as u64 <= cs as u64);
    }
    assert_eq!(chunks[2].buf_offset, 5 + cs as usize);
}

#[test]
fn split_follows_buffer_boundaries() {
    let chunks = plan_chunks(0, 700, 512, &vec![100, 0, 1000]);
    let got: Vec<(u64, u32, usize, usize)> =
        chunks.iter().map(|c| (c.offset, c.len, c.buf_index, c.buf_offset)).collect();
    assert_eq!(got, vec![(0, 100, 0, 0), (100, 412, 2, 0), (512, 188, 2, 412)]);
    assert!(plan_chunks(0, 0, 512, &vec![10]).is_empty());
}

#[test]
fn header_round_trip_and_rejections() {
    let h = header(4);
    let bytes = h.to_be();
    assert_eq!(bytes.len(), 104);
    assert_eq!(&bytes[..4], &[0x51, 0x46, 0x49, 0xfb]);
    assert_eq!(QCow2Header::from_be(&bytes), Ok(h));
    assert_eq!(QCow2Header::from_be(&bytes[..103]), Err(IOError::GenericError));
    assert_eq!(check_header(&h), Ok(()));
    assert_eq!(check_header(&QCow2Header { magic: 0x514649fa, ..h }), Err(HeaderError::NotQcow2));
    assert_eq!(check_header(&QCow2Header { cluster_bits: 8, ..h }), Err(HeaderError::UnsupportedClusterSize));
    assert_eq!(check_header(&QCow2Header { version: 1, ..h }), Err(HeaderError::UnsupportedVersion));
    assert_eq!(check_header(&QCow2Header { crypt_method: 1, ..h }), Err(HeaderError::UnsupportedEncryption));
    assert_eq!(check_header(&QCow2Header { header_length: 100, ..h }), Err(HeaderError::HeaderTooShort));
    assert_eq!(check_header(&QCow2Header { header_length: 513, ..h }), Err(HeaderError::HeaderExceedsCluster));
    assert_eq!(check_header(&QCow2Header { backing_file_offset: 513, ..h }), Err(HeaderError::InvalidBackingFileOffset));
    assert_eq!(
        check_header(&QCow2Header { backing_file_offset: 500, backing_file_size: 13, ..h }),
        Err(HeaderError::BackingFileNameTooLong)
    );
    assert_eq!(check_header(&QCow2Header { incompatible_features: 1, ..h }), Err(HeaderError::UnsupportedIncompatibleFeatures));
    assert_eq!(check_header(&QCow2Header { refcount_order: 7, ..h }), Err(HeaderError::RefcountOrderTooLarge));
    assert_eq!(check_header(&QCow2Header { l1_size: 0x400001, ..h }), Err(HeaderError::L1TableTooLarge));
    assert_eq!(check_header(&QCow2Header { l1_size: 0, ..h }), Err(HeaderError::L1TableTooSmall));
    assert_eq!(check_header(&QCow2Header { size: 32769, ..h }), Err(HeaderError::L1TableTooSmall));
    assert_eq!(check_header(&QCow2Header { refcount_table_clusters: 0x20001, ..h }), Err(HeaderError::RefcountTableTooLarge));
    assert_eq!(check_header(&QCow2Header { version: 2, refcount_order: 9, header_length: 0, ..h }), Ok(()));
}

#[test]
fn open_reports_unreadable_parts() {
    assert_eq!(
        QCow2BDS::do_open(HostFile::new(vec![0u8; 50]), None).err(),
        Some(OpenError::Unreadable(ImagePart::Header))
    );
    let mut img = fresh_image();
    img.truncate(1000);
    assert_eq!(
        QCow2BDS::do_open(HostFile::new(img), None).err(),
        Some(OpenError::Unreadable(ImagePart::RefcountTable))
    );
    let mut img = fresh_image();
    img[0] = 0;
    assert_eq!(
        QCow2BDS::do_open(HostFile::new(img), None).err(),
        Some(OpenError::InvalidHeader(HeaderError::NotQcow2))
    );
}

#[test]
fn entry_round_trip_for_every_cluster_size() {
    for cb in 9u32..=21 {
        let cs = 1u32 << cb;
        let shift = (63 - (cb - 8)) as u8;
        let off = 5u64 << cb;
        let l1 = [L1Entry::Unallocated, L1Entry::Allocated(off, false), L1Entry::Allocated(off, true)];
        for e in l1 {
            assert_eq!(L1Entry::from_bits(e.to_bits(), cs), Ok(e));
        }
        let l2 = [
            L2Entry::Unallocated,
            L2Entry::Normal(off, true),
            L2Entry::Normal(off, false),
            L2Entry::Zero(None, false),
            L2Entry::Zero(Some(off), true),
            L2Entry::Zero(Some(off), false),
            L2Entry::Compressed(12345, ((1u64 << (cb - 9)) - 1) * 512),
            L2Entry::Compressed(0, 0),
        ];
        for e in l2 {
            assert_eq!(L2Entry::from_bits(e.to_bits(shift), cs, shift), Ok(e));
        }
    }
}

#[test]
fn entry_bits_are_exact() {
    assert_eq!(L1Entry::Allocated(0x200, true).to_bits(), 0x8000_0000_0000_0200);
    assert_eq!(L2Entry::Zero(None, true).to_bits(62), 1);
    assert_eq!(L2Entry::Zero(Some(0x400), true).to_bits(62), 0x8000_0000_0000_0401);
    assert_eq!(L2Entry::Compressed(0x10, 513).to_bits(50), 0x4000_0000_0000_0010 | (2u64 << 50));
    assert_eq!(L2Entry::from_bits(0x4000_0000_0000_0010 | (2u64 << 50), 512, 50), Ok(L2Entry::Compressed(0x10, 1024)));
    assert_eq!(L1Entry::from_bits(0x300, 512), Ok(L1Entry::Allocated(0x200, false)));
    assert_eq!(L1Entry::from_bits(0x1300, 4096), Err(IOError::InvalidMetadata));
    assert_eq!(L2Entry::from_bits(0x8000_0000_0000_1200, 4096, 59), Err(IOError::InvalidMetadata));
    assert_eq!(L2Entry::from_bits(0x8000_0000_0000_0001, 512, 62), Ok(L2Entry::Zero(None, false)));
}

#[test]
fn translation_is_repeatable() {
    let mut s = open(fresh_image());
    s.bdrv_co_pwritev(600, 4, vec![vec![7u8; 4]], 0).unwrap();
    let a = s.find_host_offset(600).unwrap();
    let b = s.find_host_offset(600).unwrap();
    assert_eq!(a, b);
    assert_eq!(a.l1_index, 0);
    assert_eq!(a.l2_index, 1);
    assert_eq!(a.offset_in_cluster, 88);
    assert!(matches!(a.l2_entry, Some(L2Entry::Normal(_, true))));
    let fresh = open(fresh_image());
    let h = fresh.find_host_offset(600).unwrap();
    assert_eq!(h.l1_entry, L1Entry::Unallocated);
    assert_eq!(h.l2_entry, None);
}

#[test]
fn sequential_allocations_differ() {
    let mut s = open(fresh_image());
    let a = s.allocate_cluster().unwrap();
    let b = s.allocate_cluster().unwrap();
    assert_eq!(a, 2048);
    assert_eq!(b, 2560);
    assert_ne!(a, b);
}

/// An image whose L1 entry points at a shared (not COPIED) L2 table in cluster 4, whose
/// entry 0 points at a shared data cluster in cluster 5.
fn image_with_shared_tables() -> Vec<u8> {
    let mut img = fresh_image();
    img.resize(6 * CS, 0);
    put_u64(&mut img, 512, 2048);
    put_u64(&mut img, 2048, 2560);
    img[1536 + 2 * 4 + 1] = 2;
    img[1536 + 2 * 5 + 1] = 2;
    for b in &mut img[2560..3072] {
        *b = 0x55;
    }
    img
}

#[test]
fn cow_update_keeps_shared_table() {
    let mut s = open(image_with_shared_tables());
    let before: Vec<u8> = s.file_bytes().as_bytes()[2048..2560].to_vec();
    let mut hoi = s.find_host_offset(512).unwrap();
    assert_eq!(hoi.l1_entry, L1Entry::Allocated(2048, false));
    hoi.l2_entry = Some(L2Entry::Normal(0x1000, true));
    let h = s.update_l2_entry(hoi).unwrap();
    let bytes = s.file_bytes().as_bytes().to_vec();
    assert_eq!(&bytes[2048..2560], &before[..]);
    match h.l1_entry {
        L1Entry::Allocated(n, true) => {
            assert_ne!(n, 2048);
            let n = n as usize;
            assert_eq!(&bytes[n..n + 8], &2560u64.to_be_bytes());
            assert_eq!(&bytes[n + 8..n + 16], &(0x1000u64 | (1 << 63)).to_be_bytes());
        },
        other => panic!("unexpected L1 entry {:?}", other),
    }
    let again = s.find_host_offset(512).unwrap();
    assert_eq!(again.l2_entry, Some(L2Entry::Normal(0x1000, true)));
}

#[test]
fn write_to_shared_data_cluster_copies_it() {
    let mut s = open(image_with_shared_tables());
    s.bdrv_co_pwritev(10, 2, vec![vec![1, 2]], 0).unwrap();
    let got = read(&mut s, 0, 16).unwrap();
    let mut want = vec![0x55u8; 16];
    want[10] = 1;
    want[11] = 2;
    assert_eq!(got, want);
    let bytes = s.file_bytes().as_bytes().to_vec();
    assert_eq!(&bytes[2560..3072], &[0x55u8; 512][..]);
}

#[test]
fn zero_cluster_reads_zero_and_refuses_writes() {
    let mut img = image_with_shared_tables();
    put_u64(&mut img, 2048, 1);
    put_u64(&mut img, 2056, 0x4000_0000_0000_0000 | (1u64 << 62 >> 12));
    let mut s = open(img);
    assert_eq!(read(&mut s, 0, 512).unwrap(), vec![0u8; 512]);
    assert_eq!(s.bdrv_co_pwritev(0, 1, vec![vec![1]], 0), Err(IOError::UnsupportedImageFeature));
    assert_eq!(read(&mut s, 512, 4), Err(IOError::UnsupportedImageFeature));
}

#[test]
fn misaligned_l1_entry_is_invalid_metadata() {
    let cs = 4096usize;
    let mut img = vec![0u8; 4 * cs];
    let h = QCow2Header {
        cluster_bits: 12,
        size: 1 << 21,
        l1_table_offset: cs as u64,
        refcount_table_offset: 2 * cs as u64,
        ..header(4)
    };
    let hb = h.to_be();
    img[..hb.len()].copy_from_slice(&hb);
    put_u64(&mut img, cs, 0x1200);
    let mut s = open(img);
    assert_eq!(read(&mut s, 0, 4), Err(IOError::InvalidMetadata));
    assert_eq!(s.find_host_offset(100), Err(IOError::InvalidMetadata));
}

#[test]
fn request_past_disk_end_fails() {
    let mut s = open(fresh_image());
    assert_eq!(read(&mut s, 32768 - 2, 4), Err(IOError::GenericError));
    assert_eq!(s.bdrv_co_pwritev(32768, 1, vec![vec![1]], 0), Err(IOError::GenericError));
}

#[test]
fn backing_file_fills_unallocated_clusters() {
    let backing: Vec<u8> = (0..32768u32).map(|i| (i % 251) as u8).collect();
    let mut s = QCow2BDS::do_open(HostFile::new(fresh_image()), Some(HostFile::new(backing.clone()))).unwrap();
    assert_eq!(read(&mut s, 1000, 50).unwrap(), backing[1000..1050].to_vec());
}

#[test]
fn read_cluster_fills_start_of_buffer() {
    let s = open(fresh_image());
    let mut dest = MNMIOVSlice::Mut(vec![7u8; 10]);
    s.read_cluster(0, 4, &mut dest, 0).unwrap();
    match dest {
        MNMIOVSlice::Mut(b) => assert_eq!(b, vec![0, 0, 0, 0, 7, 7, 7, 7, 7, 7]),
        MNMIOVSlice::Const(_) => panic!("buffer changed kind"),
    }
}

#[test]
fn split_io_dispatches_by_vector_kind() {
    let mut s = open(fresh_image());
    let mut w = MNMIOV::Const(vec![vec![3u8; 20]]);
    s.split_io_to_clusters(500, 20, &mut w, 0).unwrap();
    let mut r = MNMIOV::Mut(vec![vec![0u8; 20]]);
    s.split_io_to_clusters(500, 20, &mut r, 0).unwrap();
    match r {
        MNMIOV::Mut(b) => assert_eq!(b[0], vec![3u8; 20]),
        MNMIOV::Const(_) => panic!("vector changed kind"),
    }
}

#[test]
fn free_cluster_moves_hint_back() {
    let mut s = open(fresh_image());
    assert_eq!(s.free_cluster(L2Entry::Unallocated), Ok(()));
    assert_eq!(s.free_cluster(L2Entry::Zero(None, false)), Ok(()));
    let a = s.allocate_cluster().unwrap();
    let _ = s.allocate_cluster().unwrap();
    assert_eq!(s.free_cluster(L2Entry::Normal(a, true)), Err(IOError::UnsupportedImageFeature));
    assert_eq!(s.allocate_cluster(), Ok(a));
    assert_eq!(s.change_refcount(a, 1), Err(IOError::UnsupportedImageFeature));
}

#[test]
fn driver_info_and_errno() {
    let s = open(fresh_image());
    let info = s.bdrv_get_info();
    assert_eq!(info.cluster_size, 512);
    assert!(info.unallocated_blocks_are_zero);
    assert!(!info.can_write_zeroes_with_unmap);
    assert_eq!(IOError::GenericError.to_errno(), -5);
    assert_eq!(IOError::InvalidMetadata.to_errno(), -5);
    assert_eq!(IOError::NoSpaceLeft.to_errno(), -28);
    assert_eq!(IOError::UnsupportedImageFeature.to_errno(), -95);
}

#[test]
fn write_that_clobbers_its_own_table_is_reported() {
    let mut img = fresh_image();
    img.resize(5 * CS, 0);
    put_u64(&mut img, 512, 2048 | (1 << 63));
    put_u64(&mut img, 2048, 2048 | (1 << 63));
    img[1536 + 2 * 4 + 1] = 1;
    let mut s = open(img);
    assert_eq!(s.bdrv_co_pwritev(0, 8, vec![vec![0xffu8; 8]], 0), Err(IOError::InvalidMetadata));
}

#[test]
fn flags_do_not_change_results() {
    let mut s = open(fresh_image());
    s.bdrv_co_pwritev(3, 4, vec![vec![1, 2, 3, 4]], 7).unwrap();
    let (r, bufs) = s.bdrv_co_preadv(0, 8, vec![vec![0u8; 8]], 7);
    r.unwrap();
    assert_eq!(bufs[0], vec![0, 0, 0, 1, 2, 3, 4, 0]);
}
