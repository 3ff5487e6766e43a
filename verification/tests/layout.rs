//! Sizes, offsets and checksums of the file format.

use mappedpages::bytes::{read_u32, read_u64};
use mappedpages::checksum::{check_seal, seal};
use mappedpages::directory::{
    DirPage, dir_entries_per_page, max_dir_blocks, read_dir_blocks, read_refs,
};
use mappedpages::guard::{is_addressable, is_valid_sub_size};
use mappedpages::image::{choose_meta, is_page_in_map, is_valid_page_size, page_size_log2};
use mappedpages::meta::{MAGIC, MetaPage, MetaSelector, bitmap_bytes};
use mappedpages::sub_allocator::full_mask;
use mappedpages::{MappedPage, Pager};

#[test]
fn page_checksum_is_crc32() {
    assert_eq!(MetaPage::page_checksum(b"123456789"), 0xCBF4_3926);
    assert_eq!(MetaPage::page_checksum(b""), 0);
}

#[test]
fn checksum_is_taken_bit_by_bit() {
    // Long enough for every stride in which bytes may be taken at once.
    let data: Vec<u8> = (0..2000u32).map(|i| (i * i >> 3) as u8).collect();
    let mut register = 0xFFFF_FFFFu32;
    for (i, byte) in data.iter().enumerate() {
        assert_eq!(MetaPage::page_checksum(&data[..i]), !register);
        register ^= *byte as u32;
        for _ in 0..8 {
            let polynomial = if register & 1 == 1 { 0xEDB8_8320 } else { 0 };
            register = register >> 1 ^ polynomial;
        }
    }
    assert_eq!(MetaPage::page_checksum(&data), !register);
}

#[test]
fn seal_is_the_checksum_of_what_stands_before_it() {
    let mut buf = b"123456789----".to_vec();
    seal(&mut buf);
    assert_eq!(&buf[..9], b"123456789");
    assert_eq!(read_u32(&buf, 9), 0xCBF4_3926);
    assert!(check_seal(&buf));
    buf[0] ^= 1;
    assert!(!check_seal(&buf));
}

#[test]
fn counts_of_a_small_page() {
    assert_eq!(max_dir_blocks(1024), 58);
    assert_eq!(dir_entries_per_page(1024), 33);
    assert_eq!(max_dir_blocks(27), 0);
    assert_eq!(max_dir_blocks(45), 1);
    assert_eq!(dir_entries_per_page(11), 0);
    assert_eq!(dir_entries_per_page(42), 1);
    assert_eq!(bitmap_bytes(0), 0);
    assert_eq!(bitmap_bytes(8), 1);
    assert_eq!(bitmap_bytes(9), 2);
    assert_eq!(bitmap_bytes(u64::MAX), 1 << 61);
}

#[test]
fn page_sizes() {
    assert!(is_valid_page_size(1024));
    assert!(is_valid_page_size(4096));
    assert!(!is_valid_page_size(0));
    assert!(!is_valid_page_size(512));
    assert!(!is_valid_page_size(1025));
    assert!(!is_valid_page_size(3072));
    assert!(!is_valid_page_size(usize::MAX));
    assert_eq!(page_size_log2(1024), 10);
    assert_eq!(page_size_log2(4096), 12);
    assert_eq!(page_size_log2(1), 0);
    assert!(is_addressable(4096));
}

#[test]
fn sub_page_sizes() {
    assert!(is_valid_sub_size(4096, 512));
    assert!(is_valid_sub_size(4096, 64));
    assert!(is_valid_sub_size(4096, 2048));
    assert!(!is_valid_sub_size(4096, 32));
    assert!(!is_valid_sub_size(4096, 4096));
    assert!(!is_valid_sub_size(4096, 0));
    assert!(!is_valid_sub_size(4096, 1000));
    assert_eq!(full_mask(8), 0xFF);
    assert_eq!(full_mask(2), 0b11);
    assert_eq!(full_mask(64), u64::MAX);
}

#[test]
fn pages_of_a_map() {
    assert!(is_page_in_map(3, 1024, 4096));
    assert!(!is_page_in_map(4, 1024, 4096));
    assert!(!is_page_in_map(3, 1024, 4095));
    assert!(!is_page_in_map(u64::MAX, 1024, usize::MAX));
}

#[test]
fn mapped_page_views() {
    let mut bytes = vec![1u8, 2, 3];
    {
        let page = MappedPage::from_slice(&bytes);
        assert_eq!(page.as_bytes(), &[1, 2, 3]);
        assert_eq!(page.len(), 3);
        assert!(!page.is_empty());
    }
    {
        let mut page = MappedPage::from_slice_mut(&mut bytes);
        page.as_bytes_mut()[1] = 9;
        assert_eq!(page.as_bytes(), &[1, 9, 3]);
        assert_eq!(page.len(), 3);
        assert!(!page.is_empty());
    }
    assert_eq!(bytes, vec![1, 9, 3]);
    assert!(MappedPage::from_slice(&[]).is_empty());
}

#[test]
fn fresh_file_bytes() {
    let (pager, file) = Pager::<1024>::create();
    assert_eq!(pager.page_count(), 4);
    assert_eq!(file.len(), 4096);
    assert_eq!(&file[0..8], b"MPPG\x00\x01\x00\x00");
    assert_eq!(read_u64(&file, 0), MAGIC);
    assert_eq!(read_u32(&file, 8), 10); // page_size_log2
    assert_eq!(file[12], 0); // metadata page A is active
    assert_eq!(read_u32(&file, 16), MetaPage::page_checksum(&file[1024..2048]));
    assert_eq!(read_u32(&file, 20), 0); // no directory block
    assert!(check_seal(&file[20..1024]));
    assert_eq!(file[1024..2048], file[2048..3072]);
    assert_eq!(read_u64(&file, 1024), 4); // total_pages
    assert_eq!(read_u64(&file, 1032), 0); // generation
    assert_eq!(read_u64(&file, 1040), 1); // free_count
    assert_eq!(file[1048], 0b0000_0111);
    assert!(file[3072..].iter().all(|&b| b == 0));
}

#[test]
fn fields_are_read_and_written_without_a_checksum() {
    let mut meta = MetaPage::new_for_capacity(4);
    assert_eq!(meta.alloc_page(), Some(3));
    let mut buf = vec![0xEEu8; 1024];
    meta.write_fields(&mut buf);
    assert_eq!(&buf[1020..], [0xEE; 4]);
    assert!(MetaPage::from_bytes(&buf).is_none());
    let read = MetaPage::from_fields(&buf).unwrap();
    assert_eq!((read.total_pages, read.generation, read.free_count), (4, 0, 0));
    assert_eq!(read.bitmap, [0b0000_1111]);
    // A bitmap for 7968 pages fits, one for more does not.
    buf[0..8].copy_from_slice(&7968u64.to_le_bytes());
    assert_eq!(MetaPage::from_fields(&buf).unwrap().bitmap.len(), 996);
    buf[0..8].copy_from_slice(&7969u64.to_le_bytes());
    assert!(MetaPage::from_fields(&buf).is_none());

    let mut buf = vec![0xEEu8; 1024];
    DirPage::new_empty(1024).write_fields(&mut buf);
    assert_eq!(&buf[1020..], [0xEE; 4]);
    assert!(DirPage::from_bytes(&buf).is_none());
    assert_eq!(DirPage::from_fields(&buf).unwrap().entries.len(), 33);
    buf[0] = 34;
    assert!(DirPage::from_fields(&buf).is_none());
}

#[test]
fn references_are_read_without_a_checksum() {
    let mut page0 = vec![0u8; 1024];
    page0[20] = 2; // count
    page0[24] = 3; // page_a of the first
    page0[32] = 4; // page_b of the first
    page0[40] = 1; // B is active
    let refs = read_refs(&page0).unwrap();
    assert_eq!(refs.len(), 2);
    assert_eq!((refs[0].page_a, refs[0].page_b, refs[0].active), (3, 4, MetaSelector::B));
    assert_eq!((refs[1].page_a, refs[1].page_b, refs[1].active), (0, 0, MetaSelector::A));
    assert!(read_dir_blocks(&page0).is_err());
    page0[40] = 2;
    assert!(read_refs(&page0).is_err());
    page0[40] = 0;
    page0[20] = 59;
    assert!(read_refs(&page0).is_err());
}

#[test]
fn metadata_are_chosen_by_checksum() {
    let page = |total| Some(MetaPage::new_for_capacity(total));
    let (sel, m) = choose_meta(MetaSelector::A, 7, page(4), 7, page(8)).unwrap();
    assert_eq!((sel, m.total_pages), (MetaSelector::A, 4));
    let (sel, m) = choose_meta(MetaSelector::A, 7, page(4), 8, page(8)).unwrap();
    assert_eq!((sel, m.total_pages), (MetaSelector::B, 8));
    let (sel, m) = choose_meta(MetaSelector::B, 7, None, 7, page(8)).unwrap();
    assert_eq!((sel, m.total_pages), (MetaSelector::A, 8));
    assert!(choose_meta(MetaSelector::A, 7, page(4), 8, None).is_none());
    assert!(choose_meta(MetaSelector::A, 7, None, 7, None).is_none());
}
