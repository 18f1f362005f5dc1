use rekordcrate::pdb::bitfields::{PackedRowCounts, PageFlags};

#[test]
fn test_page_flags_index() {
    let flags = PageFlags::new_index_page();
    assert_eq!(flags.into_bytes(), [0x64]);
}

#[test]
fn test_page_flags_data() {
    let mut flags = PageFlags::new_data_page();
    assert_eq!(flags.into_bytes(), [0x24]);

    flags.set_contains_deleted(true);
    assert_eq!(flags.into_bytes(), [0x34]);
}

#[test]
fn page_flags_bytes_roundtrip() {
    for b in 0..=255u8 {
        assert_eq!(PageFlags::from_bytes([b]).into_bytes(), [b]);
    }
}

#[test]
fn packed_row_counts_layout() {
    let counts = PackedRowCounts::from_all_valid(20);
    assert_eq!(counts.num_rows(), 20);
    assert_eq!(counts.num_rows_valid(), 20);
    // 20 + 20 * 8192 = 163860 = 0x028014
    assert_eq!(counts.into_bytes(), [0x14, 0x80, 0x02]);
    assert_eq!(PackedRowCounts::from_bytes([0x14, 0x80, 0x02]), counts);
    assert_eq!(counts.num_row_groups(), 2);
    assert_eq!(counts.last_row_index(), Some((1, 3)));
    assert_eq!(PackedRowCounts::new().last_row_index(), None);
    assert_eq!(PackedRowCounts::default().num_row_groups(), 0);
}
