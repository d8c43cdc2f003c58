use bindkey::errors::DiskError;
use bindkey::layout::{
    logical_block_count_from_physical, map_lba, physical_block_count_needed_for_logical,
    validate_block_size,
};

#[test]
fn map_lba_first_group() {
    assert_eq!(map_lba(0), (0, 24, 0));
    assert_eq!(map_lba(1), (1, 24, 1));
    assert_eq!(map_lba(23), (23, 24, 23));
}

#[test]
fn map_lba_later_groups() {
    assert_eq!(map_lba(24), (25, 49, 0));
    assert_eq!(map_lba(25), (26, 49, 1));
    assert_eq!(map_lba(47), (48, 49, 23));
    assert_eq!(map_lba(48), (50, 74, 0));
}

#[test]
fn map_lba_matches_group_formulas() {
    for group in 0u32..5 {
        for g in 0u32..24 {
            let l = group * 24 + g;
            let (data, meta, idx) = map_lba(l);
            assert_eq!(data, group * 25 + g);
            assert_eq!(meta, group * 25 + 24);
            assert_eq!(idx, g as usize);
        }
    }
}

#[test]
fn logical_count_from_physical() {
    assert_eq!(logical_block_count_from_physical(0), 0);
    assert_eq!(logical_block_count_from_physical(24), 0);
    assert_eq!(logical_block_count_from_physical(25), 24);
    assert_eq!(logical_block_count_from_physical(49), 24);
    assert_eq!(logical_block_count_from_physical(50), 48);
    assert_eq!(logical_block_count_from_physical(4096), 3912);
}

#[test]
fn physical_count_needed_for_logical() {
    assert_eq!(physical_block_count_needed_for_logical(0), 0);
    assert_eq!(physical_block_count_needed_for_logical(1), 25);
    assert_eq!(physical_block_count_needed_for_logical(24), 25);
    assert_eq!(physical_block_count_needed_for_logical(25), 50);
    assert_eq!(physical_block_count_needed_for_logical(48), 50);
    assert_eq!(physical_block_count_needed_for_logical(49), 75);
}

#[test]
fn logical_physical_round_trip_never_loses_capacity() {
    for l in [0u32, 1, 23, 24, 25, 100, 3912, 65536] {
        let p = physical_block_count_needed_for_logical(l);
        assert!(logical_block_count_from_physical(p) >= l);
    }
}

#[test]
fn block_size_is_validated() {
    assert!(validate_block_size(512).is_ok());
    assert_eq!(validate_block_size(0), Err(DiskError::SizeMismatch));
    assert_eq!(validate_block_size(511), Err(DiskError::SizeMismatch));
    assert_eq!(validate_block_size(4096), Err(DiskError::SizeMismatch));
}
