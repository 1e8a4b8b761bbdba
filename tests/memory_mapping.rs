use os4::{AddressSpace, MmapError, MunmapError, PAGE_SIZE};

fn perm_of(s: &AddressSpace, vpn: usize) -> Option<u8> {
    s.lookup(vpn).map(|e| e.perm)
}

#[test]
fn mmap_then_munmap_round_trip() {
    let mut s = AddressSpace::new(8);
    assert_eq!(s.mmap(0x1000, 0x2000, 0b111), Ok(()));
    assert_eq!(perm_of(&s, 0), None);
    assert_eq!(perm_of(&s, 1), Some(0b111));
    assert_eq!(perm_of(&s, 2), Some(0b111));
    assert_eq!(perm_of(&s, 3), None);
    assert_eq!(s.free_frame_count(), 6);
    assert_eq!(s.munmap(0x1000, 0x2000), Ok(()));
    assert_eq!(perm_of(&s, 1), None);
    assert_eq!(perm_of(&s, 2), None);
    assert_eq!(s.free_frame_count(), 8);
}

#[test]
fn mapped_bytes_follow_the_mask() {
    let mut s = AddressSpace::new(8);
    assert_eq!(s.mmap(0x1000, 0x1000, 0b001), Ok(()));
    assert_eq!(s.mmap(0x2000, 0x1000, 0b010), Ok(()));
    assert_eq!(s.read_byte(0x1004), Ok(0));
    assert!(s.write_byte(0x1004, 7).is_err());
    assert!(s.read_byte(0x2004).is_err());
    assert_eq!(s.write_byte(0x2004, 7), Ok(()));
    assert!(s.is_writable(0x2fff));
    assert!(!s.is_writable(0x1000));
    assert!(!s.is_writable(0x3000));
}

#[test]
fn mmap_of_zero_bytes_changes_nothing() {
    let mut s = AddressSpace::new(4);
    assert_eq!(s.mmap(0x1000, 0, 0b001), Ok(()));
    assert_eq!(perm_of(&s, 1), None);
    assert_eq!(s.free_frame_count(), 4);
}

#[test]
fn mmap_of_zero_bytes_still_checks_start_and_mask() {
    let mut s = AddressSpace::new(4);
    assert_eq!(s.mmap(1, 0, 0b001), Err(MmapError::InvalidAlignment));
    assert_eq!(s.mmap(0x1000, 0, 0), Err(MmapError::InvalidPermission));
    assert_eq!(s.free_frame_count(), 4);
}

#[test]
fn mmap_refuses_misaligned_start() {
    let mut s = AddressSpace::new(4);
    assert_eq!(s.mmap(0x1001, 0x1000, 0b011), Err(MmapError::InvalidAlignment));
    assert_eq!(perm_of(&s, 1), None);
    assert_eq!(s.free_frame_count(), 4);
}

#[test]
fn mmap_refuses_illegal_masks() {
    let mut s = AddressSpace::new(4);
    assert_eq!(s.mmap(0x1000, 0x1000, 0), Err(MmapError::InvalidPermission));
    assert_eq!(s.mmap(0x1000, 0x1000, 0b1000), Err(MmapError::InvalidPermission));
    assert_eq!(s.mmap(0x1000, 0x1000, 0b1111), Err(MmapError::InvalidPermission));
    assert_eq!(perm_of(&s, 1), None);
    assert_eq!(s.free_frame_count(), 4);
}

#[test]
fn alignment_is_checked_before_the_mask() {
    let mut s = AddressSpace::new(4);
    assert_eq!(s.mmap(0x10, 0x1000, 0), Err(MmapError::InvalidAlignment));
}

#[test]
fn overlapping_mmap_is_refused_and_first_stays() {
    let mut s = AddressSpace::new(8);
    assert_eq!(s.mmap(0x1000, 0x2000, 0b011), Ok(()));
    assert_eq!(s.write_byte(0x2010, 0xab), Ok(()));
    assert_eq!(s.mmap(0x2000, 0x1000, 0b001), Err(MmapError::Overlap));
    assert_eq!(s.mmap(0x0, 0x1001, 0b001), Err(MmapError::Overlap));
    assert_eq!(perm_of(&s, 0), None);
    assert_eq!(perm_of(&s, 1), Some(0b011));
    assert_eq!(perm_of(&s, 2), Some(0b011));
    assert_eq!(s.read_byte(0x2010), Ok(0xab));
    assert_eq!(s.free_frame_count(), 6);
}

#[test]
fn mmap_without_enough_frames_changes_nothing() {
    let mut s = AddressSpace::new(1);
    assert_eq!(s.mmap(0x1000, 0x2000, 0b001), Err(MmapError::OutOfMemory));
    assert_eq!(perm_of(&s, 1), None);
    assert_eq!(s.free_frame_count(), 1);
    assert_eq!(s.mmap(0x1000, 0x1000, 0b001), Ok(()));
}

#[test]
fn overlap_is_reported_before_out_of_memory() {
    let mut s = AddressSpace::new(1);
    assert_eq!(s.mmap(0x1000, 0x1000, 0b001), Ok(()));
    assert_eq!(s.mmap(0x0, 0x3000, 0b001), Err(MmapError::Overlap));
}

#[test]
fn length_rounds_up_to_whole_pages() {
    let mut s = AddressSpace::new(8);
    assert_eq!(s.mmap(0, 1, 0b001), Ok(()));
    assert_eq!(s.free_frame_count(), 7);
    assert_eq!(s.mmap(PAGE_SIZE, PAGE_SIZE + 1, 0b001), Ok(()));
    assert_eq!(perm_of(&s, 2), Some(0b001));
    assert_eq!(perm_of(&s, 3), None);
    assert_eq!(s.free_frame_count(), 5);
}

#[test]
fn munmap_with_a_hole_changes_nothing() {
    let mut s = AddressSpace::new(8);
    assert_eq!(s.mmap(0x1000, 0x1000, 0b011), Ok(()));
    assert_eq!(s.mmap(0x3000, 0x1000, 0b011), Ok(()));
    assert_eq!(s.munmap(0x1000, 0x3000), Err(MunmapError::NotMapped));
    assert_eq!(perm_of(&s, 1), Some(0b011));
    assert_eq!(perm_of(&s, 3), Some(0b011));
    assert_eq!(s.free_frame_count(), 6);
}

#[test]
fn munmap_refuses_misaligned_start() {
    let mut s = AddressSpace::new(8);
    assert_eq!(s.mmap(0x1000, 0x1000, 0b011), Ok(()));
    assert_eq!(s.munmap(0x1008, 0x10), Err(MunmapError::InvalidAlignment));
    assert_eq!(perm_of(&s, 1), Some(0b011));
}

#[test]
fn munmap_of_part_of_a_mapping_keeps_the_rest() {
    let mut s = AddressSpace::new(8);
    assert_eq!(s.mmap(0x1000, 0x3000, 0b011), Ok(()));
    assert_eq!(s.write_byte(0x3001, 9), Ok(()));
    assert_eq!(s.munmap(0x2000, 0x1000), Ok(()));
    assert_eq!(perm_of(&s, 1), Some(0b011));
    assert_eq!(perm_of(&s, 2), None);
    assert_eq!(s.read_byte(0x3001), Ok(9));
    assert_eq!(s.free_frame_count(), 6);
}

#[test]
fn fresh_frames_are_zeroed() {
    let mut s = AddressSpace::new(1);
    assert_eq!(s.mmap(0x1000, 0x1000, 0b011), Ok(()));
    assert_eq!(s.write_byte(0x1234, 5), Ok(()));
    assert_eq!(s.munmap(0x1000, 0x1000), Ok(()));
    assert_eq!(s.mmap(0x5000, 0x1000, 0b011), Ok(()));
    assert_eq!(s.read_byte(0x5234), Ok(0));
}

#[test]
fn write_bytes_is_all_or_nothing() {
    let mut s = AddressSpace::new(4);
    assert_eq!(s.mmap(0x1000, 0x1000, 0b011), Ok(()));
    let data = vec![1u8, 2, 3, 4];
    assert!(s.write_bytes(0x1ffe, &data).is_err());
    assert_eq!(s.read_byte(0x1ffe), Ok(0));
    assert_eq!(s.write_bytes(0x1ffc, &data), Ok(()));
    assert_eq!(s.read_bytes(0x1ffc, 4), Ok(data));
    assert!(s.read_bytes(0x1ffe, 4).is_err());
}

fn ranges(s: &AddressSpace) -> Vec<(usize, usize, u8)> {
    let mut r: Vec<(usize, usize, u8)> = s.mapping_list().iter().map(|m| (m.start_vpn, m.end_vpn, m.perm)).collect();
    r.sort();
    r
}

#[test]
fn each_mmap_records_one_mapping() {
    let mut s = AddressSpace::new(8);
    assert_eq!(s.mmap(0x1000, 0x2000, 0b011), Ok(()));
    assert_eq!(s.mmap(0x5000, 0x1, 0b100), Ok(()));
    assert_eq!(ranges(&s), vec![(1, 3, 0b011), (5, 6, 0b100)]);
    let m = &s.mapping_list()[0];
    assert_eq!(m.frames.len(), 2);
    assert_eq!(s.lookup(1).map(|e| e.ppn), Some(m.frames[0]));
    assert_eq!(s.lookup(2).map(|e| e.ppn), Some(m.frames[1]));
    assert_ne!(m.frames[0], m.frames[1]);
}

#[test]
fn failed_and_empty_mmaps_record_nothing() {
    let mut s = AddressSpace::new(1);
    assert_eq!(s.mmap(0x1000, 0, 0b011), Ok(()));
    assert_eq!(s.mmap(0x1000, 0x2000, 0b011), Err(MmapError::OutOfMemory));
    assert!(ranges(&s).is_empty());
}

#[test]
fn partial_munmap_splits_the_mapping() {
    let mut s = AddressSpace::new(8);
    assert_eq!(s.mmap(0x1000, 0x4000, 0b011), Ok(()));
    let frames = s.mapping_list()[0].frames.clone();
    assert_eq!(s.munmap(0x2000, 0x2000), Ok(()));
    assert_eq!(ranges(&s), vec![(1, 2, 0b011), (4, 5, 0b011)]);
    for m in s.mapping_list() {
        if m.start_vpn == 1 {
            assert_eq!(m.frames, vec![frames[0]]);
        } else {
            assert_eq!(m.frames, vec![frames[3]]);
        }
    }
}

#[test]
fn munmap_across_two_mappings_trims_both() {
    let mut s = AddressSpace::new(8);
    assert_eq!(s.mmap(0x1000, 0x2000, 0b001), Ok(()));
    assert_eq!(s.mmap(0x3000, 0x2000, 0b010), Ok(()));
    assert_eq!(s.munmap(0x2000, 0x2000), Ok(()));
    assert_eq!(ranges(&s), vec![(1, 2, 0b001), (4, 5, 0b010)]);
    assert_eq!(s.munmap(0x1000, 0x1000), Ok(()));
    assert_eq!(s.munmap(0x4000, 0x1000), Ok(()));
    assert!(ranges(&s).is_empty());
    assert_eq!(s.free_frame_count(), 8);
}
