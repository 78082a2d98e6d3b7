use lune_ffi::errors::FfiError;
use lune_ffi::memory::{next_arena_id, zero_filled, zeroed, Memory};

#[test]
fn nothing_is_mapped_at_first() {
    let mem = Memory::new();
    assert!(!mem.is_mapped(0, 1));
    assert!(!mem.is_mapped(8, 1));
    assert!(mem.is_mapped(8, 0));
    assert_eq!(mem.load(8, 4), None);
    assert_eq!(mem.load(8, 0), Some(vec![]));
    assert_eq!(mem.c_string_at(8), None);
}

#[test]
fn allocation_is_aligned_fresh_and_zeroed() {
    let mut mem = Memory::new();
    let a = mem.allocate(3, 1).unwrap();
    assert_eq!(a, 1);
    let b = mem.allocate(8, 8).unwrap();
    assert_eq!(b % 8, 0);
    assert!(b > a + 3);
    let c = mem.allocate(5, 0).unwrap();
    assert!(c > b + 8);
    let d = mem.allocate(16, 4096).unwrap();
    assert_eq!(d, 4096);
    assert_eq!(mem.load(a, 3), Some(vec![0; 3]));
    assert_eq!(mem.load(b, 8), Some(vec![0; 8]));
    assert_eq!(mem.load(d, 16), Some(vec![0; 16]));
    // One block never runs into the next.
    assert_eq!(mem.load(a, 4), None);
    assert!(!mem.is_mapped(a + 3, 1));
    assert!(!mem.is_mapped(0, 1));
}

#[test]
fn allocation_failures_name_their_cause() {
    let mut mem = Memory::new();
    assert_eq!(mem.allocate(0, 8), Err(FfiError::InvalidSize));
    assert_eq!(mem.allocate(0, 3), Err(FfiError::InvalidSize));
    assert_eq!(mem.allocate(8, 3), Err(FfiError::InvalidAlignment));
    assert_eq!(mem.allocate(8, 12), Err(FfiError::InvalidAlignment));
    assert_eq!(mem.allocate(usize::MAX, 1), Err(FfiError::OutOfMemory));
    let mut high = Memory::new();
    assert_eq!(high.allocate(8, 1 << 63), Ok(1 << 63));
    assert_eq!(high.allocate(8, 1 << 63), Err(FfiError::OutOfMemory));
    assert_eq!(high.allocate(8, 8), Ok((1 << 63) + 16));
    assert!(!mem.can_place(usize::MAX, 1));
    assert!(!mem.can_place(0, 1));
    assert!(!mem.can_place(1, 6));
    assert!(mem.can_place(1, 0));
    // The allocator of the process had no memory.
    assert_eq!(mem.allocate_from(4, 4, None), Err(FfiError::OutOfMemory));
    assert_eq!(mem.allocate_from(0, 4, None), Err(FfiError::InvalidSize));
    assert_eq!(mem.allocate_from(4, 5, Some(vec![0; 4])), Err(FfiError::InvalidAlignment));
    assert!(!mem.is_mapped(4, 1));
    assert_eq!(mem.allocate_from(4, 4, Some(vec![9, 8, 7, 6])), Ok(4));
    assert_eq!(mem.load(4, 4), Some(vec![9, 8, 7, 6]));
    assert_eq!(zeroed(3), Some(vec![0, 0, 0]));
}

#[test]
fn store_then_load() {
    let mut mem = Memory::new();
    let a = mem.allocate(8, 8).unwrap();
    assert!(mem.store(a + 2, &[1, 2, 3]));
    assert_eq!(mem.load(a, 8), Some(vec![0, 0, 1, 2, 3, 0, 0, 0]));
    assert!(!mem.store(a + 6, &[9, 9, 9]));
    assert_eq!(mem.load(a, 8), Some(vec![0, 0, 1, 2, 3, 0, 0, 0]));
    assert!(mem.store(a + 8, &[]));
    assert!(!mem.store(usize::MAX, &[1, 2]));
}

#[test]
fn fill_and_copy() {
    let mut mem = Memory::new();
    let a = mem.allocate(8, 1).unwrap();
    let b = mem.allocate(8, 1).unwrap();
    assert!(mem.fill(a, 8, 0xab));
    assert!(mem.store(a + 1, &[1, 2]));
    assert!(mem.copy(b + 4, a, 4));
    assert_eq!(mem.load(b, 8), Some(vec![0, 0, 0, 0, 0xab, 1, 2, 0xab]));
    assert!(!mem.copy(b + 6, a, 4));
    assert!(!mem.copy(b, a + 6, 4));
    assert!(!mem.fill(a, 9, 0));
    assert_eq!(mem.load(a, 8), Some(vec![0xab, 1, 2, 0xab, 0xab, 0xab, 0xab, 0xab]));
}

#[test]
fn mapping_and_freeing_blocks() {
    let mut mem = Memory::new();
    assert!(!mem.map_region(0, vec![1]));
    assert!(!mem.map_region(0x100, vec![]));
    assert!(mem.map_region(0x100, vec![1, 2, 3, 4]));
    assert!(!mem.map_region(0x102, vec![7]));
    assert!(!mem.map_region(0x104, vec![7]));
    assert!(mem.map_region(0x105, vec![7]));
    assert!(!mem.map_region(usize::MAX, vec![7, 8]));
    assert_eq!(mem.load(0x100, 4), Some(vec![1, 2, 3, 4]));
    assert_eq!(mem.load(0x100, 6), None);
    // Only a whole block can be freed.
    assert!(!mem.free(0x100, 3));
    assert!(!mem.free(0x101, 3));
    assert!(!mem.free(0x100, 0));
    assert!(mem.free(0x100, 4));
    assert!(!mem.free(0x100, 4));
    assert_eq!(mem.load(0x100, 1), None);
    assert_eq!(mem.load(0x105, 1), Some(vec![7]));
    // Freed addresses are not handed out again.
    let next = mem.allocate(4, 1).unwrap();
    assert!(next > 0x105);
}

#[test]
fn strings_end_at_the_first_zero() {
    let mut mem = Memory::new();
    assert!(mem.map_region(0x10, b"hello\0wor".to_vec()));
    assert_eq!(mem.c_string_at(0x10), Some(b"hello".to_vec()));
    assert_eq!(mem.c_string_at(0x12), Some(b"llo".to_vec()));
    assert_eq!(mem.c_string_at(0x15), Some(vec![]));
    // No terminator before the block ends.
    assert_eq!(mem.c_string_at(0x16), None);
    assert_eq!(mem.c_string_at(0x19), None);
    assert_eq!(mem.c_string_at(0), None);
}

#[test]
fn arena_identifiers_count_up_from_one() {
    let mut mem = Memory::new();
    assert_eq!(next_arena_id(&mut mem), 1);
    assert_eq!(next_arena_id(&mut mem), 2);
    assert_eq!(next_arena_id(&mut mem), 3);
}

#[test]
fn no_bytes_need_no_room() {
    assert_eq!(zeroed(0), Some(Vec::new()));
    assert_eq!(zeroed(5), Some(vec![0, 0, 0, 0, 0]));
}

#[test]
fn zero_bytes_follow_the_answer_of_the_allocator() {
    assert_eq!(zero_filled(Vec::new(), true, 4), Some(vec![0, 0, 0, 0]));
    assert_eq!(zero_filled(Vec::with_capacity(4), true, 4), Some(vec![0, 0, 0, 0]));
    assert_eq!(zero_filled(vec![7, 7], true, 3), Some(vec![0, 0, 0]));
    assert_eq!(zero_filled(Vec::new(), true, 0), Some(Vec::new()));
    assert_eq!(zero_filled(Vec::new(), false, 4), None);
    assert_eq!(zero_filled(Vec::new(), false, 0), None);
}
