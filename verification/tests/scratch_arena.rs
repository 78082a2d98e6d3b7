use lune_ffi::scratch_arena::{utf16, ScratchArena, DEFAULT_SCRATCH_SIZE};

#[test]
fn test_alloc_cstring() {
    let mut arena = ScratchArena::new(1024);

    let at = arena.alloc_cstring(b"Hello").unwrap();
    let stored = arena.bytes_at(at, 6).unwrap();
    assert_eq!(&stored[..5], b"Hello");
    assert_eq!(stored[5], 0);
    assert_eq!(std::str::from_utf8(&stored[..5]).unwrap(), "Hello");

    assert_eq!(arena.used(), 6); // "Hello" + null
}

#[test]
fn test_reset() {
    let mut arena = ScratchArena::new(1024);

    arena.alloc_cstring(b"Test1").unwrap();
    arena.alloc_cstring(b"Test2").unwrap();
    assert!(arena.used() > 0);

    arena.reset();
    assert_eq!(arena.used(), 0);
}

#[test]
fn test_overflow() {
    let mut arena = ScratchArena::new(10);

    // Should succeed
    assert!(arena.alloc_cstring(b"Hi").is_some());

    // Should fail - not enough space
    assert!(arena.alloc_cstring(b"This is too long").is_none());
}

#[test]
fn scratch_new_is_empty_and_zeroed() {
    let arena = ScratchArena::new(32);
    assert_eq!(arena.capacity(), 32);
    assert_eq!(arena.used(), 0);
    assert_eq!(arena.high_water_mark(), 0);
    assert_eq!(arena.bytes_at(0, 32).unwrap(), vec![0u8; 32]);
    assert_eq!(DEFAULT_SCRATCH_SIZE, 64 * 1024);
}

#[test]
fn scratch_alloc_aligns_the_offset() {
    let mut arena = ScratchArena::new(64);
    assert_eq!(arena.alloc_bytes(3, 1), Some(0));
    assert_eq!(arena.used(), 3);
    assert_eq!(arena.alloc_bytes(4, 4), Some(4));
    assert_eq!(arena.used(), 8);
    assert_eq!(arena.alloc_bytes(1, 0), Some(8));
    assert_eq!(arena.alloc_bytes(8, 8), Some(16));
    assert_eq!(arena.used(), 24);
    // An alignment that is no power of two still gives a multiple of it.
    assert_eq!(arena.alloc_bytes(2, 7), Some(28));
    assert_eq!(arena.used(), 30);
}

#[test]
fn scratch_exhaustion_changes_nothing_and_reset_restores() {
    let mut arena = ScratchArena::new(16);
    assert_eq!(arena.alloc_bytes(8, 8), Some(0));
    assert_eq!(arena.alloc_bytes(4, 4), Some(8));
    // 12 rounds up to 16, and 16 + 1 is beyond the capacity.
    assert_eq!(arena.alloc_bytes(1, 8), None);
    assert_eq!(arena.used(), 12);
    assert_eq!(arena.high_water_mark(), 12);
    // The last bytes can still be had without alignment.
    assert_eq!(arena.alloc_bytes(4, 1), Some(12));
    assert_eq!(arena.alloc_bytes(1, 1), None);
    assert_eq!(arena.used(), 16);
    arena.reset();
    assert_eq!(arena.used(), 0);
    assert_eq!(arena.high_water_mark(), 16);
    assert_eq!(arena.alloc_bytes(16, 1), Some(0));
    assert_eq!(arena.alloc_bytes(usize::MAX, 1), None);
}

#[test]
fn scratch_cstring_keeps_other_bytes_and_is_not_zeroed_by_reset() {
    let mut arena = ScratchArena::new(12);
    assert_eq!(arena.alloc_cstring(b"abc"), Some(0));
    assert_eq!(arena.alloc_cstring(b"de"), Some(4));
    assert_eq!(arena.bytes_at(0, 7).unwrap(), b"abc\0de\0".to_vec());
    arena.reset();
    assert_eq!(arena.bytes_at(0, 7).unwrap(), b"abc\0de\0".to_vec());
    assert_eq!(arena.alloc_cstring(b"Z"), Some(0));
    assert_eq!(arena.bytes_at(0, 7).unwrap(), b"Z\0c\0de\0".to_vec());
    assert_eq!(arena.alloc_cstring(b""), Some(2));
    assert_eq!(arena.bytes_at(2, 1).unwrap(), vec![0]);
    assert_eq!(arena.bytes_at(12, 1), None);
    assert_eq!(arena.bytes_at(usize::MAX, 2), None);
}

#[test]
fn wide_strings_are_utf16_with_a_terminator() {
    let mut arena = ScratchArena::new(64);
    assert_eq!(arena.alloc_bytes(1, 1), Some(0));
    let at = arena.alloc_wstring("h\u{e9}\u{20ac}\u{1f600}").unwrap();
    assert_eq!(at, 2);
    let expected: Vec<u16> = "h\u{e9}\u{20ac}\u{1f600}".encode_utf16().chain(std::iter::once(0)).collect();
    assert_eq!(expected.len(), 6);
    let bytes = arena.bytes_at(at, 12).unwrap();
    let units: Vec<u16> = bytes.chunks(2).map(|c| u16::from_le_bytes([c[0], c[1]])).collect();
    assert_eq!(units, expected);
    assert_eq!(arena.used(), 14);
    assert_eq!(utf16(""), Vec::<u16>::new());
    assert_eq!(utf16("\u{10000}\u{10ffff}\u{ffff}"), vec![0xd800, 0xdc00, 0xdbff, 0xdfff, 0xffff]);
    for s in ["plain", "\u{d7ff}\u{e000}", "mixed \u{1f980} text \u{7ff}"] {
        assert_eq!(utf16(s), s.encode_utf16().collect::<Vec<u16>>());
    }
    let mut small = ScratchArena::new(5);
    assert_eq!(small.alloc_wstring("ab"), None);
    assert_eq!(small.used(), 0);
    assert_eq!(small.alloc_wstring("a"), Some(0));
    assert_eq!(small.bytes_at(0, 4).unwrap(), vec![b'a', 0, 0, 0]);
}

#[test]
fn the_mark_never_falls() {
    let mut arena = ScratchArena::new(64);
    assert_eq!(arena.alloc_wstring("abc"), Some(0));
    assert_eq!((arena.used(), arena.high_water_mark()), (8, 8));
    arena.reset();
    assert_eq!((arena.used(), arena.high_water_mark()), (0, 8));
    assert_eq!(arena.alloc_wstring("a"), Some(0));
    assert_eq!((arena.used(), arena.high_water_mark()), (4, 8));
    assert_eq!(arena.alloc_cstring(b"x"), Some(4));
    assert_eq!((arena.used(), arena.high_water_mark()), (6, 8));
    assert_eq!(arena.alloc_wstring("wide"), Some(6));
    assert_eq!((arena.used(), arena.high_water_mark()), (16, 16));
    // An allocation that fails leaves the mark where it was.
    assert_eq!(arena.alloc_wstring("a string that is too long for the rest"), None);
    assert_eq!((arena.used(), arena.high_water_mark()), (16, 16));
    assert_eq!(arena.alloc_bytes(100, 1), None);
    assert_eq!((arena.used(), arena.high_water_mark()), (16, 16));
    assert!(arena.high_water_mark() <= arena.capacity());
}
