use lune_ffi::arena::Arena;
use lune_ffi::buffer::Buffer;
use lune_ffi::errors::FfiError;
use lune_ffi::memory::Memory;
use lune_ffi::types::CType;
use lune_ffi::value::HostValue;

#[test]
fn arenas_get_distinct_identifiers() {
    let mut mem = Memory::new();
    let a = Arena::new(&mut mem);
    let b = Arena::new(&mut mem);
    assert_ne!(a.id(), 0);
    assert_ne!(a.id(), b.id());
    assert_eq!(a.allocation_count(), 0);
    assert_eq!(a.total_allocated(), 0);
}

#[test]
fn allocations_are_bound_to_the_arena_and_counted() {
    let mut mem = Memory::new();
    let mut arena = Arena::new(&mut mem);
    let p = arena.alloc_bytes(&mut mem, 24).unwrap();
    assert_eq!(p.arena_id, arena.id());
    assert!(p.is_managed());
    assert_eq!(p.size_hint, 24);
    assert_eq!(p.addr % 8, 0);
    assert_eq!(mem.load(p.addr, 24), Some(vec![0; 24]));
    let q = arena.alloc_aligned(&mut mem, 3, 64).unwrap();
    assert_eq!(q.addr % 64, 0);
    assert_eq!(q.size_hint, 3);
    let r = arena.alloc_type(&mut mem, CType::I16).unwrap();
    assert_eq!((r.addr % 2, r.size_hint), (0, 2));
    let s = arena.alloc_array(&mut mem, CType::F64, 4).unwrap();
    assert_eq!((s.addr % 8, s.size_hint), (0, 32));
    assert_eq!(arena.allocation_count(), 4);
    assert_eq!(arena.total_allocated(), 24 + 3 + 2 + 32);
}

#[test]
fn failed_allocations_leave_the_arena_untouched() {
    let mut mem = Memory::new();
    let mut arena = Arena::new(&mut mem);
    arena.alloc_bytes(&mut mem, 8).unwrap();
    assert_eq!(arena.alloc_bytes(&mut mem, 0).err(), Some(FfiError::InvalidSize));
    assert_eq!(arena.alloc_aligned(&mut mem, 8, 24).err(), Some(FfiError::InvalidAlignment));
    assert_eq!(arena.alloc_aligned(&mut mem, 0, 24).err(), Some(FfiError::InvalidSize));
    assert_eq!(arena.alloc_type(&mut mem, CType::Void).err(), Some(FfiError::InvalidSize));
    assert_eq!(arena.alloc_array(&mut mem, CType::I32, 0).err(), Some(FfiError::InvalidSize));
    assert_eq!(arena.alloc_array(&mut mem, CType::Void, 3).err(), Some(FfiError::InvalidSize));
    assert_eq!(
        arena.alloc_array(&mut mem, CType::I32, usize::MAX).err(),
        Some(FfiError::OutOfMemory)
    );
    assert_eq!(arena.alloc_bytes(&mut mem, usize::MAX).err(), Some(FfiError::OutOfMemory));
    assert_eq!(arena.allocation_count(), 1);
    assert_eq!(arena.total_allocated(), 8);
}

#[test]
fn counters_grow_until_reset_and_then_start_over() {
    let mut mem = Memory::new();
    let mut arena = Arena::new(&mut mem);
    let id = arena.id();
    let mut last = (0, 0);
    let mut pointers = Vec::new();
    for size in [1usize, 0, 16, 7, 0, 300] {
        if let Ok(p) = arena.alloc_bytes(&mut mem, size) {
            pointers.push(p);
        }
        let now = (arena.allocation_count(), arena.total_allocated());
        assert!(now.0 >= last.0 && now.1 >= last.1);
        last = now;
    }
    assert_eq!(last, (4, 324));
    arena.reset(&mut mem);
    assert_eq!(arena.allocation_count(), 0);
    assert_eq!(arena.total_allocated(), 0);
    assert_eq!(arena.id(), id);
    // What was handed out before the reset no longer leads anywhere.
    for p in pointers {
        assert_eq!(p.read(&mem, 0, CType::U8), Err(FfiError::OutOfBounds));
    }
    let p = arena.alloc_bytes(&mut mem, 4).unwrap();
    assert_eq!(arena.allocation_count(), 1);
    assert_eq!(p.read(&mem, 0, CType::I32), Ok(HostValue::Integer(0)));
}

#[test]
fn reset_frees_only_the_arena_itself() {
    let mut mem = Memory::new();
    let mut a = Arena::new(&mut mem);
    let mut b = Arena::new(&mut mem);
    let pa = a.alloc_bytes(&mut mem, 8).unwrap();
    let pb = b.alloc_bytes(&mut mem, 8).unwrap();
    let buf = Buffer::new(&mut mem, 4).unwrap();
    pb.write(&mut mem, 0, CType::U8, &HostValue::Integer(9)).unwrap();
    a.reset(&mut mem);
    assert_eq!(pa.read(&mem, 0, CType::U8), Err(FfiError::OutOfBounds));
    assert_eq!(pb.read(&mem, 0, CType::U8), Ok(HostValue::Integer(9)));
    assert_eq!(buf.read(&mem, 0, CType::U8), Ok(HostValue::Integer(0)));
}

#[test]
fn adopting_chunks_of_the_host() {
    let mut mem = Memory::new();
    let mut arena = Arena::new(&mut mem);
    assert_eq!(arena.adopt(0x1000, 0, 8).err(), Some(FfiError::InvalidSize));
    assert_eq!(arena.adopt(0x1000, 8, 3).err(), Some(FfiError::InvalidAlignment));
    assert_eq!(arena.adopt(0, 8, 8).err(), Some(FfiError::OutOfMemory));
    assert_eq!(arena.adopt(0, 0, 3).err(), Some(FfiError::InvalidSize));
    assert_eq!(arena.allocation_count(), 0);
    let p = arena.adopt(0x1000, 8, 8).unwrap();
    assert_eq!((p.addr, p.arena_id, p.size_hint), (0x1000, arena.id(), 8));
    let q = arena.adopt(0x3000, 24, 0).unwrap();
    assert_eq!(q.size_hint, 24);
    assert_eq!(arena.adopt(0x5000, usize::MAX, 1).err(), Some(FfiError::OutOfMemory));
    assert_eq!((arena.allocation_count(), arena.total_allocated()), (2, 32));
    assert_eq!(arena.take_chunks(), vec![(0x1000, 8, 8), (0x3000, 24, 0)]);
    assert_eq!((arena.allocation_count(), arena.total_allocated()), (0, 0));
    assert_eq!(arena.take_chunks(), vec![]);
}
