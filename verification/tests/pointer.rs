use lune_ffi::arena::Arena;
use lune_ffi::errors::FfiError;
use lune_ffi::memory::Memory;
use lune_ffi::pointer::{index_of, read_value_at, write_value_at, RawPointer, TypedPointer};
use lune_ffi::types::CType;
use lune_ffi::value::HostValue;

fn num(x: f64) -> HostValue {
    HostValue::Number(x.to_bits())
}

#[test]
fn raw_pointer_constructors() {
    let p = RawPointer::new(0x40);
    assert_eq!((p.addr, p.arena_id, p.size_hint), (0x40, 0, 0));
    assert!(!p.is_null());
    assert_eq!(p.as_usize(), 0x40);
    let q = RawPointer::managed(0x80, 7, 16);
    assert_eq!((q.addr, q.arena_id, q.size_hint), (0x80, 7, 16));
    assert!(RawPointer::new(0).is_null());
    assert!(q.is_managed());
    assert!(!p.is_managed());
    assert_eq!(TypedPointer::new(&q, CType::U32).count(), Some(4));
    assert_eq!(TypedPointer::new(&p, CType::U32).count(), None);
}

#[test]
fn raw_pointers_compare_by_address_only() {
    assert!(RawPointer::managed(8, 1, 4) == RawPointer::new(8));
    assert!(RawPointer::new(8) != RawPointer::new(9));
}

#[test]
fn offset_bytes_moves_and_shrinks_the_hint() {
    let p = RawPointer::managed(0x100, 3, 16);
    let q = p.offset_bytes(4);
    assert_eq!((q.addr, q.arena_id, q.size_hint), (0x104, 3, 12));
    assert_eq!(p.offset_bytes(16).size_hint, 0);
    assert_eq!(p.offset_bytes(40).size_hint, 0);
    let back = p.offset_bytes(-8);
    assert_eq!((back.addr, back.size_hint), (0xf8, 0));
    assert_eq!(RawPointer::new(0x100).offset_bytes(4).size_hint, 0);
    assert_eq!(p.offset_bytes(0).size_hint, 16);
    // The address wraps around.
    assert_eq!(RawPointer::new(0).offset_bytes(-1).addr, usize::MAX);
    assert_eq!(RawPointer::new(usize::MAX).offset_bytes(2).addr, 1);
}

#[test]
fn raw_read_and_write_check_null_and_bounds() {
    let mut mem = Memory::new();
    let mut arena = Arena::new(&mut mem);
    let p = arena.alloc_bytes(&mut mem, 8).unwrap();
    assert_eq!(p.write(&mut mem, 4, CType::I32, &HostValue::Integer(-5)), Ok(()));
    assert_eq!(p.read(&mem, 4, CType::I32), Ok(HostValue::Integer(-5)));
    assert_eq!(p.read(&mem, 0, CType::I32), Ok(HostValue::Integer(0)));
    assert_eq!(p.read(&mem, 5, CType::I32), Err(FfiError::OutOfBounds));
    assert_eq!(p.read(&mem, 8, CType::U8), Err(FfiError::OutOfBounds));
    assert_eq!(p.read(&mem, usize::MAX, CType::U8), Err(FfiError::OutOfBounds));
    assert_eq!(
        p.write(&mut mem, 1, CType::I64, &HostValue::Integer(1)),
        Err(FfiError::OutOfBounds)
    );
    let null = RawPointer::new(0);
    assert_eq!(null.read(&mem, 0, CType::U8), Err(FfiError::NullDereference));
    assert_eq!(
        null.write(&mut mem, 0, CType::U8, &HostValue::Integer(1)),
        Err(FfiError::NullDereference)
    );
    // Without a size hint only the mapping bounds the access.
    let loose = RawPointer::new(p.addr);
    assert_eq!(loose.read(&mem, 4, CType::I32), Ok(HostValue::Integer(-5)));
    assert_eq!(loose.read(&mem, 6, CType::I32), Err(FfiError::OutOfBounds));
    // A value of the wrong kind is refused and nothing is written.
    assert_eq!(
        p.write(&mut mem, 4, CType::I32, &HostValue::String(b"x".to_vec())),
        Err(FfiError::TypeMismatch)
    );
    assert_eq!(p.read(&mem, 4, CType::I32), Ok(HostValue::Integer(-5)));
    assert_eq!(p.read(&mem, 0, CType::Void), Ok(HostValue::Nil));
}

#[test]
fn round_trip_through_memory_for_every_type() {
    let mut mem = Memory::new();
    let at = mem.allocate(8, 8).unwrap();
    let cases: Vec<(CType, HostValue)> = vec![
        (CType::Bool, HostValue::Boolean(true)),
        (CType::I8, HostValue::Integer(-100)),
        (CType::U8, HostValue::Integer(200)),
        (CType::I16, HostValue::Integer(-30000)),
        (CType::U16, HostValue::Integer(60000)),
        (CType::I32, HostValue::Integer(-2_000_000_000)),
        (CType::U32, HostValue::Integer(4_000_000_000)),
        (CType::I64, HostValue::Integer(-9_000_000_000_000_000_000)),
        (CType::ISize, HostValue::Integer(77)),
        (CType::U64, num(4503599627370497.0)),
        (CType::USize, num(12.0)),
        (CType::F32, num(-0.25)),
        (CType::F64, num(6.02214076e23)),
        (CType::Pointer, HostValue::Address(0xdead_beef)),
    ];
    for (t, v) in cases {
        assert_eq!(write_value_at(&mut mem, at, t, &v), Ok(()), "{:?}", t);
        assert_eq!(read_value_at(&mem, at, t), Ok(v), "{:?}", t);
    }
}

#[test]
fn string_slots_hold_an_address_and_read_as_the_string() {
    let mut mem = Memory::new();
    let text = mem.allocate(8, 1).unwrap();
    assert!(mem.store(text, b"native\0"));
    let slot = mem.allocate(8, 8).unwrap();
    assert_eq!(write_value_at(&mut mem, slot, CType::CString, &HostValue::Address(text)), Ok(()));
    assert_eq!(
        read_value_at(&mem, slot, CType::CString),
        Ok(HostValue::String(b"native".to_vec()))
    );
    assert_eq!(read_value_at(&mem, slot, CType::Pointer), Ok(HostValue::Address(text)));
    // A null string is nil.
    assert_eq!(write_value_at(&mut mem, slot, CType::CString, &HostValue::Address(0)), Ok(()));
    assert_eq!(read_value_at(&mem, slot, CType::CString), Ok(HostValue::Nil));
    // A string that is not mapped is out of bounds.
    assert_eq!(
        write_value_at(&mut mem, slot, CType::CString, &HostValue::Address(0x7777_0000)),
        Ok(())
    );
    assert_eq!(read_value_at(&mem, slot, CType::CString), Err(FfiError::OutOfBounds));
    assert_eq!(
        write_value_at(&mut mem, slot, CType::CString, &HostValue::String(b"x".to_vec())),
        Err(FfiError::TypeMismatch)
    );
}

#[test]
fn typed_pointer_from_raw_counts_elements() {
    let raw = RawPointer::managed(0x1000, 2, 18);
    let p = TypedPointer::new(&raw, CType::I32);
    assert_eq!((p.addr, p.ctype, p.stride, p.arena_id, p.element_count), (0x1000, CType::I32, 4, 2, 4));
    assert_eq!(TypedPointer::new(&raw, CType::Void).element_count, 0);
    assert_eq!(TypedPointer::new(&RawPointer::new(8), CType::U8).element_count, 0);
    let q = TypedPointer::from_addr(0x20, CType::F64);
    assert_eq!((q.addr, q.stride, q.arena_id, q.element_count), (0x20, 8, 0, 0));
    assert_eq!(q.as_usize(), 0x20);
}

#[test]
fn typed_pointer_bounds() {
    let mut mem = Memory::new();
    let mut arena = Arena::new(&mut mem);
    let count = 5usize;
    let raw = arena.alloc_array(&mut mem, CType::U32, count).unwrap();
    let p = TypedPointer::new(&raw, CType::U32);
    assert_eq!(p.element_count, count);
    for i in 0..count {
        assert_eq!(p.write_at(&mut mem, i, &HostValue::Integer(10 * i as i64)), Ok(()));
    }
    assert_eq!(p.read_at(&mem, count), Err(FfiError::IndexOutOfBounds));
    assert_eq!(p.read_at(&mem, count - 1), Ok(HostValue::Integer(40)));
    assert_eq!(p.read_at(&mem, 0), Ok(HostValue::Integer(0)));
    assert_eq!(
        p.write_at(&mut mem, count, &HostValue::Integer(1)),
        Err(FfiError::IndexOutOfBounds)
    );
    assert_eq!(p.offset_elements(count as isize).element_count, 0);
    let moved = p.offset_elements(2);
    assert_eq!(moved.addr, p.addr + 8);
    assert_eq!(moved.element_count, 3);
    assert_eq!(moved.read_at(&mem, 0), Ok(HostValue::Integer(20)));
    assert_eq!(moved.read_at(&mem, 3), Err(FfiError::IndexOutOfBounds));
    assert_eq!(p.offset_elements(-1).element_count, 0);
    assert_eq!(p.offset_elements(-1).addr, p.addr - 4);
    let null = TypedPointer::from_addr(0, CType::U32);
    assert_eq!(null.read_at(&mem, 0), Err(FfiError::NullDereference));
    // With no count known, the mapping bounds the access.
    let loose = TypedPointer::from_addr(p.addr, CType::U32);
    assert_eq!(loose.read_at(&mem, 4), Ok(HostValue::Integer(40)));
    assert_eq!(loose.read_at(&mem, 5), Err(FfiError::OutOfBounds));
    assert_eq!(loose.read_at(&mem, usize::MAX), Err(FfiError::OutOfBounds));
}

#[test]
fn typed_pointers_compare_by_address_and_type() {
    let a = TypedPointer::from_addr(8, CType::I32);
    let b = TypedPointer::new(&RawPointer::managed(8, 1, 64), CType::I32);
    let c = TypedPointer::from_addr(8, CType::U32);
    assert!(a == b);
    assert!(a != c);
    assert!(a != TypedPointer::from_addr(12, CType::I32));
}

#[test]
fn typed_to_raw_keeps_the_size() {
    let raw = RawPointer::managed(0x1000, 2, 18);
    let back = TypedPointer::new(&raw, CType::I32).to_raw();
    assert_eq!((back.addr, back.arena_id, back.size_hint), (0x1000, 2, 16));
    let huge = TypedPointer {
        addr: 8,
        ctype: CType::I64,
        stride: 8,
        arena_id: 0,
        element_count: usize::MAX,
    };
    assert_eq!(huge.to_raw().size_hint, 0);
}

#[test]
fn indexing_a_typed_pointer() {
    let mut mem = Memory::new();
    let at = mem.allocate(8, 2).unwrap();
    assert!(mem.store(at, &[1, 0, 2, 0, 3, 0, 4, 0]));
    let p = TypedPointer::new(&RawPointer::managed(at, 1, 8), CType::U16);
    assert_eq!(p.index(&mem, &HostValue::Integer(2)), Ok(HostValue::Integer(3)));
    assert_eq!(p.index(&mem, &num(1.9)), Ok(HostValue::Integer(2)));
    assert_eq!(p.index(&mem, &HostValue::Integer(4)), Err(FfiError::IndexOutOfBounds));
    assert_eq!(p.index(&mem, &HostValue::Integer(-1)), Err(FfiError::IndexOutOfBounds));
    assert_eq!(p.index(&mem, &num(-3.0)), Ok(HostValue::Integer(1)));
    assert_eq!(p.index(&mem, &HostValue::String(b"addr".to_vec())), Ok(HostValue::Integer(at as i64)));
    assert_eq!(p.index(&mem, &HostValue::String(b"stride".to_vec())), Ok(HostValue::Integer(2)));
    assert_eq!(p.index(&mem, &HostValue::String(b"isNull".to_vec())), Ok(HostValue::Boolean(false)));
    assert_eq!(p.index(&mem, &HostValue::String(b"count".to_vec())), Err(FfiError::UnknownField));
    assert_eq!(p.index(&mem, &HostValue::String(b"".to_vec())), Err(FfiError::UnknownField));
    assert_eq!(p.index(&mem, &HostValue::Nil), Err(FfiError::TypeMismatch));
    assert_eq!(p.index(&mem, &HostValue::Boolean(true)), Err(FfiError::TypeMismatch));
    assert_eq!(index_of(&HostValue::Integer(7)), Some(7));
    assert_eq!(index_of(&num(1e300)), Some(usize::MAX));
    assert_eq!(index_of(&HostValue::Nil), None);
}
