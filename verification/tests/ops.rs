use lune_ffi::buffer::Buffer;
use lune_ffi::errors::FfiError;
use lune_ffi::memory::Memory;
use lune_ffi::ops::{cast, copy, fill, read, string, view, Handle};
use lune_ffi::pointer::{RawPointer, TypedPointer};
use lune_ffi::struct_mapper::{SchemaField, StructDefinition};
use lune_ffi::types::CType;
use lune_ffi::value::HostValue;

fn point() -> StructDefinition {
    StructDefinition::from_schema(&vec![
        SchemaField { name: "x".to_string(), ctype_name: "i32".to_string(), array_len: None },
        SchemaField { name: "y".to_string(), ctype_name: "i32".to_string(), array_len: None },
    ])
    .unwrap()
}

#[test]
fn read_and_write_through_any_pointer() {
    let mut mem = Memory::new();
    let buf = Buffer::new(&mut mem, 8).unwrap();
    let raw = RawPointer::managed(buf.as_ptr(), 1, 8);
    let typed = TypedPointer::new(&raw, CType::U16);
    assert_eq!(lune_ffi::ops::write(&mut mem, &Handle::Buffer(&buf), 0, CType::U16, &HostValue::Integer(0x0102)), Ok(()));
    assert_eq!(lune_ffi::ops::write(&mut mem, &Handle::Raw(&raw), 2, CType::U16, &HostValue::Integer(0x0304)), Ok(()));
    assert_eq!(lune_ffi::ops::write(&mut mem, &Handle::Typed(&typed), 4, CType::U16, &HostValue::Integer(0x0506)), Ok(()));
    assert_eq!(buf.read_bytes(&mem, 0, 8), Ok(vec![2, 1, 4, 3, 6, 5, 0, 0]));
    assert_eq!(read(&mem, &Handle::Typed(&typed), 1, CType::U16), Ok(HostValue::Integer(0x0401)));
    assert_eq!(read(&mem, &Handle::Raw(&raw), 0, CType::U32), Ok(HostValue::Integer(0x03040102)));
    assert_eq!(read(&mem, &Handle::Buffer(&buf), 4, CType::U8), Ok(HostValue::Integer(6)));
    assert_eq!(read(&mem, &Handle::Buffer(&buf), 8, CType::U8), Err(FfiError::OutOfBounds));
    assert_eq!(read(&mem, &Handle::Raw(&raw), 8, CType::U8), Err(FfiError::OutOfBounds));
    assert_eq!(read(&mem, &Handle::Typed(&typed), 8, CType::U8), Err(FfiError::OutOfBounds));
    assert_eq!(read(&mem, &Handle::Nil, 0, CType::U8), Err(FfiError::TypeMismatch));
    assert_eq!(read(&mem, &Handle::Address(buf.as_ptr()), 0, CType::U8), Err(FfiError::TypeMismatch));
    assert_eq!(read(&mem, &Handle::Other, 0, CType::U8), Err(FfiError::TypeMismatch));
    let null = TypedPointer::from_addr(0, CType::U8);
    assert_eq!(read(&mem, &Handle::Typed(&null), 0, CType::U8), Err(FfiError::NullDereference));
    assert_eq!(
        lune_ffi::ops::write(&mut mem, &Handle::Other, 0, CType::U8, &HostValue::Integer(1)),
        Err(FfiError::TypeMismatch)
    );
}

#[test]
fn copy_and_fill() {
    let mut mem = Memory::new();
    let a = Buffer::new(&mut mem, 4).unwrap();
    let b = Buffer::new(&mut mem, 4).unwrap();
    let ra = RawPointer::new(a.as_ptr());
    assert_eq!(fill(&mut mem, &Handle::Raw(&ra), 4, 0x5a), Ok(()));
    assert_eq!(copy(&mut mem, &Handle::Buffer(&b), &Handle::Raw(&ra), 3), Ok(()));
    assert_eq!(b.read_bytes(&mem, 0, 4), Ok(vec![0x5a, 0x5a, 0x5a, 0]));
    assert_eq!(copy(&mut mem, &Handle::Buffer(&b), &Handle::Raw(&ra), 5), Err(FfiError::OutOfBounds));
    assert_eq!(fill(&mut mem, &Handle::Buffer(&b), 5, 1), Err(FfiError::OutOfBounds));
    let null = RawPointer::new(0);
    assert_eq!(copy(&mut mem, &Handle::Raw(&null), &Handle::Raw(&ra), 1), Err(FfiError::NullDereference));
    assert_eq!(copy(&mut mem, &Handle::Raw(&ra), &Handle::Raw(&null), 1), Err(FfiError::NullDereference));
    assert_eq!(fill(&mut mem, &Handle::Raw(&null), 1, 0), Err(FfiError::NullDereference));
    assert_eq!(copy(&mut mem, &Handle::Nil, &Handle::Raw(&ra), 1), Err(FfiError::TypeMismatch));
    assert_eq!(fill(&mut mem, &Handle::Address(a.as_ptr()), 1, 0), Err(FfiError::TypeMismatch));
    assert_eq!(b.read_bytes(&mem, 0, 4), Ok(vec![0x5a, 0x5a, 0x5a, 0]));
}

#[test]
fn casting() {
    let raw = RawPointer::managed(0x100, 4, 10);
    let t = cast(&Handle::Raw(&raw), "int").unwrap();
    assert_eq!((t.addr, t.ctype, t.stride, t.arena_id, t.element_count), (0x100, CType::I32, 4, 4, 2));
    let again = cast(&Handle::Typed(&t), "u8").unwrap();
    assert_eq!((again.addr, again.arena_id, again.element_count), (0x100, 4, 8));
    let plain = cast(&Handle::Address(0x200), "double").unwrap();
    assert_eq!((plain.addr, plain.ctype, plain.arena_id, plain.element_count), (0x200, CType::F64, 0, 0));
    let buf = Buffer::from_ptr(0x300, 64);
    let from_buf = cast(&Handle::Buffer(&buf), "u16").unwrap();
    assert_eq!((from_buf.addr, from_buf.element_count), (0x300, 0));
    assert_eq!(cast(&Handle::Raw(&raw), "thing").err(), Some(FfiError::UnknownType));
    assert_eq!(cast(&Handle::Nil, "int").err(), Some(FfiError::TypeMismatch));
    assert_eq!(cast(&Handle::Other, "thing").err(), Some(FfiError::TypeMismatch));
    assert_eq!(Handle::Raw(&raw).get_raw_ptr(), Ok(0x100));
    assert_eq!(Handle::Buffer(&buf).get_raw_ptr(), Ok(0x300));
    assert_eq!(Handle::Address(1).get_raw_ptr(), Err(FfiError::TypeMismatch));
}

#[test]
fn viewing_a_struct() {
    let mut mem = Memory::new();
    let buf = Buffer::new(&mut mem, 8).unwrap();
    let raw = RawPointer::managed(buf.as_ptr(), 9, 8);
    let v = view(&Handle::Raw(&raw), point()).unwrap();
    assert_eq!((v.ptr, v.arena_id), (buf.as_ptr(), 9));
    assert_eq!(v.write_field(&mut mem, "y", &HostValue::Integer(-3)), Ok(()));
    let typed = TypedPointer::new(&raw, CType::I32);
    let w = view(&Handle::Typed(&typed), point()).unwrap();
    assert_eq!(w.read_field(&mem, "y"), Ok(HostValue::Integer(-3)));
    assert_eq!(view(&Handle::Buffer(&buf), point()).err(), Some(FfiError::TypeMismatch));
    assert_eq!(view(&Handle::Address(8), point()).err(), Some(FfiError::TypeMismatch));
}

#[test]
fn strings_by_length_or_terminator() {
    let mut mem = Memory::new();
    assert!(mem.map_region(0x500, b"one\0two".to_vec()));
    let raw = RawPointer::new(0x500);
    let typed = TypedPointer::from_addr(0x504, CType::U8);
    assert_eq!(string(&mem, &Handle::Raw(&raw), None), Ok(HostValue::String(b"one".to_vec())));
    assert_eq!(string(&mem, &Handle::Raw(&raw), Some(5)), Ok(HostValue::String(b"one\0t".to_vec())));
    assert_eq!(string(&mem, &Handle::Address(0x501), Some(0)), Ok(HostValue::String(vec![])));
    assert_eq!(string(&mem, &Handle::Typed(&typed), Some(3)), Ok(HostValue::String(b"two".to_vec())));
    assert_eq!(string(&mem, &Handle::Typed(&typed), None), Err(FfiError::OutOfBounds));
    assert_eq!(string(&mem, &Handle::Raw(&raw), Some(8)), Err(FfiError::OutOfBounds));
    assert_eq!(string(&mem, &Handle::Address(0), None), Ok(HostValue::Nil));
    assert_eq!(string(&mem, &Handle::Address(0), Some(4)), Ok(HostValue::Nil));
    assert_eq!(string(&mem, &Handle::Nil, None), Err(FfiError::TypeMismatch));
    let buf = Buffer::from_ptr(0x500, 3);
    assert_eq!(string(&mem, &Handle::Buffer(&buf), None), Err(FfiError::TypeMismatch));
}

#[test]
fn what_counts_as_null() {
    let null = RawPointer::new(0);
    let some = RawPointer::new(4);
    let tnull = TypedPointer::from_addr(0, CType::I8);
    let buf = Buffer::from_ptr(0, 0);
    assert!(Handle::Nil.is_null());
    assert!(Handle::Address(0).is_null());
    assert!(!Handle::Address(1).is_null());
    assert!(Handle::Raw(&null).is_null());
    assert!(!Handle::Raw(&some).is_null());
    assert!(Handle::Typed(&tnull).is_null());
    assert!(!Handle::Buffer(&buf).is_null());
    assert!(!Handle::Other.is_null());
}
