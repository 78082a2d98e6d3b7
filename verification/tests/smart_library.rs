use lune_ffi::errors::FfiError;
use lune_ffi::memory::Memory;
use lune_ffi::scratch_arena::ScratchArena;
use lune_ffi::smart_library::{
    ArgStorage, ConstantValue, InterfaceEntry, InterfaceValue, Member, SmartBoundFunction,
    SmartLibrary, StoredArg,
};
use lune_ffi::types::CType;
use lune_ffi::value::HostValue;

fn num(x: f64) -> HostValue {
    HostValue::Number(x.to_bits())
}

fn text(s: &str) -> HostValue {
    HostValue::String(s.as_bytes().to_vec())
}

#[test]
fn storage_keeps_values_in_call_order() {
    let mut scratch = ScratchArena::new(64);
    let mut storage = ArgStorage::new();
    assert_eq!(storage.len(), 0);
    let pushes: Vec<(HostValue, CType)> = vec![
        (HostValue::Boolean(true), CType::Bool),
        (HostValue::Integer(-1), CType::I8),
        (HostValue::Integer(-1), CType::U8),
        (HostValue::Integer(-1), CType::I16),
        (HostValue::Integer(-1), CType::U16),
        (HostValue::Integer(-1), CType::I32),
        (HostValue::Integer(-1), CType::U32),
        (HostValue::Integer(-1), CType::I64),
        (num(3.9), CType::U64),
        (HostValue::Integer(-4), CType::ISize),
        (num(8.0), CType::USize),
        (num(0.5), CType::F32),
        (num(0.25), CType::F64),
        (HostValue::Address(0x10), CType::Pointer),
        (HostValue::Nil, CType::Bool),
        (HostValue::Integer(2), CType::I8),
    ];
    for (v, t) in pushes.iter() {
        assert_eq!(storage.push(v, *t, &mut scratch), Ok(()));
    }
    assert_eq!(
        storage.as_args(),
        vec![
            StoredArg::I8(1),
            StoredArg::I8(-1),
            StoredArg::U8(255),
            StoredArg::I16(-1),
            StoredArg::U16(65535),
            StoredArg::I32(-1),
            StoredArg::U32(u32::MAX),
            StoredArg::I64(-1),
            StoredArg::U64(3),
            StoredArg::I64(-4),
            StoredArg::U64(8),
            StoredArg::F32(0.5f32.to_bits()),
            StoredArg::F64(0.25f64.to_bits()),
            StoredArg::Ptr(0x10),
            StoredArg::I8(0),
            StoredArg::I8(2),
        ]
    );
    assert_eq!(storage.len(), 16);
    assert_eq!(storage.get(1), Some(StoredArg::I8(-1)));
    assert_eq!(storage.get(16), None);
    assert_eq!(scratch.used(), 0);
}

#[test]
fn strings_go_to_the_scratch_arena() {
    let mut scratch = ScratchArena::new(16);
    let mut storage = ArgStorage::new();
    assert_eq!(storage.push(&text("hello"), CType::CString, &mut scratch), Ok(()));
    assert_eq!(storage.push(&text("you"), CType::CString, &mut scratch), Ok(()));
    assert_eq!(storage.as_args(), vec![StoredArg::CStr(0), StoredArg::CStr(6)]);
    assert_eq!(scratch.used(), 10);
    assert_eq!(scratch.bytes_at(0, 10).unwrap(), b"hello\0you\0".to_vec());
    // Five bytes and the terminator fit exactly, six do not.
    assert_eq!(
        storage.push(&text("sixsix"), CType::CString, &mut scratch),
        Err(FfiError::ArenaExhausted)
    );
    assert_eq!(scratch.used(), 10);
    assert_eq!(storage.len(), 2);
    assert_eq!(storage.push(&text("five5"), CType::CString, &mut scratch), Ok(()));
    assert_eq!(scratch.used(), 16);
    assert_eq!(storage.get(2), Some(StoredArg::CStr(10)));
}

#[test]
fn storage_refuses_without_changing() {
    let mut scratch = ScratchArena::new(16);
    let mut storage = ArgStorage::new();
    storage.push(&HostValue::Integer(1), CType::I32, &mut scratch).unwrap();
    let refused: Vec<(HostValue, CType, FfiError)> = vec![
        (HostValue::Integer(1), CType::Void, FfiError::UnsupportedSignature),
        (text("1"), CType::I32, FfiError::TypeMismatch),
        (HostValue::Nil, CType::F64, FfiError::TypeMismatch),
        (num(1e30), CType::I64, FfiError::TypeMismatch),
        (text("p"), CType::Pointer, FfiError::TypeMismatch),
        (HostValue::Nil, CType::CString, FfiError::TypeMismatch),
        (HostValue::Address(4), CType::CString, FfiError::TypeMismatch),
        (HostValue::String(vec![0]), CType::CString, FfiError::InvalidCString),
        (text("this does not fit in sixteen"), CType::CString, FfiError::ArenaExhausted),
    ];
    for (v, t, e) in refused {
        assert_eq!(storage.push(&v, t, &mut scratch), Err(e), "{:?}", t);
        assert_eq!(storage.as_args(), vec![StoredArg::I32(1)]);
        assert_eq!(scratch.used(), 0);
    }
}

#[test]
fn pointer_arguments_in_storage() {
    let mut scratch = ScratchArena::new(8);
    let mut storage = ArgStorage::new();
    for v in [
        HostValue::Nil,
        HostValue::Address(9),
        HostValue::Buffer { addr: 0x20, len: 1 },
        HostValue::Integer(0x30),
        num(64.5),
    ] {
        storage.push(&v, CType::Pointer, &mut scratch).unwrap();
    }
    assert_eq!(
        storage.as_args(),
        vec![
            StoredArg::Ptr(0),
            StoredArg::Ptr(9),
            StoredArg::Ptr(0x20),
            StoredArg::Ptr(0x30),
            StoredArg::Ptr(64),
        ]
    );
}

#[test]
fn bound_function_marshals_and_converts() {
    let mem = Memory::new();
    let mut scratch = ScratchArena::new(32);
    let f = SmartBoundFunction::new(0x8000, CType::I32, &vec![CType::CString, CType::U32]).unwrap();
    assert_eq!(f.fn_ptr(), 0x8000);
    assert_eq!(f.ret_type(), CType::I32);
    assert_eq!(f.arg_types(), &vec![CType::CString, CType::U32]);
    assert_eq!(f.interface().arg_types(), &vec![CType::CString, CType::U32]);
    let storage = f.call_with_args(&vec![text("title"), HostValue::Integer(3)], &mut scratch).unwrap();
    assert_eq!(storage.as_args(), vec![StoredArg::CStr(0), StoredArg::U32(3)]);
    assert_eq!(scratch.used(), 6);
    assert_eq!(f.call_cif(&mem, 0xffff_ffff), Ok(HostValue::Integer(-1)));
    assert_eq!(f.finish(&mem, 17, &mut scratch), Ok(HostValue::Integer(17)));
    assert_eq!(scratch.used(), 0);

    assert_eq!(
        f.call_with_args(&vec![text("title")], &mut scratch).err(),
        Some(FfiError::ArgumentCountMismatch)
    );
    assert_eq!(scratch.used(), 0);
    // The string was copied before the second argument was refused.
    assert_eq!(
        f.call_with_args(&vec![text("title"), HostValue::Nil], &mut scratch).err(),
        Some(FfiError::TypeMismatch)
    );
    assert_eq!(scratch.used(), 6);

    let copy = f.duplicate().unwrap();
    assert_eq!(copy.fn_ptr(), 0x8000);
    assert_eq!(copy.arg_types(), f.arg_types());
    assert_eq!(
        SmartBoundFunction::new(1, CType::Void, &vec![CType::U8; 17]).err(),
        Some(FfiError::UnsupportedSignature)
    );
}

fn function(name: &str, ret: CType, args: Vec<CType>, address: Option<usize>) -> InterfaceEntry {
    InterfaceEntry {
        name: name.to_string(),
        value: InterfaceValue::Function { ret_type: ret, arg_types: args, address },
    }
}

fn constant(name: &str, value: ConstantValue) -> InterfaceEntry {
    InterfaceEntry { name: name.to_string(), value: InterfaceValue::Constant(value) }
}

#[test]
fn interface_binds_functions_and_constants() {
    let entries = vec![
        function("MessageBoxA", CType::I32, vec![CType::U64, CType::CString, CType::CString, CType::U32], Some(0x1000)),
        constant("MB_OK", ConstantValue::Integer(0)),
        constant("PI", ConstantValue::Number(3.14f64.to_bits())),
        InterfaceEntry { name: "ignored".to_string(), value: InterfaceValue::Other },
        constant("NAME", ConstantValue::String("user32".to_string())),
        constant("DEBUG", ConstantValue::Boolean(true)),
        function("Beep", CType::Void, vec![], Some(0x2000)),
    ];
    let lib = SmartLibrary::from_interface("user32.dll".to_string(), &entries).unwrap();
    assert_eq!(lib.path(), "user32.dll");
    assert_eq!(lib.function_count(), 2);
    assert_eq!(lib.constant_count(), 4);
    match lib.get("MessageBoxA") {
        Member::Function(f) => {
            assert_eq!(f.fn_ptr(), 0x1000);
            assert_eq!(f.ret_type(), CType::I32);
            assert_eq!(f.arg_types().len(), 4);
        }
        _ => panic!(),
    }
    assert!(matches!(lib.get("Beep"), Member::Function(f) if f.fn_ptr() == 0x2000));
    assert!(matches!(lib.get("MB_OK"), Member::Constant(ConstantValue::Integer(0))));
    assert!(matches!(lib.get("DEBUG"), Member::Constant(ConstantValue::Boolean(true))));
    assert!(matches!(lib.get("PI"), Member::Constant(ConstantValue::Number(_))));
    assert!(matches!(lib.get("NAME"), Member::Constant(ConstantValue::String(s)) if s == "user32"));
    assert!(matches!(lib.get("ignored"), Member::Missing));
    assert!(matches!(lib.get("beep"), Member::Missing));
}

#[test]
fn constants_are_found_before_functions_and_later_entries_win() {
    let entries = vec![
        function("x", CType::Void, vec![], Some(1)),
        constant("x", ConstantValue::Integer(1)),
        constant("x", ConstantValue::Integer(2)),
        function("f", CType::Void, vec![], Some(3)),
        function("f", CType::Void, vec![], Some(4)),
    ];
    let lib = SmartLibrary::from_interface(String::new(), &entries).unwrap();
    assert!(matches!(lib.get("x"), Member::Constant(ConstantValue::Integer(2))));
    assert!(matches!(lib.get("f"), Member::Function(f) if f.fn_ptr() == 4));
}

#[test]
fn the_first_entry_that_cannot_be_bound_fails_the_interface() {
    let ok = function("a", CType::Void, vec![], Some(1));
    let missing = function("gone", CType::Void, vec![], None);
    let unnamed = function("b\0d", CType::Void, vec![], None);
    let wide = function("wide", CType::Void, vec![CType::I32; 17], Some(2));
    let bind = |entries: Vec<InterfaceEntry>| {
        SmartLibrary::from_interface(String::new(), &entries).err()
    };
    assert_eq!(bind(vec![ok, missing]), Some(FfiError::SymbolNotFound));
    assert_eq!(
        bind(vec![function("wide", CType::Void, vec![CType::I32; 17], Some(2)), unnamed]),
        Some(FfiError::UnsupportedSignature)
    );
    assert_eq!(
        bind(vec![function("b\0d", CType::Void, vec![], None), wide]),
        Some(FfiError::InvalidCString)
    );
    assert_eq!(
        bind(vec![constant("b\0d", ConstantValue::Integer(1))]),
        None
    );
}
