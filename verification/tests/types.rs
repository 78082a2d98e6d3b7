use lune_ffi::errors::FfiError;
use lune_ffi::types::CType;

const ALL: [CType; 16] = [
    CType::Void,
    CType::Bool,
    CType::I8,
    CType::U8,
    CType::I16,
    CType::U16,
    CType::I32,
    CType::U32,
    CType::I64,
    CType::U64,
    CType::ISize,
    CType::USize,
    CType::F32,
    CType::F64,
    CType::Pointer,
    CType::CString,
];

#[test]
fn sizes_are_those_of_the_table() {
    let sizes: Vec<usize> = ALL.iter().map(|t| t.size()).collect();
    assert_eq!(sizes, vec![0, 1, 1, 1, 2, 2, 4, 4, 8, 8, 8, 8, 4, 8, 8, 8]);
}

#[test]
fn alignment_is_size_or_one() {
    for t in ALL.iter() {
        assert_eq!(t.alignment(), t.size().max(1));
    }
    assert_eq!(CType::Void.alignment(), 1);
    assert_eq!(CType::F64.alignment(), 8);
}

#[test]
fn every_name_parses_to_its_type() {
    let names: [(&str, CType); 45] = [
        ("void", CType::Void),
        ("bool", CType::Bool),
        ("i8", CType::I8),
        ("int8", CType::I8),
        ("char", CType::I8),
        ("u8", CType::U8),
        ("uint8", CType::U8),
        ("uchar", CType::U8),
        ("byte", CType::U8),
        ("i16", CType::I16),
        ("int16", CType::I16),
        ("short", CType::I16),
        ("u16", CType::U16),
        ("uint16", CType::U16),
        ("ushort", CType::U16),
        ("i32", CType::I32),
        ("int32", CType::I32),
        ("int", CType::I32),
        ("u32", CType::U32),
        ("uint32", CType::U32),
        ("uint", CType::U32),
        ("i64", CType::I64),
        ("int64", CType::I64),
        ("long", CType::I64),
        ("longlong", CType::I64),
        ("u64", CType::U64),
        ("uint64", CType::U64),
        ("ulong", CType::U64),
        ("ulonglong", CType::U64),
        ("size_t", CType::U64),
        ("isize", CType::ISize),
        ("usize", CType::USize),
        ("f32", CType::F32),
        ("float", CType::F32),
        ("f64", CType::F64),
        ("double", CType::F64),
        ("pointer", CType::Pointer),
        ("ptr", CType::Pointer),
        ("void*", CType::Pointer),
        ("string", CType::CString),
        ("cstring", CType::CString),
        ("char*", CType::CString),
        ("i8", CType::I8),
        ("u8", CType::U8),
        ("ptr", CType::Pointer),
    ];
    for (name, t) in names.iter() {
        assert_eq!(CType::from_str(name), Some(*t), "{}", name);
    }
}

#[test]
fn canonical_names_parse_back() {
    for t in ALL.iter() {
        assert_eq!(CType::from_str(t.name()), Some(*t));
    }
    assert_eq!(CType::Pointer.name(), "pointer");
    assert_eq!(CType::CString.name(), "string");
}

#[test]
fn unknown_names_are_refused() {
    for name in ["", "Void", "i128", "int ", " int", "unsigned", "char *", "f16"] {
        assert_eq!(CType::from_str(name), None, "{:?}", name);
    }
}

#[test]
fn failures_have_their_messages() {
    let all = [
        FfiError::InvalidSize,
        FfiError::InvalidAlignment,
        FfiError::OutOfMemory,
        FfiError::ArenaExhausted,
        FfiError::NullDereference,
        FfiError::OutOfBounds,
        FfiError::IndexOutOfBounds,
        FfiError::TypeMismatch,
        FfiError::UnknownType,
        FfiError::UnknownField,
        FfiError::UnsupportedSignature,
        FfiError::ArgumentCountMismatch,
        FfiError::InvalidCString,
        FfiError::SymbolNotFound,
        FfiError::LoadError,
        FfiError::UnsupportedBinaryFormat,
    ];
    let mut seen = std::collections::HashSet::new();
    for e in all {
        assert!(!e.message().is_empty());
        assert!(seen.insert(e.message()));
    }
    assert_eq!(FfiError::ArenaExhausted.message(), "scratch arena exhausted");
    assert_eq!(FfiError::InvalidCString.message(), "string contains a zero byte");
}
