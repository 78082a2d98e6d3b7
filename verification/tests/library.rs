use lune_ffi::errors::FfiError;
use lune_ffi::library::{
    exports_from_elf, exports_from_mach, exports_from_pe, list_exports, symbol_name,
    BoundFunction, ElfSymbol, ExportInfo, NativeLibrary, ParsedObject,
};
use lune_ffi::types::CType;
use lune_ffi::value::HostValue;

fn names(exports: &[ExportInfo]) -> Vec<String> {
    exports.iter().map(|e| e.name.clone()).collect()
}

/// What goblin finds in the bytes of a binary file.
fn parsed(bytes: &[u8]) -> ParsedObject {
    match goblin::Object::parse(bytes) {
        Ok(goblin::Object::PE(pe)) => ParsedObject::Pe(
            pe.exports.iter().map(|e| e.name.map(|n| n.to_string())).collect(),
        ),
        Ok(goblin::Object::Elf(elf)) => ParsedObject::Elf(
            elf.dynsyms
                .iter()
                .map(|s| ElfSymbol {
                    info: s.st_info,
                    name: elf.dynstrtab.get_at(s.st_name).map(|n| n.to_string()),
                })
                .collect(),
        ),
        Ok(goblin::Object::Mach(goblin::mach::Mach::Binary(macho))) => ParsedObject::MachBinary(
            macho.exports().ok().map(|v| v.into_iter().map(|e| e.name).collect()),
        ),
        Ok(goblin::Object::Mach(_)) => ParsedObject::MachFat,
        _ => ParsedObject::Unsupported,
    }
}

#[test]
fn exports_are_listed_by_format() {
    let text = |n: &str| n.to_string();
    let pe = ParsedObject::Pe(vec![Some(text("open")), None, Some(text("close"))]);
    assert_eq!(names(&list_exports(&pe).unwrap()), vec!["open", "close"]);
    let elf = ParsedObject::Elf(vec![
        ElfSymbol { info: 0x12, name: Some(text("run")) },
        ElfSymbol { info: 0x11, name: Some(text("table")) },
        ElfSymbol { info: 0x12, name: None },
    ]);
    assert_eq!(names(&list_exports(&elf).unwrap()), vec!["run"]);
    let mach = ParsedObject::MachBinary(Some(vec![text("_a"), text("_b")]));
    assert_eq!(names(&list_exports(&mach).unwrap()), vec!["_a", "_b"]);
    assert!(list_exports(&ParsedObject::MachBinary(None)).unwrap().is_empty());
    assert!(list_exports(&ParsedObject::MachFat).unwrap().is_empty());
    assert_eq!(
        list_exports(&ParsedObject::Unsupported).err(),
        Some(FfiError::UnsupportedBinaryFormat)
    );
    assert!(list_exports(&pe).unwrap().iter().all(|e| e.ordinal.is_none()));
}

#[test]
fn garbage_is_an_unsupported_format() {
    assert_eq!(list_exports(&parsed(&[])).err(), Some(FfiError::UnsupportedBinaryFormat));
    assert_eq!(
        list_exports(&parsed(b"not a binary at all, just text")).err(),
        Some(FfiError::UnsupportedBinaryFormat)
    );
    assert_eq!(list_exports(&parsed(&[0x7f, b'E', b'L', b'F'])).err(), Some(FfiError::UnsupportedBinaryFormat));
}

fn put(bytes: &mut Vec<u8>, at: usize, value: u64, width: usize) {
    if bytes.len() < at + width {
        bytes.resize(at + width, 0);
    }
    bytes[at..at + width].copy_from_slice(&value.to_le_bytes()[..width]);
}

/// A small 64-bit little-endian shared object: a header, two program
/// headers, and a dynamic section that leads to a hash table, a symbol table
/// and a string table.
fn tiny_elf(symbols: &[(&str, u8)]) -> Vec<u8> {
    let mut strtab: Vec<u8> = vec![0];
    let mut name_offsets = Vec::new();
    for (name, _) in symbols.iter() {
        if name.is_empty() {
            name_offsets.push(0usize);
        } else {
            name_offsets.push(strtab.len());
            strtab.extend_from_slice(name.as_bytes());
            strtab.push(0);
        }
    }
    let count = symbols.len() + 1;
    let dynamic_at = 0xb0usize;
    let dynamic_len = 6 * 16;
    let hash_at = dynamic_at + dynamic_len;
    let hash_len = 4 * (2 + 1 + count);
    let symtab_at = (hash_at + hash_len + 7) / 8 * 8;
    let strtab_at = symtab_at + 24 * count;
    let total = strtab_at + strtab.len();

    let mut b: Vec<u8> = vec![0; total];
    b[0..4].copy_from_slice(&[0x7f, b'E', b'L', b'F']);
    b[4] = 2; // 64-bit
    b[5] = 1; // little-endian
    b[6] = 1; // version
    put(&mut b, 0x10, 3, 2); // shared object
    put(&mut b, 0x12, 62, 2); // x86-64
    put(&mut b, 0x14, 1, 4);
    put(&mut b, 0x20, 0x40, 8); // program headers
    put(&mut b, 0x34, 64, 2); // header size
    put(&mut b, 0x36, 56, 2); // program header size
    put(&mut b, 0x38, 2, 2); // program header count
    put(&mut b, 0x3a, 64, 2); // section header size
    // PT_LOAD over the whole file
    put(&mut b, 0x40, 1, 4);
    put(&mut b, 0x44, 5, 4);
    put(&mut b, 0x60, total as u64, 8);
    put(&mut b, 0x68, total as u64, 8);
    put(&mut b, 0x70, 0x1000, 8);
    // PT_DYNAMIC
    put(&mut b, 0x78, 2, 4);
    put(&mut b, 0x7c, 6, 4);
    put(&mut b, 0x80, dynamic_at as u64, 8);
    put(&mut b, 0x88, dynamic_at as u64, 8);
    put(&mut b, 0x90, dynamic_at as u64, 8);
    put(&mut b, 0x98, dynamic_len as u64, 8);
    put(&mut b, 0xa0, dynamic_len as u64, 8);
    put(&mut b, 0xa8, 8, 8);
    let entries: [(u64, u64); 6] = [
        (4, hash_at as u64),
        (5, strtab_at as u64),
        (6, symtab_at as u64),
        (10, strtab.len() as u64),
        (11, 24),
        (0, 0),
    ];
    for (i, (tag, value)) in entries.iter().enumerate() {
        put(&mut b, dynamic_at + 16 * i, *tag, 8);
        put(&mut b, dynamic_at + 16 * i + 8, *value, 8);
    }
    put(&mut b, hash_at, 1, 4);
    put(&mut b, hash_at + 4, count as u64, 4);
    for (i, (_, info)) in symbols.iter().enumerate() {
        let at = symtab_at + 24 * (i + 1);
        put(&mut b, at, name_offsets[i] as u64, 4);
        b[at + 4] = *info;
        put(&mut b, at + 6, 1, 2);
        put(&mut b, at + 8, 0x100 + i as u64, 8);
    }
    b[strtab_at..].copy_from_slice(&strtab);
    b
}

#[test]
fn elf_exports_of_a_shared_object() {
    let bytes = tiny_elf(&[
        ("add", 0x12),
        ("counter", 0x11),
        ("helper", 0x02),
        ("lazy", 0x22),
        ("mul", 0x12),
        ("", 0x12),
    ]);
    let exports = list_exports(&parsed(&bytes)).unwrap();
    assert_eq!(names(&exports), vec!["add", "mul"]);
    assert!(exports.iter().all(|e| e.ordinal.is_none()));

    let none = list_exports(&parsed(&tiny_elf(&[("data", 0x11)]))).unwrap();
    assert!(none.is_empty());
}

#[test]
fn pe_exports_keep_named_entries_in_order() {
    let table = vec![Some("alpha".to_string()), None, Some("".to_string()), Some("beta".to_string())];
    let exports = exports_from_pe(&table);
    assert_eq!(names(&exports), vec!["alpha", "", "beta"]);
    assert!(exports.iter().all(|e| e.ordinal.is_none()));
    assert!(exports_from_pe(&vec![None, None]).is_empty());
}

#[test]
fn elf_exports_are_global_functions_with_a_name() {
    let sym = |info: u8, name: Option<&str>| ElfSymbol { info, name: name.map(|n| n.to_string()) };
    let table = vec![
        sym(0x12, Some("global_func")),
        sym(0x11, Some("global_object")),
        sym(0x02, Some("local_func")),
        sym(0x22, Some("weak_func")),
        sym(0x12, Some("")),
        sym(0x12, None),
        sym(0x12, Some("second")),
        sym(0x00, Some("undefined")),
    ];
    assert_eq!(names(&exports_from_elf(&table)), vec!["global_func", "second"]);
    assert!(exports_from_elf(&Vec::new()).is_empty());
}

#[test]
fn mach_exports_are_all_names_or_none() {
    let list = Some(vec!["_main".to_string(), "_helper".to_string()]);
    assert_eq!(names(&exports_from_mach(&list)), vec!["_main", "_helper"]);
    assert!(exports_from_mach(&None).is_empty());
    assert!(exports_from_mach(&Some(Vec::new())).is_empty());
}

#[test]
fn symbol_names_end_in_zero_and_hold_none() {
    assert_eq!(symbol_name("puts"), Ok(b"puts\0".to_vec()));
    assert_eq!(symbol_name(""), Ok(vec![0]));
    assert_eq!(symbol_name("gr\u{fc}n"), Ok(b"gr\xc3\xbcn\0".to_vec()));
    assert_eq!(symbol_name("bad\0name"), Err(FfiError::InvalidCString));
}

#[test]
fn library_open_and_resolve() {
    assert_eq!(NativeLibrary::open("libm.so", false).err(), Some(FfiError::LoadError));
    let lib = NativeLibrary::open("libm.so", true).unwrap();
    assert_eq!(lib.path(), "libm.so");
    assert_eq!(lib.get_symbol_ptr("cos", Some(0x1000)), Ok(0x1000));
    assert_eq!(lib.get_symbol_ptr("cos", None), Err(FfiError::SymbolNotFound));
    assert_eq!(lib.get_symbol_ptr("c\0s", Some(0x1000)), Err(FfiError::InvalidCString));
    assert!(lib.has_symbol("cos", Some(1)));
    assert!(!lib.has_symbol("cos", None));
    assert_eq!(
        lib.list_exports(&parsed(b"plain text")).err(),
        Some(FfiError::UnsupportedBinaryFormat)
    );
}

#[test]
fn library_convenience_calls_fix_the_signature() {
    let lib = NativeLibrary::open("libc.so", true).unwrap();
    let call = lib.call_int("getpid", Some(0x2000)).unwrap();
    assert_eq!(call.fn_ptr, 0x2000);
    assert_eq!(call.interface.ret_type(), CType::I32);
    assert!(call.args.is_empty());
    let call = lib.call_int_arg("abs", Some(0x2008), -5).unwrap();
    assert_eq!(call.interface.arg_types(), &vec![CType::I32]);
    assert_eq!(call.args.len(), 1);
    assert_eq!(lib.call_double("f", Some(1)).unwrap().interface.ret_type(), CType::F64);
    assert_eq!(lib.call_void("f", Some(1)).unwrap().interface.ret_type(), CType::Void);
    assert_eq!(lib.call_string("f", Some(1)).unwrap().interface.ret_type(), CType::CString);
    assert_eq!(lib.call_int("f", None).err(), Some(FfiError::SymbolNotFound));
    assert_eq!(
        lib.call("f", Some(1), CType::I32, &vec![CType::I32], &vec![]).err(),
        Some(FfiError::ArgumentCountMismatch)
    );
}

#[test]
fn bound_function_keeps_address_and_signature() {
    assert_eq!(
        BoundFunction::new("f", None, CType::Void, &vec![]).err(),
        Some(FfiError::SymbolNotFound)
    );
    assert_eq!(
        BoundFunction::new("f\0", Some(8), CType::Void, &vec![]).err(),
        Some(FfiError::InvalidCString)
    );
    // The symbol is resolved before the signature is looked at.
    assert_eq!(
        BoundFunction::new("f", None, CType::Void, &vec![CType::I8; 17]).err(),
        Some(FfiError::SymbolNotFound)
    );
    assert_eq!(
        BoundFunction::new("f", Some(8), CType::Void, &vec![CType::I8; 17]).err(),
        Some(FfiError::UnsupportedSignature)
    );
    assert_eq!(
        BoundFunction::new("f", Some(8), CType::Void, &vec![CType::Void]).err(),
        Some(FfiError::UnsupportedSignature)
    );
    let f = BoundFunction::new("add", Some(0x4000), CType::I32, &vec![CType::I32, CType::I32]).unwrap();
    assert_eq!(f.fn_ptr(), 0x4000);
    assert_eq!(f.interface().ret_type(), CType::I32);
    let call = f.call(&vec![HostValue::Integer(2), HostValue::Integer(3)]).unwrap();
    assert_eq!(call.fn_ptr, 0x4000);
    assert_eq!(call.args.len(), 2);
    assert_eq!(
        f.call(&vec![HostValue::Integer(2)]).err(),
        Some(FfiError::ArgumentCountMismatch)
    );
}

/// A small 64-bit portable executable: headers, one section, and in it an
/// export directory with its three tables and the names. An export whose
/// name is `None` gets a name pointer that leads nowhere.
fn tiny_pe(exports: &[Option<&str>]) -> Vec<u8> {
    let n = exports.len();
    let section_rva = 0x1000usize;
    let section_at = 0x200usize;
    let directory = 40usize;
    let addresses_at = directory;
    let pointers_at = addresses_at + 4 * n;
    let ordinals_at = pointers_at + 4 * n;
    let strings_at = ordinals_at + 2 * n;
    let mut strings: Vec<u8> = b"tiny.dll\0".to_vec();
    let mut name_rvas = Vec::new();
    for export in exports.iter() {
        match export {
            Some(name) => {
                name_rvas.push(section_rva + strings_at + strings.len());
                strings.extend_from_slice(name.as_bytes());
                strings.push(0);
            }
            None => name_rvas.push(0x00ff_0000),
        }
    }
    let export_size = strings_at + strings.len();
    assert!(export_size <= 0x200);

    let mut b: Vec<u8> = vec![0; 0x400];
    b[0] = b'M';
    b[1] = b'Z';
    put(&mut b, 0x3c, 0x80, 4);
    b[0x80..0x84].copy_from_slice(b"PE\0\0");
    put(&mut b, 0x84, 0x8664, 2); // machine
    put(&mut b, 0x86, 1, 2); // sections
    put(&mut b, 0x94, 240, 2); // size of the optional header
    put(&mut b, 0x96, 0x2022, 2); // a library
    let optional = 0x98;
    put(&mut b, optional, 0x20b, 2);
    let windows = optional + 24;
    put(&mut b, windows, 0x1_8000_0000, 8); // image base
    put(&mut b, windows + 8, 0x1000, 4); // section alignment
    put(&mut b, windows + 12, 0x200, 4); // file alignment
    put(&mut b, windows + 32, 0x2000, 4); // size of the image
    put(&mut b, windows + 36, 0x200, 4); // size of the headers
    put(&mut b, windows + 84, 16, 4); // data directories
    let directories = windows + 88;
    put(&mut b, directories, section_rva as u64, 4);
    put(&mut b, directories + 4, export_size as u64, 4);
    let section = optional + 240;
    b[section..section + 6].copy_from_slice(b".edata");
    put(&mut b, section + 8, 0x200, 4); // virtual size
    put(&mut b, section + 12, section_rva as u64, 4);
    put(&mut b, section + 16, 0x200, 4); // size of the raw data
    put(&mut b, section + 20, section_at as u64, 4);
    put(&mut b, section + 36, 0x4000_0040, 4);

    let d = section_at;
    put(&mut b, d + 12, (section_rva + strings_at) as u64, 4); // name of the library
    put(&mut b, d + 16, 1, 4); // ordinal base
    put(&mut b, d + 20, n as u64, 4);
    put(&mut b, d + 24, n as u64, 4);
    put(&mut b, d + 28, (section_rva + addresses_at) as u64, 4);
    put(&mut b, d + 32, (section_rva + pointers_at) as u64, 4);
    put(&mut b, d + 36, (section_rva + ordinals_at) as u64, 4);
    for i in 0..n {
        put(&mut b, d + addresses_at + 4 * i, 0x3000 + 16 * i as u64, 4);
        put(&mut b, d + pointers_at + 4 * i, name_rvas[i] as u64, 4);
        put(&mut b, d + ordinals_at + 2 * i, i as u64, 2);
    }
    b[d + strings_at..d + strings_at + strings.len()].copy_from_slice(&strings);
    b
}

#[test]
fn pe_exports_of_a_library() {
    let bytes = tiny_pe(&[Some("CreateThing"), None, Some("DestroyThing"), Some("thing_count")]);
    let exports = list_exports(&parsed(&bytes)).unwrap();
    assert_eq!(names(&exports), vec!["CreateThing", "DestroyThing", "thing_count"]);
    assert!(exports.iter().all(|e| e.ordinal.is_none()));
    assert!(list_exports(&parsed(&tiny_pe(&[]))).unwrap().is_empty());
    assert!(list_exports(&parsed(&tiny_pe(&[None]))).unwrap().is_empty());
}

fn uleb(mut value: usize) -> Vec<u8> {
    let mut out = Vec::new();
    loop {
        let byte = (value & 0x7f) as u8;
        value >>= 7;
        if value == 0 {
            out.push(byte);
            return out;
        }
        out.push(byte | 0x80);
    }
}

/// A small 64-bit Mach-O library: a header, one load command that points to
/// the export trie, and the trie with one leaf for each name.
fn tiny_macho(symbols: &[&str]) -> Vec<u8> {
    let mut root_len = 2;
    for name in symbols.iter() {
        root_len += name.len() + 1 + 1;
    }
    let mut trie: Vec<u8> = vec![0, symbols.len() as u8];
    for (i, name) in symbols.iter().enumerate() {
        trie.extend_from_slice(name.as_bytes());
        trie.push(0);
        let leaf = root_len + 4 * i;
        assert!(leaf < 0x80);
        trie.extend_from_slice(&uleb(leaf));
    }
    assert_eq!(trie.len(), root_len);
    for i in 0..symbols.len() {
        trie.extend_from_slice(&[2, 0, 0x10 + i as u8, 0]);
    }
    let mut b: Vec<u8> = Vec::new();
    put(&mut b, 0, 0xfeed_facf, 4);
    put(&mut b, 4, 0x0100_0007, 4); // x86-64
    put(&mut b, 8, 3, 4);
    put(&mut b, 12, 6, 4); // a library
    put(&mut b, 16, 1, 4); // load commands
    put(&mut b, 20, 16, 4); // their size
    put(&mut b, 24, 0, 4);
    put(&mut b, 28, 0, 4);
    put(&mut b, 32, 0x8000_0033, 4); // the export trie
    put(&mut b, 36, 16, 4);
    put(&mut b, 40, 48, 4);
    put(&mut b, 44, trie.len() as u64, 4);
    b.extend_from_slice(&trie);
    b
}

#[test]
fn mach_exports_of_a_library() {
    let exports = list_exports(&parsed(&tiny_macho(&["_add", "_mul", "_version"]))).unwrap();
    assert_eq!(names(&exports), vec!["_add", "_mul", "_version"]);
    assert!(exports.iter().all(|e| e.ordinal.is_none()));
    assert!(list_exports(&parsed(&tiny_macho(&[]))).unwrap().is_empty());
}

#[test]
fn mach_container_lists_nothing() {
    let mut bytes = vec![0xca, 0xfe, 0xba, 0xbe, 0, 0, 0, 0];
    bytes.resize(64, 0);
    assert!(list_exports(&parsed(&bytes)).unwrap().is_empty());
}
