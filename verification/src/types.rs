//! Native type descriptors: the closed set of types that can cross the
//! boundary, with their sizes, alignments and names.

use vstd::prelude::*;

verus! {

/// `str::eq` of std: two string slices are equal exactly when they hold the
/// same characters.
pub assume_specification[ <str as PartialEq>::eq ](a: &str, b: &str) -> (r: bool)
    ensures
        r == (a@ == b@),
;

/// A native type that a value can be marshalled as.
#[derive(Debug, Clone, Copy, PartialEq, Eq, Structural)]
pub enum CType {
    Void,
    Bool,
    I8,
    U8,
    I16,
    U16,
    I32,
    U32,
    I64,
    U64,
    ISize,
    USize,
    F32,
    F64,
    Pointer,
    CString,
}

/// Bytes in a native address, and in the word-sized integer types. The
/// library is laid out for targets with 64-bit addresses that store the low
/// byte of a number first: on any other target its sizes and byte orders are
/// not those of the machine.
pub const POINTER_WIDTH: usize = 8;

impl CType {
    /// Bytes that a value of the type occupies.
    pub open spec fn spec_size(self) -> nat {
        match self {
            CType::Void => 0,
            CType::Bool | CType::I8 | CType::U8 => 1,
            CType::I16 | CType::U16 => 2,
            CType::I32 | CType::U32 | CType::F32 => 4,
            CType::I64 | CType::U64 | CType::F64 => 8,
            CType::ISize | CType::USize | CType::Pointer | CType::CString => 8,
        }
    }

    /// The boundary that a value of the type is placed on: its size, and 1
    /// for the type without size.
    pub open spec fn spec_alignment(self) -> nat {
        if self.spec_size() == 0 {
            1
        } else {
            self.spec_size()
        }
    }

    /// Whether `name` is one of the spellings of the type: its canonical
    /// name (the first one listed) or an alias.
    pub open spec fn goes_by(self, name: Seq<char>) -> bool {
        match self {
            CType::Void => name == "void"@,
            CType::Bool => name == "bool"@,
            CType::I8 => name == "i8"@ || name == "int8"@ || name == "char"@,
            CType::U8 => name == "u8"@ || name == "uint8"@ || name == "uchar"@ || name == "byte"@,
            CType::I16 => name == "i16"@ || name == "int16"@ || name == "short"@,
            CType::U16 => name == "u16"@ || name == "uint16"@ || name == "ushort"@,
            CType::I32 => name == "i32"@ || name == "int32"@ || name == "int"@,
            CType::U32 => name == "u32"@ || name == "uint32"@ || name == "uint"@,
            CType::I64 => name == "i64"@ || name == "int64"@ || name == "long"@ || name == "longlong"@,
            CType::U64 => name == "u64"@ || name == "uint64"@ || name == "ulong"@ || name == "ulonglong"@ || name == "size_t"@,
            CType::ISize => name == "isize"@,
            CType::USize => name == "usize"@,
            CType::F32 => name == "f32"@ || name == "float"@,
            CType::F64 => name == "f64"@ || name == "double"@,
            CType::Pointer => name == "pointer"@ || name == "ptr"@ || name == "void*"@,
            CType::CString => name == "string"@ || name == "cstring"@ || name == "char*"@,
        }
    }

    /// The type that goes by `name`, if there is one.
    pub open spec fn spec_from_str(name: Seq<char>) -> Option<CType> {
        if CType::Void.goes_by(name) {
            Some(CType::Void)
        } else if CType::Bool.goes_by(name) {
            Some(CType::Bool)
        } else if CType::I8.goes_by(name) {
            Some(CType::I8)
        } else if CType::U8.goes_by(name) {
            Some(CType::U8)
        } else if CType::I16.goes_by(name) {
            Some(CType::I16)
        } else if CType::U16.goes_by(name) {
            Some(CType::U16)
        } else if CType::I32.goes_by(name) {
            Some(CType::I32)
        } else if CType::U32.goes_by(name) {
            Some(CType::U32)
        } else if CType::I64.goes_by(name) {
            Some(CType::I64)
        } else if CType::U64.goes_by(name) {
            Some(CType::U64)
        } else if CType::ISize.goes_by(name) {
            Some(CType::ISize)
        } else if CType::USize.goes_by(name) {
            Some(CType::USize)
        } else if CType::F32.goes_by(name) {
            Some(CType::F32)
        } else if CType::F64.goes_by(name) {
            Some(CType::F64)
        } else if CType::Pointer.goes_by(name) {
            Some(CType::Pointer)
        } else if CType::CString.goes_by(name) {
            Some(CType::CString)
        } else {
            None
        }
    }

    /// Parses a type name, canonical or alias.
    pub fn from_str(s: &str) -> (r: Option<CType>)
        ensures
            r == Self::spec_from_str(s@),
    {
        if same(s, "void") {
            Some(CType::Void)
        }         else if same(s, "bool") {
            Some(CType::Bool)
        }         else if same(s, "i8") || same(s, "int8") || same(s, "char") {
            Some(CType::I8)
        }         else if same(s, "u8") || same(s, "uint8") || same(s, "uchar") || same(s, "byte") {
            Some(CType::U8)
        }         else if same(s, "i16") || same(s, "int16") || same(s, "short") {
            Some(CType::I16)
        }         else if same(s, "u16") || same(s, "uint16") || same(s, "ushort") {
            Some(CType::U16)
        }         else if same(s, "i32") || same(s, "int32") || same(s, "int") {
            Some(CType::I32)
        }         else if same(s, "u32") || same(s, "uint32") || same(s, "uint") {
            Some(CType::U32)
        }         else if same(s, "i64") || same(s, "int64") || same(s, "long") || same(s, "longlong") {
            Some(CType::I64)
        }         else if same(s, "u64") || same(s, "uint64") || same(s, "ulong") || same(s, "ulonglong") || same(s, "size_t") {
            Some(CType::U64)
        }         else if same(s, "isize") {
            Some(CType::ISize)
        }         else if same(s, "usize") {
            Some(CType::USize)
        }         else if same(s, "f32") || same(s, "float") {
            Some(CType::F32)
        }         else if same(s, "f64") || same(s, "double") {
            Some(CType::F64)
        }         else if same(s, "pointer") || same(s, "ptr") || same(s, "void*") {
            Some(CType::Pointer)
        }         else if same(s, "string") || same(s, "cstring") || same(s, "char*") {
            Some(CType::CString)
        } else {
            None
        }
    }

    /// The canonical name of the type.
    pub open spec fn spec_name(self) -> Seq<char> {
        match self {
            CType::Void => "void"@,
            CType::Bool => "bool"@,
            CType::I8 => "i8"@,
            CType::U8 => "u8"@,
            CType::I16 => "i16"@,
            CType::U16 => "u16"@,
            CType::I32 => "i32"@,
            CType::U32 => "u32"@,
            CType::I64 => "i64"@,
            CType::U64 => "u64"@,
            CType::ISize => "isize"@,
            CType::USize => "usize"@,
            CType::F32 => "f32"@,
            CType::F64 => "f64"@,
            CType::Pointer => "pointer"@,
            CType::CString => "string"@,
        }
    }

    /// The canonical name of the type. It parses back to the type.
    pub fn name(&self) -> (r: &'static str)
        ensures
            r@ == self.spec_name(),
            self.goes_by(r@),
            Self::spec_from_str(r@) == Some(*self),
    {
        let r = match self {
            CType::Void => "void",
            CType::Bool => "bool",
            CType::I8 => "i8",
            CType::U8 => "u8",
            CType::I16 => "i16",
            CType::U16 => "u16",
            CType::I32 => "i32",
            CType::U32 => "u32",
            CType::I64 => "i64",
            CType::U64 => "u64",
            CType::ISize => "isize",
            CType::USize => "usize",
            CType::F32 => "f32",
            CType::F64 => "f64",
            CType::Pointer => "pointer",
            CType::CString => "string",
        };
        proof {
            lemma_names_parse(*self, r@);
        }
        r
    }

    pub fn size(&self) -> (r: usize)
        ensures
            r == self.spec_size(),
    {
        match self {
            CType::Void => 0,
            CType::Bool | CType::I8 | CType::U8 => 1,
            CType::I16 | CType::U16 => 2,
            CType::I32 | CType::U32 | CType::F32 => 4,
            CType::I64 | CType::U64 | CType::F64 => 8,
            CType::ISize | CType::USize | CType::Pointer | CType::CString => POINTER_WIDTH,
        }
    }

    pub fn alignment(&self) -> (r: usize)
        ensures
            r == self.spec_alignment(),
            r == if self.spec_size() >= 1 { self.spec_size() } else { 1 },
    {
        let size = self.size();
        if size == 0 {
            1
        } else {
            size
        }
    }
}

/// Always true: mentions a value so that the solver considers it.
spec fn seen(x: int) -> bool {
    true
}

/// Whether two string slices hold the same characters.
pub fn same(a: &str, b: &str) -> (r: bool)
    ensures
        r == (a@ == b@),
{
    *a == *b
}

/// Parsing any spelling of a type, canonical or alias, gives that type.
pub proof fn lemma_names_parse(t: CType, name: Seq<char>)
    requires
        t.goes_by(name),
    ensures
        CType::spec_from_str(name) == Some(t),
{
    assert(seen(name.len() as int) && seen(name[0] as int) && seen(name[1] as int) && seen(
        name[2] as int,
    ) && seen(name[3] as int) && seen(name[4] as int) && seen(name[5] as int));

    reveal_strlit("void");
    reveal_strlit("bool");
    reveal_strlit("i8");
    reveal_strlit("int8");
    reveal_strlit("char");
    reveal_strlit("u8");
    reveal_strlit("uint8");
    reveal_strlit("uchar");
    reveal_strlit("byte");
    reveal_strlit("i16");
    reveal_strlit("int16");
    reveal_strlit("short");
    reveal_strlit("u16");
    reveal_strlit("uint16");
    reveal_strlit("ushort");
    reveal_strlit("i32");
    reveal_strlit("int32");
    reveal_strlit("int");
    reveal_strlit("u32");
    reveal_strlit("uint32");
    reveal_strlit("uint");
    reveal_strlit("i64");
    reveal_strlit("int64");
    reveal_strlit("long");
    reveal_strlit("longlong");
    reveal_strlit("u64");
    reveal_strlit("uint64");
    reveal_strlit("ulong");
    reveal_strlit("ulonglong");
    reveal_strlit("size_t");
    reveal_strlit("isize");
    reveal_strlit("usize");
    reveal_strlit("f32");
    reveal_strlit("float");
    reveal_strlit("f64");
    reveal_strlit("double");
    reveal_strlit("pointer");
    reveal_strlit("ptr");
    reveal_strlit("void*");
    reveal_strlit("string");
    reveal_strlit("cstring");
    reveal_strlit("char*");
}

/// A name parses to a type only if it is one of that type's spellings.
pub proof fn lemma_parse_is_name(t: CType, name: Seq<char>)
    requires
        CType::spec_from_str(name) == Some(t),
    ensures
        t.goes_by(name),
{
}

/// Sizes are 0, 1, 2, 4 or 8 bytes, and the alignment of a type is its
/// size, or 1 for the type without size.
pub proof fn lemma_size_alignment(t: CType)
    ensures
        t.spec_size() >= 0,
        t.spec_size() <= 8,
        t.spec_alignment() == if t.spec_size() >= 1 { t.spec_size() } else { 1 },
        t.spec_size() == 0 <==> t == CType::Void,
{
}

} // verus!
