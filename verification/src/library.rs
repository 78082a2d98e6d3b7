//! Native libraries: the names that a binary exports, symbols resolved to
//! addresses, and functions bound to a signature.
//!
//! Loading a library, resolving a symbol and parsing the file of a library
//! are done by the host of this library, which hands in what came of it: the
//! address of a symbol, or that there is none; what a parser of binary
//! formats found in the file.

use vstd::prelude::*;
use vstd::string::*;
use crate::caller::{
    dynamic_call, spec_arg_views, spec_call, spec_dynamic_call, spec_supported,
    spec_value_views, ArgValueModel, CallInterface, PendingCall,
};
use crate::errors::FfiError;
use crate::types::CType;
use crate::value::HostValue;

verus! {

/// A name that a library exports.
#[derive(Debug)]
pub struct ExportInfo {
    pub name: String,
    pub ordinal: Option<u32>,
}

/// A name that a library exports, as contracts speak of it.
pub struct ExportInfoModel {
    pub name: Seq<char>,
    pub ordinal: Option<u32>,
}

impl View for ExportInfo {
    type V = ExportInfoModel;

    open spec fn view(&self) -> ExportInfoModel {
        ExportInfoModel { name: self.name@, ordinal: self.ordinal }
    }
}

/// The exports of a list.
pub open spec fn spec_export_views(exports: Seq<ExportInfo>) -> Seq<ExportInfoModel> {
    Seq::new(exports.len(), |i: int| exports[i]@)
}

/// An entry of the dynamic symbol table of an ELF object: its info byte and
/// its name, where the string table holds one.
#[derive(Debug)]
pub struct ElfSymbol {
    pub info: u8,
    pub name: Option<String>,
}

/// The binding of a symbol that is visible to other objects.
pub const STB_GLOBAL: u8 = 1;

/// The type of a symbol that is a function.
pub const STT_FUNC: u8 = 2;

/// The symbols of a list, each as its info byte and its name.
pub open spec fn spec_symbol_views(symbols: Seq<ElfSymbol>) -> Seq<(u8, Option<Seq<char>>)> {
    Seq::new(symbols.len(), |i: int| (symbols[i].info, symbols[i].name.deep_view()))
}

/// What a parser of binary formats found in the file of a library, as far
/// as exports are listed from it.
#[derive(Debug)]
pub enum ParsedObject {
    /// A portable executable: the names of its export table, in table order;
    /// an export without a name has none.
    Pe(Vec<Option<String>>),
    /// An ELF object: its dynamic symbols, in table order; a symbol whose
    /// name lies outside the string table has none.
    Elf(Vec<ElfSymbol>),
    /// A Mach-O binary for one architecture: the names of its export trie, in
    /// order, or none where the trie cannot be read.
    MachBinary(Option<Vec<String>>),
    /// A Mach-O container of several architectures.
    MachFat,
    /// Any other format, and bytes that are no well-formed object.
    Unsupported,
}

/// What a parser found, as contracts speak of it.
pub enum ParsedObjectModel {
    Pe(Seq<Option<Seq<char>>>),
    Elf(Seq<(u8, Option<Seq<char>>)>),
    MachBinary(Option<Seq<Seq<char>>>),
    MachFat,
    Unsupported,
}

impl View for ParsedObject {
    type V = ParsedObjectModel;

    open spec fn view(&self) -> ParsedObjectModel {
        match self {
            ParsedObject::Pe(names) => ParsedObjectModel::Pe(names.deep_view()),
            ParsedObject::Elf(symbols) => ParsedObjectModel::Elf(spec_symbol_views(symbols@)),
            ParsedObject::MachBinary(names) => ParsedObjectModel::MachBinary(names.deep_view()),
            ParsedObject::MachFat => ParsedObjectModel::MachFat,
            ParsedObject::Unsupported => ParsedObjectModel::Unsupported,
        }
    }
}

/// The exports among the names of a portable executable: every entry that
/// has a name, in order.
pub open spec fn spec_exports_from_pe(names: Seq<Option<Seq<char>>>) -> Seq<ExportInfoModel>
    decreases names.len(),
{
    if names.len() == 0 {
        Seq::empty()
    } else {
        let rest = spec_exports_from_pe(names.drop_last());
        match names.last() {
            Some(name) => rest.push(ExportInfoModel { name, ordinal: None }),
            None => rest,
        }
    }
}

/// Whether a dynamic symbol is an export: a function of global binding with
/// a name that is not empty.
pub open spec fn spec_is_elf_export(info: u8, name: Option<Seq<char>>) -> bool {
    &&& info & 0xf == STT_FUNC
    &&& info >> 4 == STB_GLOBAL
    &&& name is Some
    &&& name->Some_0.len() > 0
}

/// The exports among the first `n` dynamic symbols of an ELF object, in
/// order.
pub open spec fn spec_exports_from_elf(symbols: Seq<(u8, Option<Seq<char>>)>, n: nat) -> Seq<
    ExportInfoModel,
>
    decreases n,
{
    if n == 0 {
        Seq::empty()
    } else {
        let rest = spec_exports_from_elf(symbols, (n - 1) as nat);
        if spec_is_elf_export(symbols[n - 1].0, symbols[n - 1].1) {
            rest.push(ExportInfoModel { name: symbols[n - 1].1->Some_0, ordinal: None })
        } else {
            rest
        }
    }
}

/// The exports of a Mach-O binary: every name, in order, or none where the
/// names cannot be read.
pub open spec fn spec_exports_from_mach(names: Option<Seq<Seq<char>>>) -> Seq<ExportInfoModel> {
    match names {
        Some(names) => Seq::new(
            names.len(),
            |i: int| ExportInfoModel { name: names[i], ordinal: None },
        ),
        None => Seq::empty(),
    }
}

/// The exports among the names of a portable executable.
pub fn exports_from_pe(names: &Vec<Option<String>>) -> (r: Vec<ExportInfo>)
    ensures
        spec_export_views(r@) == spec_exports_from_pe(names.deep_view()),
{
    let ghost all = names.deep_view();
    let mut exports: Vec<ExportInfo> = Vec::new();
    let mut i: usize = 0;
    assert(all.subrange(0, 0) =~= Seq::<Option<Seq<char>>>::empty());
    assert(spec_export_views(exports@) =~= Seq::<ExportInfoModel>::empty());
    while i < names.len()
        invariant
            i <= names@.len(),
            all == names.deep_view(),
            all.len() == names@.len(),
            spec_export_views(exports@) == spec_exports_from_pe(all.subrange(0, i as int)),
        decreases names@.len() - i,
    {
        let ghost before = spec_export_views(exports@);
        proof {
            let next = all.subrange(0, i + 1);
            assert(next.drop_last() =~= all.subrange(0, i as int));
            assert(next.last() == names@[i as int].deep_view());
        }
        match &names[i] {
            Some(name) => {
                exports.push(ExportInfo { name: name.clone(), ordinal: None });
                assert(spec_export_views(exports@) =~= before.push(
                    ExportInfoModel { name: name@, ordinal: None },
                ));
            },
            None => {},
        }
        i = i + 1;
    }
    assert(all.subrange(0, i as int) =~= all);
    exports
}

/// The exports among the dynamic symbols of an ELF object.
pub fn exports_from_elf(symbols: &Vec<ElfSymbol>) -> (r: Vec<ExportInfo>)
    ensures
        spec_export_views(r@) == spec_exports_from_elf(spec_symbol_views(symbols@), symbols@.len()),
{
    let ghost views = spec_symbol_views(symbols@);
    let mut exports: Vec<ExportInfo> = Vec::new();
    let mut i: usize = 0;
    assert(spec_export_views(exports@) =~= Seq::<ExportInfoModel>::empty());
    while i < symbols.len()
        invariant
            i <= symbols@.len(),
            views == spec_symbol_views(symbols@),
            spec_export_views(exports@) == spec_exports_from_elf(views, i as nat),
        decreases symbols@.len() - i,
    {
        let ghost before = spec_export_views(exports@);
        let symbol = &symbols[i];
        if symbol.info & 0xf == STT_FUNC && symbol.info >> 4 == STB_GLOBAL {
            match &symbol.name {
                Some(name) => {
                    if name.as_str().unicode_len() > 0 {
                        exports.push(ExportInfo { name: name.clone(), ordinal: None });
                        assert(spec_export_views(exports@) =~= before.push(
                            ExportInfoModel { name: name@, ordinal: None },
                        ));
                    }
                },
                None => {},
            }
        }
        i = i + 1;
    }
    exports
}

/// The exports of a Mach-O binary.
pub fn exports_from_mach(names: &Option<Vec<String>>) -> (r: Vec<ExportInfo>)
    ensures
        spec_export_views(r@) == spec_exports_from_mach(names.deep_view()),
{
    let mut exports: Vec<ExportInfo> = Vec::new();
    match names {
        None => {
            assert(spec_export_views(exports@) =~= Seq::<ExportInfoModel>::empty());
        },
        Some(list) => {
            let mut i: usize = 0;
            while i < list.len()
                invariant
                    i <= list@.len(),
                    exports@.len() == i,
                    forall|j: int|
                        0 <= j < i ==> (#[trigger] exports@[j])@ == (ExportInfoModel {
                            name: list@[j]@,
                            ordinal: None,
                        }),
                decreases list@.len() - i,
            {
                exports.push(ExportInfo { name: list[i].clone(), ordinal: None });
                i = i + 1;
            }
            assert(list.deep_view().len() == list@.len());
            assert forall|j: int| 0 <= j < list@.len() implies list.deep_view()[j] == list@[j]@ by {}
            assert(spec_export_views(exports@) =~= spec_exports_from_mach(names.deep_view()));
        },
    }
    exports
}

/// What listing the exports of a binary gives: by format, the exports
/// among what the parser found in its file. A container of several Mach-O
/// binaries lists none, and any other format is unsupported.
pub open spec fn spec_list_exports(object: ParsedObjectModel) -> Result<
    Seq<ExportInfoModel>,
    FfiError,
> {
    match object {
        ParsedObjectModel::Pe(names) => Ok(spec_exports_from_pe(names)),
        ParsedObjectModel::Elf(symbols) => Ok(spec_exports_from_elf(symbols, symbols.len())),
        ParsedObjectModel::MachBinary(names) => Ok(spec_exports_from_mach(names)),
        ParsedObjectModel::MachFat => Ok(Seq::empty()),
        ParsedObjectModel::Unsupported => Err(FfiError::UnsupportedBinaryFormat),
    }
}

/// Lists the names that a binary exports, from what the parser found in its
/// file.
pub fn list_exports(object: &ParsedObject) -> (r: Result<Vec<ExportInfo>, FfiError>)
    ensures
        match r {
            Ok(exports) => spec_list_exports(object@) == Ok::<Seq<ExportInfoModel>, FfiError>(
                spec_export_views(exports@),
            ),
            Err(e) => spec_list_exports(object@) == Err::<Seq<ExportInfoModel>, FfiError>(e),
        },
{
    match object {
        ParsedObject::Pe(names) => Ok(exports_from_pe(names)),
        ParsedObject::Elf(symbols) => Ok(exports_from_elf(symbols)),
        ParsedObject::MachBinary(names) => Ok(exports_from_mach(names)),
        ParsedObject::MachFat => {
            let exports: Vec<ExportInfo> = Vec::new();
            assert(spec_export_views(exports@) =~= Seq::<ExportInfoModel>::empty());
            Ok(exports)
        },
        ParsedObject::Unsupported => Err(FfiError::UnsupportedBinaryFormat),
    }
}

/// The name of a symbol as the loader takes it: the bytes of the name with a
/// zero after them. A name with a zero character inside is no symbol name.
pub open spec fn spec_symbol_name(name: Seq<char>) -> Result<Seq<u8>, FfiError> {
    if name.contains('\0') {
        Err(FfiError::InvalidCString)
    } else {
        Ok(vstd::utf8::encode_utf8(name).push(0u8))
    }
}

/// The name of a symbol as the loader takes it.
pub fn symbol_name(name: &str) -> (r: Result<Vec<u8>, FfiError>)
    ensures
        match r {
            Ok(bytes) => spec_symbol_name(name@) == Ok::<Seq<u8>, FfiError>(bytes@),
            Err(e) => spec_symbol_name(name@) == Err::<Seq<u8>, FfiError>(e),
        },
{
    let n = name.unicode_len();
    let mut i: usize = 0;
    while i < n
        invariant
            n == name@.len(),
            i <= n,
            forall|j: int| 0 <= j < i ==> name@[j] != '\0',
        decreases n - i,
    {
        if name.get_char(i) == '\0' {
            assert(name@[i as int] == '\0');
            return Err(FfiError::InvalidCString);
        }
        i = i + 1;
    }
    let mut bytes = name.as_bytes_vec();
    bytes.push(0);
    Ok(bytes)
}

/// What resolving a symbol comes to: its address, or why there is none. A
/// name that is no symbol name is refused before the library is asked, and a
/// symbol that the library does not hold is not found.
pub open spec fn spec_resolved(name: Seq<char>, address: Option<usize>) -> Result<usize, FfiError> {
    if name.contains('\0') {
        Err(FfiError::InvalidCString)
    } else {
        match address {
            Some(a) => Ok(a),
            None => Err(FfiError::SymbolNotFound),
        }
    }
}

/// A loaded native library: its path. The handle of the loaded library is
/// kept by the host.
#[derive(Debug)]
pub struct NativeLibrary {
    path: String,
}

impl NativeLibrary {
    pub closed spec fn spec_path(&self) -> Seq<char> {
        self.path@
    }

    /// The library at `path`, where the loader could load it.
    pub fn open(path: &str, loaded: bool) -> (r: Result<Self, FfiError>)
        ensures
            match r {
                Ok(lib) => loaded && lib.spec_path() == path@,
                Err(e) => !loaded && e == FfiError::LoadError,
            },
    {
        if loaded {
            Ok(NativeLibrary { path: path.to_owned() })
        } else {
            Err(FfiError::LoadError)
        }
    }

    pub fn path(&self) -> (r: &str)
        ensures
            r@ == self.spec_path(),
    {
        self.path.as_str()
    }

    /// The address of the symbol `name`, of which the loader gave `address`.
    pub fn get_symbol_ptr(&self, name: &str, address: Option<usize>) -> (r: Result<
        usize,
        FfiError,
    >)
        ensures
            r == spec_resolved(name@, address),
    {
        match symbol_name(name) {
            Err(e) => Err(e),
            Ok(_) => match address {
                Some(a) => Ok(a),
                None => Err(FfiError::SymbolNotFound),
            },
        }
    }

    /// Whether the library holds the symbol `name`.
    pub fn has_symbol(&self, name: &str, address: Option<usize>) -> (r: bool)
        ensures
            r == spec_resolved(name@, address) is Ok,
    {
        self.get_symbol_ptr(name, address).is_ok()
    }

    /// Lists the names that the library exports, from what the parser found
    /// in its file.
    pub fn list_exports(&self, object: &ParsedObject) -> (r: Result<Vec<ExportInfo>, FfiError>)
        ensures
            match r {
                Ok(exports) => spec_list_exports(object@) == Ok::<Seq<ExportInfoModel>, FfiError>(
                    spec_export_views(exports@),
                ),
                Err(e) => spec_list_exports(object@) == Err::<Seq<ExportInfoModel>, FfiError>(e),
            },
    {
        list_exports(object)
    }

    /// Prepares a call of the symbol `name` with the given signature and
    /// arguments.
    pub fn call(
        &self,
        name: &str,
        address: Option<usize>,
        ret_type: CType,
        arg_types: &Vec<CType>,
        args: &Vec<HostValue>,
    ) -> (r: Result<PendingCall, FfiError>)
        ensures
            spec_prepared(spec_resolved(name@, address), ret_type, arg_types@, args@, r),
    {
        match self.get_symbol_ptr(name, address) {
            Err(e) => Err(e),
            Ok(fn_ptr) => dynamic_call(fn_ptr, ret_type, arg_types, args),
        }
    }

    /// Prepares a call of a function without arguments that gives a 32-bit
    /// integer.
    pub fn call_int(&self, name: &str, address: Option<usize>) -> (r: Result<
        PendingCall,
        FfiError,
    >)
        ensures
            spec_prepared(
                spec_resolved(name@, address),
                CType::I32,
                Seq::empty(),
                Seq::empty(),
                r,
            ),
    {
        let arg_types: Vec<CType> = Vec::new();
        let args: Vec<HostValue> = Vec::new();
        self.call(name, address, CType::I32, &arg_types, &args)
    }

    /// Prepares a call of a function of one 32-bit integer that gives a
    /// 32-bit integer.
    pub fn call_int_arg(&self, name: &str, address: Option<usize>, arg: i64) -> (r: Result<
        PendingCall,
        FfiError,
    >)
        ensures
            spec_prepared(
                spec_resolved(name@, address),
                CType::I32,
                seq![CType::I32],
                seq![HostValue::Integer(arg)],
                r,
            ),
    {
        let mut arg_types: Vec<CType> = Vec::new();
        arg_types.push(CType::I32);
        let mut args: Vec<HostValue> = Vec::new();
        args.push(HostValue::Integer(arg));
        assert(arg_types@ =~= seq![CType::I32]);
        assert(args@ =~= seq![HostValue::Integer(arg)]);
        self.call(name, address, CType::I32, &arg_types, &args)
    }

    /// Prepares a call of a function without arguments that gives a double.
    pub fn call_double(&self, name: &str, address: Option<usize>) -> (r: Result<
        PendingCall,
        FfiError,
    >)
        ensures
            spec_prepared(
                spec_resolved(name@, address),
                CType::F64,
                Seq::empty(),
                Seq::empty(),
                r,
            ),
    {
        let arg_types: Vec<CType> = Vec::new();
        let args: Vec<HostValue> = Vec::new();
        self.call(name, address, CType::F64, &arg_types, &args)
    }

    /// Prepares a call of a function without arguments or result.
    pub fn call_void(&self, name: &str, address: Option<usize>) -> (r: Result<
        PendingCall,
        FfiError,
    >)
        ensures
            spec_prepared(
                spec_resolved(name@, address),
                CType::Void,
                Seq::empty(),
                Seq::empty(),
                r,
            ),
    {
        let arg_types: Vec<CType> = Vec::new();
        let args: Vec<HostValue> = Vec::new();
        self.call(name, address, CType::Void, &arg_types, &args)
    }

    /// Prepares a call of a function without arguments that gives a string.
    pub fn call_string(&self, name: &str, address: Option<usize>) -> (r: Result<
        PendingCall,
        FfiError,
    >)
        ensures
            spec_prepared(
                spec_resolved(name@, address),
                CType::CString,
                Seq::empty(),
                Seq::empty(),
                r,
            ),
    {
        let arg_types: Vec<CType> = Vec::new();
        let args: Vec<HostValue> = Vec::new();
        self.call(name, address, CType::CString, &arg_types, &args)
    }
}

/// What preparing a call of a resolved symbol gives as `r`: the failure to
/// resolve it, or the call of the function at its address that `dynamic_call`
/// prepares.
pub open spec fn spec_prepared(
    resolved: Result<usize, FfiError>,
    ret_type: CType,
    arg_types: Seq<CType>,
    args: Seq<HostValue>,
    r: Result<PendingCall, FfiError>,
) -> bool {
    match resolved {
        Err(e) => r is Err && r->Err_0 == e,
        Ok(fn_ptr) => match r {
            Ok(call) => {
                &&& call.fn_ptr == fn_ptr
                &&& call.interface.spec_built_from(arg_types, ret_type)
                &&& spec_dynamic_call(arg_types, spec_value_views(args)) == Ok::<
                    Seq<ArgValueModel>,
                    FfiError,
                >(spec_arg_views(call.args@))
            },
            Err(e) => spec_dynamic_call(arg_types, spec_value_views(args)) == Err::<
                Seq<ArgValueModel>,
                FfiError,
            >(e),
        },
    }
}

/// What binding a symbol comes to: the address of the function, or why it
/// cannot be bound. The symbol is resolved first, then the signature is
/// checked.
pub open spec fn spec_bound(name: Seq<char>, address: Option<usize>, arg_types: Seq<CType>) -> Result<
    usize,
    FfiError,
> {
    match spec_resolved(name, address) {
        Err(e) => Err(e),
        Ok(fn_ptr) => if spec_supported(arg_types) {
            Ok(fn_ptr)
        } else {
            Err(FfiError::UnsupportedSignature)
        },
    }
}

/// A function of a library bound to a signature: its address and the
/// interface built for the signature.
#[derive(Debug)]
pub struct BoundFunction {
    fn_ptr: usize,
    interface: CallInterface,
}

impl BoundFunction {
    pub closed spec fn spec_fn_ptr(&self) -> usize {
        self.fn_ptr
    }

    pub closed spec fn spec_interface(&self) -> CallInterface {
        self.interface
    }

    /// Binds the symbol `name`, of which the loader gave `address`, to a
    /// signature.
    pub fn new(name: &str, address: Option<usize>, ret_type: CType, arg_types: &Vec<CType>) -> (r:
        Result<Self, FfiError>)
        ensures
            match r {
                Ok(f) => spec_bound(name@, address, arg_types@) == Ok::<usize, FfiError>(
                    f.spec_fn_ptr(),
                ) && f.spec_interface().spec_built_from(arg_types@, ret_type),
                Err(e) => spec_bound(name@, address, arg_types@) == Err::<usize, FfiError>(e),
            },
    {
        match symbol_name(name) {
            Err(e) => Err(e),
            Ok(_) => match address {
                None => Err(FfiError::SymbolNotFound),
                Some(fn_ptr) => match CallInterface::new(arg_types, ret_type) {
                    Ok(interface) => Ok(BoundFunction { fn_ptr, interface }),
                    Err(e) => Err(e),
                },
            },
        }
    }

    pub fn fn_ptr(&self) -> (r: usize)
        ensures
            r == self.spec_fn_ptr(),
    {
        self.fn_ptr
    }

    pub fn interface(&self) -> (r: &CallInterface)
        ensures
            *r == self.spec_interface(),
    {
        &self.interface
    }

    /// Prepares a call of the function with the given arguments.
    pub fn call(&self, args: &Vec<HostValue>) -> (r: Result<PendingCall, FfiError>)
        ensures
            match r {
                Ok(call) => {
                    &&& call.fn_ptr == self.spec_fn_ptr()
                    &&& call.interface.spec_built_from(
                        self.spec_interface().spec_arg_types(),
                        self.spec_interface().spec_ret_type(),
                    )
                    &&& spec_call(
                        self.spec_interface().spec_arg_types(),
                        spec_value_views(args@),
                    ) == Ok::<Seq<ArgValueModel>, FfiError>(spec_arg_views(call.args@))
                },
                Err(e) => spec_call(
                    self.spec_interface().spec_arg_types(),
                    spec_value_views(args@),
                ) == Err::<Seq<ArgValueModel>, FfiError>(e),
            },
    {
        self.interface.call(self.fn_ptr, args)
    }
}

} // verus!
