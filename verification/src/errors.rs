//! The ways an operation can fail.

use vstd::prelude::*;

verus! {

/// Failure kinds. Every fallible operation returns one of these; none aborts.
#[derive(Debug, Clone, Copy, PartialEq, Eq, Structural)]
pub enum FfiError {
    /// A zero-sized or zero-count allocation was requested.
    InvalidSize,
    /// An alignment that is not a power of two was requested.
    InvalidAlignment,
    /// The allocation could not be placed in the address space.
    OutOfMemory,
    /// A scratch allocation does not fit in the remaining capacity.
    ArenaExhausted,
    /// A read or write went through the null address.
    NullDereference,
    /// An offset leaves the known size of a region or the mapped memory.
    OutOfBounds,
    /// An element index is not below a known element count.
    IndexOutOfBounds,
    /// The shape of a host value does not fit the requested type.
    TypeMismatch,
    /// A type name that no descriptor goes by.
    UnknownType,
    /// A field name that the layout does not hold.
    UnknownField,
    /// A signature that the call layer cannot represent.
    UnsupportedSignature,
    /// The number of arguments differs from what the interface expects.
    ArgumentCountMismatch,
    /// A string with an embedded zero byte where a C string is required.
    InvalidCString,
    /// The library holds no symbol of the requested name.
    SymbolNotFound,
    /// The library could not be loaded.
    LoadError,
    /// The binary is in a format whose exports cannot be listed.
    UnsupportedBinaryFormat,
}

impl FfiError {
    /// The message for the failure.
    pub open spec fn spec_message(self) -> Seq<char> {
        match self {
            FfiError::InvalidSize => "cannot allocate zero bytes or zero elements"@,
            FfiError::InvalidAlignment => "alignment must be a power of two"@,
            FfiError::OutOfMemory => "allocation failed: out of memory"@,
            FfiError::ArenaExhausted => "scratch arena exhausted"@,
            FfiError::NullDereference => "access through a null pointer"@,
            FfiError::OutOfBounds => "access out of bounds"@,
            FfiError::IndexOutOfBounds => "index out of bounds"@,
            FfiError::TypeMismatch => "value does not match the requested type"@,
            FfiError::UnknownType => "unknown type name"@,
            FfiError::UnknownField => "unknown field"@,
            FfiError::UnsupportedSignature => "unsupported signature"@,
            FfiError::ArgumentCountMismatch => "argument count mismatch"@,
            FfiError::InvalidCString => "string contains a zero byte"@,
            FfiError::SymbolNotFound => "symbol not found"@,
            FfiError::LoadError => "failed to load library"@,
            FfiError::UnsupportedBinaryFormat => "unsupported binary format"@,
        }
    }

    /// A short human-readable message for the failure.
    pub fn message(&self) -> (r: &'static str)
        ensures
            r@ == self.spec_message(),
    {
        match self {
            FfiError::InvalidSize => "cannot allocate zero bytes or zero elements",
            FfiError::InvalidAlignment => "alignment must be a power of two",
            FfiError::OutOfMemory => "allocation failed: out of memory",
            FfiError::ArenaExhausted => "scratch arena exhausted",
            FfiError::NullDereference => "access through a null pointer",
            FfiError::OutOfBounds => "access out of bounds",
            FfiError::IndexOutOfBounds => "index out of bounds",
            FfiError::TypeMismatch => "value does not match the requested type",
            FfiError::UnknownType => "unknown type name",
            FfiError::UnknownField => "unknown field",
            FfiError::UnsupportedSignature => "unsupported signature",
            FfiError::ArgumentCountMismatch => "argument count mismatch",
            FfiError::InvalidCString => "string contains a zero byte",
            FfiError::SymbolNotFound => "symbol not found",
            FfiError::LoadError => "failed to load library",
            FfiError::UnsupportedBinaryFormat => "unsupported binary format",
        }
    }
}

/// Why a value was refused by one of the validated types.
#[derive(Debug)]
pub enum ValidationError {
    InvalidUrl(String),
    InvalidPackageName(String),
    InvalidVersion(String),
    InvalidPath(String),
    InvalidPort(u16),
    EmptyValue { field: String },
}

/// A validation failure as contracts speak of it.
pub enum ValidationErrorModel {
    InvalidUrl(Seq<char>),
    InvalidPackageName(Seq<char>),
    InvalidVersion(Seq<char>),
    InvalidPath(Seq<char>),
    InvalidPort(u16),
    EmptyValue { field: Seq<char> },
}

impl View for ValidationError {
    type V = ValidationErrorModel;

    open spec fn view(&self) -> ValidationErrorModel {
        match self {
            ValidationError::InvalidUrl(s) => ValidationErrorModel::InvalidUrl(s@),
            ValidationError::InvalidPackageName(s) => ValidationErrorModel::InvalidPackageName(s@),
            ValidationError::InvalidVersion(s) => ValidationErrorModel::InvalidVersion(s@),
            ValidationError::InvalidPath(s) => ValidationErrorModel::InvalidPath(s@),
            ValidationError::InvalidPort(p) => ValidationErrorModel::InvalidPort(*p),
            ValidationError::EmptyValue { field } => ValidationErrorModel::EmptyValue {
                field: field@,
            },
        }
    }
}

/// Failures of the network: UDP, TCP and HTTP. A failure of the system is
/// kept as its message.
#[derive(Debug)]
pub enum NetworkError {
    BindFailed { address: String, source: String },
    ConnectionRefused { host: String, port: u16 },
    ConnectionReset,
    DnsResolutionFailed { domain: String },
    Timeout { duration_ms: u64 },
    SendFailed { source: String },
    ReceiveFailed { source: String },
    InvalidAddress(String),
    HttpError { status: u16, message: String },
    TlsError(String),
}

/// Failures of a package installation.
#[derive(Debug)]
pub enum InstallError {
    PackageNotFound { name: String },
    VersionMismatch { version: String, constraint: String },
    NoCompatibleVersion { package: String, constraint: String },
    GitCloneFailed { url: String, message: String },
    InvalidConfig { path: String, reason: String },
    RegistryFetchFailed(String),
    ChecksumMismatch { package: String, expected: String, actual: String },
    TransactionRollback { reason: String },
    Io(String),
}

/// Failures of a database.
#[derive(Debug)]
pub enum DatabaseError {
    QueryFailed(String),
    ConnectionFailed(String),
    PoolExhausted,
    TransactionFailed(String),
    ParameterMismatch { expected: usize, actual: usize },
    TypeConversion { from_type: String, to_type: String },
    Sqlite(String),
}

} // verus!
