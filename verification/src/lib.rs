//! A foreign-function marshalling engine: native type descriptors, byte
//! buffers, arenas, pointers, C struct layouts and the conversion rules
//! between host values and native storage. With it come the validated values
//! and the choice of a package version that the tools around it use.

pub mod errors;
pub mod types;
pub mod ieee;
pub mod align;
pub mod endian;
pub mod memory;
pub mod value;
pub mod codec;
pub mod pointer;
pub mod buffer;
pub mod arena;
pub mod scratch_arena;
pub mod struct_mapper;
pub mod caller;
pub mod smart_library;
pub mod callback;
pub mod library;
pub mod ops;
pub mod newtypes;
pub mod versions;
pub mod resolver;

pub use arena::Arena;
pub use buffer::Buffer;
pub use callback::FfiCallback;
pub use errors::FfiError;
pub use library::{BoundFunction, NativeLibrary};
pub use memory::Memory;
pub use pointer::{RawPointer, TypedPointer};
pub use scratch_arena::ScratchArena;
pub use smart_library::{SmartBoundFunction, SmartLibrary};
pub use struct_mapper::{StructDefinition, StructView};
pub use types::CType;
pub use value::HostValue;
