//! Host values: what the scripting side hands over and takes back.

use vstd::prelude::*;
use crate::ieee::{double_to_i64, i64_to_double, spec_double_to_i64, spec_i64_to_double};

verus! {

/// A value of the host. A number is carried as the bit pattern of its
/// double.
#[derive(Debug, Clone, PartialEq, Eq)]
pub enum HostValue {
    Nil,
    Boolean(bool),
    Integer(i64),
    Number(u64),
    String(Vec<u8>),
    /// A native address.
    Address(usize),
    /// A buffer of the host: where its bytes are, and how many.
    Buffer { addr: usize, len: usize },
    /// Any other value of the host, such as a table; only its identity is
    /// kept.
    Opaque(u64),
}

/// A host value as contracts speak of it, a string being its bytes.
pub enum HostValueModel {
    Nil,
    Boolean(bool),
    Integer(i64),
    Number(u64),
    String(Seq<u8>),
    Address(usize),
    Buffer { addr: usize, len: usize },
    Opaque(u64),
}

impl View for HostValue {
    type V = HostValueModel;

    open spec fn view(&self) -> HostValueModel {
        match self {
            HostValue::Nil => HostValueModel::Nil,
            HostValue::Boolean(b) => HostValueModel::Boolean(*b),
            HostValue::Integer(i) => HostValueModel::Integer(*i),
            HostValue::Number(n) => HostValueModel::Number(*n),
            HostValue::String(s) => HostValueModel::String(s@),
            HostValue::Address(a) => HostValueModel::Address(*a),
            HostValue::Buffer { addr, len } => HostValueModel::Buffer { addr: *addr, len: *len },
            HostValue::Opaque(h) => HostValueModel::Opaque(*h),
        }
    }
}

impl HostValueModel {
    /// The truth of a value: everything but nil and `false` counts as true.
    pub open spec fn truthy(self) -> bool {
        match self {
            HostValueModel::Nil => false,
            HostValueModel::Boolean(b) => b,
            _ => true,
        }
    }

    /// The value as a 64-bit integer: an integer as it is, a number rounded
    /// toward zero where the result is in range. Nothing else is an integer.
    pub open spec fn as_integer(self) -> Option<i64> {
        match self {
            HostValueModel::Integer(i) => Some(i),
            HostValueModel::Number(n) => spec_double_to_i64(n),
            _ => None,
        }
    }

    /// The value as a double: a number as it is, an integer as the nearest
    /// double. Nothing else is a number.
    pub open spec fn as_number(self) -> Option<u64> {
        match self {
            HostValueModel::Number(n) => Some(n),
            HostValueModel::Integer(i) => Some(spec_i64_to_double(i)),
            _ => None,
        }
    }

    /// The value as a native address. Only an address is one.
    pub open spec fn as_address(self) -> Option<usize> {
        match self {
            HostValueModel::Address(a) => Some(a),
            _ => None,
        }
    }
}

impl HostValue {
    pub fn truthy(&self) -> (r: bool)
        ensures
            r == self@.truthy(),
    {
        match self {
            HostValue::Nil => false,
            HostValue::Boolean(b) => *b,
            _ => true,
        }
    }

    pub fn as_integer(&self) -> (r: Option<i64>)
        ensures
            r == self@.as_integer(),
    {
        match self {
            HostValue::Integer(i) => Some(*i),
            HostValue::Number(n) => double_to_i64(*n),
            _ => None,
        }
    }

    pub fn as_number(&self) -> (r: Option<u64>)
        ensures
            r == self@.as_number(),
    {
        match self {
            HostValue::Number(n) => Some(*n),
            HostValue::Integer(i) => Some(i64_to_double(*i)),
            _ => None,
        }
    }

    pub fn as_address(&self) -> (r: Option<usize>)
        ensures
            r == self@.as_address(),
    {
        match self {
            HostValue::Address(a) => Some(*a),
            _ => None,
        }
    }
}

} // verus!
