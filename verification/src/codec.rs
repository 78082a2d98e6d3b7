//! The native representation of values: which bytes a value of each type
//! is stored as, and which value a run of bytes stands for. Integers are
//! two's complement, floats IEEE-754, and every multi-byte value has its
//! least significant byte first.

use vstd::prelude::*;
use crate::endian::{
    le_bytes, le_value, lemma_le_bytes, lemma_le_value, lemma_pow256, low_bits, sign_extend,
    spec_le_bytes, spec_le_value, spec_low, spec_pow256, spec_sign_extend,
};
use crate::errors::FfiError;
use crate::ieee::{
    double_to_single, double_to_u64, single_to_double, spec_double_to_single,
    spec_double_to_u64, spec_single_to_double, spec_u64_to_double, u64_to_double,
};
use crate::types::CType;
use crate::value::{HostValue, HostValueModel};

verus! {

/// The types whose slots hold a signed integer.
pub open spec fn spec_is_signed(tag: CType) -> bool {
    tag == CType::I8 || tag == CType::I16 || tag == CType::I32 || tag == CType::I64 || tag
        == CType::ISize
}

/// The types whose slots hold an integer that is handed to the host as an
/// integer: the signed ones, and the unsigned ones of up to four bytes.
pub open spec fn spec_is_integer(tag: CType) -> bool {
    spec_is_signed(tag) || tag == CType::U8 || tag == CType::U16 || tag == CType::U32
}

/// The bytes that `value` is stored as in a slot of type `tag`, or the
/// mismatch where the value has no place in such a slot.
///
/// Nothing is stored for `Void`. A `Bool` slot takes the truth of any
/// value. An integer slot takes the value as an integer and keeps its low
/// bytes in two's complement. A `U64` or `USize` slot takes the value as a
/// number, rounded toward zero and held to the range. A float slot takes the
/// value as a number, `F32` as the nearest single. A pointer or string slot
/// takes an address.
pub open spec fn spec_encode(tag: CType, value: HostValueModel) -> Result<Seq<u8>, FfiError> {
    if tag == CType::Void {
        Ok(Seq::empty())
    } else if tag == CType::Bool {
        Ok(
            seq![if value.truthy() {
                1u8
            } else {
                0u8
            }],
        )
    } else if spec_is_integer(tag) {
        match value.as_integer() {
            Some(i) => Ok(spec_le_bytes(spec_low(i as int, tag.spec_size()), tag.spec_size())),
            None => Err(FfiError::TypeMismatch),
        }
    } else if tag == CType::Pointer || tag == CType::CString {
        match value.as_address() {
            Some(a) => Ok(spec_le_bytes(a as nat, 8)),
            None => Err(FfiError::TypeMismatch),
        }
    } else {
        match value.as_number() {
            Some(n) => Ok(
                if tag == CType::F64 {
                    spec_le_bytes(n as nat, 8)
                } else if tag == CType::F32 {
                    spec_le_bytes(spec_double_to_single(n) as nat, 4)
                } else {
                    spec_le_bytes(spec_double_to_u64(n) as nat, 8)
                },
            ),
            None => Err(FfiError::TypeMismatch),
        }
    }
}

/// The host value that the bytes of a slot of type `tag` stand for.
///
/// Signed integers are sign-extended and unsigned ones zero-extended to a
/// host integer; a `U64` or `USize` becomes the nearest number; a null
/// address becomes nil. For a string slot this is the address held in the
/// slot: the string itself lies elsewhere in memory.
pub open spec fn spec_decode(tag: CType, bytes: Seq<u8>) -> HostValueModel {
    let v = spec_le_value(bytes);
    if tag == CType::Void {
        HostValueModel::Nil
    } else if tag == CType::Bool {
        HostValueModel::Boolean(v != 0)
    } else if spec_is_signed(tag) {
        HostValueModel::Integer(spec_sign_extend(v as int, tag.spec_size()) as i64)
    } else if spec_is_integer(tag) {
        HostValueModel::Integer(v as i64)
    } else if tag == CType::Pointer || tag == CType::CString {
        if v == 0 {
            HostValueModel::Nil
        } else {
            HostValueModel::Address(v as usize)
        }
    } else if tag == CType::F64 {
        HostValueModel::Number(v as u64)
    } else if tag == CType::F32 {
        HostValueModel::Number(spec_single_to_double(v as u32))
    } else {
        HostValueModel::Number(spec_u64_to_double(v as u64))
    }
}

fn is_signed(tag: CType) -> (r: bool)
    ensures
        r == spec_is_signed(tag),
{
    match tag {
        CType::I8 | CType::I16 | CType::I32 | CType::I64 | CType::ISize => true,
        _ => false,
    }
}

fn is_integer(tag: CType) -> (r: bool)
    ensures
        r == spec_is_integer(tag),
{
    match tag {
        CType::I8 | CType::I16 | CType::I32 | CType::I64 | CType::ISize => true,
        CType::U8 | CType::U16 | CType::U32 => true,
        _ => false,
    }
}

/// The bytes to store for `value` in a slot of type `tag`.
pub fn encode_value(tag: CType, value: &HostValue) -> (r: Result<Vec<u8>, FfiError>)
    ensures
        match r {
            Ok(bytes) => spec_encode(tag, value@) == Ok::<Seq<u8>, FfiError>(bytes@) && bytes@.len()
                == tag.spec_size(),
            Err(e) => spec_encode(tag, value@) == Err::<Seq<u8>, FfiError>(e) && e
                == FfiError::TypeMismatch,
        },
{
    match tag {
        CType::Void => Ok(Vec::new()),
        CType::Bool => {
            let b: u8 = if value.truthy() {
                1
            } else {
                0
            };
            let mut out: Vec<u8> = Vec::new();
            out.push(b);
            assert(out@ =~= seq![b]);
            Ok(out)
        },
        CType::Pointer | CType::CString => match value.as_address() {
            Some(a) => Ok(le_bytes(a as u64, 8)),
            None => Err(FfiError::TypeMismatch),
        },
        CType::F64 => match value.as_number() {
            Some(n) => Ok(le_bytes(n, 8)),
            None => Err(FfiError::TypeMismatch),
        },
        CType::F32 => match value.as_number() {
            Some(n) => Ok(le_bytes(double_to_single(n) as u64, 4)),
            None => Err(FfiError::TypeMismatch),
        },
        CType::U64 | CType::USize => match value.as_number() {
            Some(n) => Ok(le_bytes(double_to_u64(n), 8)),
            None => Err(FfiError::TypeMismatch),
        },
        _ => match value.as_integer() {
            Some(i) => Ok(le_bytes(low_bits(i, tag.size()), tag.size())),
            None => Err(FfiError::TypeMismatch),
        },
    }
}

/// The host value that the bytes of a slot of type `tag` stand for.
pub fn decode_value(tag: CType, bytes: &[u8]) -> (r: HostValue)
    requires
        bytes@.len() == tag.spec_size(),
    ensures
        r@ == spec_decode(tag, bytes@),
{
    proof {
        lemma_pow256();
    }
    let v = le_value(bytes);
    match tag {
        CType::Void => HostValue::Nil,
        CType::Bool => HostValue::Boolean(v != 0),
        CType::Pointer | CType::CString => {
            if v == 0 {
                HostValue::Nil
            } else {
                HostValue::Address(
                    #[verifier::truncate]
                    (v as usize),
                )
            }
        },
        CType::F64 => HostValue::Number(v),
        CType::F32 => HostValue::Number(single_to_double(v as u32)),
        CType::U64 | CType::USize => HostValue::Number(u64_to_double(v)),
        CType::U8 | CType::U16 | CType::U32 => HostValue::Integer(v as i64),
        _ => HostValue::Integer(sign_extend(v, tag.size())),
    }
}

/// The first `size` bytes of `raw`, least significant first.
pub fn low_bytes(raw: u64, size: usize) -> (r: Vec<u8>)
    requires
        size <= 8,
    ensures
        r@ == spec_le_bytes(raw as nat, size as nat),
        r@.len() == size,
{
    le_bytes(raw, size)
}

/// Whether the double `n` is that of an unsigned integer of at most 53
/// bits: the integers that a double holds without rounding.
pub open spec fn is_whole_double(n: u64) -> bool {
    exists|k: u64| k <= 0x0020_0000_0000_0000 && n == #[trigger] spec_u64_to_double(k)
}

/// Whether the double `n` is that of some single, signalling NaNs left out.
pub open spec fn is_single_double(n: u64) -> bool {
    exists|s: u32|
        (!crate::ieee::single_is_nan(s) || crate::ieee::single_is_quiet_nan(s)) && n
            == #[trigger] spec_single_to_double(s)
}

/// Whether a slot of type `tag` holds `value` exactly: storing the value and
/// reading the slot gives the value back.
///
/// That is a boolean for `Bool`, an integer in the range of the type for
/// the integer types, a number for the float types (for `F32` one that a
/// single holds), a whole number of at most 53 bits for `U64` and `USize`,
/// and an address other than null for `Pointer`. A string slot holds an
/// address and reads back as the string found there, so no value is held by
/// it exactly, and `Void` holds nothing.
pub open spec fn spec_representable(tag: CType, value: HostValueModel) -> bool {
    match value {
        HostValueModel::Boolean(_) => tag == CType::Bool,
        HostValueModel::Integer(i) => if spec_is_signed(tag) {
            -spec_pow256(tag.spec_size()) <= 2 * i < spec_pow256(tag.spec_size())
        } else {
            spec_is_integer(tag) && 0 <= i < spec_pow256(tag.spec_size())
        },
        HostValueModel::Number(n) => if tag == CType::U64 || tag == CType::USize {
            is_whole_double(n)
        } else if tag == CType::F32 {
            is_single_double(n)
        } else {
            tag == CType::F64
        },
        HostValueModel::Address(a) => tag == CType::Pointer && a != 0,
        _ => false,
    }
}

/// Round trip: a value that a slot holds exactly is read back as it was
/// stored.
pub proof fn lemma_round_trip(tag: CType, value: HostValueModel)
    requires
        spec_representable(tag, value),
    ensures
        spec_encode(tag, value) is Ok,
        spec_encode(tag, value)->Ok_0.len() == tag.spec_size(),
        spec_decode(tag, spec_encode(tag, value)->Ok_0) == value,
{
    lemma_pow256();
    let size = tag.spec_size();
    match value {
        HostValueModel::Boolean(b) => {
            let bytes = seq![if b {
                1u8
            } else {
                0u8
            }];
            assert(bytes.drop_first() =~= Seq::<u8>::empty());
            reveal_with_fuel(spec_le_value, 2);
        },
        HostValueModel::Integer(i) => {
            let low = spec_low(i as int, size);
            assert(size == 1 || size == 2 || size == 4 || size == 8);
            lemma_le_bytes(low, size);
            crate::endian::lemma_wrap_in_range(i as int, size);
            assert(0 <= low < spec_pow256(size));
            vstd::arithmetic::div_mod::lemma_small_mod(low, spec_pow256(size) as nat);
        },
        HostValueModel::Number(n) => {
            if tag == CType::U64 || tag == CType::USize {
                let k = choose|k: u64| k <= 0x0020_0000_0000_0000 && n == spec_u64_to_double(k);
                crate::ieee::lemma_u64_double_round_trip(k);
                lemma_le_bytes(k as nat, 8);
            } else if tag == CType::F32 {
                let s = choose|s: u32|
                    (!crate::ieee::single_is_nan(s) || crate::ieee::single_is_quiet_nan(s)) && n
                        == spec_single_to_double(s);
                crate::ieee::lemma_single_double_round_trip(s);
                lemma_le_bytes(s as nat, 4);
            } else {
                lemma_le_bytes(n as nat, 8);
            }
        },
        HostValueModel::Address(a) => {
            lemma_le_bytes(a as nat, 8);
        },
        _ => {},
    }
}

/// The bytes of a slot stand for one value only: two runs of bytes of the
/// size of the type that differ are kept apart by the numbers they stand for.
pub proof fn lemma_bytes_stand_for_one_number(a: Seq<u8>, b: Seq<u8>)
    requires
        a.len() == b.len(),
        spec_le_value(a) == spec_le_value(b),
    ensures
        a == b,
{
    lemma_le_value(a);
    lemma_le_value(b);
}

} // verus!
