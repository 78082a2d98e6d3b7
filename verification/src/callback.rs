//! Callbacks: host functions that native code can call. The trampoline
//! turns the native arguments into host values, and the first result of the
//! host function into the bytes of the native return slot.
//!
//! A failure of the host function cannot travel through native code: the
//! call is then abandoned, nothing is written to the return slot, which
//! keeps the zeroes it was handed over with, and the host reports the
//! failure on its own channel.

use vstd::prelude::*;
use vstd::utf8::valid_utf8;
use crate::caller::{spec_supported, CallInterface, MAX_ARGUMENTS};
use crate::codec::{
    decode_value, lemma_round_trip, low_bytes, spec_decode, spec_encode, spec_is_integer,
    spec_representable,
};
use crate::endian::{le_bytes, low_bits, spec_le_bytes, spec_low};
use crate::errors::FfiError;
use crate::ieee::{
    double_to_single, double_to_u64, spec_double_to_single, spec_double_to_u64,
};
use crate::memory::Memory;
use crate::types::CType;
use crate::value::{HostValue, HostValueModel};

verus! {

/// `core::str::from_utf8` of std: a run of bytes is taken as a string exactly
/// when it is well-formed UTF-8.
#[verifier::external_body]
fn is_utf8(bytes: &[u8]) -> (r: bool)
    ensures
        r == valid_utf8(bytes@),
{
    core::str::from_utf8(bytes).is_ok()
}

/// The host value of a native argument of type `tag` whose value lies in the
/// low bytes of `raw`.
///
/// Numbers and booleans are what their bytes stand for. A pointer is an
/// address, null included. A string is nil where the pointer is null, where
/// no zero-terminated string is mapped at the address, and where its bytes
/// are not well-formed UTF-8.
pub open spec fn spec_trampoline_arg(mem: &Memory, tag: CType, raw: u64) -> HostValueModel {
    match tag {
        CType::Pointer => HostValueModel::Address(raw as usize),
        CType::CString => if raw == 0 {
            HostValueModel::Nil
        } else {
            match mem.spec_c_string(raw as usize as int) {
                Some(s) => if valid_utf8(s) {
                    HostValueModel::String(s)
                } else {
                    HostValueModel::Nil
                },
                None => HostValueModel::Nil,
            }
        },
        _ => spec_decode(tag, spec_le_bytes(raw as nat, tag.spec_size())),
    }
}

/// Turns one native argument into a host value.
pub fn trampoline_arg(mem: &Memory, tag: CType, raw: u64) -> (r: HostValue)
    requires
        mem.wf(),
    ensures
        r@ == spec_trampoline_arg(mem, tag, raw),
{
    match tag {
        CType::Pointer => HostValue::Address(
            #[verifier::truncate]
            (raw as usize),
        ),
        CType::CString => {
            if raw == 0 {
                HostValue::Nil
            } else {
                match mem.c_string_at(
                    #[verifier::truncate]
                    (raw as usize),
                ) {
                    Some(s) => {
                        if is_utf8(s.as_slice()) {
                            HostValue::String(s)
                        } else {
                            HostValue::Nil
                        }
                    },
                    None => HostValue::Nil,
                }
            }
        },
        _ => {
            let slot = low_bytes(raw, tag.size());
            decode_value(tag, slot.as_slice())
        },
    }
}

/// The bytes that the first result `first` of the host function leaves in a
/// return slot of type `tag`.
///
/// Nothing is written for `Void`. A result of the wrong kind counts as
/// zero: an integer slot takes an integer, a `U64`, `USize`, `F32` or `F64`
/// slot a number, a `Bool` slot a boolean, and a pointer slot an address. A
/// string cannot be handed back: a string slot is always null.
pub open spec fn spec_trampoline_result(tag: CType, first: HostValueModel) -> Seq<u8> {
    let integer: int = match first {
        HostValueModel::Integer(i) => i as int,
        _ => 0,
    };
    let number: Option<u64> = match first {
        HostValueModel::Number(n) => Some(n),
        _ => None,
    };
    if tag == CType::Void {
        Seq::empty()
    } else if tag == CType::Bool {
        seq![if first == HostValueModel::Boolean(true) {
            1u8
        } else {
            0u8
        }]
    } else if spec_is_integer(tag) {
        spec_le_bytes(spec_low(integer, tag.spec_size()), tag.spec_size())
    } else if tag == CType::Pointer {
        spec_le_bytes(
            match first {
                HostValueModel::Address(a) => a as nat,
                _ => 0,
            },
            8,
        )
    } else if tag == CType::CString {
        spec_le_bytes(0, 8)
    } else if tag == CType::F64 {
        spec_le_bytes(
            match number {
                Some(n) => n as nat,
                None => 0,
            },
            8,
        )
    } else if tag == CType::F32 {
        spec_le_bytes(
            match number {
                Some(n) => spec_double_to_single(n) as nat,
                None => 0,
            },
            4,
        )
    } else {
        spec_le_bytes(
            match number {
                Some(n) => spec_double_to_u64(n) as nat,
                None => 0,
            },
            8,
        )
    }
}

/// The bytes to write to the return slot for the first result of the host
/// function.
pub fn trampoline_result(tag: CType, first: &HostValue) -> (r: Vec<u8>)
    ensures
        r@ == spec_trampoline_result(tag, first@),
        r@.len() == tag.spec_size(),
{
    let integer: i64 = match first {
        HostValue::Integer(i) => *i,
        _ => 0,
    };
    let number: Option<u64> = match first {
        HostValue::Number(n) => Some(*n),
        _ => None,
    };
    match tag {
        CType::Void => Vec::new(),
        CType::Bool => {
            let b: u8 = match first {
                HostValue::Boolean(true) => 1,
                _ => 0,
            };
            let mut out: Vec<u8> = Vec::new();
            out.push(b);
            assert(out@ =~= seq![b]);
            out
        },
        CType::Pointer => le_bytes(
            match first {
                HostValue::Address(a) => *a as u64,
                _ => 0,
            },
            8,
        ),
        CType::CString => le_bytes(0, 8),
        CType::F64 => le_bytes(
            match number {
                Some(n) => n,
                None => 0,
            },
            8,
        ),
        CType::F32 => le_bytes(
            match number {
                Some(n) => double_to_single(n) as u64,
                None => 0,
            },
            4,
        ),
        CType::U64 | CType::USize => le_bytes(
            match number {
                Some(n) => double_to_u64(n),
                None => 0,
            },
            8,
        ),
        _ => le_bytes(low_bits(integer, tag.size()), tag.size()),
    }
}

/// What a callback keeps for the trampoline: the key under which the host
/// retains the function, and the signature.
#[derive(Debug)]
pub struct CallbackData {
    pub func_key: u64,
    pub arg_types: Vec<CType>,
    pub ret_type: CType,
}

/// The host values of the native arguments `raws`, one for each argument
/// type in order.
pub open spec fn spec_callback_args(mem: &Memory, arg_types: Seq<CType>, raws: Seq<u64>) -> Seq<
    HostValueModel,
> {
    Seq::new(arg_types.len(), |i: int| spec_trampoline_arg(mem, arg_types[i], raws[i]))
}

/// What one run of the trampoline writes to the return slot: nothing where
/// the host function failed, and otherwise the bytes for its first result,
/// nil standing in where it gave none. Further results are ignored.
pub open spec fn spec_callback_return(ret_type: CType, outcome: Option<Seq<HostValueModel>>) -> Option<
    Seq<u8>,
> {
    match outcome {
        None => None,
        Some(values) => Some(
            spec_trampoline_result(
                ret_type,
                if values.len() > 0 {
                    values[0]
                } else {
                    HostValueModel::Nil
                },
            ),
        ),
    }
}

/// A host function made callable from native code: the address of the
/// native closure and of its code, and what the trampoline needs.
///
/// The closure is made by the host once the signature has been accepted
/// here, and bound with `bind`, once. It is released exactly once.
#[derive(Debug)]
pub struct FfiCallback {
    closure: usize,
    code_ptr: usize,
    data: CallbackData,
    ret_type: CType,
    arg_count: usize,
}

impl FfiCallback {
    pub closed spec fn spec_closure(&self) -> usize {
        self.closure
    }

    pub closed spec fn spec_code_ptr(&self) -> usize {
        self.code_ptr
    }

    pub closed spec fn spec_func_key(&self) -> u64 {
        self.data.func_key
    }

    pub closed spec fn spec_arg_types(&self) -> Seq<CType> {
        self.data.arg_types@
    }

    pub closed spec fn spec_ret_type(&self) -> CType {
        self.ret_type
    }

    /// The invariant of the type: the signature can be called, code is known
    /// only together with a closure, and the signature is kept consistently.
    pub closed spec fn wf(&self) -> bool {
        &&& spec_supported(self.data.arg_types@)
        &&& self.arg_count == self.data.arg_types@.len()
        &&& self.data.ret_type == self.ret_type
        &&& (self.closure == 0 ==> self.code_ptr == 0)
    }

    /// A callback for the host function kept under `func_key`, not yet bound
    /// to a closure. More than 16 arguments, or an argument of type `Void`,
    /// are an unsupported signature.
    pub fn new(func_key: u64, ret_type: CType, arg_types: Vec<CType>) -> (r: Result<
        Self,
        FfiError,
    >)
        ensures
            match r {
                Ok(cb) => {
                    &&& spec_supported(arg_types@)
                    &&& cb.wf()
                    &&& cb.spec_func_key() == func_key
                    &&& cb.spec_ret_type() == ret_type
                    &&& cb.spec_arg_types() == arg_types@
                    &&& cb.spec_closure() == 0
                    &&& cb.spec_code_ptr() == 0
                },
                Err(e) => !spec_supported(arg_types@) && e == FfiError::UnsupportedSignature,
            },
    {
        match CallInterface::new(&arg_types, ret_type) {
            Err(e) => Err(e),
            Ok(_) => {
                let arg_count = arg_types.len();
                Ok(
                    FfiCallback {
                        closure: 0,
                        code_ptr: 0,
                        data: CallbackData { func_key, arg_types, ret_type },
                        ret_type,
                        arg_count,
                    },
                )
            },
        }
    }

    /// Binds the callback, which is bound to none yet, to the native closure
    /// that the host has made for it. A null closure or null code means that
    /// none could be made, and the callback stays unbound.
    pub fn bind(&mut self, closure: usize, code_ptr: usize) -> (r: Result<(), FfiError>)
        requires
            old(self).wf(),
            old(self).spec_closure() == 0,
        ensures
            final(self).wf(),
            final(self).spec_func_key() == old(self).spec_func_key(),
            final(self).spec_ret_type() == old(self).spec_ret_type(),
            final(self).spec_arg_types() == old(self).spec_arg_types(),
            if closure == 0 || code_ptr == 0 {
                r == Err::<(), FfiError>(FfiError::OutOfMemory) && *final(self) == *old(self)
            } else {
                r == Ok::<(), FfiError>(()) && final(self).spec_closure() == closure && final(self).spec_code_ptr() == code_ptr
            },
    {
        if closure == 0 || code_ptr == 0 {
            return Err(FfiError::OutOfMemory);
        }
        self.closure = closure;
        self.code_ptr = code_ptr;
        Ok(())
    }

    /// The address that native code calls; null while no closure is bound.
    pub fn as_ptr(&self) -> (r: usize)
        ensures
            r == self.spec_code_ptr(),
    {
        self.code_ptr
    }

    /// Whether a closure is bound.
    pub fn is_valid(&self) -> (r: bool)
        ensures
            r == (self.spec_closure() != 0),
    {
        self.closure != 0
    }

    pub fn ret_type(&self) -> (r: CType)
        ensures
            r == self.spec_ret_type(),
    {
        self.ret_type
    }

    pub fn arg_count(&self) -> (r: usize)
        requires
            self.wf(),
        ensures
            r == self.spec_arg_types().len(),
            r <= MAX_ARGUMENTS,
    {
        self.arg_count
    }

    /// What the trampoline needs.
    pub fn data(&self) -> (r: &CallbackData)
        ensures
            r.func_key == self.spec_func_key(),
            r.arg_types@ == self.spec_arg_types(),
    {
        &self.data
    }

    /// Gives up the closure: the address to free, once. After that the
    /// callback is bound to none, and a second release gives nothing.
    pub fn release(&mut self) -> (r: Option<usize>)
        requires
            old(self).wf(),
        ensures
            final(self).wf(),
            final(self).spec_closure() == 0,
            final(self).spec_code_ptr() == 0,
            final(self).spec_func_key() == old(self).spec_func_key(),
            final(self).spec_ret_type() == old(self).spec_ret_type(),
            final(self).spec_arg_types() == old(self).spec_arg_types(),
            r == if old(self).spec_closure() != 0 {
                Some(old(self).spec_closure())
            } else {
                None
            },
    {
        let closure = self.closure;
        self.closure = 0;
        self.code_ptr = 0;
        if closure != 0 {
            Some(closure)
        } else {
            None
        }
    }

    /// The host values of the native arguments of one call. `raws` holds the
    /// arguments in order, each value in the low bytes of its entry; a call
    /// with another number of arguments than the signature has is refused.
    pub fn arguments(&self, mem: &Memory, raws: &Vec<u64>) -> (r: Result<Vec<HostValue>, FfiError>)
        requires
            self.wf(),
            mem.wf(),
        ensures
            match r {
                Ok(values) => raws@.len() == self.spec_arg_types().len() && crate::caller::spec_value_views(
                    values@,
                ) == spec_callback_args(mem, self.spec_arg_types(), raws@),
                Err(e) => raws@.len() != self.spec_arg_types().len() && e
                    == FfiError::ArgumentCountMismatch,
            },
    {
        callback_trampoline(mem, &self.data.arg_types, raws)
    }

    /// The bytes to write to the return slot after the host function has
    /// run: none where it failed.
    pub fn result(&self, outcome: Option<&Vec<HostValue>>) -> (r: Option<Vec<u8>>)
        ensures
            match outcome {
                None => r is None,
                Some(values) => r is Some && r->Some_0@ == spec_callback_return(
                    self.spec_ret_type(),
                    Some(crate::caller::spec_value_views(values@)),
                )->Some_0,
            },
    {
        callback_return(self.ret_type, outcome)
    }
}

/// The argument side of the trampoline: turns the native arguments of one
/// call into the host values that the host function is called with.
pub fn callback_trampoline(mem: &Memory, arg_types: &Vec<CType>, raws: &Vec<u64>) -> (r: Result<
    Vec<HostValue>,
    FfiError,
>)
    requires
        mem.wf(),
    ensures
        match r {
            Ok(values) => raws@.len() == arg_types@.len() && crate::caller::spec_value_views(
                values@,
            ) == spec_callback_args(mem, arg_types@, raws@),
            Err(e) => raws@.len() != arg_types@.len() && e == FfiError::ArgumentCountMismatch,
        },
{
    let n = arg_types.len();
    if raws.len() != n {
        return Err(FfiError::ArgumentCountMismatch);
    }
    let mut values: Vec<HostValue> = Vec::new();
    let mut i: usize = 0;
    while i < n
        invariant
            mem.wf(),
            n == arg_types@.len(),
            n == raws@.len(),
            i <= n,
            values@.len() == i,
            forall|j: int|
                0 <= j < i ==> (#[trigger] values@[j])@ == spec_trampoline_arg(
                    mem,
                    arg_types@[j],
                    raws@[j],
                ),
        decreases n - i,
    {
        values.push(trampoline_arg(mem, arg_types[i], raws[i]));
        i = i + 1;
    }
    assert(crate::caller::spec_value_views(values@) =~= spec_callback_args(
        mem,
        arg_types@,
        raws@,
    ));
    Ok(values)
}

/// The result side of the trampoline: the bytes to write to the return
/// slot, or none where the host function failed.
pub fn callback_return(ret_type: CType, outcome: Option<&Vec<HostValue>>) -> (r: Option<Vec<u8>>)
    ensures
        match outcome {
            None => r is None,
            Some(values) => r is Some && r->Some_0@ == spec_callback_return(
                ret_type,
                Some(crate::caller::spec_value_views(values@)),
            )->Some_0,
        },
{
    match outcome {
        None => None,
        Some(values) => {
            if values.len() > 0 {
                Some(trampoline_result(ret_type, &values[0]))
            } else {
                Some(trampoline_result(ret_type, &HostValue::Nil))
            }
        },
    }
}

/// Makes a callback for a host function: see `FfiCallback::new`.
pub fn create_callback(func_key: u64, ret_type: CType, arg_types: Vec<CType>) -> (r: Result<
    FfiCallback,
    FfiError,
>)
    ensures
        match r {
            Ok(cb) => {
                &&& spec_supported(arg_types@)
                &&& cb.wf()
                &&& cb.spec_func_key() == func_key
                &&& cb.spec_ret_type() == ret_type
                &&& cb.spec_arg_types() == arg_types@
                &&& cb.spec_closure() == 0
                &&& cb.spec_code_ptr() == 0
            },
            Err(e) => !spec_supported(arg_types@) && e == FfiError::UnsupportedSignature,
        },
{
    FfiCallback::new(func_key, ret_type, arg_types)
}

/// The trampoline is the inverse of the call: a value that a return slot
/// of type `tag` holds exactly is written to the slot as it is stored in
/// memory, so that the caller on the other side reads the same value.
pub proof fn lemma_result_is_stored_value(tag: CType, value: HostValueModel)
    requires
        spec_representable(tag, value),
    ensures
        spec_encode(tag, value) == Ok::<Seq<u8>, FfiError>(spec_trampoline_result(tag, value)),
        spec_decode(tag, spec_trampoline_result(tag, value)) == value,
{
    lemma_round_trip(tag, value);
}

/// A native argument whose bytes are those of a value that its type holds
/// exactly reaches the host function as that value.
pub proof fn lemma_argument_is_stored_value(
    mem: &Memory,
    tag: CType,
    raw: u64,
    value: HostValueModel,
)
    requires
        spec_representable(tag, value),
        spec_encode(tag, value) == Ok::<Seq<u8>, FfiError>(
            spec_le_bytes(raw as nat, tag.spec_size()),
        ),
    ensures
        spec_trampoline_arg(mem, tag, raw) == value,
{
    lemma_round_trip(tag, value);
    if tag == CType::Pointer {
        let a = value->Address_0;
        crate::endian::lemma_pow256();
        crate::endian::lemma_le_bytes(raw as nat, 8);
        crate::endian::lemma_le_bytes(a as nat, 8);
        vstd::arithmetic::div_mod::lemma_small_mod(raw as nat, 0x1_0000_0000_0000_0000);
        vstd::arithmetic::div_mod::lemma_small_mod(a as nat, 0x1_0000_0000_0000_0000);
        assert(raw == a);
    }
}

} // verus!
