use lune_ffi::callback::{
    callback_return, callback_trampoline, create_callback, trampoline_arg, trampoline_result,
    FfiCallback,
};
use lune_ffi::errors::FfiError;
use lune_ffi::memory::Memory;
use lune_ffi::types::CType;
use lune_ffi::value::HostValue;

fn num(x: f64) -> HostValue {
    HostValue::Number(x.to_bits())
}

#[test]
fn doubling_callback() {
    let mem = Memory::new();
    let mut cb = create_callback(42, CType::F64, vec![CType::F64]).unwrap();
    assert!(!cb.is_valid());
    assert_eq!(cb.as_ptr(), 0);
    assert_eq!(cb.bind(0x9000, 0x9010), Ok(()));
    assert!(cb.is_valid());
    assert_eq!(cb.as_ptr(), 0x9010);
    assert_eq!(cb.data().func_key, 42);

    // Native code calls the code pointer with 21.0.
    let args = cb.arguments(&mem, &vec![21.0f64.to_bits()]).unwrap();
    assert_eq!(args, vec![num(21.0)]);
    // The host function doubles its input.
    let doubled = match args[0] {
        HostValue::Number(bits) => num(f64::from_bits(bits) * 2.0),
        _ => panic!(),
    };
    let slot = cb.result(Some(&vec![doubled])).unwrap();
    assert_eq!(f64::from_le_bytes(slot.try_into().unwrap()), 42.0);
}

#[test]
fn signature_of_a_callback() {
    assert_eq!(
        FfiCallback::new(1, CType::Void, vec![CType::I32; 17]).err(),
        Some(FfiError::UnsupportedSignature)
    );
    assert_eq!(
        FfiCallback::new(1, CType::Void, vec![CType::Void]).err(),
        Some(FfiError::UnsupportedSignature)
    );
    let cb = FfiCallback::new(1, CType::I16, vec![CType::I32; 16]).unwrap();
    assert_eq!(cb.arg_count(), 16);
    assert_eq!(cb.ret_type(), CType::I16);
    assert_eq!(cb.data().arg_types.len(), 16);
    assert_eq!(cb.data().ret_type, CType::I16);
}

#[test]
fn closure_is_bound_once_and_released_once() {
    let mut cb = FfiCallback::new(1, CType::Void, vec![]).unwrap();
    assert_eq!(cb.release(), None);
    assert_eq!(cb.bind(0, 0x10), Err(FfiError::OutOfMemory));
    assert_eq!(cb.bind(0x10, 0), Err(FfiError::OutOfMemory));
    assert!(!cb.is_valid());
    assert_eq!(cb.bind(0x10, 0x20), Ok(()));
    assert_eq!(cb.as_ptr(), 0x20);
    assert_eq!(cb.release(), Some(0x10));
    assert!(!cb.is_valid());
    assert_eq!(cb.as_ptr(), 0);
    assert_eq!(cb.release(), None);
}

#[test]
fn native_arguments_become_host_values() {
    let mut mem = Memory::new();
    assert!(mem.map_region(0x100, b"caf\xc3\xa9\0\xff\xfe\0open".to_vec()));
    let arg = |t: CType, raw: u64| trampoline_arg(&mem, t, raw);
    assert_eq!(arg(CType::Void, 5), HostValue::Nil);
    assert_eq!(arg(CType::Bool, 0), HostValue::Boolean(false));
    assert_eq!(arg(CType::Bool, 0xff), HostValue::Boolean(true));
    assert_eq!(arg(CType::I8, 0xff), HostValue::Integer(-1));
    assert_eq!(arg(CType::U8, 0xff), HostValue::Integer(255));
    assert_eq!(arg(CType::I16, 0x8000), HostValue::Integer(-32768));
    assert_eq!(arg(CType::U16, 0x8000), HostValue::Integer(32768));
    assert_eq!(arg(CType::I32, 0xffff_fff6), HostValue::Integer(-10));
    assert_eq!(arg(CType::U32, 0xffff_fff6), HostValue::Integer(4294967286));
    assert_eq!(arg(CType::I64, u64::MAX), HostValue::Integer(-1));
    assert_eq!(arg(CType::ISize, 3), HostValue::Integer(3));
    assert_eq!(arg(CType::U64, 1 << 63), num(9223372036854775808.0));
    assert_eq!(arg(CType::USize, 7), num(7.0));
    assert_eq!(arg(CType::F32, 1.25f32.to_bits() as u64), num(1.25));
    assert_eq!(arg(CType::F64, 1e-3f64.to_bits()), num(1e-3));
    // A pointer stays an address, null too.
    assert_eq!(arg(CType::Pointer, 0), HostValue::Address(0));
    assert_eq!(arg(CType::Pointer, 0x44), HostValue::Address(0x44));
    // A string is copied where it is well-formed text.
    assert_eq!(arg(CType::CString, 0), HostValue::Nil);
    assert_eq!(arg(CType::CString, 0x100), HostValue::String("caf\u{e9}".as_bytes().to_vec()));
    assert_eq!(arg(CType::CString, 0x105), HostValue::String(vec![]));
    assert_eq!(arg(CType::CString, 0x106), HostValue::Nil);
    assert_eq!(arg(CType::CString, 0x109), HostValue::Nil);
    assert_eq!(arg(CType::CString, 0x4000), HostValue::Nil);
}

#[test]
fn arguments_come_in_order_and_in_number() {
    let mem = Memory::new();
    let types = vec![CType::I8, CType::U8, CType::Pointer];
    assert_eq!(
        callback_trampoline(&mem, &types, &vec![0xff, 0xff, 8]),
        Ok(vec![HostValue::Integer(-1), HostValue::Integer(255), HostValue::Address(8)])
    );
    assert_eq!(
        callback_trampoline(&mem, &types, &vec![0xff, 0xff]),
        Err(FfiError::ArgumentCountMismatch)
    );
    assert_eq!(callback_trampoline(&mem, &vec![], &vec![]), Ok(vec![]));
}

#[test]
fn first_result_fills_the_return_slot() {
    let ret = |t: CType, v: HostValue| trampoline_result(t, &v);
    assert_eq!(ret(CType::Void, HostValue::Integer(1)), Vec::<u8>::new());
    assert_eq!(ret(CType::Bool, HostValue::Boolean(true)), vec![1]);
    assert_eq!(ret(CType::Bool, HostValue::Boolean(false)), vec![0]);
    assert_eq!(ret(CType::Bool, HostValue::Integer(1)), vec![0]);
    assert_eq!(ret(CType::I8, HostValue::Integer(-2)), vec![0xfe]);
    assert_eq!(ret(CType::U8, HostValue::Integer(257)), vec![1]);
    assert_eq!(ret(CType::I16, HostValue::Integer(-2)), vec![0xfe, 0xff]);
    assert_eq!(ret(CType::U16, HostValue::Integer(0x1234)), vec![0x34, 0x12]);
    assert_eq!(ret(CType::I32, HostValue::Integer(7)), vec![7, 0, 0, 0]);
    assert_eq!(ret(CType::U32, HostValue::Integer(-1)), vec![0xff; 4]);
    assert_eq!(ret(CType::I64, HostValue::Integer(-1)), vec![0xff; 8]);
    assert_eq!(ret(CType::ISize, HostValue::Integer(2)), vec![2, 0, 0, 0, 0, 0, 0, 0]);
    assert_eq!(ret(CType::U64, num(513.9)), vec![1, 2, 0, 0, 0, 0, 0, 0]);
    assert_eq!(ret(CType::USize, num(2.0)), vec![2, 0, 0, 0, 0, 0, 0, 0]);
    assert_eq!(ret(CType::F32, num(0.1)), 0.1f32.to_le_bytes().to_vec());
    assert_eq!(ret(CType::F64, num(0.1)), 0.1f64.to_le_bytes().to_vec());
    assert_eq!(ret(CType::Pointer, HostValue::Address(0x1122)), vec![0x22, 0x11, 0, 0, 0, 0, 0, 0]);
    assert_eq!(ret(CType::CString, HostValue::String(b"no".to_vec())), vec![0; 8]);
    assert_eq!(ret(CType::CString, HostValue::Address(5)), vec![0; 8]);
}

#[test]
fn results_of_the_wrong_kind_count_as_zero() {
    let ret = |t: CType, v: HostValue| trampoline_result(t, &v);
    assert_eq!(ret(CType::I32, num(7.0)), vec![0; 4]);
    assert_eq!(ret(CType::I32, HostValue::Nil), vec![0; 4]);
    assert_eq!(ret(CType::U64, HostValue::Integer(7)), vec![0; 8]);
    assert_eq!(ret(CType::F64, HostValue::Integer(7)), vec![0; 8]);
    assert_eq!(ret(CType::F32, HostValue::String(vec![1])), vec![0; 4]);
    assert_eq!(ret(CType::Pointer, HostValue::Nil), vec![0; 8]);
    assert_eq!(ret(CType::Pointer, HostValue::Integer(9)), vec![0; 8]);
}

#[test]
fn only_the_first_result_counts_and_failure_writes_nothing() {
    assert_eq!(callback_return(CType::I32, None), None);
    assert_eq!(callback_return(CType::Void, None), None);
    assert_eq!(
        callback_return(
            CType::I32,
            Some(&vec![HostValue::Integer(1), HostValue::Integer(2), HostValue::Integer(3)])
        ),
        Some(vec![1, 0, 0, 0])
    );
    assert_eq!(callback_return(CType::I32, Some(&vec![])), Some(vec![0; 4]));
    assert_eq!(callback_return(CType::Void, Some(&vec![HostValue::Integer(1)])), Some(vec![]));
    let cb = FfiCallback::new(1, CType::U8, vec![]).unwrap();
    assert_eq!(cb.result(None), None);
    assert_eq!(cb.result(Some(&vec![HostValue::Integer(300)])), Some(vec![44]));
}
