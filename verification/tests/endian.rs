use lune_ffi::endian::{le_bytes, le_value, low_bits, sign_extend};

#[test]
fn bytes_come_least_significant_first() {
    assert_eq!(le_bytes(0x0102_0304_0506_0708, 8), vec![8, 7, 6, 5, 4, 3, 2, 1]);
    assert_eq!(le_bytes(0x0102_0304_0506_0708, 3), vec![8, 7, 6]);
    assert_eq!(le_bytes(0x1234, 0), Vec::<u8>::new());
    assert_eq!(le_bytes(u64::MAX, 8), u64::MAX.to_le_bytes().to_vec());
    assert_eq!(le_value(&[8, 7, 6, 5, 4, 3, 2, 1]), 0x0102_0304_0506_0708);
    assert_eq!(le_value(&[0xff, 0xff]), 0xffff);
    assert_eq!(le_value(&[]), 0);
    let mut x: u64 = 0x9e37_79b9_7f4a_7c15;
    for _ in 0..2000 {
        x ^= x << 13;
        x ^= x >> 7;
        x ^= x << 17;
        assert_eq!(le_bytes(x, 8), x.to_le_bytes().to_vec());
        assert_eq!(le_value(&x.to_le_bytes()), x);
        assert_eq!(le_bytes(x, 4), (x as u32).to_le_bytes().to_vec());
        assert_eq!(le_value(&x.to_le_bytes()[..2]), (x as u16) as u64);
    }
}

#[test]
fn low_bits_are_the_truncating_cast() {
    let mut values: Vec<i64> = vec![
        0,
        1,
        -1,
        127,
        128,
        -128,
        -129,
        255,
        256,
        65535,
        65536,
        -32768,
        -32769,
        i64::MAX,
        i64::MIN,
        i64::MIN + 1,
        u32::MAX as i64,
        u32::MAX as i64 + 1,
        i32::MIN as i64,
        i32::MIN as i64 - 1,
    ];
    let mut x: u64 = 0x2545_f491_4f6c_dd1d;
    for i in 0..4000 {
        x ^= x << 13;
        x ^= x >> 7;
        x ^= x << 17;
        values.push((x as i64) >> (i % 64));
    }
    for i in values {
        assert_eq!(low_bits(i, 1), (i as u8) as u64, "{}", i);
        assert_eq!(low_bits(i, 2), (i as u16) as u64, "{}", i);
        assert_eq!(low_bits(i, 4), (i as u32) as u64, "{}", i);
        assert_eq!(low_bits(i, 8), i as u64, "{}", i);
        assert_eq!(sign_extend(low_bits(i, 1), 1), (i as i8) as i64, "{}", i);
        assert_eq!(sign_extend(low_bits(i, 2), 2), (i as i16) as i64, "{}", i);
        assert_eq!(sign_extend(low_bits(i, 4), 4), (i as i32) as i64, "{}", i);
        assert_eq!(sign_extend(low_bits(i, 8), 8), i, "{}", i);
    }
}
