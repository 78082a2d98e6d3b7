//! Integers as runs of bytes, least significant byte first, and the low
//! bytes of a signed integer in two's complement.

use vstd::prelude::*;

verus! {

/// 256 to the power `n`: the number of values that `n` bytes hold.
pub open spec fn spec_pow256(n: nat) -> int
    decreases n,
{
    if n == 0 {
        1
    } else {
        256 * spec_pow256((n - 1) as nat)
    }
}

/// The `n` low bytes of `x`, least significant first.
pub open spec fn spec_le_bytes(x: nat, n: nat) -> Seq<u8>
    decreases n,
{
    if n == 0 {
        Seq::empty()
    } else {
        seq![(x % 256) as u8] + spec_le_bytes(x / 256, (n - 1) as nat)
    }
}

/// The number that a run of bytes stands for, least significant byte first.
pub open spec fn spec_le_value(bytes: Seq<u8>) -> nat
    decreases bytes.len(),
{
    if bytes.len() == 0 {
        0
    } else {
        bytes[0] as nat + 256 * spec_le_value(bytes.drop_first())
    }
}

/// The `size` low bytes of the integer `i` in two's complement, as an
/// unsigned number: `i` itself where it fits and is not negative.
pub open spec fn spec_low(i: int, size: nat) -> nat {
    (i % spec_pow256(size)) as nat
}

/// The signed integer that the `size`-byte pattern `v` stands for in two's
/// complement: patterns in the upper half of the range stand for negative
/// numbers.
pub open spec fn spec_sign_extend(v: int, size: nat) -> int {
    if 2 * v >= spec_pow256(size) {
        v - spec_pow256(size)
    } else {
        v
    }
}

/// The integer `i` cut down to `size` bytes and read as a signed number.
pub open spec fn spec_wrap_signed(i: int, size: nat) -> int {
    spec_sign_extend(spec_low(i, size) as int, size)
}

/// The values of `spec_pow256` for the sizes that occur.
pub proof fn lemma_pow256()
    ensures
        spec_pow256(0) == 1,
        spec_pow256(1) == 0x100,
        spec_pow256(2) == 0x1_0000,
        spec_pow256(3) == 0x100_0000,
        spec_pow256(4) == 0x1_0000_0000,
        spec_pow256(5) == 0x100_0000_0000,
        spec_pow256(6) == 0x1_0000_0000_0000,
        spec_pow256(7) == 0x100_0000_0000_0000,
        spec_pow256(8) == 0x1_0000_0000_0000_0000,
{
    reveal_with_fuel(spec_pow256, 10);
}

/// `n` bytes come out, and they stand for a number below 256 to the `n`.
pub proof fn lemma_le_bytes(x: nat, n: nat)
    ensures
        spec_le_bytes(x, n).len() == n,
        spec_le_value(spec_le_bytes(x, n)) == x % (spec_pow256(n) as nat),
        spec_pow256(n) >= 1,
    decreases n,
{
    if n > 0 {
        lemma_le_bytes(x / 256, (n - 1) as nat);
        let rest = spec_le_bytes(x / 256, (n - 1) as nat);
        let all = seq![(x % 256) as u8] + rest;
        assert(all.drop_first() =~= rest);
        let p = spec_pow256((n - 1) as nat);
        vstd::arithmetic::div_mod::lemma_breakdown(x as int, 256, p);
    }
}

/// A run of bytes stands for a number below 256 to its length, and the low
/// bytes of that number are the run itself.
pub proof fn lemma_le_value(bytes: Seq<u8>)
    ensures
        spec_le_value(bytes) < spec_pow256(bytes.len()),
        spec_le_bytes(spec_le_value(bytes), bytes.len()) == bytes,
    decreases bytes.len(),
{
    if bytes.len() > 0 {
        let rest = bytes.drop_first();
        lemma_le_value(rest);
        let v = spec_le_value(rest);
        let x = bytes[0] as nat + 256 * v;
        assert(x % 256 == bytes[0] && x / 256 == v) by (nonlinear_arith)
            requires
                x == bytes[0] as nat + 256 * v,
                0 <= bytes[0] < 256,
        ;
        assert(spec_le_bytes(x, bytes.len()) =~= bytes);
    } else {
        assert(spec_le_bytes(0, 0) =~= bytes);
    }
}

/// The `n` low bytes of `x`, least significant first.
pub fn le_bytes(x: u64, n: usize) -> (r: Vec<u8>)
    requires
        n <= 8,
    ensures
        r@ == spec_le_bytes(x as nat, n as nat),
        r@.len() == n,
{
    let mut out: Vec<u8> = Vec::new();
    let mut rest: u64 = x;
    let mut k: usize = 0;
    assert(Seq::<u8>::empty() + spec_le_bytes(x as nat, n as nat) =~= spec_le_bytes(
        x as nat,
        n as nat,
    ));
    while k < n
        invariant
            k <= n,
            out@.len() == k,
            spec_le_bytes(x as nat, n as nat) == out@ + spec_le_bytes(rest as nat, (n - k) as nat),
        decreases n - k,
    {
        let b = (rest % 256) as u8;
        proof {
            let tail = spec_le_bytes((rest / 256) as nat, (n - k - 1) as nat);
            assert(out@.push(b) + tail =~= out@ + (seq![b] + tail));
        }
        out.push(b);
        rest = rest / 256;
        k = k + 1;
    }
    proof {
        assert(out@ + Seq::<u8>::empty() =~= out@);
    }
    out
}

/// The number that at most eight bytes stand for, least significant byte
/// first.
pub fn le_value(bytes: &[u8]) -> (r: u64)
    requires
        bytes@.len() <= 8,
    ensures
        r == spec_le_value(bytes@),
        r < spec_pow256(bytes@.len()),
{
    let n = bytes.len();
    let mut acc: u64 = 0;
    let mut k: usize = n;
    proof {
        lemma_pow256();
        assert(bytes@.subrange(n as int, n as int) =~= Seq::<u8>::empty());
    }
    while k > 0
        invariant
            n == bytes@.len(),
            n <= 8,
            k <= n,
            acc == spec_le_value(bytes@.subrange(k as int, n as int)),
            acc < spec_pow256((n - k) as nat),
        decreases k,
    {
        proof {
            lemma_pow256();
            let tail = bytes@.subrange(k - 1, n as int);
            assert(tail.drop_first() =~= bytes@.subrange(k as int, n as int));
            assert(tail[0] == bytes@[k - 1]);
            assert(spec_pow256((n - k + 1) as nat) == 256 * spec_pow256((n - k) as nat));
        }
        acc = bytes[k - 1] as u64 + 256 * acc;
        k = k - 1;
    }
    proof {
        assert(bytes@.subrange(0, n as int) =~= bytes@);
    }
    acc
}

/// The `size` low bytes of `i` in two's complement, as an unsigned number.
pub fn low_bits(i: i64, size: usize) -> (r: u64)
    requires
        size == 1 || size == 2 || size == 4 || size == 8,
    ensures
        r == spec_low(i as int, size as nat),
        r < spec_pow256(size as nat),
{
    proof {
        lemma_pow256();
    }
    let u: u64 = if i >= 0 {
        i as u64
    } else {
        u64::MAX - ((-(i + 1)) as u64)
    };
    assert(u == if i >= 0 {
        i as int
    } else {
        i + 0x1_0000_0000_0000_0000
    });
    if size == 1 {
        u % 0x100
    } else if size == 2 {
        u % 0x1_0000
    } else if size == 4 {
        u % 0x1_0000_0000
    } else {
        u
    }
}

/// The signed integer that the `size`-byte pattern `v` stands for.
pub fn sign_extend(v: u64, size: usize) -> (r: i64)
    requires
        size == 1 || size == 2 || size == 4 || size == 8,
        v < spec_pow256(size as nat),
    ensures
        r == spec_sign_extend(v as int, size as nat),
{
    proof {
        lemma_pow256();
    }
    if size == 1 {
        if v >= 0x80 {
            v as i64 - 0x100
        } else {
            v as i64
        }
    } else if size == 2 {
        if v >= 0x8000 {
            v as i64 - 0x1_0000
        } else {
            v as i64
        }
    } else if size == 4 {
        if v >= 0x8000_0000 {
            v as i64 - 0x1_0000_0000
        } else {
            v as i64
        }
    } else if v >= 0x8000_0000_0000_0000 {
        -((u64::MAX - v) as i64) - 1
    } else {
        v as i64
    }
}

/// Cutting an integer that fits down to its size changes nothing: a signed
/// integer in the range of `size` bytes comes back from its low bytes, and so
/// does a number that is not negative and below 256 to the `size`.
pub proof fn lemma_wrap_in_range(i: int, size: nat)
    requires
        size == 1 || size == 2 || size == 4 || size == 8,
    ensures
        -spec_pow256(size) <= 2 * i < spec_pow256(size) ==> spec_wrap_signed(i, size) == i,
        0 <= i < spec_pow256(size) ==> spec_low(i, size) == i,
{
    lemma_pow256();
}

} // verus!
