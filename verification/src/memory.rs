//! Integers in memory: the bytes that stand for a value, and the value that
//! bytes stand for.
use crate::integer::{
    int_from_bits, int_limit, lemma_pow2_wide, lemma_wrap_congruent, lemma_wrap_congruent_wide,
    lemma_wrap_fixes_domain, Int, IntType, Offset,
};
use vstd::arithmetic::div_mod::{
    lemma_fundamental_div_mod, lemma_mod_breakdown, lemma_mod_multiples_basic,
};
use vstd::arithmetic::power2::{
    lemma2_to64, lemma_pow2_adds, lemma_pow2_pos, lemma_pow2_strictly_increases, pow2,
};
use vstd::prelude::*;

verus! {

/// The order of the bytes of an integer in memory.
#[derive(Clone, Copy, Debug, PartialEq, Eq, Structural)]
pub enum Endianness {
    /// The least significant byte comes first.
    Little,
    /// The most significant byte comes first.
    Big,
}

/// The number that the bytes stand for, least significant byte first.
pub open spec fn le_value(bytes: Seq<u8>) -> nat
    decreases bytes.len(),
{
    if bytes.len() == 0 {
        0
    } else {
        bytes[0] as nat + 256 * le_value(bytes.skip(1))
    }
}

/// The number that the bytes stand for, most significant byte first.
pub open spec fn be_value(bytes: Seq<u8>) -> nat
    decreases bytes.len(),
{
    if bytes.len() == 0 {
        0
    } else {
        be_value(bytes.drop_last()) * 256 + bytes.last() as nat
    }
}

/// The number that the bytes stand for.
pub open spec fn bytes_value(bytes: Seq<u8>, endian: Endianness) -> nat {
    match endian {
        Endianness::Little => le_value(bytes),
        Endianness::Big => be_value(bytes),
    }
}

/// The `n` low bytes of `v`, least significant byte first.
pub open spec fn le_bytes(v: nat, n: nat) -> Seq<u8>
    decreases n,
{
    if n == 0 {
        Seq::empty()
    } else {
        seq![(v % 256) as u8] + le_bytes(v / 256, (n - 1) as nat)
    }
}

/// The `n` low bytes of `v`, most significant byte first.
pub open spec fn be_bytes(v: nat, n: nat) -> Seq<u8>
    decreases n,
{
    if n == 0 {
        Seq::empty()
    } else {
        be_bytes(v / 256, (n - 1) as nat).push((v % 256) as u8)
    }
}

/// The `n` low bytes of `v`.
pub open spec fn value_bytes(v: nat, n: nat, endian: Endianness) -> Seq<u8> {
    match endian {
        Endianness::Little => le_bytes(v, n),
        Endianness::Big => be_bytes(v, n),
    }
}

/// The integer of type `ty` that the bytes stand for.
pub open spec fn decode_int(bytes: Seq<u8>, ty: IntType, endian: Endianness) -> int {
    ty.wrap(bytes_value(bytes, endian) as int)
}

/// The bytes that stand for `v` at the type `ty`: the low bytes of its two's
/// complement pattern.
pub open spec fn encode_int(v: int, ty: IntType, endian: Endianness) -> Seq<u8> {
    value_bytes((v % int_limit()) as nat, ty.size.bytes as nat, endian)
}

/// `mem` with the bytes from `at` on replaced by `bytes`.
pub open spec fn splice(mem: Seq<u8>, at: int, bytes: Seq<u8>) -> Seq<u8> {
    mem.subrange(0, at) + bytes + mem.subrange(at + bytes.len(), mem.len() as int)
}

/// Whether an integer of type `ty` at `offset` lies within `len` bytes.
pub open spec fn readable(len: nat, offset: Offset, ty: IntType) -> bool {
    ty.wf() && offset.bytes + ty.size.bytes <= len
}

/// The bytes of the integer of type `ty` at `offset`.
pub open spec fn window(mem: Seq<u8>, offset: Offset, ty: IntType) -> Seq<u8> {
    mem.subrange(offset.bytes as int, offset.bytes + ty.size.bytes)
}

/// The `n` low bytes of a number are `n` bytes.
pub proof fn lemma_value_bytes_len(v: nat, n: nat, endian: Endianness)
    ensures
        value_bytes(v, n, endian).len() == n,
    decreases n,
{
    if n > 0 {
        lemma_value_bytes_len(v / 256, (n - 1) as nat, endian);
    }
}

/// The bytes of a number stand for the number, as far as they reach.
pub proof fn lemma_value_of_bytes(v: nat, n: nat, endian: Endianness)
    ensures
        bytes_value(value_bytes(v, n, endian), endian) == v % pow2(8 * n),
    decreases n,
{
    lemma2_to64();
    if n == 0 {
    } else {
        let m = (n - 1) as nat;
        lemma_value_of_bytes(v / 256, m, endian);
        lemma_value_bytes_len(v / 256, m, endian);
        lemma_pow2_pos(8 * m);
        lemma_pow2_adds(8, 8 * m);
        lemma_mod_breakdown(v as int, 256, pow2(8 * m) as int);
        match endian {
            Endianness::Little => {
                let s = le_bytes(v, n);
                assert(s.skip(1) =~= le_bytes(v / 256, m));
            },
            Endianness::Big => {
                let s = be_bytes(v, n);
                assert(s.drop_last() =~= be_bytes(v / 256, m));
            },
        }
    }
}

/// Writing a value of an integer type and reading the bytes again gives the
/// value back.
pub proof fn lemma_decode_encode(v: int, ty: IntType, endian: Endianness)
    requires
        ty.wf(),
        ty.contains(v),
    ensures
        encode_int(v, ty, endian).len() == ty.size.bytes,
        decode_int(encode_int(v, ty, endian), ty, endian) == v,
{
    let pattern = (v % int_limit()) as nat;
    let m = ty.modulus();
    lemma_pow2_pos(ty.bits());
    lemma_value_bytes_len(pattern, ty.size.bytes as nat, endian);
    lemma_value_of_bytes(pattern, ty.size.bytes as nat, endian);
    let low = (pattern % pow2(ty.bits())) as int;
    assert(ty.wrap(low) == ty.wrap(pattern as int)) by {
        lemma_fundamental_div_mod(pattern as int, m);
        lemma_mod_multiples_basic(-(pattern as int / m), m);
        assert(low - pattern == (-(pattern as int / m)) * m) by (nonlinear_arith)
            requires
                pattern == m * (pattern as int / m) + low,
        ;
        lemma_wrap_congruent(ty, low, pattern as int);
    }
    lemma_wrap_congruent_wide(ty, pattern as int, v);
    lemma_wrap_fixes_domain(ty, v);
}

/// One more byte keeps a number below the next power of 256, and within 128
/// bits as long as there are at most 16 bytes.
proof fn lemma_step_bound(acc: u128, k: nat)
    requires
        acc < pow2(k),
        k + 8 <= 128,
    ensures
        acc * 256 + 255 < pow2(k + 8) <= int_limit(),
{
    let p = pow2(k) as int;
    lemma2_to64();
    lemma_pow2_wide();
    lemma_pow2_adds(k, 8);
    if k + 8 < 128 {
        lemma_pow2_strictly_increases(k + 8, 128);
    }
    assert(acc * 256 + 255 < p * 256) by (nonlinear_arith)
        requires
            acc < p,
    ;
}

/// The number that `len` bytes from `start` on stand for.
pub fn read_bits(buf: &[u8], start: usize, len: usize, endian: Endianness) -> (r: u128)
    requires
        start + len <= buf@.len(),
        len <= 16,
    ensures
        r == bytes_value(buf@.subrange(start as int, start + len), endian),
{
    let ghost w = buf@.subrange(start as int, start + len);
    let total = buf.len();
    let mut acc: u128 = 0;
    proof {
        lemma2_to64();
        lemma_pow2_wide();
    }
    match endian {
        Endianness::Little => {
            let mut i: usize = len;
            assert(w.skip(len as int) =~= Seq::<u8>::empty());
            while i > 0
                invariant
                    i <= len <= 16,
                    start + len <= total == buf@.len(),
                    w == buf@.subrange(start as int, start + len),
                    acc == le_value(w.skip(i as int)),
                    acc < pow2((8 * (len - i)) as nat),
                decreases i,
            {
                proof {
                    let k = (8 * (len - i)) as nat;
                    lemma_step_bound(acc, k);
                    assert(w.skip(i - 1).skip(1) =~= w.skip(i as int));
                }
                i = i - 1;
                acc = acc * 256 + buf[start + i] as u128;
            }
            assert(w.skip(0) =~= w);
        },
        Endianness::Big => {
            let mut i: usize = 0;
            assert(w.take(0) =~= Seq::<u8>::empty());
            while i < len
                invariant
                    i <= len <= 16,
                    start + len <= total == buf@.len(),
                    w == buf@.subrange(start as int, start + len),
                    acc == be_value(w.take(i as int)),
                    acc < pow2((8 * i) as nat),
                decreases len - i,
            {
                proof {
                    let k = (8 * i) as nat;
                    lemma_step_bound(acc, k);
                    assert(w.take(i + 1).drop_last() =~= w.take(i as int));
                }
                acc = acc * 256 + buf[start + i] as u128;
                i = i + 1;
            }
            assert(w.take(len as int) =~= w);
        },
    }
    acc
}

/// The integer of type `ty` at `offset`, where it lies within the buffer.
pub fn read_int(buf: &[u8], offset: Offset, ty: IntType, endian: Endianness) -> (r: Option<Int>)
    ensures
        readable(buf@.len(), offset, ty) ==> r == Some(
            Int::of(decode_int(window(buf@, offset, ty), ty, endian)),
        ),
        !readable(buf@.len(), offset, ty) ==> r is None,
{
    let len = buf.len() as u64;
    if !ty.is_wf() || offset.bytes > len || len - offset.bytes < ty.size.bytes {
        return None;
    }
    let bits = read_bits(buf, offset.bytes as usize, ty.size.bytes as usize, endian);
    let value = int_from_bits(bits, ty);
    proof {
        value.lemma_of_view();
    }
    Some(value)
}

/// The bytes that stand for `value` at the type `ty`.
pub fn encode(value: &Int, ty: IntType, endian: Endianness) -> (r: Vec<u8>)
    requires
        ty.wf(),
    ensures
        r@ == encode_int(value@, ty, endian),
{
    let bits = value.to_bits();
    let n = ty.size.bytes;
    let mut out: Vec<u8> = Vec::new();
    let mut rest: u128 = bits;
    let mut i: u64 = 0;
    match endian {
        Endianness::Little => {
            while i < n
                invariant
                    i <= n,
                    out@ + le_bytes(rest as nat, (n - i) as nat) == le_bytes(bits as nat, n as nat),
                decreases n - i,
            {
                let ghost before = out@;
                out.push((rest % 256) as u8);
                proof {
                    assert(out@ + le_bytes((rest / 256) as nat, (n - i - 1) as nat) =~= before
                        + le_bytes(rest as nat, (n - i) as nat));
                }
                rest = rest / 256;
                i = i + 1;
            }
            assert(out@ + Seq::<u8>::empty() =~= out@);
        },
        Endianness::Big => {
            while i < n
                invariant
                    i <= n,
                    be_bytes(rest as nat, (n - i) as nat) + out@ == be_bytes(bits as nat, n as nat),
                decreases n - i,
            {
                let ghost before = out@;
                out.insert(0, (rest % 256) as u8);
                proof {
                    assert(be_bytes((rest / 256) as nat, (n - i - 1) as nat) + out@ =~= be_bytes(
                        rest as nat,
                        (n - i) as nat,
                    ) + before);
                }
                rest = rest / 256;
                i = i + 1;
            }
            assert(Seq::<u8>::empty() + out@ =~= out@);
        },
    }
    out
}

/// Writes `value` as an integer of type `ty` at `offset`, where that lies
/// within the buffer; says whether it did.
pub fn write_int(
    buf: &mut Vec<u8>,
    offset: Offset,
    ty: IntType,
    value: &Int,
    endian: Endianness,
) -> (done: bool)
    ensures
        done == readable(old(buf)@.len(), offset, ty),
        done ==> final(buf)@ == splice(
            old(buf)@,
            offset.bytes as int,
            encode_int(value@, ty, endian),
        ),
        !done ==> final(buf)@ == old(buf)@,
{
    let len = buf.len() as u64;
    if !ty.is_wf() || offset.bytes > len || len - offset.bytes < ty.size.bytes {
        return false;
    }
    let bytes = encode(value, ty, endian);
    let start = offset.bytes as usize;
    let n = ty.size.bytes as usize;
    let total = buf.len();
    proof {
        lemma_value_bytes_len((value@ % int_limit()) as nat, ty.size.bytes as nat, endian);
    }
    let mut j: usize = 0;
    assert(buf@ =~= splice(old(buf)@, start as int, bytes@.take(0)));
    while j < n
        invariant
            j <= n == bytes@.len(),
            start + n <= total == old(buf)@.len(),
            buf@.len() == old(buf)@.len(),
            buf@ == splice(old(buf)@, start as int, bytes@.take(j as int)),
        decreases n - j,
    {
        buf.set(start + j, bytes[j]);
        proof {
            assert(buf@ =~= splice(old(buf)@, start as int, bytes@.take(j + 1)));
        }
        j = j + 1;
    }
    assert(bytes@.take(n as int) =~= bytes@);
    true
}

} // verus!
