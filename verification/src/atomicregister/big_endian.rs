//! Fixed-width unsigned integers in network byte order.

use vstd::arithmetic::div_mod::{
    lemma_div_denominator, lemma_fundamental_div_mod, lemma_fundamental_div_mod_converse,
};
use vstd::prelude::*;

verus! {

/// The four bytes of `x`, most significant first.
pub open spec fn u32_be(x: u32) -> Seq<u8> {
    seq![
        (x / 0x100_0000) as u8,
        (x / 0x1_0000 % 0x100) as u8,
        (x / 0x100 % 0x100) as u8,
        (x % 0x100) as u8,
    ]
}

/// The number whose big-endian bytes are the first four bytes of `b`.
pub open spec fn u32_from_be(b: Seq<u8>) -> u32
    recommends
        b.len() >= 4,
{
    (b[0] as int * 0x100_0000 + b[1] as int * 0x1_0000 + b[2] as int * 0x100 + b[3] as int) as u32
}

/// The eight bytes of `x`, most significant first.
pub open spec fn u64_be(x: u64) -> Seq<u8> {
    u32_be((x / 0x1_0000_0000) as u32) + u32_be((x % 0x1_0000_0000) as u32)
}

/// The number whose big-endian bytes are the first eight bytes of `b`.
pub open spec fn u64_from_be(b: Seq<u8>) -> u64
    recommends
        b.len() >= 8,
{
    (u32_from_be(b.subrange(0, 4)) as int * 0x1_0000_0000 + u32_from_be(b.subrange(4, 8)) as int) as u64
}

/// Reading back the bytes of a 32-bit number gives the number.
pub proof fn lemma_u32_be_round_trip(x: u32)
    ensures
        u32_be(x).len() == 4,
        u32_from_be(u32_be(x)) == x,
{
    let n = x as int;
    lemma_fundamental_div_mod(n, 0x100);
    lemma_fundamental_div_mod(n / 0x100, 0x100);
    lemma_fundamental_div_mod(n / 0x1_0000, 0x100);
    lemma_div_denominator(n, 0x100, 0x100);
    lemma_div_denominator(n, 0x1_0000, 0x100);
    assert(n / 0x100 / 0x100 == n / 0x1_0000);
    assert(n / 0x1_0000 / 0x100 == n / 0x100_0000);
    assert(n == 0x100_0000 * (n / 0x100_0000) + 0x1_0000 * (n / 0x1_0000 % 0x100) + 0x100 * (n
        / 0x100 % 0x100) + n % 0x100);
}

/// Writing out the number read from four bytes gives those bytes.
pub proof fn lemma_u32_from_be_round_trip(b: Seq<u8>)
    requires
        b.len() == 4,
    ensures
        u32_be(u32_from_be(b)) == b,
{
    let b0 = b[0] as int;
    let b1 = b[1] as int;
    let b2 = b[2] as int;
    let b3 = b[3] as int;
    let n = b0 * 0x100_0000 + b1 * 0x1_0000 + b2 * 0x100 + b3;
    assert(0 <= n < 0x1_0000_0000);
    assert(u32_from_be(b) == n);
    lemma_fundamental_div_mod_converse(n, 0x100_0000, b0, b1 * 0x1_0000 + b2 * 0x100 + b3);
    lemma_fundamental_div_mod_converse(n, 0x1_0000, b0 * 0x100 + b1, b2 * 0x100 + b3);
    lemma_fundamental_div_mod_converse(b0 * 0x100 + b1, 0x100, b0, b1);
    lemma_fundamental_div_mod_converse(n, 0x100, b0 * 0x1_0000 + b1 * 0x100 + b2, b3);
    lemma_fundamental_div_mod_converse(b0 * 0x1_0000 + b1 * 0x100 + b2, 0x100, b0 * 0x100 + b1, b2);
    assert(n / 0x100_0000 == b0);
    assert(n / 0x1_0000 % 0x100 == b1);
    assert(n / 0x100 % 0x100 == b2);
    assert(n % 0x100 == b3);
    assert(u32_be(n as u32) =~= b);
}

/// Reading back the bytes of a 64-bit number gives the number.
pub proof fn lemma_u64_be_round_trip(x: u64)
    ensures
        u64_be(x).len() == 8,
        u64_from_be(u64_be(x)) == x,
{
    let hi = (x / 0x1_0000_0000) as u32;
    let lo = (x % 0x1_0000_0000) as u32;
    lemma_fundamental_div_mod(x as int, 0x1_0000_0000);
    lemma_u32_be_round_trip(hi);
    lemma_u32_be_round_trip(lo);
    assert(u64_be(x).subrange(0, 4) =~= u32_be(hi));
    assert(u64_be(x).subrange(4, 8) =~= u32_be(lo));
}

/// Writing out the number read from eight bytes gives those bytes.
pub proof fn lemma_u64_from_be_round_trip(b: Seq<u8>)
    requires
        b.len() == 8,
    ensures
        u64_be(u64_from_be(b)) == b,
{
    let hi = u32_from_be(b.subrange(0, 4));
    let lo = u32_from_be(b.subrange(4, 8));
    let n = hi as int * 0x1_0000_0000 + lo as int;
    assert(u64_from_be(b) == n);
    lemma_fundamental_div_mod_converse(n, 0x1_0000_0000, hi as int, lo as int);
    assert((n / 0x1_0000_0000) as u32 == hi);
    assert((n % 0x1_0000_0000) as u32 == lo);
    lemma_u32_from_be_round_trip(b.subrange(0, 4));
    lemma_u32_from_be_round_trip(b.subrange(4, 8));
    assert(u64_be(n as u64) =~= b);
}

/// Appends the four big-endian bytes of `x` to `buf`.
pub fn put_u32_be(buf: &mut Vec<u8>, x: u32)
    ensures
        final(buf)@ == old(buf)@ + u32_be(x),
{
    buf.push((x / 0x100_0000) as u8);
    buf.push((x / 0x1_0000 % 0x100) as u8);
    buf.push((x / 0x100 % 0x100) as u8);
    buf.push((x % 0x100) as u8);
    assert(buf@ =~= old(buf)@ + u32_be(x));
}

/// Appends the eight big-endian bytes of `x` to `buf`.
pub fn put_u64_be(buf: &mut Vec<u8>, x: u64)
    ensures
        final(buf)@ == old(buf)@ + u64_be(x),
{
    put_u32_be(buf, (x / 0x1_0000_0000) as u32);
    put_u32_be(buf, (x % 0x1_0000_0000) as u32);
    assert(buf@ =~= old(buf)@ + u64_be(x));
}

/// Reads the 32-bit big-endian number that starts at index `at`.
pub fn get_u32_be(buf: &[u8], at: usize) -> (x: u32)
    requires
        at + 4 <= buf@.len(),
    ensures
        x == u32_from_be(buf@.subrange(at as int, at + 4)),
{
    let b0: u32 = buf[at] as u32;
    let b1: u32 = buf[at + 1] as u32;
    let b2: u32 = buf[at + 2] as u32;
    let b3: u32 = buf[at + 3] as u32;
    b0 * 0x100_0000 + b1 * 0x1_0000 + b2 * 0x100 + b3
}

/// Reads the 64-bit big-endian number that starts at index `at`.
pub fn get_u64_be(buf: &[u8], at: usize) -> (x: u64)
    requires
        at + 8 <= buf@.len(),
    ensures
        x == u64_from_be(buf@.subrange(at as int, at + 8)),
{
    let len: usize = buf.len();
    assert(at + 8 <= len);
    let hi: u64 = get_u32_be(buf, at) as u64;
    let lo: u64 = get_u32_be(buf, at + 4) as u64;
    proof {
        let b = buf@.subrange(at as int, at + 8);
        assert(b.subrange(0, 4) =~= buf@.subrange(at as int, at + 4));
        assert(b.subrange(4, 8) =~= buf@.subrange(at + 4, at + 8));
    }
    hi * 0x1_0000_0000 + lo
}

} // verus!
