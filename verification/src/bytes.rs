//! Little-endian integers in byte sequences.

use vstd::arithmetic::div_mod::{lemma_div_denominator, lemma_mod_breakdown};
use vstd::arithmetic::power::{lemma_pow0, lemma_pow_positive, pow};
use vstd::prelude::*;

verus! {

/// The `n` low bytes of `v`, lowest first.
pub open spec fn le_bytes(v: nat, n: nat) -> Seq<u8>
    decreases n,
{
    if n == 0 {
        Seq::empty()
    } else {
        seq![(v % 256) as u8] + le_bytes(v / 256, (n - 1) as nat)
    }
}

/// The number whose bytes, lowest first, are `s`.
pub open spec fn le_value(s: Seq<u8>) -> nat
    decreases s.len(),
{
    if s.len() == 0 {
        0
    } else {
        s[0] as nat + 256 * le_value(s.skip(1))
    }
}

/// The number in the `n` bytes at `at`.
pub open spec fn le_at(s: Seq<u8>, at: int, n: int) -> nat {
    le_value(s.subrange(at, at + n))
}

/// How many values `n` bytes can hold.
pub open spec fn byte_range(n: nat) -> nat
    decreases n,
{
    if n == 0 {
        1
    } else {
        256 * byte_range((n - 1) as nat)
    }
}

/// `n` bytes come out, and they give the number back if it fits in them.
pub proof fn lemma_le_round_trip(v: nat, n: nat)
    ensures
        le_bytes(v, n).len() == n,
        v < byte_range(n) ==> le_value(le_bytes(v, n)) == v,
    decreases n,
{
    if n > 0 {
        lemma_le_round_trip(v / 256, (n - 1) as nat);
        assert(le_bytes(v, n).skip(1) =~= le_bytes(v / 256, (n - 1) as nat));
    }
}

/// The low bytes of a number are those of what is left of it after a cut to that many.
pub proof fn lemma_le_bytes_mod(v: nat, n: nat)
    ensures
        le_bytes(v, n) == le_bytes(v % byte_range(n), n),
    decreases n,
{
    if n > 0 {
        let rest = byte_range((n - 1) as nat);
        let cut = v % byte_range(n);
        lemma_byte_range_positive((n - 1) as nat);
        lemma_mod_breakdown(v as int, 256, rest as int);
        assert(cut == 256 * ((v / 256) % rest) + v % 256);
        assert(cut % 256 == v % 256);
        assert(cut / 256 == (v / 256) % rest);
        lemma_le_bytes_mod(v / 256, (n - 1) as nat);
    }
}

proof fn lemma_byte_range_positive(n: nat)
    ensures
        byte_range(n) > 0,
    decreases n,
{
    if n > 0 {
        lemma_byte_range_positive((n - 1) as nat);
    }
}

/// The ranges of the three field widths.
pub proof fn lemma_byte_ranges()
    ensures
        byte_range(1) == 0x100,
        byte_range(2) == 0x1_0000,
        byte_range(4) == 0x1_0000_0000,
        byte_range(8) == 0x1_0000_0000_0000_0000,
{
    reveal_with_fuel(byte_range, 9);
}

pub fn put_u16(b: &mut Vec<u8>, v: u16)
    ensures
        final(b)@ == old(b)@ + le_bytes(v as nat, 2),
{
    b.push((v % 256) as u8);
    b.push((v / 256) as u8);
    proof {
        reveal_with_fuel(le_bytes, 3);
        assert(b@ =~= old(b)@ + le_bytes(v as nat, 2));
    }
}

pub fn put_u32(b: &mut Vec<u8>, v: u32)
    ensures
        final(b)@ == old(b)@ + le_bytes(v as nat, 4),
{
    b.push((v % 256) as u8);
    b.push((v / 0x100 % 256) as u8);
    b.push((v / 0x1_0000 % 256) as u8);
    b.push((v / 0x100_0000) as u8);
    proof {
        reveal_with_fuel(le_bytes, 5);
        let n = v as nat;
        assert(n / 256 / 256 == n / 0x1_0000);
        assert(n / 256 / 256 / 256 == n / 0x100_0000);
        assert(b@ =~= old(b)@ + le_bytes(v as nat, 4));
    }
}

pub fn put_u64(b: &mut Vec<u8>, v: u64)
    ensures
        final(b)@ == old(b)@ + le_bytes(v as nat, 8),
{
    b.push((v % 256) as u8);
    b.push((v / 0x100 % 256) as u8);
    b.push((v / 0x1_0000 % 256) as u8);
    b.push((v / 0x100_0000 % 256) as u8);
    b.push((v / 0x1_0000_0000 % 256) as u8);
    b.push((v / 0x100_0000_0000 % 256) as u8);
    b.push((v / 0x1_0000_0000_0000 % 256) as u8);
    b.push((v / 0x100_0000_0000_0000) as u8);
    proof {
        reveal_with_fuel(le_bytes, 9);
        let n = v as nat;
        assert(n / 256 / 256 == n / 0x1_0000);
        assert(n / 256 / 256 / 256 == n / 0x100_0000);
        assert(n / 256 / 256 / 256 / 256 == n / 0x1_0000_0000);
        assert(n / 256 / 256 / 256 / 256 / 256 == n / 0x100_0000_0000);
        assert(n / 256 / 256 / 256 / 256 / 256 / 256 == n / 0x1_0000_0000_0000);
        assert(n / 256 / 256 / 256 / 256 / 256 / 256 / 256 == n / 0x100_0000_0000_0000);
        assert(b@ =~= old(b)@ + le_bytes(v as nat, 8));
    }
}

/// The bytes of `s`, after those of `b`.
pub fn put_all(b: &mut Vec<u8>, s: &[u8])
    ensures
        final(b)@ == old(b)@ + s@,
{
    b.extend_from_slice(s);
    assert(b@ =~= old(b)@ + s@);
}

pub fn read_u16(s: &[u8]) -> (r: u16)
    requires
        s@.len() == 2,
    ensures
        r == le_value(s@),
{
    proof {
        reveal_with_fuel(le_value, 3);
    }
    s[0] as u16 + 256 * (s[1] as u16)
}

pub fn read_u32(s: &[u8]) -> (r: u32)
    requires
        s@.len() == 4,
    ensures
        r == le_value(s@),
{
    proof {
        reveal_with_fuel(le_value, 5);
    }
    s[0] as u32 + 256 * (s[1] as u32 + 256 * (s[2] as u32 + 256 * (s[3] as u32)))
}

pub fn read_u64(s: &[u8]) -> (r: u64)
    requires
        s@.len() == 8,
    ensures
        r == le_value(s@),
{
    proof {
        reveal_with_fuel(le_value, 9);
    }
    s[0] as u64 + 256 * (s[1] as u64 + 256 * (s[2] as u64 + 256 * (s[3] as u64 + 256 * (s[4] as u64
        + 256 * (s[5] as u64 + 256 * (s[6] as u64 + 256 * (s[7] as u64)))))))
}

/// Bytes lie lowest first: byte `i` of a number is what is left of it after `i` divisions
/// by 256, modulo 256.
pub proof fn law_the_lowest_byte_comes_first(v: nat, n: nat, i: int)
    requires
        0 <= i < n,
    ensures
        le_bytes(v, n).len() == n,
        le_bytes(v, n)[i] as int == (v as int / pow(256, i as nat)) % 256,
    decreases n,
{
    lemma_le_round_trip(v, n);
    if i == 0 {
        lemma_pow0(256);
    } else {
        law_the_lowest_byte_comes_first(v / 256, (n - 1) as nat, i - 1);
        reveal(pow);
        lemma_pow_positive(256, (i - 1) as nat);
        lemma_div_denominator(v as int, 256, pow(256, (i - 1) as nat));
        assert(le_bytes(v, n)[i] == le_bytes(v / 256, (n - 1) as nat)[i - 1]);
    }
}

} // verus!
