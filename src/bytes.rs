//! Little-endian fixed-width integers inside byte strings.

use vstd::prelude::*;

verus! {

/// Unsigned value of a little-endian byte string.
pub open spec fn le_value(s: Seq<u8>) -> nat
    decreases s.len(),
{
    if s.len() == 0 {
        0
    } else {
        s[0] as nat + 256 * le_value(s.drop_first())
    }
}

/// `256` to the power `n`.
pub open spec fn pow256(n: nat) -> nat
    decreases n,
{
    if n == 0 {
        1
    } else {
        256 * pow256((n - 1) as nat)
    }
}

/// The eight bytes at `off` of `s`, read as a little-endian unsigned value.
pub open spec fn le_u64_at(s: Seq<u8>, off: int) -> nat {
    le_value(s.subrange(off, off + 8))
}

pub proof fn lemma_le_value_bound(s: Seq<u8>)
    ensures
        le_value(s) < pow256(s.len()),
    decreases s.len(),
{
    if s.len() > 0 {
        let rest = le_value(s.drop_first());
        let p = pow256((s.len() - 1) as nat);
        lemma_le_value_bound(s.drop_first());
        assert(s[0] as nat + 256 * rest < 256 * p) by (nonlinear_arith)
            requires
                rest < p,
                s[0] < 256,
        ;
    }
}

proof fn lemma_pow256_7()
    ensures
        pow256(7) == 0x100000000000000,
{
    reveal_with_fuel(pow256, 8);
}

/// Reads the little-endian `u64` stored at `off`.
pub fn read_u64_le(data: &Vec<u8>, off: usize) -> (r: u64)
    requires
        off + 8 <= data@.len(),
    ensures
        r as nat == le_u64_at(data@, off as int),
{
    let n = data.len();
    let mut acc: u64 = 0;
    let mut i: usize = 8;
    while i > 0
        invariant
            i <= 8,
            off + 8 <= data@.len(),
            n == data@.len(),
            acc as nat == le_value(data@.subrange(off + i, off + 8)),
        decreases i,
    {
        i = i - 1;
        let ghost tail = data@.subrange(off + i + 1, off + 8);
        proof {
            lemma_le_value_bound(tail);
            lemma_pow256_7();
            if tail.len() < 7 {
                lemma_pow256_monotone(tail.len(), 7);
            }
            assert(data@.subrange(off + i, off + 8).drop_first() =~= tail);
        }
        acc = data[off + i] as u64 + 256 * acc;
    }
    acc
}

pub proof fn lemma_pow256_monotone(a: nat, b: nat)
    requires
        a <= b,
    ensures
        pow256(a) <= pow256(b),
    decreases b,
{
    if a < b {
        lemma_pow256_monotone(a, (b - 1) as nat);
    }
}

/// One step of base-256 digit extraction.
fn split_low_byte(v: u64) -> (r: (u8, u64))
    ensures
        v as nat == r.0 as nat + 256 * r.1 as nat,
        r.1 as nat == v as nat / 256,
{
    ((v % 256) as u8, v / 256)
}

/// The eight little-endian bytes of `x`.
pub fn u64_le_bytes(x: u64) -> (r: Vec<u8>)
    ensures
        r@.len() == 8,
        le_value(r@) == x as nat,
{
    let (b0, v1) = split_low_byte(x);
    let (b1, v2) = split_low_byte(v1);
    let (b2, v3) = split_low_byte(v2);
    let (b3, v4) = split_low_byte(v3);
    let (b4, v5) = split_low_byte(v4);
    let (b5, v6) = split_low_byte(v5);
    let (b6, v7) = split_low_byte(v6);
    let (b7, v8) = split_low_byte(v7);
    assert(v8 == 0);
    let r = vec![b0, b1, b2, b3, b4, b5, b6, b7];
    proof {
        reveal_with_fuel(le_value, 9);
    }
    r
}

/// Appends the eight little-endian bytes of `x` to `out`.
pub fn push_u64_le(out: &mut Vec<u8>, x: u64)
    ensures
        final(out)@.len() == old(out)@.len() + 8,
        final(out)@.subrange(0, old(out)@.len() as int) == old(out)@,
        le_u64_at(final(out)@, old(out)@.len() as int) == x as nat,
{
    let ghost start = out@;
    let mut b = u64_le_bytes(x);
    let ghost bs = b@;
    out.append(&mut b);
    assert(out@.subrange(start.len() as int, start.len() + 8int) =~= bs);
    assert(out@.subrange(0, start.len() as int) =~= start);
}

} // verus!
