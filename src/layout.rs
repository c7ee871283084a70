//! Little-endian integer encoding and byte-copy helpers used by the
//! fixed-width account layouts.
use vstd::prelude::*;

verus! {

/// `256` raised to the power `n`.
pub open spec fn pow256(n: nat) -> nat
    decreases n,
{
    if n == 0 {
        1
    } else {
        256 * pow256((n - 1) as nat)
    }
}

/// The unsigned value of little-endian bytes.
pub open spec fn le_value(b: Seq<u8>) -> nat
    decreases b.len(),
{
    if b.len() == 0 {
        0
    } else {
        b[0] as nat + 256 * le_value(b.drop_first())
    }
}

/// The `n` little-endian bytes of `v` (taken modulo `256^n`).
pub open spec fn le_bytes(v: nat, n: nat) -> Seq<u8>
    decreases n,
{
    if n == 0 {
        Seq::empty()
    } else {
        seq![(v % 256) as u8] + le_bytes(v / 256, (n - 1) as nat)
    }
}

pub proof fn lemma_pow256_positive(n: nat)
    ensures
        pow256(n) >= 1,
    decreases n,
{
    if n > 0 {
        lemma_pow256_positive((n - 1) as nat);
    }
}

/// Decoding the encoding of a value that fits gives the value back.
pub proof fn lemma_le_round_trip(v: nat, n: nat)
    requires
        v < pow256(n),
    ensures
        le_bytes(v, n).len() == n,
        le_value(le_bytes(v, n)) == v,
    decreases n,
{
    if n > 0 {
        let m = (n - 1) as nat;
        assert(v / 256 < pow256(m)) by (nonlinear_arith)
            requires
                v < 256 * pow256(m),
        ;
        lemma_le_round_trip(v / 256, m);
        let b = le_bytes(v, n);
        assert(b.drop_first() =~= le_bytes(v / 256, m));
        assert(v == v % 256 + 256 * (v / 256)) by (nonlinear_arith);
    } else {
        lemma_pow256_positive(n);
    }
}

/// The value of `n` bytes is below `256^n`.
pub proof fn lemma_le_value_bound(b: Seq<u8>)
    ensures
        le_value(b) < pow256(b.len()),
    decreases b.len(),
{
    if b.len() > 0 {
        lemma_le_value_bound(b.drop_first());
        let r = le_value(b.drop_first());
        let p = pow256(b.drop_first().len());
        assert(b[0] as nat + 256 * r < 256 * p) by (nonlinear_arith)
            requires
                r < p,
                b[0] < 256,
        ;
    }
}

/// Reads `n <= 8` little-endian bytes of `data` starting at `off`.
pub fn read_le(data: &[u8], off: usize, n: usize) -> (r: u64)
    requires
        n <= 8,
        off + n <= data@.len(),
    ensures
        r as nat == le_value(data@.subrange(off as int, off + n)),
{
    let len: usize = data.len();
    let mut r: u64 = 0;
    let mut i: usize = n;
    while i > 0
        invariant
            len == data@.len(),
            n <= 8,
            off + n <= data@.len(),
            i <= n,
            r as nat == le_value(data@.subrange(off + i, off + n)),
        decreases i,
    {
        let ghost tail = data@.subrange(off + i, off + n);
        i = i - 1;
        let ghost s = data@.subrange(off + i, off + n);
        assert(s.drop_first() =~= tail);
        proof {
            lemma_le_value_bound(s);
            assert(pow256(s.len()) <= pow256(8)) by {
                lemma_pow256_mono(s.len(), 8);
            }
            lemma_pow256_8();
        }
        r = r * 256 + data[off + i] as u64;
    }
    r
}

pub proof fn lemma_pow256_8()
    ensures
        pow256(8) == 0x1_0000_0000_0000_0000nat,
        pow256(2) == 0x1_0000nat,
{
    reveal_with_fuel(pow256, 9);
}

pub proof fn lemma_pow256_mono(a: nat, b: nat)
    requires
        a <= b,
    ensures
        pow256(a) <= pow256(b),
    decreases b,
{
    if a < b {
        lemma_pow256_mono(a, (b - 1) as nat);
        lemma_pow256_positive((b - 1) as nat);
    }
}

/// Encoding one more byte appends the next base-256 digit.
pub proof fn lemma_le_bytes_snoc(v: nat, k: nat)
    ensures
        le_bytes(v, k + 1) == le_bytes(v, k) + seq![((v / pow256(k)) % 256) as u8],
    decreases k,
{
    if k == 0 {
        assert(le_bytes(v, 0) + seq![((v / 1) % 256) as u8] =~= seq![(v % 256) as u8]);
        assert(le_bytes(v, 1) =~= seq![(v % 256) as u8] + le_bytes(v / 256, 0));
    } else {
        let m = (k - 1) as nat;
        lemma_le_bytes_snoc(v / 256, m);
        lemma_pow256_positive(m);
        assert((v / 256) / pow256(m) == v / (256 * pow256(m))) by {
            vstd::arithmetic::div_mod::lemma_div_denominator(v as int, 256, pow256(m) as int);
        }
        assert(le_bytes(v, k + 1) =~= le_bytes(v, k) + seq![((v / pow256(k)) % 256) as u8]);
    }
}

/// Appends the `n <= 8` little-endian bytes of `v` to `out`.
pub fn push_le(out: &mut Vec<u8>, v: u64, n: usize)
    requires
        n <= 8,
    ensures
        final(out)@ == old(out)@ + le_bytes(v as nat, n as nat),
{
    let ghost start = old(out)@;
    let mut rest: u64 = v;
    let mut k: usize = 0;
    proof {
        assert(start + le_bytes(v as nat, 0) =~= start);
        assert(pow256(0) == 1);
        assert(v as nat / 1 == v as nat);
    }
    while k < n
        invariant
            k <= n,
            rest as nat == v as nat / pow256(k as nat),
            out@ == start + le_bytes(v as nat, k as nat),
        decreases n - k,
    {
        proof {
            lemma_le_bytes_snoc(v as nat, k as nat);
            lemma_pow256_positive(k as nat);
            vstd::arithmetic::div_mod::lemma_div_denominator(v as int, pow256(k as nat) as int, 256);
            assert(pow256(k as nat) * 256 == pow256(k as nat + 1));
        }
        out.push((rest % 256) as u8);
        rest = rest / 256;
        k = k + 1;
        proof {
            assert(out@ =~= start + le_bytes(v as nat, k as nat));
        }
    }
}

/// Appends the bytes of `src` to `out`.
pub fn push_bytes(out: &mut Vec<u8>, src: &[u8])
    ensures
        final(out)@ == old(out)@ + src@,
{
    let ghost start = old(out)@;
    let mut i: usize = 0;
    while i < src.len()
        invariant
            i <= src@.len(),
            out@ == start + src@.subrange(0, i as int),
        decreases src@.len() - i,
    {
        out.push(src[i]);
        i = i + 1;
        proof {
            assert(out@ =~= start + src@.subrange(0, i as int));
        }
    }
    proof {
        assert(src@.subrange(0, src@.len() as int) =~= src@);
    }
}

/// Overwrites `data[off .. off + src.len()]` with `src`.
pub fn write_bytes(data: &mut Vec<u8>, off: usize, src: &[u8])
    requires
        off + src@.len() <= old(data)@.len(),
    ensures
        final(data)@ == old(data)@.subrange(0, off as int) + src@ + old(data)@.subrange(
            off + src@.len(),
            old(data)@.len() as int,
        ),
{
    let ghost d0 = old(data)@;
    let len: usize = data.len();
    let mut i: usize = 0;
    while i < src.len()
        invariant
            len == d0.len(),
            i <= src@.len(),
            off + src@.len() <= d0.len(),
            data@ == d0.subrange(0, off as int) + src@.subrange(0, i as int) + d0.subrange(
                off + i,
                d0.len() as int,
            ),
        decreases src@.len() - i,
    {
        data[off + i] = src[i];
        i = i + 1;
        proof {
            assert(data@ =~= d0.subrange(0, off as int) + src@.subrange(0, i as int)
                + d0.subrange(off + i, d0.len() as int));
        }
    }
    proof {
        assert(src@.subrange(0, src@.len() as int) =~= src@);
    }
}

} // verus!
