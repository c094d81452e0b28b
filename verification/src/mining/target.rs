//! Difficulty targets and the proof-of-work comparison.
//!
//! A hash is read as a big-endian unsigned integer and compared with the
//! target that the compact `bits` encode, as `num_bigint::BigUint` does with
//! `from_bytes_be`, shifts and `<=`.

use vstd::prelude::*;

verus! {

/// The value of a big-endian byte string.
pub open spec fn be_value(s: Seq<u8>) -> nat
    decreases s.len(),
{
    if s.len() == 0 {
        0
    } else {
        be_value(s.drop_last()) * 256 + s.last() as nat
    }
}

/// `256` to the power `n`.
pub open spec fn pow256(n: nat) -> nat
    decreases n,
{
    if n == 0 {
        1
    } else {
        256 * pow256((n - 1) as nat)
    }
}

/// The exponent byte of a compact target.
pub open spec fn compact_exponent(bits: u32) -> nat {
    (bits / 0x100_0000) as nat
}

/// The 23-bit mantissa of a compact target.
pub open spec fn compact_mantissa(bits: u32) -> nat {
    (bits % 0x80_0000) as nat
}

/// Converts a compact representation of the difficulty target to the target
/// value: the mantissa shifted left by 8 * (exponent - 3) bits, or right by
/// 8 * (3 - exponent) bits when the exponent is at most 3.
pub open spec fn compact_to_target(bits: u32) -> nat {
    let e = compact_exponent(bits);
    let m = compact_mantissa(bits);
    if e <= 3 {
        m / pow256((3 - e) as nat)
    } else {
        m * pow256((e - 3) as nat)
    }
}

/// Whether a hash, read as a big-endian integer, is at most the target that
/// `bits` encode.
pub open spec fn meets_target(hash: Seq<u8>, bits: u32) -> bool {
    be_value(hash) <= compact_to_target(bits)
}

pub open spec fn zeros(n: nat) -> Seq<u8> {
    Seq::new(n, |i: int| 0u8)
}

proof fn lemma_pow256_pos(n: nat)
    ensures
        pow256(n) >= 1,
    decreases n,
{
    if n > 0 {
        lemma_pow256_pos((n - 1) as nat);
    }
}

/// The value of a byte string is below `256^len`.
proof fn lemma_be_bound(s: Seq<u8>)
    ensures
        be_value(s) < pow256(s.len()),
    decreases s.len(),
{
    if s.len() > 0 {
        let t = s.drop_last();
        lemma_be_bound(t);
        let v = be_value(t);
        let p = pow256(t.len());
        let l = s.last();
        assert(v * 256 + l < 256 * p) by (nonlinear_arith)
            requires
                v < p,
                l < 256,
        ;
    }
}

/// The value of a concatenation.
proof fn lemma_be_concat(x: Seq<u8>, y: Seq<u8>)
    ensures
        be_value(x + y) == be_value(x) * pow256(y.len()) + be_value(y),
    decreases y.len(),
{
    if y.len() == 0 {
        assert(x + y =~= x);
        assert(pow256(0) == 1);
    } else {
        let yl = y.drop_last();
        lemma_be_concat(x, yl);
        assert((x + y).drop_last() =~= x + yl);
        assert((x + y).last() == y.last());
        assert(pow256(y.len()) == 256 * pow256(yl.len()));
        let a = be_value(x);
        let p = pow256(yl.len());
        let b = be_value(yl);
        assert((a * p + b) * 256 + y.last() == a * (256 * p) + (b * 256 + y.last())) by (nonlinear_arith);
    }
}

proof fn lemma_be_zeros(n: nat)
    ensures
        be_value(zeros(n)) == 0,
    decreases n,
{
    if n > 0 {
        assert(zeros(n).drop_last() =~= zeros((n - 1) as nat));
        lemma_be_zeros((n - 1) as nat);
    }
}

/// `s` with leading zeros up to length `n`.
pub open spec fn padded(s: Seq<u8>, n: nat) -> Seq<u8> {
    Seq::new(n, |i: int| if i < n - s.len() { 0u8 } else { s[i - (n - s.len())] })
}

proof fn lemma_be_padded(s: Seq<u8>, n: nat)
    requires
        n >= s.len(),
    ensures
        be_value(padded(s, n)) == be_value(s),
{
    let k = (n - s.len()) as nat;
    assert(padded(s, n) =~= zeros(k) + s);
    lemma_be_concat(zeros(k), s);
    lemma_be_zeros(k);
}

/// Big-endian strings of equal length compare as their first difference does.
proof fn lemma_be_first_difference(a: Seq<u8>, b: Seq<u8>, i: int)
    requires
        a.len() == b.len(),
        0 <= i < a.len(),
        a.take(i) == b.take(i),
        a[i] < b[i],
    ensures
        be_value(a) < be_value(b),
{
    let m = (a.len() - i - 1) as nat;
    assert(a =~= a.take(i + 1) + a.skip(i + 1));
    assert(b =~= b.take(i + 1) + b.skip(i + 1));
    lemma_be_concat(a.take(i + 1), a.skip(i + 1));
    lemma_be_concat(b.take(i + 1), b.skip(i + 1));
    assert(a.take(i + 1).drop_last() =~= a.take(i));
    assert(b.take(i + 1).drop_last() =~= b.take(i));
    lemma_be_bound(a.skip(i + 1));
    let c = be_value(a.take(i));
    let p = pow256(m);
    let ra = be_value(a.skip(i + 1));
    let rb = be_value(b.skip(i + 1));
    let ai = a[i] as int;
    let bi = b[i] as int;
    assert((c * 256 + ai) * p + ra < (c * 256 + bi) * p + rb) by (nonlinear_arith)
        requires
            ra < p,
            rb >= 0,
            ai < bi,
            c >= 0,
    ;
}

/// Compares two big-endian byte strings as unsigned integers.
pub fn be_le(a: &[u8], b: &[u8]) -> (res: bool)
    ensures
        res == (be_value(a@) <= be_value(b@)),
{
    let la = a.len();
    let lb = b.len();
    let n = if la > lb { la } else { lb };
    let oa = n - la;
    let ob = n - lb;
    let ghost pa = padded(a@, n as nat);
    let ghost pb = padded(b@, n as nat);
    proof {
        lemma_be_padded(a@, n as nat);
        lemma_be_padded(b@, n as nat);
    }
    let mut i: usize = 0;
    while i < n
        invariant
            la == a@.len(),
            lb == b@.len(),
            oa == n - la,
            ob == n - lb,
            i <= n,
            pa == padded(a@, n as nat),
            pb == padded(b@, n as nat),
            pa.take(i as int) == pb.take(i as int),
            be_value(pa) == be_value(a@),
            be_value(pb) == be_value(b@),
        decreases n - i,
    {
        let x = if i < oa { 0u8 } else { a[i - oa] };
        let y = if i < ob { 0u8 } else { b[i - ob] };
        assert(x == pa[i as int]);
        assert(y == pb[i as int]);
        if x < y {
            proof {
                lemma_be_first_difference(pa, pb, i as int);
            }
            return true;
        }
        if x > y {
            proof {
                lemma_be_first_difference(pb, pa, i as int);
            }
            return false;
        }
        assert(pa.take(i + 1) =~= pa.take(i as int).push(x));
        assert(pb.take(i + 1) =~= pb.take(i as int).push(y));
        i = i + 1;
    }
    assert(pa =~= pa.take(n as int));
    assert(pb =~= pb.take(n as int));
    true
}

/// The big-endian bytes of the target that `bits` encode.
pub fn target_bytes(bits: u32) -> (res: Vec<u8>)
    ensures
        be_value(res@) == compact_to_target(bits),
{
    let exponent = bits / 0x100_0000;
    let mantissa = bits % 0x80_0000;
    let value: u32 = if exponent == 0 {
        mantissa / 0x100_0000
    } else if exponent == 1 {
        mantissa / 0x1_0000
    } else if exponent == 2 {
        mantissa / 0x100
    } else {
        mantissa
    };
    proof {
        reveal_with_fuel(pow256, 4);
    }
    let mut out: Vec<u8> = Vec::new();
    out.push((value / 0x1_0000) as u8);
    out.push(((value / 0x100) % 256) as u8);
    out.push((value % 256) as u8);
    proof {
        let b0 = (value / 0x1_0000) as u8;
        let b1 = ((value / 0x100) % 256) as u8;
        let b2 = (value % 256) as u8;
        assert(out@ =~= seq![b0, b1, b2]);
        assert(seq![b0, b1, b2].drop_last() =~= seq![b0, b1]);
        assert(seq![b0, b1].drop_last() =~= seq![b0]);
        assert(seq![b0].drop_last() =~= Seq::<u8>::empty());
        assert(be_value(Seq::<u8>::empty()) == 0);
        assert(be_value(seq![b0]) == b0 as nat);
        assert(be_value(seq![b0, b1]) == b0 as nat * 256 + b1 as nat);
        assert(be_value(seq![b0, b1, b2]) == (b0 as nat * 256 + b1 as nat) * 256 + b2 as nat);
        assert((b0 as int * 256 + b1 as int) * 256 + b2 as int == value as int) by (nonlinear_arith)
            requires
                value < 0x80_0000,
                b0 as int == value / 0x1_0000,
                b1 as int == (value / 0x100) % 256,
                b2 as int == value % 256,
        ;
    }
    let ghost head = out@;
    let shift: u32 = if exponent > 3 { exponent - 3 } else { 0 };
    let mut k: u32 = 0;
    while k < shift
        invariant
            k <= shift,
            out@ == head + zeros(k as nat),
        decreases shift - k,
    {
        out.push(0u8);
        k = k + 1;
        assert(out@ =~= head + zeros(k as nat));
    }
    proof {
        lemma_be_concat(head, zeros(shift as nat));
        lemma_be_zeros(shift as nat);
        assert(be_value(head) == value);
        assert(be_value(out@) == value * pow256(shift as nat));
        let e = compact_exponent(bits);
        let m = compact_mantissa(bits);
        assert(e == exponent && m == mantissa);
        if exponent <= 3 {
            assert(shift == 0);
            assert(pow256(0) == 1);
            assert(value == m / pow256((3 - e) as nat));
        } else {
            assert(value == m);
            assert(shift == e - 3);
        }
    }
    out
}

/// Whether `hash`, read as a big-endian integer, is at most the target that
/// `bits` encode.
pub fn hash_meets_target(hash: &[u8], bits: u32) -> (res: bool)
    ensures
        res == meets_target(hash@, bits),
{
    let target = target_bytes(bits);
    be_le(hash, target.as_slice())
}

} // verus!
