//! Byte sequences as integers: big-endian and little-endian readings, with
//! the bounds and decomposition lemmas the decoders' proofs lean on.
use vstd::prelude::*;

verus! {

/// 256 to the power `n`: the number of values of an `n`-byte field.
pub open spec fn pow256(n: nat) -> int
    decreases n,
{
    if n == 0 {
        1
    } else {
        256 * pow256((n - 1) as nat)
    }
}

/// The powers of 256 at the field widths the decoders use.
pub proof fn lemma_pow256_values()
    ensures
        pow256(1) == 0x100,
        pow256(2) == 0x1_0000,
        pow256(4) == 0x1_0000_0000,
        pow256(8) == 0x1_0000_0000_0000_0000,
        pow256(12) == 0x1_0000_0000_0000_0000_0000_0000,
        pow256(16) == 0x1_0000_0000_0000_0000_0000_0000_0000_0000,
{
    reveal_with_fuel(pow256, 17);
}

/// The unsigned integer spelled by `s` with the most significant byte first.
pub open spec fn be_uint(s: Seq<u8>) -> int
    decreases s.len(),
{
    if s.len() == 0 {
        0
    } else {
        be_uint(s.drop_last()) * 256 + s.last()
    }
}

/// The two's-complement integer spelled by `s` with the most significant
/// byte first: the unsigned reading, sign-extended from the top bit of the
/// first byte.  An empty field reads as zero.
pub open spec fn be_sint(s: Seq<u8>) -> int {
    if s.len() > 0 && s[0] >= 0x80 {
        be_uint(s) - pow256(s.len())
    } else {
        be_uint(s)
    }
}

/// The unsigned integer spelled by `s` with the least significant byte first.
pub open spec fn le_uint(s: Seq<u8>) -> int
    decreases s.len(),
{
    if s.len() == 0 {
        0
    } else {
        s.first() + 256 * le_uint(s.drop_first())
    }
}

pub proof fn lemma_pow256_pos(n: nat)
    ensures
        pow256(n) >= 1,
    decreases n,
{
    if n > 0 {
        lemma_pow256_pos((n - 1) as nat);
    }
}

/// Powers of 256 multiply as their exponents add.
pub proof fn lemma_pow256_mul(a: nat, b: nat)
    ensures
        pow256(a + b) == pow256(a) * pow256(b),
    decreases a,
{
    if a == 0 {
    } else {
        lemma_pow256_mul((a - 1) as nat, b);
        assert(pow256(a + b) == 256 * pow256((a + b - 1) as nat));
        assert(pow256(a) * pow256(b) == 256 * (pow256((a - 1) as nat) * pow256(b)))
            by (nonlinear_arith)
            requires
                pow256(a) == 256 * pow256((a - 1) as nat),
        ;
    }
}

/// The value of a byte sequence is nonnegative and below `256^len`.
pub proof fn lemma_be_uint_bounds(s: Seq<u8>)
    ensures
        0 <= be_uint(s) < pow256(s.len()),
    decreases s.len(),
{
    if s.len() == 0 {
    } else {
        lemma_be_uint_bounds(s.drop_last());
        assert(be_uint(s.drop_last()) * 256 <= (pow256((s.len() - 1) as nat) - 1) * 256)
            by (nonlinear_arith)
            requires
                be_uint(s.drop_last()) <= pow256((s.len() - 1) as nat) - 1,
        ;
        assert(be_uint(s.drop_last()) * 256 >= 0) by (nonlinear_arith)
            requires
                be_uint(s.drop_last()) >= 0,
        ;
    }
}

pub proof fn lemma_le_uint_bounds(s: Seq<u8>)
    ensures
        0 <= le_uint(s) < pow256(s.len()),
    decreases s.len(),
{
    if s.len() == 0 {
    } else {
        lemma_le_uint_bounds(s.drop_first());
        assert(256 * le_uint(s.drop_first()) <= 256 * (pow256((s.len() - 1) as nat) - 1))
            by (nonlinear_arith)
            requires
                le_uint(s.drop_first()) <= pow256((s.len() - 1) as nat) - 1,
        ;
        assert(256 * le_uint(s.drop_first()) >= 0) by (nonlinear_arith)
            requires
                le_uint(s.drop_first()) >= 0,
        ;
    }
}

/// Reading one more byte of a big-endian field shifts and adds.
pub proof fn lemma_be_uint_take_step(s: Seq<u8>, j: int)
    requires
        0 <= j < s.len(),
    ensures
        be_uint(s.take(j + 1)) == 256 * be_uint(s.take(j)) + s[j],
{
    assert(s.take(j + 1).drop_last() =~= s.take(j));
    assert(s.take(j + 1).last() == s[j]);
}

/// Reading one more byte of a little-endian field adds at the next weight.
pub proof fn lemma_le_uint_skip_step(s: Seq<u8>, j: int)
    requires
        0 <= j < s.len(),
    ensures
        le_uint(s.skip(j)) == s[j] + 256 * le_uint(s.skip(j + 1)),
{
    assert(s.skip(j).drop_first() =~= s.skip(j + 1));
    assert(s.skip(j).first() == s[j]);
}

/// Reading one more byte of a signed big-endian field shifts and adds; the
/// sign term scales along.
pub proof fn lemma_be_sint_take_step(s: Seq<u8>, j: int)
    requires
        1 <= j < s.len(),
    ensures
        be_sint(s.take(j + 1)) == 256 * be_sint(s.take(j)) + s[j],
{
    lemma_be_uint_take_step(s, j);
    assert(s.take(j)[0] == s[0]);
    assert(s.take(j + 1)[0] == s[0]);
    assert(pow256((j + 1) as nat) == 256 * pow256(j as nat));
}

/// A big-endian field decomposes around its first byte.
pub proof fn lemma_be_uint_first(s: Seq<u8>)
    requires
        s.len() > 0,
    ensures
        be_uint(s) == s[0] * pow256((s.len() - 1) as nat) + be_uint(s.drop_first()),
    decreases s.len(),
{
    if s.len() == 1 {
        assert(s.drop_first() =~= Seq::<u8>::empty());
        assert(s.drop_last() =~= Seq::<u8>::empty());
    } else {
        lemma_be_uint_first(s.drop_last());
        assert(s.drop_last().drop_first() =~= s.drop_first().drop_last());
        assert(s.drop_last()[0] == s[0]);
        let k = (s.len() - 2) as nat;
        assert(be_uint(s) == be_uint(s.drop_last()) * 256 + s.last());
        assert(be_uint(s.drop_first()) == be_uint(s.drop_first().drop_last()) * 256 + s.last());
        assert((s[0] * pow256(k) + be_uint(s.drop_first().drop_last())) * 256 == s[0] * (256
            * pow256(k)) + be_uint(s.drop_first().drop_last()) * 256) by (nonlinear_arith);
    }
}

/// The signed reading of a field lies in the symmetric range of its width,
/// on the side its first byte's top bit dictates.
pub proof fn lemma_be_sint_range(s: Seq<u8>)
    requires
        s.len() > 0,
    ensures
        s[0] >= 0x80 ==> -(pow256(s.len()) / 2) <= be_sint(s) < 0,
        s[0] < 0x80 ==> 0 <= be_sint(s) < pow256(s.len()) / 2,
{
    lemma_be_uint_bounds(s);
    lemma_be_uint_first(s);
    lemma_be_uint_bounds(s.drop_first());
    lemma_pow256_pos((s.len() - 1) as nat);
    let p = pow256((s.len() - 1) as nat);
    assert(pow256(s.len()) == 256 * p);
    assert(256 * p / 2 == 128 * p) by (nonlinear_arith)
        requires
            p >= 1,
    ;
    if s[0] >= 0x80 {
        assert(s[0] * p >= 0x80 * p) by (nonlinear_arith)
            requires
                s[0] >= 0x80,
                p >= 1,
        ;
    } else {
        assert(s[0] * p <= 0x7f * p) by (nonlinear_arith)
            requires
                s[0] <= 0x7f,
                p >= 1,
        ;
    }
}

/// A big-endian field splits at any point into a high part shifted past the
/// low part.
pub proof fn lemma_be_uint_split(s: Seq<u8>, k: int)
    requires
        0 <= k <= s.len(),
    ensures
        be_uint(s) == be_uint(s.take(k)) * pow256((s.len() - k) as nat) + be_uint(s.skip(k)),
    decreases s.len() - k,
{
    if k == s.len() {
        assert(s.take(k) =~= s);
        assert(s.skip(k) =~= Seq::<u8>::empty());
    } else {
        lemma_be_uint_split(s, k + 1);
        lemma_be_uint_take_step(s, k);
        assert(s.skip(k).drop_first() =~= s.skip(k + 1));
        assert(s.skip(k)[0] == s[k]);
        lemma_be_uint_first(s.skip(k));
        let rest = (s.len() - k - 1) as nat;
        assert(pow256((s.len() - k) as nat) == 256 * pow256(rest));
        assert((256 * be_uint(s.take(k)) + s[k]) * pow256(rest) == be_uint(s.take(k)) * (256
            * pow256(rest)) + s[k] * pow256(rest)) by (nonlinear_arith);
        assert(be_uint(s.skip(k)) == s[k] * pow256(rest) + be_uint(s.skip(k + 1)));
        assert(be_uint(s.take(k)) * pow256((s.len() - k) as nat) == be_uint(s.take(k)) * (256
            * pow256(rest))) by (nonlinear_arith)
            requires
                pow256((s.len() - k) as nat) == 256 * pow256(rest),
        ;
        assert(be_uint(s) == be_uint(s.take(k + 1)) * pow256(rest) + be_uint(s.skip(k + 1)));
        assert(be_uint(s.take(k + 1)) * pow256(rest) == (256 * be_uint(s.take(k)) + s[k])
            * pow256(rest));
        assert(be_uint(s) == be_uint(s.take(k)) * (256 * pow256(rest)) + s[k] * pow256(rest)
            + be_uint(s.skip(k + 1)));
        assert(be_uint(s) == be_uint(s.take(k)) * pow256((s.len() - k) as nat) + be_uint(
            s.skip(k),
        ));
    }
}

} // verus!
