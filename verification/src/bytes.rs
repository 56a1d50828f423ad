use vstd::prelude::*;
use vstd::arithmetic::div_mod::{
    lemma_fundamental_div_mod_converse, lemma_mod_multiples_vanish, lemma_small_mod,
};
use vstd::arithmetic::power2::{lemma2_to64, lemma_pow2_adds, lemma_pow2_pos, pow2};

use crate::word::{p128, p192, p256, p64, Word};

verus! {

/// The unsigned value of a byte sequence read big-endian: the first byte is
/// the most significant.
pub open spec fn bytes_val(s: Seq<u8>) -> nat
    decreases s.len(),
{
    if s.len() == 0 {
        0
    } else {
        (bytes_val(s.drop_last()) * 256 + s.last()) as nat
    }
}

/// The named powers of two of the word type are powers of two.
pub proof fn lemma_pow2_consts()
    ensures
        pow2(8) == 256,
        pow2(64) == p64(),
        pow2(128) == p128(),
        pow2(192) == p192(),
        pow2(256) == p256(),
{
    lemma2_to64();
    lemma_pow2_adds(64, 64);
    lemma_pow2_adds(128, 64);
    lemma_pow2_adds(192, 64);
}

/// A big-endian value is bounded by the power of its width.
pub proof fn lemma_bytes_val_bound(s: Seq<u8>)
    ensures
        bytes_val(s) < pow2(8 * s.len()),
    decreases s.len(),
{
    if s.len() == 0 {
        lemma2_to64();
    } else {
        lemma_bytes_val_bound(s.drop_last());
        lemma_pow2_adds(8 * (s.len() - 1) as nat, 8);
        lemma2_to64();
        assert(bytes_val(s.drop_last()) * 256 <= (pow2(8 * (s.len() - 1) as nat) - 1) * 256)
            by (nonlinear_arith)
            requires
                bytes_val(s.drop_last()) <= pow2(8 * (s.len() - 1) as nat) - 1,
        ;
    }
}

/// Concatenation shifts the left part by the width of the right part.
pub proof fn lemma_bytes_val_concat(s: Seq<u8>, t: Seq<u8>)
    ensures
        bytes_val(s + t) == bytes_val(s) * pow2(8 * t.len()) + bytes_val(t),
    decreases t.len(),
{
    if t.len() == 0 {
        assert(s + t =~= s);
        lemma2_to64();
        assert(bytes_val(t) == 0);
        assert(pow2(8 * t.len()) == 1);
        assert(bytes_val(s + t) == bytes_val(s) * pow2(8 * t.len()) + bytes_val(t));
    } else {
        let n1 = (t.len() - 1) as nat;
        lemma_bytes_val_concat(s, t.drop_last());
        assert((s + t).drop_last() =~= s + t.drop_last());
        assert((s + t).last() == t.last());
        assert(bytes_val(s + t) == bytes_val(s + t.drop_last()) * 256 + t.last());
        lemma_pow2_adds(8 * n1, 8);
        lemma2_to64();
        assert(pow2(8 * t.len()) == pow2(8 * n1) * 256);
        assert((bytes_val(s) * pow2(8 * n1) + bytes_val(t.drop_last())) * 256 == bytes_val(s) * (
        pow2(8 * n1) * 256) + bytes_val(t.drop_last()) * 256) by (nonlinear_arith);
        assert(bytes_val(s) * (pow2(8 * n1) * 256) == bytes_val(s) * pow2(8 * t.len()));
        assert(bytes_val(s + t) == bytes_val(s) * pow2(8 * t.len()) + bytes_val(t));
    }
}

/// A run of zero bytes has value zero.
pub proof fn lemma_bytes_val_zeros(s: Seq<u8>)
    requires
        forall|i: int| 0 <= i < s.len() ==> s[i] == 0,
    ensures
        bytes_val(s) == 0,
    decreases s.len(),
{
    if s.len() > 0 {
        lemma_bytes_val_zeros(s.drop_last());
    }
}

/// The low `j` bytes of a big-endian value are its remainder modulo the
/// corresponding power of two.
pub proof fn lemma_bytes_val_suffix(s: Seq<u8>, j: int)
    requires
        0 <= j <= s.len(),
    ensures
        bytes_val(s) % pow2((8 * j) as nat) == bytes_val(s.subrange(s.len() - j, s.len() as int)),
{
    let n = s.len() as int;
    let p = s.subrange(0, n - j);
    let t = s.subrange(n - j, n);
    assert(s =~= p + t);
    lemma_bytes_val_concat(p, t);
    lemma_pow2_pos((8 * j) as nat);
    let m = pow2((8 * j) as nat);
    assert(t.len() == j);
    assert(bytes_val(s) == bytes_val(p) * m + bytes_val(t));
    lemma_mod_multiples_vanish(bytes_val(p) as int, bytes_val(t) as int, m as int);
    assert(m * bytes_val(p) == bytes_val(p) * m) by (nonlinear_arith);
    lemma_bytes_val_bound(t);
    lemma_small_mod(bytes_val(t), m);
}

/// Byte `i` of a big-endian sequence, recovered from its value by shifting
/// and masking arithmetic.
pub proof fn lemma_bytes_val_byte(s: Seq<u8>, i: int)
    requires
        0 <= i < s.len(),
    ensures
        bytes_val(s) / pow2((8 * (s.len() - 1 - i)) as nat) % 256 == s[i],
{
    let n = s.len() as int;
    let p = s.subrange(0, i + 1);
    let t = s.subrange(i + 1, n);
    assert(s =~= p + t);
    lemma_bytes_val_concat(p, t);
    let d = pow2((8 * (n - 1 - i)) as nat);
    lemma_pow2_pos((8 * (n - 1 - i)) as nat);
    lemma_bytes_val_bound(t);
    lemma_fundamental_div_mod_converse(
        bytes_val(s) as int,
        d as int,
        bytes_val(p) as int,
        bytes_val(t) as int,
    );
    assert(bytes_val(s) / d == bytes_val(p));
    assert(p.last() == s[i]);
    lemma_mod_multiples_vanish(bytes_val(p.drop_last()) as int, s[i] as int, 256);
    lemma_small_mod(s[i] as nat, 256);
}

/// Appends the eight bytes of one 64-bit limb, most significant first.
fn push_limb_be(v: &mut Vec<u8>, l: u64)
    ensures
        final(v)@.len() == old(v)@.len() + 8,
        bytes_val(final(v)@) == bytes_val(old(v)@) * p64() + l,
        final(v)@.subrange(0, old(v)@.len() as int) == old(v)@,
{
    proof {
        assert(l == ((l >> 56) & 0xff) * 0x100000000000000 + ((l >> 48) & 0xff) * 0x1000000000000
            + ((l >> 40) & 0xff) * 0x10000000000 + ((l >> 32) & 0xff) * 0x100000000 + ((l >> 24)
            & 0xff) * 0x1000000 + ((l >> 16) & 0xff) * 0x10000 + ((l >> 8) & 0xff) * 0x100 + (l
            & 0xff)) by (bit_vector);
        assert(((l >> 56) & 0xff) < 256 && ((l >> 48) & 0xff) < 256 && ((l >> 40) & 0xff) < 256
            && ((l >> 32) & 0xff) < 256 && ((l >> 24) & 0xff) < 256 && ((l >> 16) & 0xff) < 256
            && ((l >> 8) & 0xff) < 256 && (l & 0xff) < 256) by (bit_vector);
    }
    let b0: u8 = ((l >> 56) & 0xff) as u8;
    let b1: u8 = ((l >> 48) & 0xff) as u8;
    let b2: u8 = ((l >> 40) & 0xff) as u8;
    let b3: u8 = ((l >> 32) & 0xff) as u8;
    let b4: u8 = ((l >> 24) & 0xff) as u8;
    let b5: u8 = ((l >> 16) & 0xff) as u8;
    let b6: u8 = ((l >> 8) & 0xff) as u8;
    let b7: u8 = (l & 0xff) as u8;
    let ghost s0 = v@;
    v.push(b0);
    proof {
        assert(v@.drop_last() =~= s0);
        assert(bytes_val(v@) == bytes_val(s0) * 256 + b0);
    }
    let ghost s1 = v@;
    v.push(b1);
    proof {
        assert(v@.drop_last() =~= s1);
        assert(bytes_val(v@) == bytes_val(s1) * 256 + b1);
    }
    let ghost s2 = v@;
    v.push(b2);
    proof {
        assert(v@.drop_last() =~= s2);
        assert(bytes_val(v@) == bytes_val(s2) * 256 + b2);
    }
    let ghost s3 = v@;
    v.push(b3);
    proof {
        assert(v@.drop_last() =~= s3);
        assert(bytes_val(v@) == bytes_val(s3) * 256 + b3);
    }
    let ghost s4 = v@;
    v.push(b4);
    proof {
        assert(v@.drop_last() =~= s4);
        assert(bytes_val(v@) == bytes_val(s4) * 256 + b4);
    }
    let ghost s5 = v@;
    v.push(b5);
    proof {
        assert(v@.drop_last() =~= s5);
        assert(bytes_val(v@) == bytes_val(s5) * 256 + b5);
    }
    let ghost s6 = v@;
    v.push(b6);
    proof {
        assert(v@.drop_last() =~= s6);
        assert(bytes_val(v@) == bytes_val(s6) * 256 + b6);
    }
    let ghost s7 = v@;
    v.push(b7);
    proof {
        assert(v@.drop_last() =~= s7);
        assert(bytes_val(v@) == bytes_val(s7) * 256 + b7);
        assert(bytes_val(v@) == bytes_val(s0) * p64() + (b0 * 0x100000000000000 + b1
            * 0x1000000000000 + b2 * 0x10000000000 + b3 * 0x100000000 + b4 * 0x1000000 + b5
            * 0x10000 + b6 * 0x100 + b7));
        assert(v@.subrange(0, s0.len() as int) =~= s0);
    }
}

/// The 32 bytes of a word, big-endian: the most significant byte first.
pub fn word_to_be_bytes(w: &Word) -> (r: Vec<u8>)
    ensures
        r@.len() == 32,
        bytes_val(r@) == w.as_nat(),
{
    let mut v: Vec<u8> = Vec::new();
    push_limb_be(&mut v, w.limb3);
    push_limb_be(&mut v, w.limb2);
    push_limb_be(&mut v, w.limb1);
    push_limb_be(&mut v, w.limb0);
    proof {
        assert((w.limb3 * p64() + w.limb2) * p64() == w.limb3 * p128() + w.limb2 * p64())
            by (nonlinear_arith);
        assert((w.limb3 * p128() + w.limb2 * p64() + w.limb1) * p64() == w.limb3 * p192()
            + w.limb2 * p128() + w.limb1 * p64()) by (nonlinear_arith);
    }
    v
}

/// Reads one 64-bit limb from eight bytes, most significant first.
fn limb_from_be_bytes(v: &Vec<u8>, start: usize) -> (r: u64)
    requires
        start + 8 <= v@.len(),
    ensures
        r == bytes_val(v@.subrange(start as int, start + 8)),
{
    let n: usize = v.len();
    let ghost s = v@;
    let mut l: u64 = v[start] as u64;
    proof {
        lemma2_to64();
        assert(s.subrange(start as int, start + 1).drop_last() =~= s.subrange(
            start as int,
            start as int,
        ));
        assert(bytes_val(s.subrange(start as int, start as int)) == 0);
        assert(s.subrange(start as int, start + 1).last() == s[start as int]);
        assert(bytes_val(s.subrange(start as int, start + 1)) == s[start as int]);
    }
    let mut k: usize = 1;
    while k < 8
        invariant
            start + 8 <= n,
            n == v@.len(),
            1 <= k <= 8,
            v@ == s,
            l == bytes_val(s.subrange(start as int, start + k)),
            l < pow2((8 * k) as nat),
        decreases 8 - k,
    {
        proof {
            lemma_bytes_val_bound(s.subrange(start as int, start + k));
            lemma_pow2_adds((8 * k) as nat, 8);
            lemma2_to64();
            assert(l * 256 <= (pow2((8 * k) as nat) - 1) * 256) by (nonlinear_arith)
                requires
                    l <= pow2((8 * k) as nat) - 1,
            ;
            assert((pow2((8 * k) as nat) - 1) * 256 + 255 < pow2((8 * (k + 1)) as nat))
                by (nonlinear_arith)
                requires
                    pow2((8 * (k + 1)) as nat) == pow2((8 * k) as nat) * 256,
                    pow2((8 * k) as nat) >= 1,
            ;
            assert(pow2((8 * (k + 1)) as nat) <= pow2(64)) by {
                if k < 7 {
                    lemma_pow2_adds((8 * (k + 1)) as nat, (64 - 8 * (k + 1)) as nat);
                    lemma_pow2_pos((64 - 8 * (k + 1)) as nat);
                    assert(pow2((8 * (k + 1)) as nat) * pow2((64 - 8 * (k + 1)) as nat) >= pow2(
                        (8 * (k + 1)) as nat,
                    ) * 1) by (nonlinear_arith)
                        requires
                            pow2((64 - 8 * (k + 1)) as nat) >= 1,
                    ;
                }
            }
            assert(s.subrange(start as int, start + k + 1).drop_last() =~= s.subrange(
                start as int,
                start + k,
            ));
        }
        l = l * 256 + (v[start + k] as u64);
        k = k + 1;
    }
    l
}

/// Big-endian byte `i` of a word: the value shifted down by the bytes
/// below it, masked to one byte.
pub fn word_byte(w: &Word, i: usize) -> (r: u8)
    requires
        i < 32,
    ensures
        r == (w.as_nat() / pow2((8 * (31 - i)) as nat)) % 256,
{
    let bytes = word_to_be_bytes(w);
    let b = bytes[i];
    proof {
        lemma_bytes_val_byte(bytes@, i as int);
    }
    b
}

/// The word truncated to its low `size` bytes: its value modulo the
/// corresponding power of two.
pub fn word_truncate_bytes(w: &Word, size: usize) -> (r: Word)
    requires
        size < 32,
    ensures
        r.as_nat() == w.as_nat() % pow2((8 * size) as nat),
{
    let bytes = word_to_be_bytes(w);
    let mut out: Vec<u8> = Vec::new();
    let mut k: usize = 0;
    while k < 32
        invariant
            k <= 32,
            size < 32,
            bytes@.len() == 32,
            out@.len() == k,
            forall|i: int|
                0 <= i < k ==> out@[i] == (if i < 32 - size {
                    0u8
                } else {
                    bytes@[i]
                }),
        decreases 32 - k,
    {
        if k < 32 - size {
            out.push(0);
        } else {
            let b = bytes[k];
            out.push(b);
        }
        k = k + 1;
    }
    let r = word_from_be_bytes(&out);
    proof {
        let z = out@.subrange(0, 32 - size);
        let t = out@.subrange(32 - size, 32);
        assert(out@ =~= z + t);
        lemma_bytes_val_zeros(z);
        lemma_bytes_val_concat(z, t);
        assert(t =~= bytes@.subrange(32 - size, 32));
        lemma_bytes_val_suffix(bytes@, size as int);
    }
    r
}

/// A word from 32 big-endian bytes.
pub fn word_from_be_bytes(v: &Vec<u8>) -> (r: Word)
    requires
        v@.len() == 32,
    ensures
        r.as_nat() == bytes_val(v@),
{
    let limb3 = limb_from_be_bytes(v, 0);
    let limb2 = limb_from_be_bytes(v, 8);
    let limb1 = limb_from_be_bytes(v, 16);
    let limb0 = limb_from_be_bytes(v, 24);
    proof {
        let s = v@;
        lemma_pow2_consts();
        assert(s.subrange(0, 16) =~= s.subrange(0, 8) + s.subrange(8, 16));
        lemma_bytes_val_concat(s.subrange(0, 8), s.subrange(8, 16));
        assert(s.subrange(0, 24) =~= s.subrange(0, 16) + s.subrange(16, 24));
        lemma_bytes_val_concat(s.subrange(0, 16), s.subrange(16, 24));
        assert(s =~= s.subrange(0, 24) + s.subrange(24, 32));
        lemma_bytes_val_concat(s.subrange(0, 24), s.subrange(24, 32));
        assert((limb3 * p64() + limb2) * p64() == limb3 * p128() + limb2 * p64())
            by (nonlinear_arith);
        assert((limb3 * p128() + limb2 * p64() + limb1) * p64() == limb3 * p192() + limb2 * p128()
            + limb1 * p64()) by (nonlinear_arith);
    }
    Word { limb0, limb1, limb2, limb3 }
}

} // verus!
