//! The Internet checksum (RFC 1071): a one's-complement sum over 16-bit
//! big-endian words, with the carries folded back in and the result
//! complemented.  Both the IPv4 header checksum and the UDP checksum use
//! this routine.

use vstd::prelude::*;
use vstd::arithmetic::div_mod::{
    lemma_add_mod_noop, lemma_fundamental_div_mod, lemma_mod_multiples_vanish,
    lemma_mod_sub_multiples_vanish, lemma_small_mod,
};

verus! {

/// Fold the carry bits of a sum back into its low 16 bits until the
/// sum fits in 16 bits.
pub open spec fn fold_carries(sum: nat) -> nat
    decreases sum,
{
    if sum <= 0xffff {
        sum
    } else {
        fold_carries(sum % 0x10000 + sum / 0x10000)
    }
}

/// The plain (32-bit-and-wider) sum of a sequence of 16-bit words.
pub open spec fn sum_words(ws: Seq<u16>) -> nat
    decreases ws.len(),
{
    if ws.len() == 0 {
        0
    } else {
        sum_words(ws.drop_last()) + ws.last() as nat
    }
}

/// The Internet checksum of a sequence of 16-bit words: the one's
/// complement of the folded one's-complement sum.
pub open spec fn checksum_spec(ws: Seq<u16>) -> u16 {
    (0xffff - fold_carries(sum_words(ws))) as u16
}

/// The 16-bit big-endian word with high byte `hi` and low byte `lo`.
pub open spec fn be16(hi: u8, lo: u8) -> u16 {
    ((hi as int) * 256 + (lo as int)) as u16
}

/// A byte sequence read as big-endian 16-bit words; an unpaired final
/// byte is the high byte of a word whose low byte is zero.
pub open spec fn words_of_bytes(b: Seq<u8>) -> Seq<u16> {
    Seq::new(
        (b.len() + 1) / 2,
        |i: int|
            if 2 * i + 1 < b.len() {
                be16(b[2 * i], b[2 * i + 1])
            } else {
                be16(b[2 * i], 0)
            },
    )
}

proof fn lemma_fold_step(s: nat)
    requires
        s > 0xffff,
    ensures
        s % 0x10000 + s / 0x10000 < s,
        0 < s % 0x10000 + s / 0x10000,
        (s % 0x10000 + s / 0x10000) % 0xffff == s % 0xffff,
{
    let q = s / 0x10000;
    let r = s % 0x10000;
    lemma_fundamental_div_mod(s as int, 0x10000);
    assert(q >= 1);
    assert(s as int == 0xffff * (q as int) + (q + r));
    lemma_mod_multiples_vanish(q as int, (q + r) as int, 0xffff);
    assert(0xffff * (q as int) >= 0xffff) by (nonlinear_arith)
        requires q >= 1;
}

/// The folded sum is at most `0xffff`, never exceeds the sum, keeps the
/// sum's residue modulo `0xffff`, and is zero exactly when the sum is.
pub proof fn lemma_fold_carries_props(s: nat)
    ensures
        fold_carries(s) <= 0xffff,
        fold_carries(s) <= s,
        fold_carries(s) % 0xffff == s % 0xffff,
        (fold_carries(s) == 0) <==> (s == 0),
    decreases s,
{
    if s > 0xffff {
        lemma_fold_step(s);
        lemma_fold_carries_props(s % 0x10000 + s / 0x10000);
    }
}

/// A value at most `0xffff` with the sum's residue and the sum's
/// zero-ness is the folded sum.
proof fn lemma_fold_unique(a: nat, s: nat)
    requires
        a <= 0xffff,
        a % 0xffff == s % 0xffff,
        (a == 0) <==> (s == 0),
    ensures
        a == fold_carries(s),
{
    lemma_fold_carries_props(s);
    let f = fold_carries(s);
    if a < 0xffff {
        lemma_small_mod(a, 0xffff);
    }
    if f < 0xffff {
        lemma_small_mod(f, 0xffff);
    }
}

/// Summing distributes over concatenation.
pub proof fn lemma_sum_words_concat(a: Seq<u16>, b: Seq<u16>)
    ensures
        sum_words(a + b) == sum_words(a) + sum_words(b),
    decreases b.len(),
{
    if b.len() == 0 {
        assert(a + b =~= a);
    } else {
        assert((a + b).drop_last() =~= a + b.drop_last());
        assert((a + b).last() == b.last());
        lemma_sum_words_concat(a, b.drop_last());
    }
}

/// Replacing one word changes the sum by the difference of the words.
pub proof fn lemma_sum_words_update(ws: Seq<u16>, i: int, v: u16)
    requires
        0 <= i < ws.len(),
    ensures
        sum_words(ws.update(i, v)) + ws[i] == sum_words(ws) + v,
    decreases ws.len(),
{
    if i == ws.len() - 1 {
        assert(ws.update(i, v).drop_last() =~= ws.drop_last());
        assert(ws.update(i, v).last() == v);
    } else {
        assert(ws.update(i, v).drop_last() =~= ws.drop_last().update(i, v));
        assert(ws.update(i, v).last() == ws.last());
        lemma_sum_words_update(ws.drop_last(), i, v);
        assert(ws.drop_last()[i] == ws[i]);
    }
}

/// Law: a stored checksum verifies to zero.  Take any words `ws` whose
/// checksum slot (position `i`) is zero, and write the computed checksum
/// of `ws` into that slot; the checksum of the result is `0x0000`.
/// Validating a received checksum is therefore "recompute over the data
/// with the stored value in place and compare to zero".
pub proof fn lemma_checksum_validates(ws: Seq<u16>, i: int)
    requires
        0 <= i < ws.len(),
        ws[i] == 0,
    ensures
        checksum_spec(ws.update(i, checksum_spec(ws))) == 0,
{
    let s = sum_words(ws);
    lemma_fold_carries_props(s);
    let f = fold_carries(s);
    let c = checksum_spec(ws);
    assert(c == 0xffff - f);
    lemma_sum_words_update(ws, i, c);
    let s2 = sum_words(ws.update(i, c));
    assert(s2 == s + 0xffff - f);
    lemma_fold_carries_props(s2);
    let f2 = fold_carries(s2);
    // s2 and 0 share a residue modulo 0xffff, since s and f do.
    lemma_add_mod_noop(s as int, 0xffff - f, 0xffff);
    if f < 0xffff {
        lemma_small_mod(f, 0xffff);
        if f > 0 {
            lemma_small_mod((0xffff - f) as nat, 0xffff);
        }
    }
    assert(s2 % 0xffff == 0);
    // s2 > 0: either f < 0xffff pads the sum, or f == 0xffff <= s == s2.
    assert(s2 > 0);
    // A folded value that is zero modulo 0xffff and nonzero is 0xffff.
    if f2 < 0xffff {
        lemma_small_mod(f2, 0xffff);
    }
    assert(f2 == 0xffff);
}

/// The big-endian word of two bytes.
pub(crate) fn be16_join(hi: u8, lo: u8) -> (w: u16)
    ensures
        w == be16(hi, lo),
{
    (hi as u16) * 256 + (lo as u16)
}

/// Computes the Internet checksum of a sequence of 16-bit words:
/// sum into a wide accumulator, fold the carries, complement.
pub fn checksum_words(ws: &[u16]) -> (c: u16)
    ensures
        c == checksum_spec(ws@),
{
    let n = ws.len();
    let mut acc: u32 = 0;
    let mut k: usize = 0;
    while k < n
        invariant
            n == ws@.len(),
            k <= n,
            acc <= 0xffff,
            acc % 0xffff == sum_words(ws@.take(k as int)) % 0xffff,
            (acc == 0) <==> (sum_words(ws@.take(k as int)) == 0),
        decreases n - k,
    {
        let w = ws[k];
        let ghost prefix = ws@.take(k as int);
        let ghost s_old = sum_words(prefix);
        let mut t: u32 = acc + (w as u32);
        proof {
            assert(ws@.take(k + 1) =~= prefix + seq![w]);
            assert(seq![w].drop_last() =~= Seq::<u16>::empty());
            assert(sum_words(Seq::<u16>::empty()) == 0);
            assert(sum_words(seq![w]) == w);
            lemma_sum_words_concat(prefix, seq![w]);
            assert(sum_words(ws@.take(k + 1)) == s_old + w);
            lemma_add_mod_noop(acc as int, w as int, 0xffff);
            lemma_add_mod_noop(s_old as int, w as int, 0xffff);
            assert((acc + w) % 0xffff == (s_old + w) % 0xffff);
        }
        if t > 0xffff {
            proof {
                assert(t & 0xffff == t % 0x10000 && t >> 16 == t / 0x10000) by (bit_vector);
                lemma_fundamental_div_mod(t as int, 0x10000);
                assert(t / 0x10000 == 1);
                assert(t % 0x10000 + t / 0x10000 == t - 0xffff);
                lemma_mod_sub_multiples_vanish(t as int, 0xffff);
            }
            t = (t & 0xffff) + (t >> 16);
        }
        acc = t;
        k = k + 1;
    }
    proof {
        assert(ws@.take(k as int) =~= ws@);
        lemma_fold_unique(acc as nat, sum_words(ws@));
    }
    0xffff - (acc as u16)
}

/// The byte sequence read as big-endian words, an unpaired final byte
/// padded with a zero low byte.
pub fn words_from_bytes(b: &[u8]) -> (ws: Vec<u16>)
    ensures
        ws@ == words_of_bytes(b@),
{
    let n = b.len();
    let mut ws: Vec<u16> = Vec::new();
    let mut k: usize = 0;
    while k < n / 2
        invariant
            n == b@.len(),
            k <= n / 2,
            ws@.len() == k,
            forall|j: int| 0 <= j < k ==> ws@[j] == words_of_bytes(b@)[j],
        decreases n / 2 - k,
    {
        ws.push(be16_join(b[2 * k], b[2 * k + 1]));
        k = k + 1;
    }
    if 2 * k < n {
        ws.push(be16_join(b[2 * k], 0));
        k = k + 1;
    }
    proof {
        assert(ws@ =~= words_of_bytes(b@));
    }
    ws
}

/// Computes the Internet checksum of a byte sequence, treating it as
/// big-endian 16-bit words and zero-padding an unpaired final byte.
pub fn checksum_bytes(b: &[u8]) -> (c: u16)
    ensures
        c == checksum_spec(words_of_bytes(b@)),
{
    let ws = words_from_bytes(b);
    checksum_words(ws.as_slice())
}

} // verus!
