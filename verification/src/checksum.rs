//! The Internet checksum (RFC 1071) used by IPv4 and ICMP.

use vstd::prelude::*;

verus! {

/// The 16-bit big-endian word that starts at byte `i`; a missing low byte
/// (odd-length input) counts as zero.
pub open spec fn word_at(s: Seq<u8>, i: int) -> nat {
    (s[i] as nat) * 256 + (if i + 1 < s.len() { s[i + 1] as nat } else { 0 })
}

/// Sum of all 16-bit big-endian words of `s`, without carry folding.
pub open spec fn word_sum(s: Seq<u8>) -> nat
    decreases s.len(),
{
    if s.len() == 0 {
        0
    } else if s.len() == 1 {
        word_at(s, 0)
    } else {
        word_at(s, 0) + word_sum(s.subrange(2, s.len() as int))
    }
}

/// End-around carry folding: adds the high half into the low half until the
/// value fits in 16 bits.
pub open spec fn fold16(x: nat) -> nat
    decreases x,
{
    if x < 0x10000 {
        x
    } else {
        proof {
            lemma_fold_step_decreases(x);
        }
        fold16(x % 0x10000 + x / 0x10000)
    }
}

/// The Internet checksum of `s`: the ones' complement of the folded word sum.
pub open spec fn checksum_spec(s: Seq<u8>) -> u16 {
    (0xffff - fold16(word_sum(s))) as u16
}

pub proof fn lemma_fold_step_decreases(x: nat)
    requires
        x >= 0x10000,
    ensures
        x % 0x10000 + x / 0x10000 < x,
{
    assert(x % 0x10000 + x / 0x10000 < x) by (nonlinear_arith)
        requires
            x >= 0x10000,
    ;
}

/// One folding step keeps the value modulo 0xffff and keeps a positive value positive.
proof fn lemma_fold_step(x: nat)
    requires
        x >= 0x10000,
    ensures
        (x % 0x10000 + x / 0x10000) % 0xffff == x % 0xffff,
        x % 0x10000 + x / 0x10000 > 0,
{
    let q = x / 0x10000;
    let r = x % 0x10000;
    assert(x == 0x10000 * q + r && q >= 1) by (nonlinear_arith)
        requires
            x >= 0x10000,
            q == x / 0x10000,
            r == x % 0x10000,
    ;
    assert((q + r) % 0xffff == (0x10000 * q + r) % 0xffff) by (nonlinear_arith)
        requires
            q >= 0,
            r >= 0,
    {
        assert(0x10000 * q + r == (q + r) + 0xffff * q);
        vstd::arithmetic::div_mod::lemma_mod_multiples_vanish(q as int, (q + r) as int, 0xffff);
    }
}

/// Folding preserves the residue modulo 0xffff, stays within 16 bits, and is
/// zero only for zero.
pub proof fn lemma_fold16(x: nat)
    ensures
        fold16(x) < 0x10000,
        fold16(x) % 0xffff == x % 0xffff,
        x > 0 ==> fold16(x) > 0,
        x == 0 ==> fold16(x) == 0,
    decreases x,
{
    if x >= 0x10000 {
        lemma_fold_step_decreases(x);
        lemma_fold_step(x);
        lemma_fold16(x % 0x10000 + x / 0x10000);
    }
}

/// Unfolds `word_sum` at an even offset of a longer sequence.
proof fn lemma_word_sum_skip(s: Seq<u8>, i: int)
    requires
        0 <= i < s.len(),
    ensures
        word_sum(s.subrange(i, s.len() as int)) == word_at(s, i) + word_sum(
            s.subrange(if i + 2 <= s.len() { i + 2 } else { s.len() as int }, s.len() as int),
        ),
{
    let t = s.subrange(i, s.len() as int);
    assert(word_at(t, 0) == word_at(s, i));
    if t.len() >= 2 {
        assert(t.subrange(2, t.len() as int) =~= s.subrange(i + 2, s.len() as int));
    } else {
        assert(s.subrange(s.len() as int, s.len() as int) =~= Seq::<u8>::empty());
    }
}

/// Overwriting the word at an even offset `k` changes the word sum by the
/// difference of the two words.
pub proof fn lemma_word_sum_update(s: Seq<u8>, k: int, hi: u8, lo: u8)
    requires
        0 <= k,
        k + 1 < s.len(),
        k % 2 == 0,
    ensures
        word_sum(s.update(k, hi).update(k + 1, lo)) + word_at(s, k) == word_sum(s) + (hi as nat)
            * 256 + (lo as nat),
    decreases k,
{
    let t = s.update(k, hi).update(k + 1, lo);
    if k == 0 {
        assert(t.subrange(2, t.len() as int) =~= s.subrange(2, s.len() as int));
    } else {
        let s2 = s.subrange(2, s.len() as int);
        lemma_word_sum_update(s2, k - 2, hi, lo);
        assert(t.subrange(2, t.len() as int) =~= s2.update(k - 2, hi).update(k - 1, lo));
        assert(word_at(s2, k - 2) == word_at(s, k));
        assert(word_at(t, 0) == word_at(s, 0));
    }
}

/// A buffer whose checksum field (an even offset `k`, zero while the checksum
/// was computed) holds the checksum of the buffer verifies to zero.
pub proof fn lemma_checksum_field_verifies(s: Seq<u8>, k: int)
    requires
        0 <= k,
        k + 1 < s.len(),
        k % 2 == 0,
        s[k] == 0,
        s[k + 1] == 0,
    ensures
        checksum_spec(
            s.update(k, (checksum_spec(s) / 256) as u8).update(
                k + 1,
                (checksum_spec(s) % 256) as u8,
            ),
        ) == 0,
{
    let c = checksum_spec(s);
    let total = word_sum(s);
    lemma_fold16(total);
    let f = fold16(total);
    assert(c == 0xffff - f);
    lemma_word_sum_update(s, k, (c / 256) as u8, (c % 256) as u8);
    let t = s.update(k, (c / 256) as u8).update(k + 1, (c % 256) as u8);
    assert(word_at(s, k) == 0);
    assert(((c / 256) as u8 as nat) * 256 + ((c % 256) as u8 as nat) == c as nat);
    let total2 = word_sum(t);
    assert(total2 == total + 0xffff - f);
    lemma_fold16(total2);
    assert(total2 > 0);
    assert(total2 % 0xffff == 0) by {
        assert((total + 0xffff - f) % 0xffff == 0) by (nonlinear_arith)
            requires
                f % 0xffff == total % 0xffff,
                f <= total,
        {
            vstd::arithmetic::div_mod::lemma_sub_mod_noop(total as int, f as int, 0xffff);
            vstd::arithmetic::div_mod::lemma_mod_add_multiples_vanish(
                (total - f) as int,
                0xffff,
            );
        }
    }
    assert(fold16(total2) == 0xffff);
}

/// `s` with its 16-bit field at even offset `k` set to the checksum of `s`
/// taken while that field is zero.
pub open spec fn with_checksum(s: Seq<u8>, k: int) -> Seq<u8> {
    let z = s.update(k, 0).update(k + 1, 0);
    let c = checksum_spec(z);
    z.update(k, (c / 256) as u8).update(k + 1, (c % 256) as u8)
}

/// A buffer whose checksum field was filled in by the Internet checksum
/// verifies to zero.
pub proof fn lemma_with_checksum_verifies(s: Seq<u8>, k: int)
    requires
        0 <= k,
        k + 1 < s.len(),
        k % 2 == 0,
    ensures
        checksum_spec(with_checksum(s, k)) == 0,
        with_checksum(s, k).len() == s.len(),
{
    let z = s.update(k, 0).update(k + 1, 0);
    lemma_checksum_field_verifies(z, k);
}

/// Internet checksum of `bytes[start..end]`.
pub fn checksum_of_range(bytes: &[u8], start: usize, end: usize) -> (checksum: u16)
    requires
        start <= end <= bytes@.len(),
        end - start <= 131074,
    ensures
        checksum == checksum_spec(bytes@.subrange(start as int, end as int)),
{
    let ghost s = bytes@.subrange(0, end as int);
    let mut sum: u32 = 0;
    let mut i: usize = start;
    proof {
        assert(s.subrange(start as int, end as int) =~= bytes@.subrange(start as int, end as int));
    }
    while i < end
        invariant
            s == bytes@.subrange(0, end as int),
            start <= i <= end,
            end <= bytes@.len(),
            end - start <= 131074,
            (i - start) % 2 == 0 || i == end,
            sum as nat + word_sum(s.subrange(i as int, end as int)) == word_sum(
                s.subrange(start as int, end as int),
            ),
            sum <= ((i - start + 1) / 2) * 0xffff,
        decreases end - i,
    {
        proof {
            lemma_word_sum_skip(s, i as int);
        }
        if i + 1 < end {
            let word: u32 = (bytes[i] as u32) * 256 + (bytes[i + 1] as u32);
            assert(word as nat == word_at(s, i as int));
            assert(sum + word <= ((i - start + 3) / 2) * 0xffff) by (nonlinear_arith)
                requires
                    sum <= ((i - start + 1) / 2) * 0xffff,
                    word <= 0xffff,
                    (i - start) % 2 == 0,
            ;
            sum = sum + word;
            i = i + 2;
        } else {
            let word: u32 = (bytes[i] as u32) * 256;
            assert(word as nat == word_at(s, i as int));
            assert(sum + word <= ((i - start + 2) / 2) * 0xffff) by (nonlinear_arith)
                requires
                    sum <= ((i - start + 1) / 2) * 0xffff,
                    word <= 0xffff,
                    (i - start) % 2 == 0,
            ;
            proof {
                assert(s.subrange(end as int, end as int) =~= Seq::<u8>::empty());
            }
            sum = sum + word;
            i = end;
        }
    }
    proof {
        assert(s.subrange(end as int, end as int) =~= Seq::<u8>::empty());
    }
    while (sum >> 16) != 0
        invariant
            fold16(sum as nat) == fold16(word_sum(s.subrange(start as int, end as int))),
        decreases sum,
    {
        let ghost old_sum = sum;
        assert(sum >> 16 == sum / 0x10000 && sum & 0xffff == sum % 0x10000) by (bit_vector);
        proof {
            lemma_fold_step_decreases(sum as nat);
        }
        sum = (sum & 0xffff) + (sum >> 16);
        assert(fold16(old_sum as nat) == fold16(sum as nat));
    }
    assert(sum >> 16 == sum / 0x10000) by (bit_vector);
    let low: u16 = sum as u16;
    assert(!low == (0xffff - low) as u16) by (bit_vector);
    !low
}

/// Internet checksum used by IPv4 and ICMP.
pub fn internet_checksum(bytes: &[u8]) -> (checksum: u16)
    requires
        bytes@.len() <= 131074,
    ensures
        checksum == checksum_spec(bytes@),
{
    proof {
        assert(bytes@.subrange(0, bytes@.len() as int) =~= bytes@);
    }
    checksum_of_range(bytes, 0, bytes.len())
}

} // verus!
