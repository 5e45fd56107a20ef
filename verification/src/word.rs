//! Big-endian numbers as they appear in 32-byte payload words.

use vstd::prelude::*;

verus! {

/// Number of bytes in one payload word.
pub const WORD: usize = 32;

/// `256^n`.
pub open spec fn pow256(n: nat) -> nat
    decreases n,
{
    if n == 0 {
        1
    } else {
        256 * pow256((n - 1) as nat)
    }
}

/// The number that `bytes` spells, most significant byte first.
pub open spec fn be_nat(bytes: Seq<u8>) -> nat
    decreases bytes.len(),
{
    if bytes.len() == 0 {
        0
    } else {
        be_nat(bytes.drop_last()) * 256 + bytes.last() as nat
    }
}

/// The `len` low-order base-256 digits of `value`, most significant first.
pub open spec fn be_seq(value: nat, len: nat) -> Seq<u8>
    decreases len,
{
    if len == 0 {
        Seq::empty()
    } else {
        be_seq(value / 256, (len - 1) as nat).push((value % 256) as u8)
    }
}

/// A sequence of `len` zero bytes.
pub open spec fn zeros(len: nat) -> Seq<u8> {
    Seq::new(len, |i: int| 0u8)
}

/// A power of 256 is positive.
pub proof fn lemma_pow256_positive(n: nat)
    ensures
        pow256(n) > 0,
    decreases n,
{
    if n > 0 {
        lemma_pow256_positive((n - 1) as nat);
    }
}

/// Powers of 256 rise with the exponent.
pub proof fn lemma_pow256_monotonic(a: nat, b: nat)
    requires
        a <= b,
    ensures
        pow256(a) <= pow256(b),
    decreases b,
{
    if a < b {
        lemma_pow256_monotonic(a, (b - 1) as nat);
        lemma_pow256_positive((b - 1) as nat);
    }
}

/// A byte string of length `n` spells a number below `256^n`.
pub proof fn lemma_be_nat_bound(bytes: Seq<u8>)
    ensures
        be_nat(bytes) < pow256(bytes.len()),
    decreases bytes.len(),
{
    if bytes.len() > 0 {
        lemma_be_nat_bound(bytes.drop_last());
    }
}

/// A number written in `len` digits takes `len` bytes.
pub proof fn lemma_be_seq_len(value: nat, len: nat)
    ensures
        be_seq(value, len).len() == len,
    decreases len,
{
    if len > 0 {
        lemma_be_seq_len(value / 256, (len - 1) as nat);
    }
}

/// Writing a number that fits in `len` digits and reading it back gives the
/// number.
pub proof fn lemma_be_nat_of_be_seq(value: nat, len: nat)
    requires
        value < pow256(len),
    ensures
        be_nat(be_seq(value, len)) == value,
    decreases len,
{
    if len > 0 {
        let rest = be_seq(value / 256, (len - 1) as nat);
        assert(value / 256 < pow256((len - 1) as nat)) by (nonlinear_arith)
            requires
                value < 256 * pow256((len - 1) as nat),
        ;
        lemma_be_nat_of_be_seq(value / 256, (len - 1) as nat);
        assert(be_seq(value, len).drop_last() =~= rest);
        assert(be_seq(value, len).last() == (value % 256) as u8);
    }
}

/// Reading a byte string and writing the number back in the same width gives
/// the byte string.
pub proof fn lemma_be_seq_of_be_nat(bytes: Seq<u8>)
    ensures
        be_seq(be_nat(bytes), bytes.len()) == bytes,
    decreases bytes.len(),
{
    if bytes.len() > 0 {
        let value = be_nat(bytes);
        let init = bytes.drop_last();
        lemma_be_seq_of_be_nat(init);
        assert(value / 256 == be_nat(init));
        assert(value % 256 == bytes.last() as nat);
        assert(be_seq(value, bytes.len()) =~= bytes);
    } else {
        assert(be_seq(be_nat(bytes), 0) =~= bytes);
    }
}

/// What a concatenation spells.
pub proof fn lemma_be_nat_concat(a: Seq<u8>, b: Seq<u8>)
    ensures
        be_nat(a + b) == be_nat(a) * pow256(b.len()) + be_nat(b),
    decreases b.len(),
{
    if b.len() == 0 {
        assert(a + b =~= a);
        assert(pow256(0) == 1);
    } else {
        let init = b.drop_last();
        let high = pow256(init.len());
        lemma_be_nat_concat(a, init);
        assert((a + b).drop_last() =~= a + init);
        assert((a + b).last() == b.last());
        assert(pow256(b.len()) == 256 * high);
        assert(be_nat(a + b) == be_nat(a + init) * 256 + b.last() as nat);
        assert(be_nat(b) == be_nat(init) * 256 + b.last() as nat);
        assert((be_nat(a) * high + be_nat(init)) * 256 == be_nat(a) * (256 * high) + be_nat(init)
            * 256) by (nonlinear_arith);
    }
}

/// Zero bytes spell zero.
pub proof fn lemma_be_nat_zeros(len: nat)
    ensures
        be_nat(zeros(len)) == 0,
    decreases len,
{
    if len > 0 {
        lemma_be_nat_zeros((len - 1) as nat);
        assert(zeros(len).drop_last() =~= zeros((len - 1) as nat));
    }
}

/// A number below `256^k` written in `len >= k` digits starts with
/// `len - k` zero bytes, followed by its `k`-digit form.
pub proof fn lemma_be_seq_leading_zeros(value: nat, k: nat, len: nat)
    requires
        k <= len,
        value < pow256(k),
    ensures
        be_seq(value, len) == zeros((len - k) as nat) + be_seq(value, k),
{
    let padded = zeros((len - k) as nat) + be_seq(value, k);
    lemma_be_seq_len(value, k);
    lemma_be_nat_concat(zeros((len - k) as nat), be_seq(value, k));
    lemma_be_nat_zeros((len - k) as nat);
    lemma_be_nat_of_be_seq(value, k);
    assert(be_nat(padded) == value) by (nonlinear_arith)
        requires
            be_nat(padded) == 0 * pow256(k) + value,
    ;
    lemma_be_seq_of_be_nat(padded);
}

/// The powers of 256 at the widths of the machine integers.
pub proof fn lemma_pow256_widths()
    ensures
        pow256(1) == 0x100,
        pow256(2) == 0x1_0000,
        pow256(8) == 0x1_0000_0000_0000_0000,
        pow256(10) == 0x1_0000_0000_0000_0000_0000,
        pow256(16) == 0x1_0000_0000_0000_0000_0000_0000_0000_0000,
{
    reveal_with_fuel(pow256, 17);
}

/// Appends the `len` low-order base-256 digits of `value` to `out`, most
/// significant first, for a `len` within the width of `value`.
fn push_digits(out: &mut Vec<u8>, value: u128, len: usize)
    requires
        len <= 16,
    ensures
        final(out)@ == old(out)@ + be_seq(value as nat, len as nat),
    decreases len,
{
    if len > 0 {
        push_digits(out, value / 256, len - 1);
        out.push((value % 256) as u8);
        assert(out@ =~= old(out)@ + be_seq(value as nat, len as nat));
    } else {
        assert(out@ =~= old(out)@ + be_seq(value as nat, len as nat));
    }
}

/// Appends the `len` low-order base-256 digits of `value` to `out`, most
/// significant first. Digits beyond the width of `value` are zero.
pub fn push_be(out: &mut Vec<u8>, value: u128, len: usize)
    ensures
        final(out)@ == old(out)@ + be_seq(value as nat, len as nat),
{
    if len > 16 {
        proof {
            lemma_pow256_widths();
            lemma_be_seq_leading_zeros(value as nat, 16, len as nat);
        }
        push_zeros(out, len - 16);
        push_digits(out, value, 16);
        assert(out@ =~= old(out)@ + be_seq(value as nat, len as nat));
    } else {
        push_digits(out, value, len);
    }
}

/// Appends `value` as one payload word.
pub fn push_word(out: &mut Vec<u8>, value: u128)
    ensures
        final(out)@ == old(out)@ + be_seq(value as nat, WORD as nat),
{
    push_be(out, value, WORD);
}

/// Appends a copy of `bytes` to `out`.
pub fn push_bytes(out: &mut Vec<u8>, bytes: &[u8])
    ensures
        final(out)@ == old(out)@ + bytes@,
{
    let mut i: usize = 0;
    while i < bytes.len()
        invariant
            i <= bytes.len(),
            out@ == old(out)@ + bytes@.subrange(0, i as int),
        decreases bytes.len() - i,
    {
        out.push(bytes[i]);
        i = i + 1;
        assert(out@ =~= old(out)@ + bytes@.subrange(0, i as int));
    }
    assert(bytes@.subrange(0, i as int) =~= bytes@);
}

/// Appends `count` zero bytes to `out`.
pub fn push_zeros(out: &mut Vec<u8>, count: usize)
    ensures
        final(out)@ == old(out)@ + zeros(count as nat),
{
    let mut i: usize = 0;
    while i < count
        invariant
            i <= count,
            out@ == old(out)@ + zeros(i as nat),
        decreases count - i,
    {
        out.push(0u8);
        i = i + 1;
        assert(out@ =~= old(out)@ + zeros(i as nat));
    }
}

/// The number spelled by `len` bytes of `bytes` from `start`.
pub fn read_be(bytes: &[u8], start: usize, len: usize) -> (value: u128)
    requires
        len <= 16,
        start + len <= bytes.len(),
    ensures
        value == be_nat(bytes@.subrange(start as int, start + len)),
{
    let mut value: u128 = 0;
    let mut i: usize = 0;
    assert(bytes@.subrange(start as int, start as int) =~= Seq::<u8>::empty());
    while i < len
        invariant
            i <= len <= 16,
            start + len <= bytes.len(),
            value == be_nat(bytes@.subrange(start as int, start + i)),
        decreases len - i,
    {
        let ghost seen = bytes@.subrange(start as int, start + i);
        let ghost next = bytes@.subrange(start as int, start + i + 1);
        proof {
            lemma_be_nat_bound(seen);
            lemma_pow256_monotonic(i as nat, 15);
            lemma_pow256_widths();
            assert(pow256(16) == 256 * pow256(15));
            assert(next.drop_last() =~= seen);
            assert(next.last() == bytes@[start + i]);
        }
        value = value * 256 + bytes[start + i] as u128;
        i = i + 1;
    }
    value
}

/// Whether the bytes of `bytes` from `start` up to `end` are all zero.
pub fn is_zero_range(bytes: &[u8], start: usize, end: usize) -> (zero: bool)
    requires
        start <= end <= bytes.len(),
    ensures
        zero == (bytes@.subrange(start as int, end as int) == zeros((end - start) as nat)),
{
    let mut i: usize = start;
    while i < end
        invariant
            start <= i <= end <= bytes.len(),
            bytes@.subrange(start as int, i as int) == zeros((i - start) as nat),
        decreases end - i,
    {
        if bytes[i] != 0 {
            assert(bytes@.subrange(start as int, end as int)[i - start] != 0);
            return false;
        }
        i = i + 1;
        assert(bytes@.subrange(start as int, i as int) =~= zeros((i - start) as nat)) by {
            let old_range = bytes@.subrange(start as int, i - 1);
            assert(forall|k: int| 0 <= k < i - 1 - start ==> old_range[k] == 0u8);
            assert forall|k: int| 0 <= k < i - start implies bytes@.subrange(
                start as int,
                i as int,
            )[k] == 0u8 by {
                if k < i - 1 - start {
                    assert(old_range[k] == 0u8);
                }
            }
        }
    }
    true
}

/// Writing zero in any width gives zero bytes.
pub proof fn lemma_be_seq_zero(len: nat)
    ensures
        be_seq(0, len) == zeros(len),
{
    lemma_pow256_positive(0);
    lemma_be_seq_leading_zeros(0, 0, len);
    assert(zeros(len) + be_seq(0, 0) =~= zeros(len));
}

/// A byte string spells a number below `256^k` exactly when all but its last
/// `k` bytes are zero; the last `k` bytes then spell the same number.
pub proof fn lemma_be_nat_fits(bytes: Seq<u8>, k: nat)
    requires
        k <= bytes.len(),
    ensures
        be_nat(bytes) < pow256(k) <==> bytes.subrange(0, bytes.len() - k) == zeros(
            (bytes.len() - k) as nat,
        ),
        be_nat(bytes) < pow256(k) ==> be_nat(bytes) == be_nat(
            bytes.subrange(bytes.len() - k, bytes.len() as int),
        ),
{
    let split = bytes.len() - k;
    let high = bytes.subrange(0, split);
    let low = bytes.subrange(split, bytes.len() as int);
    assert(bytes =~= high + low);
    lemma_be_nat_concat(high, low);
    lemma_be_nat_bound(low);
    if high == zeros(split as nat) {
        lemma_be_nat_zeros(split as nat);
        assert(be_nat(bytes) == be_nat(low)) by (nonlinear_arith)
            requires
                be_nat(bytes) == be_nat(high) * pow256(k) + be_nat(low),
                be_nat(high) == 0,
        ;
    } else {
        lemma_be_seq_of_be_nat(high);
        if be_nat(high) == 0 {
            lemma_be_seq_zero(split as nat);
        }
        assert(be_nat(bytes) >= pow256(k)) by (nonlinear_arith)
            requires
                be_nat(bytes) == be_nat(high) * pow256(k) + be_nat(low),
                be_nat(high) >= 1,
        ;
    }
}

/// The number that a payload word spells, if it fits in `width` bytes.
pub fn read_uint(word: &[u8], width: usize) -> (value: Option<u128>)
    requires
        word.len() == WORD,
        width <= 16,
    ensures
        match value {
            Some(v) => v == be_nat(word@),
            None => be_nat(word@) >= pow256(width as nat),
        },
        value is Some <==> be_nat(word@) < pow256(width as nat),
{
    proof {
        lemma_be_nat_fits(word@, width as nat);
        lemma_be_nat_bound(word@.subrange(WORD - width, WORD as int));
    }
    if is_zero_range(word, 0, WORD - width) {
        Some(read_be(word, WORD - width, width))
    } else {
        None
    }
}

} // verus!
