//! Big-endian numbers in byte strings.
//!
//! Every multi-byte field of a QUIC packet is written most significant byte
//! first.  This module says what number a run of bytes spells
//! ([`be_value`]), what bytes spell a number ([`be_bytes`]), and reads and
//! writes such runs.

use vstd::prelude::*;

verus! {

/// `256` to the power `n`: one more than the largest number that `n` bytes spell.
pub open spec fn radix(n: nat) -> nat
    decreases n,
{
    if n == 0 {
        1
    } else {
        256 * radix((n - 1) as nat)
    }
}

/// The number that `bytes` spell, most significant byte first.
pub open spec fn be_value(bytes: Seq<u8>) -> nat
    decreases bytes.len(),
{
    if bytes.len() == 0 {
        0
    } else {
        be_value(bytes.drop_last()) * 256 + bytes.last() as nat
    }
}

/// The `n` bytes that spell `value`, most significant byte first.  Where
/// `value` needs more than `n` bytes, these are its `n` least significant ones.
pub open spec fn be_bytes(value: nat, n: nat) -> Seq<u8>
    decreases n,
{
    if n == 0 {
        Seq::empty()
    } else {
        be_bytes(value / 256, (n - 1) as nat).push((value % 256) as u8)
    }
}

/// The powers of 256 that fit a 64-bit word, and the first that does not.
pub proof fn lemma_radix_table()
    ensures
        radix(0) == 1,
        radix(1) == 0x100,
        radix(2) == 0x1_0000,
        radix(3) == 0x100_0000,
        radix(4) == 0x1_0000_0000,
        radix(5) == 0x100_0000_0000,
        radix(6) == 0x1_0000_0000_0000,
        radix(7) == 0x100_0000_0000_0000,
        radix(8) == 0x1_0000_0000_0000_0000,
{
    reveal_with_fuel(radix, 9);
}

/// More bytes reach further.
pub proof fn lemma_radix_monotonic(a: nat, b: nat)
    requires
        a <= b,
    ensures
        radix(a) <= radix(b),
    decreases b,
{
    if a < b {
        lemma_radix_monotonic(a, (b - 1) as nat);
    }
}

/// A number spelled by `n` bytes is below `256` to the power `n`.
pub proof fn lemma_be_value_bound(bytes: Seq<u8>)
    ensures
        be_value(bytes) < radix(bytes.len()),
    decreases bytes.len(),
{
    if bytes.len() > 0 {
        lemma_be_value_bound(bytes.drop_last());
    }
}

/// A number whose most significant byte is below `limit` is below `limit`
/// times what the bytes after it can reach.
pub proof fn lemma_be_value_head_bound(bytes: Seq<u8>, limit: nat)
    requires
        bytes.len() >= 1,
        bytes[0] < limit,
    ensures
        be_value(bytes) < limit * radix((bytes.len() - 1) as nat),
    decreases bytes.len(),
{
    let front = bytes.drop_last();
    let reach = radix((bytes.len() - 1) as nat);
    if bytes.len() == 1 {
        assert(be_value(front) == 0);
        assert(reach == 1);
        assert(limit * reach == limit) by (nonlinear_arith)
            requires
                reach == 1,
        ;
    } else {
        lemma_be_value_head_bound(front, limit);
        let below = radix((bytes.len() - 2) as nat);
        assert(front[0] == bytes[0]);
        assert(reach == 256 * below);
        assert(limit * reach == (limit * below) * 256) by (nonlinear_arith)
            requires
                reach == 256 * below,
        ;
    }
}

/// The other way round: a number below `limit` times what `n - 1` bytes can
/// reach is spelled in `n` bytes with a first byte below `limit`.
pub proof fn lemma_be_bytes_head_bound(value: nat, n: nat, limit: nat)
    requires
        n >= 1,
        limit <= 256,
        value < limit * radix((n - 1) as nat),
    ensures
        be_bytes(value, n).len() == n,
        be_bytes(value, n)[0] < limit,
    decreases n,
{
    lemma_be_bytes_len(value, n);
    let shorter = be_bytes(value / 256, (n - 1) as nat);
    lemma_be_bytes_len(value / 256, (n - 1) as nat);
    let reach = radix((n - 1) as nat);
    if n == 1 {
        assert(reach == 1);
        assert(limit * reach == limit) by (nonlinear_arith)
            requires
                reach == 1,
        ;
        assert(be_bytes(value, n)[0] == (value % 256) as u8);
    } else {
        let below = radix((n - 2) as nat);
        assert(reach == 256 * below);
        assert(limit * reach == (limit * below) * 256) by (nonlinear_arith)
            requires
                reach == 256 * below,
        ;
        lemma_be_bytes_head_bound(value / 256, (n - 1) as nat, limit);
        assert(be_bytes(value, n)[0] == shorter[0]);
    }
}

/// Only zero bytes spell zero.
pub proof fn lemma_be_value_zero(bytes: Seq<u8>)
    ensures
        be_value(bytes) == 0 <==> (forall|i: int| 0 <= i < bytes.len() ==> bytes[i] == 0),
    decreases bytes.len(),
{
    if bytes.len() > 0 {
        let front = bytes.drop_last();
        lemma_be_value_zero(front);
        if be_value(bytes) == 0 {
            assert forall|i: int| 0 <= i < bytes.len() implies bytes[i] == 0 by {
                if i < front.len() {
                    assert(front[i] == bytes[i]);
                }
            }
        }
        if forall|i: int| 0 <= i < bytes.len() ==> bytes[i] == 0 {
            assert forall|i: int| 0 <= i < front.len() implies front[i] == 0 by {
                assert(front[i] == bytes[i]);
            }
        }
    }
}

/// A single byte spells itself.
pub proof fn lemma_be_value_single(b: u8)
    ensures
        be_value(seq![b]) == b,
{
    let s = seq![b];
    assert(s.drop_last().len() == 0);
    assert(be_value(s.drop_last()) == 0);
    assert(s.last() == b);
}

/// `be_bytes` gives as many bytes as it was asked for.
pub proof fn lemma_be_bytes_len(value: nat, n: nat)
    ensures
        be_bytes(value, n).len() == n,
    decreases n,
{
    if n > 0 {
        lemma_be_bytes_len(value / 256, (n - 1) as nat);
    }
}

/// Reading back what was written gives the number again, if it fits.
pub proof fn lemma_be_value_of_bytes(value: nat, n: nat)
    requires
        value < radix(n),
    ensures
        be_value(be_bytes(value, n)) == value,
    decreases n,
{
    if n > 0 {
        let rest = be_bytes(value / 256, (n - 1) as nat);
        lemma_be_value_of_bytes(value / 256, (n - 1) as nat);
        assert(be_bytes(value, n).drop_last() =~= rest);
    }
}

/// Writing out what was read gives the bytes again: two runs of one length
/// that spell the same number are the same run.
pub proof fn lemma_be_bytes_of_value(bytes: Seq<u8>)
    ensures
        be_bytes(be_value(bytes), bytes.len()) == bytes,
    decreases bytes.len(),
{
    if bytes.len() > 0 {
        let front = bytes.drop_last();
        lemma_be_bytes_of_value(front);
        assert(be_value(bytes) / 256 == be_value(front));
        assert(be_value(bytes) % 256 == bytes.last());
        assert(be_bytes(be_value(bytes), bytes.len()) =~= bytes);
    }
}

/// Reads the `n` bytes of `buf` that start at `start` as the less significant
/// bytes of a number whose most significant byte is `head`.
pub(crate) fn read_be_onto(head: u8, buf: &[u8], start: usize, n: usize) -> (value: u64)
    requires
        n <= 7,
        start + n <= buf@.len(),
    ensures
        value == be_value(seq![head] + buf@.subrange(start as int, start + n)),
{
    let ghost run = seq![head] + buf@.subrange(start as int, start + n);
    let mut value: u64 = head as u64;
    let mut i: usize = 0;
    proof {
        lemma_be_value_single(head);
        lemma_radix_table();
        assert(run.subrange(0, 1) =~= seq![head]);
        assert(buf@.len() == buf.len());
    }
    while i < n
        invariant
            i <= n <= 7,
            start + n <= buf@.len() <= usize::MAX,
            run == seq![head] + buf@.subrange(start as int, start + n),
            value == be_value(run.subrange(0, i + 1)),
            value < radix((i + 1) as nat),
        decreases n - i,
    {
        let byte: u8 = buf[start + i];
        proof {
            let longer = run.subrange(0, i + 2);
            assert(longer.drop_last() =~= run.subrange(0, i + 1));
            assert(longer.last() == byte);
            lemma_radix_monotonic((i + 2) as nat, 8);
            lemma_radix_table();
        }
        value = value * 256 + byte as u64;
        i += 1;
    }
    proof {
        assert(run.subrange(0, n + 1) =~= run);
    }
    value
}

/// Reads the `n` bytes of `buf` that start at `start` as one number.
pub(crate) fn read_be(buf: &[u8], start: usize, n: usize) -> (value: u64)
    requires
        n <= 8,
        start + n <= buf@.len(),
    ensures
        value == be_value(buf@.subrange(start as int, start + n)),
{
    if n == 0 {
        0
    } else {
        proof {
            assert(seq![buf@[start as int]] + buf@.subrange(start + 1, start + n)
                =~= buf@.subrange(start as int, start + n));
        }
        read_be_onto(buf[start], buf, start + 1, n - 1)
    }
}

/// Writes `value` out in `n` bytes.
pub(crate) fn write_be(value: u64, n: usize) -> (bytes: Vec<u8>)
    requires
        n <= 8,
    ensures
        bytes@ == be_bytes(value as nat, n as nat),
{
    let mut bytes: Vec<u8> = Vec::new();
    let mut rest: u64 = value;
    let mut i: usize = 0;
    while i < n
        invariant
            i <= n,
            bytes@.len() == i,
            be_bytes(value as nat, n as nat) == be_bytes(rest as nat, (n - i) as nat) + bytes@,
        decreases n - i,
    {
        let low: u8 = (rest % 256) as u8;
        let ghost written = bytes@;
        proof {
            let shorter = be_bytes((rest / 256) as nat, (n - i - 1) as nat);
            assert(be_bytes(rest as nat, (n - i) as nat) == shorter.push(low));
            assert(shorter.push(low) + written =~= shorter + (seq![low] + written));
        }
        bytes.insert(0, low);
        rest = rest / 256;
        i += 1;
        proof {
            assert(bytes@ =~= seq![low] + written);
        }
    }
    proof {
        assert(be_bytes(rest as nat, 0) + bytes@ =~= bytes@);
    }
    bytes
}

} // verus!
