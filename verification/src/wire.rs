//! The numeric primitives of the wire format: fixed-width little-endian
//! integers, two's complement for the signed ones, and the compact
//! variable-length integer that prefixes every sequence.

use crate::error::Error;
use vstd::prelude::*;

verus! {

/// 256 to the power of `width`: the number of values that `width` bytes can hold.
pub open spec fn pow256(width: nat) -> nat
    decreases width,
{
    if width == 0 {
        1
    } else {
        256 * pow256((width - 1) as nat)
    }
}

/// The `width` low-order bytes of `n`, least significant first.
pub open spec fn le_bytes(n: nat, width: nat) -> Seq<u8>
    decreases width,
{
    if width == 0 {
        Seq::empty()
    } else {
        seq![(n % 256) as u8] + le_bytes(n / 256, (width - 1) as nat)
    }
}

/// The number that `bytes` spell, least significant byte first.
pub open spec fn le_value(bytes: Seq<u8>) -> nat
    decreases bytes.len(),
{
    if bytes.len() == 0 {
        0
    } else {
        bytes[0] as nat + 256 * le_value(bytes.drop_first())
    }
}

/// Whether `width` is a width in bytes that integers of the wire format have.
pub open spec fn is_int_width(width: nat) -> bool {
    width == 1 || width == 2 || width == 4 || width == 8 || width == 16
}

/// Whether the signed number `i` fits into `width` bytes of two's complement.
pub open spec fn fits_signed(i: int, width: nat) -> bool {
    -(pow256(width) / 2) <= i < pow256(width) / 2
}

/// The unsigned number whose `width` bytes are the two's complement of `i`.
pub open spec fn twos_complement(i: int, width: nat) -> nat {
    if i >= 0 {
        i as nat
    } else {
        (pow256(width) + i) as nat
    }
}

/// The signed number that the unsigned `n` stands for in `width` bytes of two's complement.
pub open spec fn from_twos_complement(n: nat, width: nat) -> int {
    if n < pow256(width) / 2 {
        n as int
    } else {
        n - pow256(width)
    }
}

pub proof fn lemma_pow256_values()
    ensures
        pow256(0) == 1,
        pow256(1) == 0x100,
        pow256(2) == 0x1_0000,
        pow256(4) == 0x1_0000_0000,
        pow256(8) == 0x1_0000_0000_0000_0000,
        pow256(15) == 0x1_0000_0000_0000_0000_0000_0000_0000_00,
        pow256(16) == 0x1_0000_0000_0000_0000_0000_0000_0000_0000,
{
    reveal_with_fuel(pow256, 17);
}

pub proof fn lemma_pow256_monotone(a: nat, b: nat)
    requires
        a <= b,
    ensures
        0 < pow256(a) <= pow256(b),
    decreases b,
{
    if b == 0 {
    } else if a == b {
        lemma_pow256_monotone(0, (b - 1) as nat);
    } else {
        lemma_pow256_monotone(a, (b - 1) as nat);
    }
}

pub proof fn lemma_le_bytes_len(n: nat, width: nat)
    ensures
        le_bytes(n, width).len() == width,
    decreases width,
{
    if width > 0 {
        lemma_le_bytes_len(n / 256, (width - 1) as nat);
    }
}

pub proof fn lemma_le_value_bound(bytes: Seq<u8>)
    ensures
        le_value(bytes) < pow256(bytes.len()),
    decreases bytes.len(),
{
    if bytes.len() > 0 {
        lemma_le_value_bound(bytes.drop_first());
    }
}

/// Reading back the little-endian bytes of a number that fits gives the number.
pub proof fn lemma_le_round_trip(n: nat, width: nat)
    requires
        n < pow256(width),
    ensures
        le_value(le_bytes(n, width)) == n,
    decreases width,
{
    if width > 0 {
        let rest = le_bytes(n / 256, (width - 1) as nat);
        let all = le_bytes(n, width);
        assert(all.drop_first() =~= rest);
        lemma_le_round_trip(n / 256, (width - 1) as nat);
    }
}

/// Writing the number that bytes spell gives the bytes back.
pub proof fn lemma_le_bytes_of_value(bytes: Seq<u8>)
    ensures
        le_bytes(le_value(bytes), bytes.len()) == bytes,
    decreases bytes.len(),
{
    if bytes.len() > 0 {
        let n = le_value(bytes);
        let tail = bytes.drop_first();
        lemma_le_bytes_of_value(tail);
        assert(n / 256 == le_value(tail));
        assert(n % 256 == bytes[0]);
        assert(le_bytes(n, bytes.len()) =~= bytes);
    }
}

/// Two's complement, read back, gives the signed number, and stays below `pow256(width)`.
pub proof fn lemma_twos_complement_round_trip(i: int, width: nat)
    requires
        fits_signed(i, width),
        width > 0,
    ensures
        twos_complement(i, width) < pow256(width),
        from_twos_complement(twos_complement(i, width), width) == i,
{
    lemma_pow256_monotone(1, width);
    lemma_pow256_values();
    assert(pow256(width) == 256 * pow256((width - 1) as nat));
}

/// The largest unsigned number of `width` bytes.
pub fn unsigned_max(width: u8) -> (max: u128)
    requires
        is_int_width(width as nat),
    ensures
        max == pow256(width as nat) - 1,
{
    proof {
        lemma_pow256_values();
    }
    if width == 1 {
        0xff
    } else if width == 2 {
        0xffff
    } else if width == 4 {
        0xffff_ffff
    } else if width == 8 {
        0xffff_ffff_ffff_ffff
    } else {
        0xffff_ffff_ffff_ffff_ffff_ffff_ffff_ffff
    }
}

/// The largest signed number of `width` bytes.
pub fn signed_max(width: u8) -> (max: u128)
    requires
        is_int_width(width as nat),
    ensures
        max == pow256(width as nat) / 2 - 1,
{
    proof {
        lemma_pow256_values();
    }
    if width == 1 {
        0x7f
    } else if width == 2 {
        0x7fff
    } else if width == 4 {
        0x7fff_ffff
    } else if width == 8 {
        0x7fff_ffff_ffff_ffff
    } else {
        0x7fff_ffff_ffff_ffff_ffff_ffff_ffff_ffff
    }
}

/// Appends a copy of `bytes`.
pub fn append_bytes(out: &mut Vec<u8>, bytes: &[u8])
    ensures
        final(out)@ == old(out)@ + bytes@,
{
    let mut i: usize = 0;
    while i < bytes.len()
        invariant
            i <= bytes@.len(),
            out@ == old(out)@ + bytes@.take(i as int),
        decreases bytes@.len() - i,
    {
        out.push(bytes[i]);
        assert(bytes@.take(i + 1) =~= bytes@.take(i as int).push(bytes@[i as int]));
        i = i + 1;
    }
    assert(bytes@.take(i as int) =~= bytes@);
}

/// Appends the `width` low-order bytes of `value`, least significant first.
pub fn write_le(out: &mut Vec<u8>, value: u128, width: u8)
    ensures
        final(out)@ == old(out)@ + le_bytes(value as nat, width as nat),
{
    let mut rest: u128 = value;
    let mut done: u8 = 0;
    while done < width
        invariant
            done <= width,
            old(out)@ + le_bytes(value as nat, width as nat) == out@ + le_bytes(
                rest as nat,
                (width - done) as nat,
            ),
        decreases width - done,
    {
        let low: u8 = (rest % 256) as u8;
        proof {
            let ahead = le_bytes(rest as nat, (width - done) as nat);
            let after = le_bytes((rest / 256) as nat, (width - done - 1) as nat);
            assert(ahead == seq![low] + after);
            assert(out@ + ahead =~= out@.push(low) + after);
        }
        out.push(low);
        rest = rest / 256;
        done = done + 1;
    }
    assert(le_bytes(rest as nat, 0) =~= Seq::<u8>::empty());
}

/// Reads the number that the `width` bytes from `start` on spell, least significant first.
pub fn read_le(bytes: &[u8], start: usize, width: u8) -> (value: u128)
    requires
        width <= 16,
        start + width <= bytes.len(),
    ensures
        value == le_value(bytes@.subrange(start as int, start + width)),
{
    let mut value: u128 = 0;
    let mut left: u8 = width;
    let end: usize = start + width as usize;
    assert(bytes@.subrange(end as int, end as int) =~= Seq::<u8>::empty());
    while left > 0
        invariant
            left <= width <= 16,
            end == start + width,
            end <= bytes@.len(),
            value == le_value(bytes@.subrange(start + left, end as int)),
        decreases left,
    {
        let at: usize = start + (left as usize - 1);
        let byte: u8 = bytes[at];
        proof {
            let tail = bytes@.subrange(start + left, end as int);
            let more = bytes@.subrange(at as int, end as int);
            assert(more.drop_first() =~= tail);
            assert(more[0] == byte);
            lemma_le_value_bound(tail);
            lemma_pow256_monotone(tail.len(), 15);
            lemma_pow256_values();
        }
        value = value * 256 + byte as u128;
        left = left - 1;
    }
    value
}

/// The compact form of a length: one, two or four bytes that hold `n` times four
/// plus the mode in their two lowest bits, or a marker byte and four bytes of `n`.
pub open spec fn compact_bytes(n: nat) -> Seq<u8> {
    if n < 0x40 {
        le_bytes(n * 4, 1)
    } else if n < 0x4000 {
        le_bytes(n * 4 + 1, 2)
    } else if n < 0x4000_0000 {
        le_bytes(n * 4 + 2, 4)
    } else {
        seq![3u8] + le_bytes(n, 4)
    }
}

/// The length that a compact prefix at the start of `bytes` holds, and how many
/// bytes the prefix takes. A prefix that is longer than its number needs, or that
/// announces more than four bytes, is no prefix of a length.
pub open spec fn spec_read_compact(bytes: Seq<u8>) -> Result<(nat, nat), Error> {
    if bytes.len() == 0 {
        Err(Error::TruncatedInput)
    } else if bytes[0] % 4 == 0 {
        Ok(((bytes[0] / 4) as nat, 1))
    } else if bytes[0] % 4 == 1 {
        if bytes.len() < 2 {
            Err(Error::TruncatedInput)
        } else if le_value(bytes.subrange(0, 2)) / 4 < 0x40 {
            Err(Error::ValueShapeMismatch)
        } else {
            Ok((le_value(bytes.subrange(0, 2)) / 4, 2))
        }
    } else if bytes[0] % 4 == 2 {
        if bytes.len() < 4 {
            Err(Error::TruncatedInput)
        } else if le_value(bytes.subrange(0, 4)) / 4 < 0x4000 {
            Err(Error::ValueShapeMismatch)
        } else {
            Ok((le_value(bytes.subrange(0, 4)) / 4, 4))
        }
    } else if bytes[0] != 3 {
        Err(Error::ValueShapeMismatch)
    } else if bytes.len() < 5 {
        Err(Error::TruncatedInput)
    } else if le_value(bytes.subrange(1, 5)) < 0x4000_0000 {
        Err(Error::ValueShapeMismatch)
    } else {
        Ok((le_value(bytes.subrange(1, 5)), 5))
    }
}

/// A compact prefix, read back, gives the length and its own size, whatever follows it.
pub proof fn lemma_compact_round_trip(n: nat, rest: Seq<u8>)
    requires
        n <= u32::MAX,
    ensures
        spec_read_compact(compact_bytes(n) + rest) == Ok::<(nat, nat), Error>(
            (n, compact_bytes(n).len()),
        ),
        1 <= compact_bytes(n).len() <= 5,
{
    lemma_pow256_values();
    let prefix = compact_bytes(n);
    let all = prefix + rest;
    if n < 0x40 {
        lemma_le_bytes_len(n * 4, 1);
        assert(all[0] == prefix[0]);
    } else if n < 0x4000 {
        lemma_le_bytes_len(n * 4 + 1, 2);
        lemma_le_round_trip(n * 4 + 1, 2);
        assert(all[0] == prefix[0]);
        assert(all.subrange(0, 2) =~= prefix);
    } else if n < 0x4000_0000 {
        lemma_le_bytes_len(n * 4 + 2, 4);
        lemma_le_round_trip(n * 4 + 2, 4);
        assert(all[0] == prefix[0]);
        assert(all.subrange(0, 4) =~= prefix);
    } else {
        lemma_le_bytes_len(n, 4);
        lemma_le_round_trip(n, 4);
        assert(all[0] == 3u8);
        assert(all.subrange(1, 5) =~= le_bytes(n, 4));
    }
}

/// What reads as a compact prefix is the compact form of the length it holds:
/// no other bytes are read as that length.
pub proof fn lemma_compact_is_canonical(bytes: Seq<u8>)
    requires
        spec_read_compact(bytes) is Ok,
    ensures
        ({
            let (n, used) = spec_read_compact(bytes)->Ok_0;
            &&& n <= u32::MAX
            &&& 1 <= used <= bytes.len()
            &&& compact_bytes(n) == bytes.take(used as int)
        }),
{
    lemma_pow256_values();
    let (n, used) = spec_read_compact(bytes)->Ok_0;
    let first = bytes[0];
    if first % 4 == 0 {
        assert(le_bytes(n * 4, 1) =~= seq![first]) by {
            reveal_with_fuel(le_bytes, 2);
        }
        assert(bytes.take(1) =~= seq![first]);
    } else if first % 4 == 1 {
        let spelled = bytes.subrange(0, 2);
        lemma_le_value_bound(spelled);
        lemma_le_bytes_of_value(spelled);
        assert(le_value(spelled) % 256 == first as nat) by {
            assert(spelled[0] == first);
        }
        assert(n * 4 + 1 == le_value(spelled));
        assert(bytes.take(2) =~= spelled);
    } else if first % 4 == 2 {
        let spelled = bytes.subrange(0, 4);
        lemma_le_value_bound(spelled);
        lemma_le_bytes_of_value(spelled);
        assert(le_value(spelled) % 256 == first as nat) by {
            assert(spelled[0] == first);
        }
        assert(n * 4 + 2 == le_value(spelled));
        assert(bytes.take(4) =~= spelled);
    } else {
        let spelled = bytes.subrange(1, 5);
        lemma_le_value_bound(spelled);
        lemma_le_bytes_of_value(spelled);
        assert(bytes.take(5) =~= seq![3u8] + spelled);
    }
}

/// The signed number that bytes spell fits their width, and its two's
/// complement is the unsigned number that they spell.
pub proof fn lemma_from_twos_complement(n: nat, width: nat)
    requires
        is_int_width(width),
        n < pow256(width),
    ensures
        fits_signed(from_twos_complement(n, width), width),
        twos_complement(from_twos_complement(n, width), width) == n,
{
    lemma_pow256_values();
}

/// Appends the compact form of `n`.
pub fn write_compact(out: &mut Vec<u8>, n: u32)
    ensures
        final(out)@ == old(out)@ + compact_bytes(n as nat),
{
    if n < 0x40 {
        write_le(out, n as u128 * 4, 1);
    } else if n < 0x4000 {
        write_le(out, n as u128 * 4 + 1, 2);
    } else if n < 0x4000_0000 {
        write_le(out, n as u128 * 4 + 2, 4);
    } else {
        out.push(3);
        write_le(out, n as u128, 4);
        assert(final(out)@ =~= old(out)@ + (seq![3u8] + le_bytes(n as nat, 4)));
    }
}

/// Reads the compact prefix that starts at `start`: the length it holds and the bytes it takes.
pub fn read_compact(bytes: &[u8], start: usize) -> (found: Result<(u32, usize), Error>)
    requires
        start <= bytes.len(),
    ensures
        match found {
            Ok((n, used)) => spec_read_compact(bytes@.skip(start as int)) == Ok::<
                (nat, nat),
                Error,
            >((n as nat, used as nat)),
            Err(e) => spec_read_compact(bytes@.skip(start as int)) == Err::<(nat, nat), Error>(
                e,
            ),
        },
{
    let ghost ahead = bytes@.skip(start as int);
    let left: usize = bytes.len() - start;
    if left == 0 {
        return Err(Error::TruncatedInput);
    }
    let first: u8 = bytes[start];
    assert(ahead[0] == first);
    let mode: u8 = first % 4;
    if mode == 0 {
        Ok(((first / 4) as u32, 1))
    } else if mode == 1 {
        if left < 2 {
            return Err(Error::TruncatedInput);
        }
        let raw: u128 = read_le(bytes, start, 2);
        proof {
            assert(ahead.subrange(0, 2) =~= bytes@.subrange(start as int, start + 2));
            lemma_le_value_bound(ahead.subrange(0, 2));
            lemma_pow256_values();
        }
        let n: u128 = raw / 4;
        if n < 0x40 {
            Err(Error::ValueShapeMismatch)
        } else {
            Ok((n as u32, 2))
        }
    } else if mode == 2 {
        if left < 4 {
            return Err(Error::TruncatedInput);
        }
        let raw: u128 = read_le(bytes, start, 4);
        proof {
            assert(ahead.subrange(0, 4) =~= bytes@.subrange(start as int, start + 4));
            lemma_le_value_bound(ahead.subrange(0, 4));
            lemma_pow256_values();
        }
        let n: u128 = raw / 4;
        if n < 0x4000 {
            Err(Error::ValueShapeMismatch)
        } else {
            Ok((n as u32, 4))
        }
    } else if first != 3 {
        Err(Error::ValueShapeMismatch)
    } else if left < 5 {
        Err(Error::TruncatedInput)
    } else {
        let n: u128 = read_le(bytes, start + 1, 4);
        proof {
            assert(ahead.subrange(1, 5) =~= bytes@.subrange(start + 1, start + 5));
            lemma_le_value_bound(ahead.subrange(1, 5));
            lemma_pow256_values();
        }
        if n < 0x4000_0000 {
            Err(Error::ValueShapeMismatch)
        } else {
            Ok((n as u32, 5))
        }
    }
}

} // verus!
