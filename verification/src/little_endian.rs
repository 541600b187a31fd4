//! Unsigned numbers as bytes, the least significant byte first.

use vstd::prelude::*;

verus! {

/// The number that `bytes` stand for.
pub open spec fn le_value(bytes: Seq<u8>) -> nat
    decreases bytes.len(),
{
    if bytes.len() == 0 {
        0
    } else {
        bytes[0] as nat + 256 * le_value(bytes.skip(1))
    }
}

/// `n` as `width` bytes; higher bytes of `n` are cut off.
pub open spec fn le_bytes(n: nat, width: nat) -> Seq<u8>
    decreases width,
{
    if width == 0 {
        Seq::empty()
    } else {
        seq![(n % 256) as u8] + le_bytes(n / 256, (width - 1) as nat)
    }
}

/// How many numbers fit in `width` bytes.
pub open spec fn le_range(width: nat) -> nat
    decreases width,
{
    if width == 0 {
        1
    } else {
        256 * le_range((width - 1) as nat)
    }
}

/// `n` as `width` bytes is `width` bytes long.
pub proof fn le_bytes_len(n: nat, width: nat)
    ensures
        le_bytes(n, width).len() == width,
    decreases width,
{
    if width > 0 {
        le_bytes_len(n / 256, (width - 1) as nat);
    }
}

/// A number written as `width` bytes is read back from them, where it fits.
pub proof fn le_bytes_read_back(n: nat, width: nat)
    requires
        n < le_range(width),
    ensures
        le_value(le_bytes(n, width)) == n,
    decreases width,
{
    if width > 0 {
        le_bytes_read_back(n / 256, (width - 1) as nat);
        assert(le_bytes(n, width).skip(1) =~= le_bytes(n / 256, (width - 1) as nat));
    }
}

/// What some bytes stand for, written as that many bytes, gives those bytes again.
pub proof fn le_value_written_back(bytes: Seq<u8>)
    ensures
        le_bytes(le_value(bytes), bytes.len()) == bytes,
    decreases bytes.len(),
{
    if bytes.len() > 0 {
        le_value_written_back(bytes.skip(1));
        assert(bytes =~= seq![bytes[0]] + bytes.skip(1));
    }
}

pub(crate) proof fn lemma_le_value_bound(bytes: Seq<u8>)
    ensures
        le_value(bytes) < le_range(bytes.len()),
    decreases bytes.len(),
{
    if bytes.len() > 0 {
        lemma_le_value_bound(bytes.skip(1));
    }
}

pub(crate) proof fn lemma_le_ranges()
    ensures
        le_range(2) == 0x1_0000,
        le_range(4) == 0x1_0000_0000,
        le_range(8) == 0x1_0000_0000_0000_0000,
{
    reveal_with_fuel(le_range, 9);
}

proof fn lemma_le_range_monotonic(narrow: nat, wide: nat)
    requires
        narrow <= wide,
    ensures
        1 <= le_range(narrow) <= le_range(wide),
    decreases wide,
{
    if narrow < wide {
        lemma_le_range_monotonic(narrow, (wide - 1) as nat);
    } else if narrow > 0 {
        lemma_le_range_monotonic((narrow - 1) as nat, (narrow - 1) as nat);
    }
}

/// The number that the `width` bytes from `at` on stand for.
pub fn read_le(bytes: &[u8], at: usize, width: usize) -> (value: u64)
    requires
        width <= 8,
        at + width <= bytes@.len(),
    ensures
        value == le_value(bytes@.subrange(at as int, at + width)),
        value < le_range(width as nat),
{
    let mut value: u64 = 0;
    let mut left: usize = width;
    assert(bytes@.len() == bytes.len());
    while left > 0
        invariant
            left <= width <= 8,
            at + width <= bytes@.len() <= usize::MAX,
            value == le_value(bytes@.subrange(at + left, at + width)),
        decreases left,
    {
        let byte: u8 = bytes[at + left - 1];
        proof {
            let rest = bytes@.subrange(at + left, at + width);
            let next = bytes@.subrange(at + left - 1, at + width);
            assert(next.skip(1) =~= rest);
            lemma_le_value_bound(next);
            lemma_le_range_monotonic(next.len(), 8);
            lemma_le_ranges();
        }
        value = byte as u64 + 256 * value;
        left = left - 1;
    }
    proof {
        lemma_le_value_bound(bytes@.subrange(at as int, at + width));
    }
    value
}

/// Writes `n` as `width` bytes behind `out`.
pub fn push_le(out: &mut Vec<u8>, n: u64, width: usize)
    ensures
        final(out)@ == old(out)@ + le_bytes(n as nat, width as nat),
{
    let mut rest: u64 = n;
    let mut left: usize = width;
    let ghost start = out@;
    while left > 0
        invariant
            left <= width,
            start + le_bytes(n as nat, width as nat) == out@ + le_bytes(rest as nat, left as nat),
        decreases left,
    {
        let ghost before = out@;
        out.push((rest % 256) as u8);
        proof {
            assert(before + le_bytes(rest as nat, left as nat) =~= out@ + le_bytes(
                rest as nat / 256,
                (left - 1) as nat,
            ));
        }
        rest = rest / 256;
        left = left - 1;
    }
    assert(out@ + le_bytes(rest as nat, 0) =~= out@);
}

/// What two bytes stand for: the second one counts 256 times.
pub proof fn two_bytes_by_weight(bytes: Seq<u8>)
    requires
        bytes.len() == 2,
    ensures
        le_value(bytes) == bytes[0] + 256 * bytes[1],
{
    reveal_with_fuel(le_value, 3);
}

/// What four bytes stand for: each one counts 256 times what the one in front of it does.
pub proof fn four_bytes_by_weight(bytes: Seq<u8>)
    requires
        bytes.len() == 4,
    ensures
        le_value(bytes) == bytes[0] + 0x100 * bytes[1] + 0x1_0000 * bytes[2] + 0x100_0000 * bytes[3],
{
    two_bytes_by_weight(bytes.skip(1).skip(1));
    assert(bytes.skip(1).skip(1) =~= bytes.skip(2));
    assert(le_value(bytes.skip(1)) == bytes[1] + 256 * le_value(bytes.skip(1).skip(1)));
}

/// What eight bytes stand for: the last four count 2 to the power of 32 times.
pub proof fn eight_bytes_by_weight(bytes: Seq<u8>)
    requires
        bytes.len() == 8,
    ensures
        le_value(bytes) == bytes[0] + 0x100 * bytes[1] + 0x1_0000 * bytes[2] + 0x100_0000 * bytes[3]
            + 0x1_0000_0000 * (bytes[4] + 0x100 * bytes[5] + 0x1_0000 * bytes[6] + 0x100_0000
            * bytes[7]),
{
    let back = bytes.skip(4);
    four_bytes_by_weight(back);
    assert(bytes.skip(3).skip(1) =~= back);
    assert(bytes.skip(2).skip(1) =~= bytes.skip(3));
    assert(bytes.skip(1).skip(1) =~= bytes.skip(2));
    assert(le_value(bytes.skip(3)) == bytes[3] + 256 * le_value(back));
    assert(le_value(bytes.skip(2)) == bytes[2] + 256 * le_value(bytes.skip(3)));
    assert(le_value(bytes.skip(1)) == bytes[1] + 256 * le_value(bytes.skip(2)));
}

/// A number of 32 bits is written as the four bytes that stand for it.
pub proof fn four_bytes_written(n: nat)
    requires
        n <= u32::MAX,
    ensures
        ({
            let bytes = le_bytes(n, 4);
            &&& bytes.len() == 4
            &&& n == bytes[0] + 0x100 * bytes[1] + 0x1_0000 * bytes[2] + 0x100_0000 * bytes[3]
        }),
{
    lemma_le_ranges();
    le_bytes_len(n, 4);
    le_bytes_read_back(n, 4);
    four_bytes_by_weight(le_bytes(n, 4));
}

/// A number of 64 bits is written as the eight bytes that stand for it.
pub proof fn eight_bytes_written(n: nat)
    requires
        n <= u64::MAX,
    ensures
        ({
            let bytes = le_bytes(n, 8);
            &&& bytes.len() == 8
            &&& n == bytes[0] + 0x100 * bytes[1] + 0x1_0000 * bytes[2] + 0x100_0000 * bytes[3]
                + 0x1_0000_0000 * (bytes[4] + 0x100 * bytes[5] + 0x1_0000 * bytes[6] + 0x100_0000
                * bytes[7])
        }),
{
    lemma_le_ranges();
    le_bytes_len(n, 8);
    le_bytes_read_back(n, 8);
    eight_bytes_by_weight(le_bytes(n, 8));
}

/// Bytes that stand for the same number, and are as many, are the same.
pub proof fn same_number_means_same_bytes(left: Seq<u8>, right: Seq<u8>)
    requires
        left.len() == right.len(),
    ensures
        le_value(left) == le_value(right) <==> left == right,
{
    le_value_written_back(left);
    le_value_written_back(right);
}

/// The first byte counts once, and what stands behind it counts 256 times, however many bytes there are;
/// a number is written with its remainder by 256 first.
pub proof fn first_byte_counts_once(byte: u8, rest: Seq<u8>, n: nat, width: nat)
    ensures
        le_value(Seq::empty()) == 0,
        le_value(seq![byte] + rest) == byte + 256 * le_value(rest),
        le_bytes(n, 0).len() == 0,
        le_bytes(n, width + 1)[0] == n % 256,
        le_bytes(n, width + 1).skip(1) == le_bytes(n / 256, width),
        le_range(0) == 1,
        le_range(width + 1) == 256 * le_range(width),
{
    assert((seq![byte] + rest).skip(1) =~= rest);
    assert(le_bytes(n, width + 1).skip(1) =~= le_bytes(n / 256, width));
}

} // verus!
