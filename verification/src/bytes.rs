//! Little-endian integers inside byte strings.

use vstd::prelude::*;

verus! {

/// The `width` low-order bytes of `value`, least significant byte first.
pub open spec fn le_bytes(value: nat, width: nat) -> Seq<u8>
    decreases width,
{
    if width == 0 {
        Seq::empty()
    } else {
        seq![(value % 256) as u8] + le_bytes(value / 256, (width - 1) as nat)
    }
}

/// The number that `bytes` spells, least significant byte first.
pub open spec fn le_value(bytes: Seq<u8>) -> nat
    decreases bytes.len(),
{
    if bytes.len() == 0 {
        0
    } else {
        bytes[0] as nat + 256 * le_value(bytes.drop_first())
    }
}

/// How many numbers `width` bytes can tell apart.
pub open spec fn le_span(width: nat) -> nat
    decreases width,
{
    if width == 0 {
        1
    } else {
        256 * le_span((width - 1) as nat)
    }
}

pub proof fn lemma_le_len(value: nat, width: nat)
    ensures
        le_bytes(value, width).len() == width,
    decreases width,
{
    if width > 0 {
        lemma_le_len(value / 256, (width - 1) as nat);
    }
}

pub proof fn lemma_le_value_bound(bytes: Seq<u8>)
    ensures
        le_value(bytes) < le_span(bytes.len()),
    decreases bytes.len(),
{
    if bytes.len() > 0 {
        lemma_le_value_bound(bytes.drop_first());
    }
}

/// Writing a number that fits and reading the bytes back gives the number.
pub proof fn law_le_read_back(value: nat, width: nat)
    requires
        value < le_span(width),
    ensures
        le_value(le_bytes(value, width)) == value,
    decreases width,
{
    if width > 0 {
        let rest = le_bytes(value / 256, (width - 1) as nat);
        law_le_read_back(value / 256, (width - 1) as nat);
        assert(le_bytes(value, width).drop_first() =~= rest);
    }
}

/// Reading any bytes and writing the number back gives the bytes.
pub proof fn law_le_write_back(bytes: Seq<u8>)
    ensures
        le_bytes(le_value(bytes), bytes.len()) == bytes,
    decreases bytes.len(),
{
    if bytes.len() > 0 {
        let rest = bytes.drop_first();
        law_le_write_back(rest);
        let value = le_value(bytes);
        assert(value % 256 == bytes[0] as nat && value / 256 == le_value(rest));
        assert(le_bytes(value, bytes.len()) =~= bytes);
    }
}

pub proof fn lemma_le_spans()
    ensures
        le_span(0) == 1,
        le_span(1) == 0x100,
        le_span(2) == 0x1_0000,
        le_span(4) == 0x1_0000_0000,
        le_span(8) == 0x1_0000_0000_0000_0000,
{
    reveal_with_fuel(le_span, 9);
}

/// Appends the `width` low-order bytes of `value` to `out`.
pub fn put_le(out: &mut Vec<u8>, value: u64, width: usize)
    ensures
        final(out)@ == old(out)@ + le_bytes(value as nat, width as nat),
{
    let mut rest: u64 = value;
    let mut left: usize = width;
    while left > 0
        invariant
            left <= width,
            out@ + le_bytes(rest as nat, left as nat) == old(out)@ + le_bytes(
                value as nat,
                width as nat,
            ),
        decreases left,
    {
        let ghost before = out@;
        out.push((rest % 256) as u8);
        proof {
            assert(before + le_bytes(rest as nat, left as nat) =~= out@ + le_bytes(
                rest as nat / 256,
                (left - 1) as nat,
            ));
        }
        rest = rest / 256;
        left = left - 1;
    }
    assert(out@ + le_bytes(rest as nat, 0) =~= out@);
}

/// Reads the `width` bytes at `at` as a number.
pub fn get_le(bytes: &[u8], at: usize, width: usize) -> (value: u64)
    requires
        width <= 8,
        at + width <= bytes@.len(),
    ensures
        value as nat == le_value(bytes@.subrange(at as int, at + width)),
        value < le_span(width as nat),
{
    let mut value: u64 = 0;
    let mut left: usize = width;
    let end: usize = bytes.len();
    while left > 0
        invariant
            width <= 8,
            left <= width,
            at + width <= end,
            end == bytes@.len(),
            value as nat == le_value(bytes@.subrange(at + left, at + width)),
        decreases left,
    {
        let ghost tail = bytes@.subrange(at + left, at + width);
        left = left - 1;
        let ghost longer = bytes@.subrange(at + left, at + width);
        proof {
            assert(longer.drop_first() =~= tail);
            lemma_le_value_bound(longer);
            lemma_le_span_monotone(longer.len(), 8);
            lemma_le_spans();
        }
        value = bytes[at + left] as u64 + 256 * value;
    }
    proof {
        lemma_le_value_bound(bytes@.subrange(at as int, at + width));
    }
    value
}

proof fn lemma_le_span_monotone(narrow: nat, wide: nat)
    requires
        narrow <= wide,
    ensures
        1 <= le_span(narrow) <= le_span(wide),
    decreases wide,
{
    if narrow < wide {
        lemma_le_span_monotone(narrow, (wide - 1) as nat);
    } else if wide > 0 {
        lemma_le_span_monotone((narrow - 1) as nat, (wide - 1) as nat);
    }
}

/// A byte in front of others is the least significant: it counts once, and each of the others 256
/// times as much as without it. This holds both of writing and of reading.
pub proof fn law_le_places(value: nat, width: nat, low: u8, bytes: Seq<u8>)
    ensures
        le_bytes(value, 0) == Seq::<u8>::empty(),
        le_bytes(low as nat + 256 * value, width + 1) == seq![low] + le_bytes(value, width),
        le_value(Seq::empty()) == 0,
        le_value(seq![low] + bytes) == low as nat + 256 * le_value(bytes),
{
    assert((low as nat + 256 * value) % 256 == low && (low as nat + 256 * value) / 256 == value);
    assert((seq![low] + bytes).drop_first() =~= bytes);
}

/// What two, four and eight bytes amount to.
pub proof fn law_le_value_of_few(bytes: Seq<u8>)
    ensures
        bytes.len() == 2 ==> le_value(bytes) == bytes[0] + 0x100 * bytes[1],
        bytes.len() == 4 ==> le_value(bytes) == bytes[0] + 0x100 * bytes[1] + 0x1_0000 * bytes[2]
            + 0x100_0000 * bytes[3],
        bytes.len() == 8 ==> le_value(bytes) == bytes[0] + 0x100 * bytes[1] + 0x1_0000 * bytes[2]
            + 0x100_0000 * bytes[3] + 0x1_0000_0000 * bytes[4] + 0x100_0000_0000 * bytes[5]
            + 0x1_0000_0000_0000 * bytes[6] + 0x100_0000_0000_0000 * bytes[7],
{
    reveal_with_fuel(le_value, 9);
}

} // verus!
