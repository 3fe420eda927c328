//! The byte-level conventions of the stream: little-endian scalars and the
//! cut that a bounded sink makes.
use vstd::prelude::*;

verus! {

/// The number of values that `width` bytes can tell apart: 256 to the power `width`.
pub open spec fn radix(width: nat) -> nat
    decreases width,
{
    if width == 0 {
        1
    } else {
        256 * radix((width - 1) as nat)
    }
}

/// The `width` low bytes of `value`, least significant first. A negative
/// `value` comes out in two's complement, because division here rounds down.
pub open spec fn le_bytes(value: int, width: nat) -> Seq<u8>
    decreases width,
{
    if width == 0 {
        Seq::empty()
    } else {
        seq![(value % 256) as u8] + le_bytes(value / 256, (width - 1) as nat)
    }
}

/// The number that `bytes` spell, least significant byte first.
pub open spec fn le_value(bytes: Seq<u8>) -> nat
    decreases bytes.len(),
{
    if bytes.len() == 0 {
        0
    } else {
        bytes[0] as nat + 256 * le_value(bytes.drop_first())
    }
}

/// What a sink of `limit` bytes holds once `bytes` have been offered to it:
/// all of them if they fit, else the first `limit`.
pub open spec fn clip(bytes: Seq<u8>, limit: nat) -> Seq<u8> {
    if bytes.len() <= limit {
        bytes
    } else {
        bytes.subrange(0, limit as int)
    }
}

/// A scalar of `width` bytes always takes `width` bytes on the wire.
pub proof fn lemma_le_bytes_len(value: int, width: nat)
    ensures
        le_bytes(value, width).len() == width,
    decreases width,
{
    if width > 0 {
        lemma_le_bytes_len(value / 256, (width - 1) as nat);
    }
}

/// Reading back the bytes of a value that fits in `width` bytes gives the value.
pub proof fn lemma_le_round_trip(value: int, width: nat)
    requires
        0 <= value < radix(width),
    ensures
        le_value(le_bytes(value, width)) == value,
    decreases width,
{
    if width > 0 {
        let rest = le_bytes(value / 256, (width - 1) as nat);
        lemma_le_round_trip(value / 256, (width - 1) as nat);
        assert(le_bytes(value, width).drop_first() =~= rest);
    }
}

/// Adding 256 to the power `width` to a value leaves its `width` low bytes as
/// they are: the encoding of a negative number is that of its two's complement.
pub proof fn lemma_le_bytes_wrap(value: int, width: nat)
    ensures
        le_bytes(value + radix(width), width) == le_bytes(value, width),
    decreases width,
{
    if width > 0 {
        let step = radix((width - 1) as nat) as int;
        assert((value + 256 * step) % 256 == value % 256);
        assert((value + 256 * step) / 256 == value / 256 + step);
        lemma_le_bytes_wrap(value / 256, (width - 1) as nat);
    }
}

/// Two numbers that agree in their `wide` low bytes agree in their `width`
/// low bytes, for every `width` up to `wide`.
pub proof fn lemma_le_low_bytes(a: int, b: int, width: nat, wide: nat)
    requires
        width <= wide,
        le_bytes(a, wide) == le_bytes(b, wide),
    ensures
        le_bytes(a, width) == le_bytes(b, width),
    decreases width,
{
    if width > 0 {
        let a_rest = le_bytes(a / 256, (wide - 1) as nat);
        let b_rest = le_bytes(b / 256, (wide - 1) as nat);
        assert(le_bytes(a, wide).drop_first() =~= a_rest);
        assert(le_bytes(b, wide).drop_first() =~= b_rest);
        lemma_le_low_bytes(a / 256, b / 256, (width - 1) as nat, (wide - 1) as nat);
        assert(le_bytes(a, width) =~= seq![le_bytes(a, wide)[0]] + le_bytes(
            a / 256,
            (width - 1) as nat,
        ));
        assert(le_bytes(b, width) =~= seq![le_bytes(b, wide)[0]] + le_bytes(
            b / 256,
            (width - 1) as nat,
        ));
    }
}

} // verus!
