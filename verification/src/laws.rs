//! What holds of the encodings whatever the values: the layout of the two
//! sums, the constancy of the marker's encoding, nesting, and what can be
//! read back from the bytes.
use crate::format::{encoded, Format};
use crate::formatter::tag_bytes;
use crate::impls::core_::{duration_data, duration_nanos, NANOS_PER_SEC};
use crate::symbols::Ids;
use crate::wire::{le_bytes, le_value, lemma_le_bytes_len, lemma_le_round_trip, radix};
use vstd::prelude::*;

verus! {

/// An identifier takes two bytes, and they spell the identifier.
pub proof fn lemma_tag_reads_back(id: u16)
    ensures
        tag_bytes(id).len() == 2,
        le_value(tag_bytes(id)) == id,
{
    reveal_with_fuel(radix, 3);
    lemma_le_bytes_len(id as int, 2);
    lemma_le_round_trip(id as int, 2);
}

/// The data of an absent value is the single byte 0. The data of a present
/// value is the byte 1, then the identifier of the element's shape in two
/// bytes, then exactly the data that the element writes for itself.
pub proof fn lemma_option_layout<T: Format>(value: Option<T>, ids: Ids)
    ensures
        value is None ==> value.data(ids) == seq![0u8],
        value matches Some(x) ==> {
            &&& value.data(ids) == seq![1u8] + tag_bytes(ids(T::pattern())) + x.data(ids)
            &&& value.data(ids).len() == 3 + x.data(ids).len()
            &&& value.data(ids)[0] == 1
            &&& value.data(ids).subrange(1, 3) == tag_bytes(ids(T::pattern()))
            &&& value.data(ids).skip(3) == x.data(ids)
        },
{
    match value {
        None => {},
        Some(x) => {
            lemma_tag_reads_back(ids(T::pattern()));
            lemma_variant_layout(1, tag_bytes(ids(T::pattern())), x.data(ids));
        },
    }
}

/// The first byte of the data of a result is 0 for a failure and 1 for a
/// success, and no other value. Behind it stand the identifier of the
/// payload's shape in two bytes and exactly the data that the payload writes
/// for itself.
pub proof fn lemma_result_layout<T: Format, E: Format>(value: Result<T, E>, ids: Ids)
    ensures
        value.data(ids)[0] == (if value is Ok {
            1u8
        } else {
            0u8
        }),
        value matches Ok(x) ==> {
            &&& value.data(ids) == seq![1u8] + tag_bytes(ids(T::pattern())) + x.data(ids)
            &&& value.data(ids).len() == 3 + x.data(ids).len()
            &&& value.data(ids).subrange(1, 3) == tag_bytes(ids(T::pattern()))
            &&& value.data(ids).skip(3) == x.data(ids)
        },
        value matches Err(e) ==> {
            &&& value.data(ids) == seq![0u8] + tag_bytes(ids(E::pattern())) + e.data(ids)
            &&& value.data(ids).len() == 3 + e.data(ids).len()
            &&& value.data(ids).subrange(1, 3) == tag_bytes(ids(E::pattern()))
            &&& value.data(ids).skip(3) == e.data(ids)
        },
{
    match value {
        Ok(x) => {
            lemma_tag_reads_back(ids(T::pattern()));
            lemma_variant_layout(1, tag_bytes(ids(T::pattern())), x.data(ids));
        },
        Err(e) => {
            lemma_tag_reads_back(ids(E::pattern()));
            lemma_variant_layout(0, tag_bytes(ids(E::pattern())), e.data(ids));
        },
    }
}

/// Where a discriminant, an identifier and a payload's data stand in a row.
proof fn lemma_variant_layout(discriminant: u8, tag: Seq<u8>, data: Seq<u8>)
    requires
        tag.len() == 2,
    ensures
        (seq![discriminant] + tag + data).len() == 3 + data.len(),
        (seq![discriminant] + tag + data)[0] == discriminant,
        (seq![discriminant] + tag + data).subrange(1, 3) == tag,
        (seq![discriminant] + tag + data).skip(3) == data,
{
}

/// Every marker of one type encodes alike, through every call: as the
/// identifier of the marker pattern, two bytes, with no data behind it.
pub proof fn lemma_marker_constant<T>(
    a: core::marker::PhantomData<T>,
    b: core::marker::PhantomData<T>,
    ids: Ids,
)
    ensures
        a.data(ids).len() == 0,
        encoded(&a, ids) == tag_bytes(ids("PhantomData"@)),
        encoded(&a, ids).len() == 2,
        encoded(&a, ids) == encoded(&b, ids),
{
    lemma_tag_reads_back(ids("PhantomData"@));
}

/// A composite holds its payload as the payload is encoded when it stands
/// alone: behind the discriminant come the bytes that `format` writes for
/// the payload, whatever the payload is made of.
pub proof fn lemma_payload_stands_whole<T: Format, E: Format>(x: T, e: E, ids: Ids)
    ensures
        Some(x).data(ids) == seq![1u8] + encoded(&x, ids),
        Ok::<T, E>(x).data(ids) == seq![1u8] + encoded(&x, ids),
        Err::<T, E>(e).data(ids) == seq![0u8] + encoded(&e, ids),
{
}

/// Nesting neither flattens nor reorders: a present value inside a present
/// value is the outer discriminant, the identifier of the inner optional's
/// shape, the inner discriminant, the identifier of the element's shape, and
/// the element's data, in that order.
pub proof fn lemma_nested_option<T: Format>(x: T, ids: Ids)
    ensures
        Some(Some(x)).data(ids) == seq![1u8] + tag_bytes(ids(Option::<T>::pattern())) + seq![1u8]
            + tag_bytes(ids(T::pattern())) + x.data(ids),
{
}

/// Splitting a number of nanoseconds into whole seconds and the nanoseconds
/// beyond them loses nothing: the parts make up the number again, and the
/// part beyond the seconds is less than a second.
pub proof fn lemma_split_loses_nothing(total: nat)
    ensures
        (total / (NANOS_PER_SEC as nat)) * NANOS_PER_SEC + total % (NANOS_PER_SEC as nat) == total,
        total % (NANOS_PER_SEC as nat) < NANOS_PER_SEC,
{
}

/// Whole seconds and less than a second of nanoseconds, put together and
/// split again, come back as they were.
pub proof fn lemma_parts_come_back(secs: nat, nanos: nat)
    requires
        nanos < NANOS_PER_SEC,
    ensures
        (secs * NANOS_PER_SEC + nanos) / (NANOS_PER_SEC as int) == secs,
        (secs * NANOS_PER_SEC + nanos) % (NANOS_PER_SEC as int) == nanos,
{
}

/// The data of a duration's parts takes twelve bytes, and both parts can be
/// read back from them: the seconds from the first eight, the nanoseconds
/// from the last four.
pub proof fn lemma_duration_parts_read_back(secs: u64, nanos: u32)
    ensures
        duration_data(secs as int, nanos as int).len() == 12,
        le_value(duration_data(secs as int, nanos as int).subrange(0, 8)) == secs,
        le_value(duration_data(secs as int, nanos as int).subrange(8, 12)) == nanos,
{
    let data = duration_data(secs as int, nanos as int);
    reveal_with_fuel(radix, 9);
    lemma_le_bytes_len(secs as int, 8);
    lemma_le_bytes_len(nanos as int, 4);
    lemma_le_round_trip(secs as int, 8);
    lemma_le_round_trip(nanos as int, 4);
    assert(data.subrange(0, 8) =~= le_bytes(secs as int, 8));
    assert(data.subrange(8, 12) =~= le_bytes(nanos as int, 4));
}

/// The encoding of a duration loses nothing: where the whole seconds fit in
/// 64 bits, the length of the duration is the seconds read from the first
/// eight bytes of its data, times a billion, plus the nanoseconds read from
/// the last four.
pub proof fn lemma_duration_lossless(d: core::time::Duration, ids: Ids)
    requires
        duration_nanos(d) / (NANOS_PER_SEC as nat) <= u64::MAX,
    ensures
        d.data(ids).len() == 12,
        le_value(d.data(ids).subrange(0, 8)) * NANOS_PER_SEC + le_value(
            d.data(ids).subrange(8, 12),
        ) == duration_nanos(d),
        le_value(d.data(ids).subrange(8, 12)) < NANOS_PER_SEC,
{
    let secs = (duration_nanos(d) / (NANOS_PER_SEC as nat)) as u64;
    let nanos = (duration_nanos(d) % (NANOS_PER_SEC as nat)) as u32;
    lemma_duration_parts_read_back(secs, nanos);
    lemma_split_loses_nothing(duration_nanos(d));
}

} // verus!
