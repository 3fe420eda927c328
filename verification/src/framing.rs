//! What a reader of the stream can rely on: the data of a value shows where
//! it ends, and, for the types that keep all of their state, which value it
//! was. Both carry over from the payloads to the composites.
use crate::format::Format;
use crate::formatter::tag_bytes;
use crate::impls::core_::{duration_nanos, NANOS_PER_SEC};
use crate::symbols::Ids;
use crate::wire::{le_bytes, lemma_le_bytes_len, radix};
use vstd::prelude::*;

verus! {

/// Whether a stream shows where the data of a value of `T` ends: if the data
/// of two values, each with more bytes behind it, make the same stream, then
/// the data are the same, and so is what stands behind them.
pub open spec fn self_delimiting<T: Format>(ids: Ids) -> bool {
    forall|a: T, b: T, after_a: Seq<u8>, after_b: Seq<u8>|
        #![trigger a.data(ids) + after_a, b.data(ids) + after_b]
        a.data(ids) + after_a == b.data(ids) + after_b ==> a.data(ids) == b.data(ids) && after_a
            == after_b
}

/// Whether the data of a value of `T` tells which value it was: no two
/// values have the same data.
pub open spec fn faithful<T: Format>(ids: Ids) -> bool {
    forall|a: T, b: T| #![trigger a.data(ids), b.data(ids)] a.data(ids) == b.data(ids) ==> a == b
}

/// Two streams that begin alike go on alike.
proof fn lemma_cancel_head(head: Seq<u8>, x: Seq<u8>, y: Seq<u8>)
    requires
        head + x == head + y,
    ensures
        x == y,
{
    assert(x =~= (head + x).skip(head.len() as int));
    assert(y =~= (head + y).skip(head.len() as int));
}

/// Two streams that are equal, cut at the same place, are equal on both sides.
proof fn lemma_cut_alike(x: Seq<u8>, after_x: Seq<u8>, y: Seq<u8>, after_y: Seq<u8>)
    requires
        x.len() == y.len(),
        x + after_x == y + after_y,
    ensures
        x == y,
        after_x == after_y,
{
    let n = x.len() as int;
    assert(x =~= (x + after_x).take(n));
    assert(y =~= (y + after_y).take(n));
    assert(after_x =~= (x + after_x).skip(n));
    assert(after_y =~= (y + after_y).skip(n));
}

/// A type whose values all take the same number of bytes is self-delimiting.
pub proof fn lemma_fixed_width_delimits<T: Format>(ids: Ids, width: nat)
    requires
        forall|a: T| #[trigger] a.data(ids).len() == width,
    ensures
        self_delimiting::<T>(ids),
{
    assert forall|a: T, b: T, after_a: Seq<u8>, after_b: Seq<u8>|
        a.data(ids) + after_a == b.data(ids) + after_b implies a.data(ids) == b.data(ids)
        && after_a == after_b by {
        lemma_cut_alike(a.data(ids), after_a, b.data(ids), after_b);
    }
}

/// Two streams that begin with the same discriminant and identifier and are
/// equal are equal behind the identifier.
proof fn lemma_variant_cut(
    discriminant: u8,
    tag: Seq<u8>,
    x: Seq<u8>,
    after_x: Seq<u8>,
    y: Seq<u8>,
    after_y: Seq<u8>,
)
    requires
        seq![discriminant] + tag + x + after_x == seq![discriminant] + tag + y + after_y,
    ensures
        x + after_x == y + after_y,
{
    let head = seq![discriminant] + tag;
    assert(head + x + after_x =~= head + (x + after_x));
    assert(head + y + after_y =~= head + (y + after_y));
    lemma_cancel_head(head, x + after_x, y + after_y);
}

/// The first byte of a variant with more bytes behind it is its discriminant.
proof fn lemma_variant_first(discriminant: u8, tag: Seq<u8>, x: Seq<u8>, after_x: Seq<u8>)
    ensures
        (seq![discriminant] + tag + x + after_x)[0] == discriminant,
        (seq![discriminant] + tag + x)[0] == discriminant,
        (seq![discriminant] + after_x)[0] == discriminant,
{
}

/// An optional of a self-delimiting type is self-delimiting.
pub proof fn lemma_option_delimits<T: Format>(ids: Ids)
    requires
        self_delimiting::<T>(ids),
    ensures
        self_delimiting::<Option<T>>(ids),
{
    let tag = tag_bytes(ids(T::pattern()));
    assert forall|a: Option<T>, b: Option<T>, after_a: Seq<u8>, after_b: Seq<u8>|
        a.data(ids) + after_a == b.data(ids) + after_b implies a.data(ids) == b.data(ids)
        && after_a == after_b by {
        match (a, b) {
            (None, None) => {
                lemma_cancel_head(seq![0u8], after_a, after_b);
            },
            (Some(x), Some(y)) => {
                lemma_variant_cut(1, tag, x.data(ids), after_a, y.data(ids), after_b);
            },
            (None, Some(y)) => {
                lemma_variant_first(0, tag, y.data(ids), after_a);
                lemma_variant_first(1, tag, y.data(ids), after_b);
            },
            (Some(x), None) => {
                lemma_variant_first(1, tag, x.data(ids), after_a);
                lemma_variant_first(0, tag, x.data(ids), after_b);
            },
        }
    }
}

/// An optional of a faithful type is faithful.
pub proof fn lemma_option_faithful<T: Format>(ids: Ids)
    requires
        faithful::<T>(ids),
    ensures
        faithful::<Option<T>>(ids),
{
    let tag = tag_bytes(ids(T::pattern()));
    assert forall|a: Option<T>, b: Option<T>| a.data(ids) == b.data(ids) implies a == b by {
        match (a, b) {
            (None, None) => {},
            (Some(x), Some(y)) => {
                lemma_cancel_head(seq![1u8] + tag, x.data(ids), y.data(ids));
            },
            (None, Some(y)) => {
                lemma_variant_first(1, tag, y.data(ids), Seq::empty());
            },
            (Some(x), None) => {
                lemma_variant_first(1, tag, x.data(ids), Seq::empty());
            },
        }
    }
}

/// A result of two self-delimiting types is self-delimiting.
pub proof fn lemma_result_delimits<T: Format, E: Format>(ids: Ids)
    requires
        self_delimiting::<T>(ids),
        self_delimiting::<E>(ids),
    ensures
        self_delimiting::<Result<T, E>>(ids),
{
    let ok = tag_bytes(ids(T::pattern()));
    let err = tag_bytes(ids(E::pattern()));
    assert forall|a: Result<T, E>, b: Result<T, E>, after_a: Seq<u8>, after_b: Seq<u8>|
        a.data(ids) + after_a == b.data(ids) + after_b implies a.data(ids) == b.data(ids)
        && after_a == after_b by {
        match (a, b) {
            (Ok(x), Ok(y)) => {
                lemma_variant_cut(1, ok, x.data(ids), after_a, y.data(ids), after_b);
            },
            (Err(x), Err(y)) => {
                lemma_variant_cut(0, err, x.data(ids), after_a, y.data(ids), after_b);
            },
            (Ok(x), Err(y)) => {
                lemma_variant_first(1, ok, x.data(ids), after_a);
                lemma_variant_first(0, err, y.data(ids), after_b);
            },
            (Err(x), Ok(y)) => {
                lemma_variant_first(0, err, x.data(ids), after_a);
                lemma_variant_first(1, ok, y.data(ids), after_b);
            },
        }
    }
}

/// A result of two faithful types is faithful.
pub proof fn lemma_result_faithful<T: Format, E: Format>(ids: Ids)
    requires
        faithful::<T>(ids),
        faithful::<E>(ids),
    ensures
        faithful::<Result<T, E>>(ids),
{
    let ok = tag_bytes(ids(T::pattern()));
    let err = tag_bytes(ids(E::pattern()));
    assert forall|a: Result<T, E>, b: Result<T, E>| a.data(ids) == b.data(ids) implies a == b by {
        match (a, b) {
            (Ok(x), Ok(y)) => {
                lemma_cancel_head(seq![1u8] + ok, x.data(ids), y.data(ids));
            },
            (Err(x), Err(y)) => {
                lemma_cancel_head(seq![0u8] + err, x.data(ids), y.data(ids));
            },
            (Ok(x), Err(y)) => {
                lemma_variant_first(1, ok, x.data(ids), Seq::empty());
                lemma_variant_first(0, err, y.data(ids), Seq::empty());
            },
            (Err(x), Ok(y)) => {
                lemma_variant_first(0, err, x.data(ids), Seq::empty());
                lemma_variant_first(1, ok, y.data(ids), Seq::empty());
            },
        }
    }
}

/// A reference is self-delimiting, and faithful, where what it points to is.
pub proof fn lemma_reference_frames<T: Format>(ids: Ids)
    ensures
        self_delimiting::<T>(ids) ==> self_delimiting::<&T>(ids),
        faithful::<T>(ids) ==> faithful::<&T>(ids),
{
}

/// The types without data, and the duration with its twelve bytes, are
/// self-delimiting.
pub proof fn lemma_fixed_shapes_delimit<T, A: Format, B: Format>(ids: Ids)
    ensures
        self_delimiting::<core::marker::PhantomData<T>>(ids),
        self_delimiting::<core::iter::Zip<A, B>>(ids),
        self_delimiting::<core::time::Duration>(ids),
{
    lemma_fixed_width_delimits::<core::marker::PhantomData<T>>(ids, 0);
    lemma_fixed_width_delimits::<core::iter::Zip<A, B>>(ids, 0);
    assert forall|d: core::time::Duration| #[trigger] d.data(ids).len() == 12 by {
        let total = duration_nanos(d);
        let per_sec = NANOS_PER_SEC as nat;
        lemma_le_bytes_len((total / per_sec) as int, 8);
        lemma_le_bytes_len((total % per_sec) as int, 4);
    }
    lemma_fixed_width_delimits::<core::time::Duration>(ids, 12);
}

/// The integers are self-delimiting: each takes as many bytes as its type is wide.
pub proof fn lemma_integers_delimit(ids: Ids)
    ensures
        self_delimiting::<u8>(ids),
        self_delimiting::<u16>(ids),
        self_delimiting::<u32>(ids),
        self_delimiting::<u64>(ids),
        self_delimiting::<i8>(ids),
        self_delimiting::<i16>(ids),
        self_delimiting::<i32>(ids),
        self_delimiting::<i64>(ids),
{
    assert forall|v: u8| #[trigger] v.data(ids).len() == 1 by {
        lemma_le_bytes_len(v as int, 1);
    }
    assert forall|v: u16| #[trigger] v.data(ids).len() == 2 by {
        lemma_le_bytes_len(v as int, 2);
    }
    assert forall|v: u32| #[trigger] v.data(ids).len() == 4 by {
        lemma_le_bytes_len(v as int, 4);
    }
    assert forall|v: u64| #[trigger] v.data(ids).len() == 8 by {
        lemma_le_bytes_len(v as int, 8);
    }
    assert forall|v: i8| #[trigger] v.data(ids).len() == 1 by {
        lemma_le_bytes_len(v as int, 1);
    }
    assert forall|v: i16| #[trigger] v.data(ids).len() == 2 by {
        lemma_le_bytes_len(v as int, 2);
    }
    assert forall|v: i32| #[trigger] v.data(ids).len() == 4 by {
        lemma_le_bytes_len(v as int, 4);
    }
    assert forall|v: i64| #[trigger] v.data(ids).len() == 8 by {
        lemma_le_bytes_len(v as int, 8);
    }
    lemma_fixed_width_delimits::<u8>(ids, 1);
    lemma_fixed_width_delimits::<u16>(ids, 2);
    lemma_fixed_width_delimits::<u32>(ids, 4);
    lemma_fixed_width_delimits::<u64>(ids, 8);
    lemma_fixed_width_delimits::<i8>(ids, 1);
    lemma_fixed_width_delimits::<i16>(ids, 2);
    lemma_fixed_width_delimits::<i32>(ids, 4);
    lemma_fixed_width_delimits::<i64>(ids, 8);
}

/// Two numbers with the same `width` low bytes differ by a multiple of 256
/// to the power `width`; the multiple is returned.
pub proof fn lemma_same_bytes_congruent(a: int, b: int, width: nat) -> (k: int)
    requires
        le_bytes(a, width) == le_bytes(b, width),
    ensures
        a - b == k * radix(width),
    decreases width,
{
    if width == 0 {
        assert(radix(0) == 1);
        a - b
    } else {
        let a_rest = le_bytes(a / 256, (width - 1) as nat);
        let b_rest = le_bytes(b / 256, (width - 1) as nat);
        assert(le_bytes(a, width)[0] == (a % 256) as u8);
        assert(le_bytes(b, width)[0] == (b % 256) as u8);
        assert(le_bytes(a, width).drop_first() =~= a_rest);
        assert(le_bytes(b, width).drop_first() =~= b_rest);
        let k = lemma_same_bytes_congruent(a / 256, b / 256, (width - 1) as nat);
        let r = radix((width - 1) as nat) as int;
        assert(a - b == 256 * (a / 256 - b / 256));
        assert(256 * (k * r) == k * (256 * r)) by (nonlinear_arith);
        k
    }
}

/// Two numbers from one window of 256 to the power `width` numbers that have
/// the same `width` low bytes are the same number.
pub proof fn lemma_same_bytes_same_number(a: int, b: int, width: nat, low: int)
    requires
        low <= a < low + radix(width),
        low <= b < low + radix(width),
        le_bytes(a, width) == le_bytes(b, width),
    ensures
        a == b,
{
    let k = lemma_same_bytes_congruent(a, b, width);
    let r = radix(width) as int;
    assert(k == 0) by (nonlinear_arith)
        requires
            a - b == k * r,
            -r < a - b < r,
            r > 0,
    ;
}

/// The integers are faithful: numbers that differ have bytes that differ.
pub proof fn lemma_integers_faithful(ids: Ids)
    ensures
        faithful::<u8>(ids),
        faithful::<u16>(ids),
        faithful::<u32>(ids),
        faithful::<u64>(ids),
        faithful::<i8>(ids),
        faithful::<i16>(ids),
        faithful::<i32>(ids),
        faithful::<i64>(ids),
{
    reveal_with_fuel(radix, 9);
    assert forall|a: u8, b: u8| a.data(ids) == b.data(ids) implies a == b by {
        lemma_same_bytes_same_number(a as int, b as int, 1, 0);
    }
    assert forall|a: u16, b: u16| a.data(ids) == b.data(ids) implies a == b by {
        lemma_same_bytes_same_number(a as int, b as int, 2, 0);
    }
    assert forall|a: u32, b: u32| a.data(ids) == b.data(ids) implies a == b by {
        lemma_same_bytes_same_number(a as int, b as int, 4, 0);
    }
    assert forall|a: u64, b: u64| a.data(ids) == b.data(ids) implies a == b by {
        lemma_same_bytes_same_number(a as int, b as int, 8, 0);
    }
    assert forall|a: i8, b: i8| a.data(ids) == b.data(ids) implies a == b by {
        lemma_same_bytes_same_number(a as int, b as int, 1, i8::MIN as int);
    }
    assert forall|a: i16, b: i16| a.data(ids) == b.data(ids) implies a == b by {
        lemma_same_bytes_same_number(a as int, b as int, 2, i16::MIN as int);
    }
    assert forall|a: i32, b: i32| a.data(ids) == b.data(ids) implies a == b by {
        lemma_same_bytes_same_number(a as int, b as int, 4, i32::MIN as int);
    }
    assert forall|a: i64, b: i64| a.data(ids) == b.data(ids) implies a == b by {
        lemma_same_bytes_same_number(a as int, b as int, 8, i64::MIN as int);
    }
}

} // verus!
