//! Encodings of the types of `core` that are made of other values or of none.
//!
//! Some of these types do not let their state be read from outside; they
//! encode as a fixed label. The bounds on their parameters are kept, so that
//! a fuller encoding can take the place of the label later.
use crate::format::{write_variant, Format};
use crate::formatter::{scalars_bytes, tag_bytes, Formatter, Scalar, SinkFull};
use crate::symbols::{Ids, Interner};
use crate::wire::le_bytes;
use vstd::prelude::*;

verus! {

impl<T: Format> Format for Option<T> {
    open spec fn pattern() -> Seq<char> {
        "None|Some({=?})"@
    }

    /// `None` is the byte 0. `Some(x)` is the byte 1, the identifier of the
    /// shape of `x`, and the data of `x`.
    open spec fn data(&self, ids: Ids) -> Seq<u8> {
        match self {
            None => seq![0u8],
            Some(x) => seq![1u8] + tag_bytes(ids(T::pattern())) + x.data(ids),
        }
    }

    fn _format_tag<I: Interner>(&self, symbols: &I) -> (id: u16) {
        symbols.intern("None|Some({=?})")
    }

    fn _format_data<I: Interner>(&self, fmt: &mut Formatter<'_, I>) -> (r: Result<(), SinkFull>) {
        match self {
            None => fmt.u8(&0),
            Some(x) => write_variant(1, x, fmt),
        }
    }
}

impl<T: Format, E: Format> Format for Result<T, E> {
    open spec fn pattern() -> Seq<char> {
        "Err({=?})|Ok({=?})"@
    }

    /// `Err(e)` is the byte 0, `Ok(x)` the byte 1; then come the identifier of
    /// the payload's shape and the payload's data.
    open spec fn data(&self, ids: Ids) -> Seq<u8> {
        match self {
            Err(e) => seq![0u8] + tag_bytes(ids(E::pattern())) + e.data(ids),
            Ok(x) => seq![1u8] + tag_bytes(ids(T::pattern())) + x.data(ids),
        }
    }

    fn _format_tag<I: Interner>(&self, symbols: &I) -> (id: u16) {
        symbols.intern("Err({=?})|Ok({=?})")
    }

    fn _format_data<I: Interner>(&self, fmt: &mut Formatter<'_, I>) -> (r: Result<(), SinkFull>) {
        match self {
            Err(e) => write_variant(0, e, fmt),
            Ok(x) => write_variant(1, x, fmt),
        }
    }
}

impl<T> Format for core::marker::PhantomData<T> {
    open spec fn pattern() -> Seq<char> {
        "PhantomData"@
    }

    open spec fn data(&self, ids: Ids) -> Seq<u8> {
        Seq::empty()
    }

    fn _format_tag<I: Interner>(&self, symbols: &I) -> (id: u16) {
        symbols.intern("PhantomData")
    }

    fn _format_data<I: Interner>(&self, fmt: &mut Formatter<'_, I>) -> (r: Result<(), SinkFull>) {
        proof {
            fmt.lemma_wrote_nothing();
        }
        Ok(())
    }
}

/// No value of this type exists, so neither operation can be reached: each
/// rests on a match without arms, which the compiler accepts only because
/// the type is empty. The type has no pattern and no data of its own.
impl Format for core::convert::Infallible {
    fn _format_tag<I: Interner>(&self, symbols: &I) -> (id: u16) {
        never_tag(self, symbols)
    }

    fn _format_data<I: Interner>(&self, fmt: &mut Formatter<'_, I>) -> (r: Result<(), SinkFull>) {
        never_data(self, fmt)
    }
}

/// Takes a value of `core::convert::Infallible`, of which there is none, and
/// matches on it without arms. No call returns, so the claim about the
/// identifier holds of every call that does.
#[verifier::external_body]
fn never_tag<I: Interner>(never: &core::convert::Infallible, symbols: &I) -> (id: u16)
    ensures
        id == (symbols.ids())(<core::convert::Infallible as Format>::pattern()),
{
    match *never {
    }
}

/// Takes a value of `core::convert::Infallible`, of which there is none, and
/// matches on it without arms. No call returns, so the claim about what was
/// written holds of every call that does.
#[verifier::external_body]
fn never_data<I: Interner>(never: &core::convert::Infallible, fmt: &mut Formatter<'_, I>) -> (r:
    Result<(), SinkFull>)
    ensures
        final(fmt).wrote(*old(fmt), never.data(old(fmt).ids()), r),
{
    match *never {
    }
}

/// The number of nanoseconds in a second.
pub const NANOS_PER_SEC: u32 = 1_000_000_000;

/// The pattern of a duration: its whole seconds and the nanoseconds beyond them.
pub open spec fn duration_pattern() -> Seq<char> {
    "Duration {{ secs: {=u64}, nanos: {=u32} }}"@
}

/// The length of a duration in nanoseconds, its whole seconds and the part
/// beyond them taken together: the number that `Duration::as_nanos` reports.
pub uninterp spec fn duration_nanos(d: core::time::Duration) -> nat;

/// `Duration::as_secs` returns the whole seconds that the duration holds: its
/// nanoseconds divided by a billion, rounded down.
pub assume_specification[ core::time::Duration::as_secs ](d: &core::time::Duration) -> (secs: u64)
    ensures
        secs == duration_nanos(*d) / (NANOS_PER_SEC as nat),
;

/// `Duration::subsec_nanos` returns the part of the duration beyond its whole
/// seconds, in nanoseconds: always less than a billion.
pub assume_specification[ core::time::Duration::subsec_nanos ](d: &core::time::Duration) -> (nanos:
    u32)
    ensures
        nanos == duration_nanos(*d) % (NANOS_PER_SEC as nat),
;

/// The data of a duration of `secs` whole seconds and `nanos` nanoseconds: the
/// seconds in eight bytes, then the nanoseconds in four.
pub open spec fn duration_data(secs: int, nanos: int) -> Seq<u8> {
    le_bytes(secs, 8) + le_bytes(nanos, 4)
}

/// Writes a duration that is given by its parts through the sink's template
/// entry point.
pub fn write_duration<I: Interner>(secs: u64, nanos: u32, fmt: &mut Formatter<'_, I>) -> (r: Result<
    (),
    SinkFull,
>)
    ensures
        final(fmt).wrote(
            *old(fmt),
            tag_bytes((old(fmt).ids())(duration_pattern())) + duration_data(
                secs as int,
                nanos as int,
            ),
            r,
        ),
{
    let args = [Scalar::U64(secs), Scalar::U32(nanos)];
    proof {
        lemma_duration_args(secs, nanos);
    }
    fmt.write("Duration {{ secs: {=u64}, nanos: {=u32} }}", args.as_slice())
}

/// The two scalars of a duration make up its data.
proof fn lemma_duration_args(secs: u64, nanos: u32)
    ensures
        scalars_bytes(seq![Scalar::U64(secs), Scalar::U32(nanos)]) == duration_data(
            secs as int,
            nanos as int,
        ),
{
    let args = seq![Scalar::U64(secs), Scalar::U32(nanos)];
    let first = seq![Scalar::U64(secs)];
    assert(args.drop_last() =~= first);
    assert(scalars_bytes(first) =~= Scalar::U64(secs).bytes()) by {
        reveal_with_fuel(scalars_bytes, 2);
    }
}

impl Format for core::time::Duration {
    open spec fn pattern() -> Seq<char> {
        duration_pattern()
    }

    open spec fn data(&self, ids: Ids) -> Seq<u8> {
        duration_data(
            (duration_nanos(*self) / (NANOS_PER_SEC as nat)) as int,
            (duration_nanos(*self) % (NANOS_PER_SEC as nat)) as int,
        )
    }

    fn format<I: Interner>(&self, fmt: &mut Formatter<'_, I>) -> (r: Result<(), SinkFull>) {
        write_duration(self.as_secs(), self.subsec_nanos(), fmt)
    }

    fn _format_tag<I: Interner>(&self, symbols: &I) -> (id: u16) {
        symbols.intern("Duration {{ secs: {=u64}, nanos: {=u32} }}")
    }

    fn _format_data<I: Interner>(&self, fmt: &mut Formatter<'_, I>) -> (r: Result<(), SinkFull>) {
        let ghost before = *fmt;
        let secs = self.as_secs();
        let nanos = self.subsec_nanos();
        let first = fmt.scalar(Scalar::U64(secs));
        if first.is_err() {
            proof {
                fmt.lemma_wrote_short(before, le_bytes(secs as int, 8), le_bytes(nanos as int, 4), first);
            }
            return first;
        }
        let ghost between = *fmt;
        let r = fmt.scalar(Scalar::U32(nanos));
        proof {
            fmt.lemma_wrote_both(
                before,
                between,
                le_bytes(secs as int, 8),
                le_bytes(nanos as int, 4),
                r,
            );
        }
        r
    }
}

/// `core::iter::Zip`, declared so that it can stand in a signature. Nothing
/// is known of what a value of it holds.
#[verifier::external_type_specification]
#[verifier::external_body]
#[verifier::reject_recursive_types(A)]
#[verifier::reject_recursive_types(B)]
pub struct ExZip<A, B>(core::iter::Zip<A, B>);

/// A pair of iterators shows nothing of its state; it encodes as a label.
impl<A: Format, B: Format> Format for core::iter::Zip<A, B> {
    open spec fn pattern() -> Seq<char> {
        "Zip(..)"@
    }

    open spec fn data(&self, ids: Ids) -> Seq<u8> {
        Seq::empty()
    }

    fn format<I: Interner>(&self, fmt: &mut Formatter<'_, I>) -> (r: Result<(), SinkFull>) {
        let none: [Scalar; 0] = [];
        fmt.write("Zip(..)", none.as_slice())
    }

    fn _format_tag<I: Interner>(&self, symbols: &I) -> (id: u16) {
        symbols.intern("Zip(..)")
    }

    fn _format_data<I: Interner>(&self, fmt: &mut Formatter<'_, I>) -> (r: Result<(), SinkFull>) {
        proof {
            fmt.lemma_wrote_nothing();
        }
        Ok(())
    }
}

} // verus!
