//! The contract of an encodable value: the pattern that names its shape, the
//! data bytes that follow the shape's identifier, and the two entry points
//! that write them.
use crate::formatter::{tag_bytes, Formatter, SinkFull};
use crate::symbols::{Ids, Interner};
use vstd::prelude::*;

verus! {

/// A value that can append itself to a sink.
///
/// An implementation names the pattern of its type and the data bytes of each
/// value; the three operations are held to them. `format` is the entry point
/// for a value that stands alone; `_format_tag` and `_format_data` serve a
/// composite that writes the identifier of its payload itself.
///
/// `pattern` and `data` are left open by default, so that code which is not
/// verified, and cannot state them, can still implement the trait. Of such
/// an implementation nothing is proved.
pub trait Format {
    /// The pattern text of the type's shape. It is the same for every value.
    open spec fn pattern() -> Seq<char> {
        arbitrary()
    }

    /// The data bytes of the value: what follows the identifier of its shape.
    /// `ids` gives the identifier of every pattern.
    open spec fn data(&self, ids: Ids) -> Seq<u8> {
        arbitrary()
    }

    /// Writes the identifier of the value's shape and then its data. Where
    /// the sink is too small, it is filled and the call fails; what it then
    /// holds of this value is no encoding of it.
    fn format<I: Interner>(&self, fmt: &mut Formatter<'_, I>) -> (r: Result<(), SinkFull>)
        ensures
            final(fmt).wrote(
                *old(fmt),
                tag_bytes((old(fmt).ids())(Self::pattern())) + self.data(old(fmt).ids()),
                r,
            ),
    {
        let ghost before = *fmt;
        let ghost ids = before.ids();
        let id = self._format_tag(fmt.interner());
        let tagged = fmt.tag(id);
        if tagged.is_err() {
            proof {
                fmt.lemma_wrote_short(before, tag_bytes(id), self.data(ids), tagged);
            }
            return tagged;
        }
        let ghost between = *fmt;
        let r = self._format_data(fmt);
        proof {
            fmt.lemma_wrote_both(before, between, tag_bytes(id), self.data(ids), r);
        }
        r
    }

    /// Asks `symbols` for the identifier of the type's pattern. Nothing is written.
    fn _format_tag<I: Interner>(&self, symbols: &I) -> (id: u16)
        ensures
            id == (symbols.ids())(Self::pattern()),
    ;

    /// Writes the data of the value, without the identifier of its shape.
    fn _format_data<I: Interner>(&self, fmt: &mut Formatter<'_, I>) -> (r: Result<(), SinkFull>)
        ensures
            final(fmt).wrote(*old(fmt), self.data(old(fmt).ids()), r),
    ;
}

/// The bytes of a value that stands alone: the identifier of its shape, then
/// its data.
pub open spec fn encoded<T: Format + ?Sized>(value: &T, ids: Ids) -> Seq<u8> {
    tag_bytes(ids(T::pattern())) + value.data(ids)
}

/// Writes a variant that carries one value: the discriminant, the identifier
/// of the payload's shape, and the payload's data.
pub fn write_variant<T: Format, I: Interner>(
    discriminant: u8,
    payload: &T,
    fmt: &mut Formatter<'_, I>,
) -> (r: Result<(), SinkFull>)
    ensures
        final(fmt).wrote(
            *old(fmt),
            seq![discriminant] + tag_bytes((old(fmt).ids())(T::pattern())) + payload.data(
                old(fmt).ids(),
            ),
            r,
        ),
{
    let ghost before = *fmt;
    let ghost ids = before.ids();
    let ghost head = seq![discriminant];
    let ghost tag = tag_bytes(ids(T::pattern()));
    let ghost data = payload.data(ids);
    let first = fmt.u8(&discriminant);
    if first.is_err() {
        proof {
            fmt.lemma_wrote_short(before, head, tag + data, first);
            assert(head + (tag + data) =~= head + tag + data);
        }
        return first;
    }
    let ghost headed = *fmt;
    let id = payload._format_tag(fmt.interner());
    let second = fmt.tag(id);
    proof {
        fmt.lemma_wrote_both(before, headed, head, tag, second);
    }
    if second.is_err() {
        proof {
            fmt.lemma_wrote_short(before, head + tag, data, second);
        }
        return second;
    }
    let ghost tagged = *fmt;
    let r = payload._format_data(fmt);
    proof {
        fmt.lemma_wrote_both(before, tagged, head + tag, data, r);
    }
    r
}

/// A reference encodes as what it points to.
impl<T: Format> Format for &T {
    open spec fn pattern() -> Seq<char> {
        T::pattern()
    }

    open spec fn data(&self, ids: Ids) -> Seq<u8> {
        (**self).data(ids)
    }

    fn format<I: Interner>(&self, fmt: &mut Formatter<'_, I>) -> (r: Result<(), SinkFull>) {
        (**self).format(fmt)
    }

    fn _format_tag<I: Interner>(&self, symbols: &I) -> (id: u16) {
        (**self)._format_tag(symbols)
    }

    fn _format_data<I: Interner>(&self, fmt: &mut Formatter<'_, I>) -> (r: Result<(), SinkFull>) {
        (**self)._format_data(fmt)
    }
}

} // verus!
