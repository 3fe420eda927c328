//! The sink: a bounded, append-only run of bytes, and the primitive writes
//! that every encoding is made of.
use crate::symbols::{Ids, Interner};
use crate::wire::{clip, le_bytes, lemma_le_bytes_wrap, lemma_le_low_bytes, radix};
use vstd::prelude::*;

verus! {

/// The sink has no room for the bytes that were to be written.
#[derive(Clone, Copy, Debug, PartialEq, Eq)]
pub struct SinkFull;

/// An argument of a template: a number together with the width and
/// signedness with which it goes on the wire.
#[derive(Clone, Copy, Debug, PartialEq, Eq)]
pub enum Scalar {
    U8(u8),
    U16(u16),
    U32(u32),
    U64(u64),
    I8(i8),
    I16(i16),
    I32(i32),
    I64(i64),
}

impl Scalar {
    /// The number of bytes that the scalar takes.
    pub open spec fn width(self) -> nat {
        match self {
            Scalar::U8(_) | Scalar::I8(_) => 1,
            Scalar::U16(_) | Scalar::I16(_) => 2,
            Scalar::U32(_) | Scalar::I32(_) => 4,
            Scalar::U64(_) | Scalar::I64(_) => 8,
        }
    }

    /// The number that the scalar stands for.
    pub open spec fn value(self) -> int {
        match self {
            Scalar::U8(v) => v as int,
            Scalar::U16(v) => v as int,
            Scalar::U32(v) => v as int,
            Scalar::U64(v) => v as int,
            Scalar::I8(v) => v as int,
            Scalar::I16(v) => v as int,
            Scalar::I32(v) => v as int,
            Scalar::I64(v) => v as int,
        }
    }

    /// The bytes of the scalar: little-endian, two's complement.
    pub open spec fn bytes(self) -> Seq<u8> {
        le_bytes(self.value(), self.width())
    }
}

/// The bytes of a run of scalars, one after the other.
pub open spec fn scalars_bytes(args: Seq<Scalar>) -> Seq<u8>
    decreases args.len(),
{
    if args.len() == 0 {
        Seq::empty()
    } else {
        scalars_bytes(args.drop_last()) + args.last().bytes()
    }
}

/// The bytes of a shape identifier: two of them, low byte first.
pub open spec fn tag_bytes(id: u16) -> Seq<u8> {
    le_bytes(id as int, 2)
}

/// An append-only sink of bounded size, with the interner whose identifiers
/// it writes.
pub struct Formatter<'a, I: Interner> {
    bytes: Vec<u8>,
    room: usize,
    symbols: &'a I,
}

impl<'a, I: Interner> View for Formatter<'a, I> {
    type V = Seq<u8>;

    /// The bytes written so far.
    closed spec fn view(&self) -> Seq<u8> {
        self.bytes@
    }
}

impl<'a, I: Interner> Formatter<'a, I> {
    /// The largest number of bytes that the sink takes.
    pub closed spec fn limit(&self) -> nat {
        (self.bytes.len() + self.room) as nat
    }

    /// The interner that the sink was made with.
    pub closed spec fn symbols(&self) -> &'a I {
        self.symbols
    }

    /// The identifier of every pattern text, as the sink's interner gives it.
    pub open spec fn ids(&self) -> Ids {
        self.symbols().ids()
    }

    /// The sink after `bytes` were offered to it in the state `before`, with
    /// the outcome `r`: it succeeded if and only if all of them fit, and the
    /// sink holds what fit. Nothing else about the sink has changed.
    pub open spec fn wrote(self, before: Self, bytes: Seq<u8>, r: Result<(), SinkFull>) -> bool {
        &&& self.limit() == before.limit()
        &&& self.symbols() == before.symbols()
        &&& r is Ok <==> before@.len() + bytes.len() <= before.limit()
        &&& self@ == clip(before@ + bytes, before.limit())
    }

    /// No sink holds more than its limit.
    pub proof fn lemma_within_limit(self)
        ensures
            self@.len() <= self.limit(),
    {
    }

    /// Two writes in a row, the first of which succeeded, are one write of
    /// both runs of bytes.
    pub proof fn lemma_wrote_both(
        self,
        before: Self,
        between: Self,
        first: Seq<u8>,
        second: Seq<u8>,
        r: Result<(), SinkFull>,
    )
        requires
            between.wrote(before, first, Ok(())),
            self.wrote(between, second, r),
        ensures
            self.wrote(before, first + second, r),
    {
        assert(before@ + first + second =~= before@ + (first + second));
    }

    /// A write that failed is also a failed write of the same bytes with more
    /// behind them.
    pub proof fn lemma_wrote_short(
        self,
        before: Self,
        first: Seq<u8>,
        rest: Seq<u8>,
        r: Result<(), SinkFull>,
    )
        requires
            self.wrote(before, first, r),
            r is Err,
        ensures
            self.wrote(before, first + rest, r),
    {
        assert(clip(before@ + first, before.limit()) =~= clip(
            before@ + (first + rest),
            before.limit(),
        ));
    }

    /// Writing nothing succeeds and changes nothing.
    pub proof fn lemma_wrote_nothing(self)
        ensures
            self.wrote(self, Seq::empty(), Ok(())),
    {
    }

    /// An empty sink that takes at most `limit` bytes.
    pub fn new(symbols: &'a I, limit: usize) -> (fmt: Self)
        ensures
            fmt@ == Seq::<u8>::empty(),
            fmt.limit() == limit,
            fmt.symbols() == symbols,
    {
        Formatter { bytes: Vec::new(), room: limit, symbols }
    }

    /// The interner that the sink was made with.
    pub fn interner(&self) -> (symbols: &'a I)
        ensures
            symbols == self.symbols(),
    {
        self.symbols
    }

    /// The bytes written so far.
    pub fn bytes(&self) -> (written: &[u8])
        ensures
            written@ == self@,
    {
        self.bytes.as_slice()
    }

    /// The number of bytes that the sink still takes.
    pub fn remaining(&self) -> (room: usize)
        ensures
            room == self.limit() - self@.len(),
    {
        self.room
    }

    /// Appends one byte.
    pub fn u8(&mut self, byte: &u8) -> (r: Result<(), SinkFull>)
        ensures
            final(self).wrote(*old(self), seq![*byte], r),
    {
        if self.room > 0 {
            self.bytes.push(*byte);
            self.room = self.room - 1;
            assert(self@ =~= old(self)@ + seq![*byte]);
            Ok(())
        } else {
            assert(clip(self@ + seq![*byte], self.limit()) =~= self@);
            Err(SinkFull)
        }
    }

    /// Appends the `width` low bytes of `raw`, least significant first.
    fn put_le(&mut self, raw: u64, width: usize) -> (r: Result<(), SinkFull>)
        ensures
            final(self).wrote(*old(self), le_bytes(raw as int, width as nat), r),
    {
        let ghost before = *self;
        let ghost all = le_bytes(raw as int, width as nat);
        let ghost mut done: Seq<u8> = Seq::empty();
        let mut rest: u64 = raw;
        let mut i: usize = 0;
        proof {
            self.lemma_wrote_nothing();
        }
        while i < width
            invariant
                i <= width,
                before == *old(self),
                all == le_bytes(raw as int, width as nat),
                all == done + le_bytes(rest as int, (width - i) as nat),
                self.wrote(before, done, Ok(())),
            decreases width - i,
        {
            let ghost between = *self;
            let low: u8 = (rest % 256) as u8;
            let r = self.u8(&low);
            proof {
                let tail = le_bytes((rest / 256) as int, (width - i - 1) as nat);
                assert(all =~= (done + seq![low]) + tail);
                self.lemma_wrote_both(before, between, done, seq![low], r);
                if r is Err {
                    self.lemma_wrote_short(before, done + seq![low], tail, r);
                }
                done = done + seq![low];
            }
            if r.is_err() {
                return r;
            }
            rest = rest / 256;
            i = i + 1;
        }
        Ok(())
    }

    /// Appends a shape identifier.
    pub fn tag(&mut self, id: u16) -> (r: Result<(), SinkFull>)
        ensures
            final(self).wrote(*old(self), tag_bytes(id), r),
    {
        self.put_le(id as u64, 2)
    }

    /// Appends a scalar.
    pub fn scalar(&mut self, value: Scalar) -> (r: Result<(), SinkFull>)
        ensures
            final(self).wrote(*old(self), value.bytes(), r),
    {
        match value {
            Scalar::U8(v) => self.put_le(v as u64, 1),
            Scalar::U16(v) => self.put_le(v as u64, 2),
            Scalar::U32(v) => self.put_le(v as u64, 4),
            Scalar::U64(v) => self.put_le(v, 8),
            Scalar::I8(v) => self.put_signed(v as i64, 1),
            Scalar::I16(v) => self.put_signed(v as i64, 2),
            Scalar::I32(v) => self.put_signed(v as i64, 4),
            Scalar::I64(v) => self.put_signed(v, 8),
        }
    }

    /// Appends the `width` low bytes of `value` in two's complement.
    fn put_signed(&mut self, value: i64, width: usize) -> (r: Result<(), SinkFull>)
        requires
            width <= 8,
        ensures
            final(self).wrote(*old(self), le_bytes(value as int, width as nat), r),
    {
        let raw: u64 = if value >= 0 {
            value as u64
        } else {
            (value as i128 + 0x1_0000_0000_0000_0000i128) as u64
        };
        proof {
            reveal_with_fuel(radix, 9);
            if value < 0 {
                lemma_le_bytes_wrap(value as int, 8);
                lemma_le_low_bytes(value as int, raw as int, width as nat, 8);
            }
        }
        self.put_le(raw, width)
    }

    /// Appends the identifier of `pattern` and then the scalars that the
    /// pattern's slots take, in their order.
    pub fn write(&mut self, pattern: &str, args: &[Scalar]) -> (r: Result<(), SinkFull>)
        ensures
            final(self).wrote(
                *old(self),
                tag_bytes((old(self).ids())(pattern@)) + scalars_bytes(args@),
                r,
            ),
    {
        let ghost before = *self;
        let id = self.symbols.intern(pattern);
        let r = self.tag(id);
        if r.is_err() {
            proof {
                self.lemma_wrote_short(before, tag_bytes(id), scalars_bytes(args@), r);
            }
            return r;
        }
        let mut i: usize = 0;
        while i < args.len()
            invariant
                i <= args.len(),
                before == *old(self),
                self.wrote(before, tag_bytes(id) + scalars_bytes(args@.take(i as int)), Ok(())),
                id == (before.ids())(pattern@),
            decreases args.len() - i,
        {
            let ghost between = *self;
            let ghost done = tag_bytes(id) + scalars_bytes(args@.take(i as int));
            let r = self.scalar(args[i]);
            proof {
                let next = args@.take(i + 1);
                assert(next.drop_last() =~= args@.take(i as int));
                assert(done + args@[i as int].bytes() =~= tag_bytes(id) + scalars_bytes(next));
                self.lemma_wrote_both(before, between, done, args@[i as int].bytes(), r);
                if r is Err {
                    lemma_scalars_split(args@, i + 1);
                    let rest = scalars_bytes(args@.skip(i + 1));
                    assert(tag_bytes(id) + scalars_bytes(next) + rest =~= tag_bytes(id)
                        + scalars_bytes(args@));
                    self.lemma_wrote_short(before, tag_bytes(id) + scalars_bytes(next), rest, r);
                }
            }
            if r.is_err() {
                return r;
            }
            i = i + 1;
        }
        assert(args@.take(i as int) =~= args@);
        Ok(())
    }
}

/// The bytes of a run of scalars are those of its first `at` scalars followed
/// by those of the rest.
pub proof fn lemma_scalars_split(args: Seq<Scalar>, at: int)
    requires
        0 <= at <= args.len(),
    ensures
        scalars_bytes(args) == scalars_bytes(args.take(at)) + scalars_bytes(args.skip(at)),
    decreases args.len(),
{
    if at == args.len() {
        assert(args.take(at) =~= args);
    } else {
        let shorter = args.drop_last();
        lemma_scalars_split(shorter, at);
        assert(shorter.take(at) =~= args.take(at));
        assert(shorter.skip(at) =~= args.skip(at).drop_last());
    }
}

} // verus!
