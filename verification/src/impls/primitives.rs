//! The fixed-width integers: each is one scalar on the wire.
use crate::format::Format;
use crate::formatter::{Formatter, Scalar, SinkFull};
use crate::symbols::{Ids, Interner};
use vstd::prelude::*;

verus! {

impl Format for u8 {
    open spec fn pattern() -> Seq<char> {
        "{=u8}"@
    }

    open spec fn data(&self, ids: Ids) -> Seq<u8> {
        Scalar::U8(*self).bytes()
    }

    fn _format_tag<I: Interner>(&self, symbols: &I) -> (id: u16) {
        symbols.intern("{=u8}")
    }

    fn _format_data<I: Interner>(&self, fmt: &mut Formatter<'_, I>) -> (r: Result<(), SinkFull>) {
        fmt.scalar(Scalar::U8(*self))
    }
}

impl Format for u16 {
    open spec fn pattern() -> Seq<char> {
        "{=u16}"@
    }

    open spec fn data(&self, ids: Ids) -> Seq<u8> {
        Scalar::U16(*self).bytes()
    }

    fn _format_tag<I: Interner>(&self, symbols: &I) -> (id: u16) {
        symbols.intern("{=u16}")
    }

    fn _format_data<I: Interner>(&self, fmt: &mut Formatter<'_, I>) -> (r: Result<(), SinkFull>) {
        fmt.scalar(Scalar::U16(*self))
    }
}

impl Format for u32 {
    open spec fn pattern() -> Seq<char> {
        "{=u32}"@
    }

    open spec fn data(&self, ids: Ids) -> Seq<u8> {
        Scalar::U32(*self).bytes()
    }

    fn _format_tag<I: Interner>(&self, symbols: &I) -> (id: u16) {
        symbols.intern("{=u32}")
    }

    fn _format_data<I: Interner>(&self, fmt: &mut Formatter<'_, I>) -> (r: Result<(), SinkFull>) {
        fmt.scalar(Scalar::U32(*self))
    }
}

impl Format for u64 {
    open spec fn pattern() -> Seq<char> {
        "{=u64}"@
    }

    open spec fn data(&self, ids: Ids) -> Seq<u8> {
        Scalar::U64(*self).bytes()
    }

    fn _format_tag<I: Interner>(&self, symbols: &I) -> (id: u16) {
        symbols.intern("{=u64}")
    }

    fn _format_data<I: Interner>(&self, fmt: &mut Formatter<'_, I>) -> (r: Result<(), SinkFull>) {
        fmt.scalar(Scalar::U64(*self))
    }
}

impl Format for i8 {
    open spec fn pattern() -> Seq<char> {
        "{=i8}"@
    }

    open spec fn data(&self, ids: Ids) -> Seq<u8> {
        Scalar::I8(*self).bytes()
    }

    fn _format_tag<I: Interner>(&self, symbols: &I) -> (id: u16) {
        symbols.intern("{=i8}")
    }

    fn _format_data<I: Interner>(&self, fmt: &mut Formatter<'_, I>) -> (r: Result<(), SinkFull>) {
        fmt.scalar(Scalar::I8(*self))
    }
}

impl Format for i16 {
    open spec fn pattern() -> Seq<char> {
        "{=i16}"@
    }

    open spec fn data(&self, ids: Ids) -> Seq<u8> {
        Scalar::I16(*self).bytes()
    }

    fn _format_tag<I: Interner>(&self, symbols: &I) -> (id: u16) {
        symbols.intern("{=i16}")
    }

    fn _format_data<I: Interner>(&self, fmt: &mut Formatter<'_, I>) -> (r: Result<(), SinkFull>) {
        fmt.scalar(Scalar::I16(*self))
    }
}

impl Format for i32 {
    open spec fn pattern() -> Seq<char> {
        "{=i32}"@
    }

    open spec fn data(&self, ids: Ids) -> Seq<u8> {
        Scalar::I32(*self).bytes()
    }

    fn _format_tag<I: Interner>(&self, symbols: &I) -> (id: u16) {
        symbols.intern("{=i32}")
    }

    fn _format_data<I: Interner>(&self, fmt: &mut Formatter<'_, I>) -> (r: Result<(), SinkFull>) {
        fmt.scalar(Scalar::I32(*self))
    }
}

impl Format for i64 {
    open spec fn pattern() -> Seq<char> {
        "{=i64}"@
    }

    open spec fn data(&self, ids: Ids) -> Seq<u8> {
        Scalar::I64(*self).bytes()
    }

    fn _format_tag<I: Interner>(&self, symbols: &I) -> (id: u16) {
        symbols.intern("{=i64}")
    }

    fn _format_data<I: Interner>(&self, fmt: &mut Formatter<'_, I>) -> (r: Result<(), SinkFull>) {
        fmt.scalar(Scalar::I64(*self))
    }
}

} // verus!
