use defmt_encode::{Formatter, Interner, Scalar, SinkFull, SymbolTable};

fn sink_symbols() -> SymbolTable {
    let mut table = SymbolTable::new();
    for i in 0..0x0304u32 {
        assert_eq!(table.register(&format!("filler {}", i)), Some(i as u16));
    }
    assert_eq!(table.register("pair {=u16} {=i8}"), Some(0x0304));
    table
}

#[test]
fn new_sink_is_empty() {
    let table = SymbolTable::new();
    let fmt = Formatter::new(&table, 5);
    assert_eq!(fmt.bytes(), &[0u8; 0][..]);
    assert_eq!(fmt.remaining(), 5);
    assert_eq!(fmt.interner().len(), 0);
}

#[test]
fn bytes_are_appended_in_order_until_the_limit() {
    let table = SymbolTable::new();
    let mut fmt = Formatter::new(&table, 3);
    assert_eq!(fmt.u8(&0x10), Ok(()));
    assert_eq!(fmt.u8(&0x20), Ok(()));
    assert_eq!(fmt.remaining(), 1);
    assert_eq!(fmt.u8(&0x30), Ok(()));
    assert_eq!(fmt.remaining(), 0);
    assert_eq!(fmt.u8(&0x40), Err(SinkFull));
    assert_eq!(fmt.u8(&0x50), Err(SinkFull));
    assert_eq!(fmt.bytes(), &[0x10u8, 0x20, 0x30][..]);
}

#[test]
fn sink_without_room_takes_nothing() {
    let table = SymbolTable::new();
    let mut fmt = Formatter::new(&table, 0);
    assert_eq!(fmt.u8(&1), Err(SinkFull));
    assert_eq!(fmt.tag(1), Err(SinkFull));
    assert_eq!(fmt.scalar(Scalar::U32(1)), Err(SinkFull));
    assert_eq!(fmt.write("anything", &[]), Err(SinkFull));
    assert_eq!(fmt.bytes().len(), 0);
}

#[test]
fn identifier_is_two_bytes_low_byte_first() {
    let table = SymbolTable::new();
    let mut fmt = Formatter::new(&table, 8);
    assert_eq!(fmt.tag(0xBEEF), Ok(()));
    assert_eq!(fmt.tag(0x0001), Ok(()));
    assert_eq!(fmt.tag(0), Ok(()));
    assert_eq!(fmt.tag(u16::MAX), Ok(()));
    assert_eq!(
        fmt.bytes(),
        &[0xEFu8, 0xBE, 0x01, 0x00, 0x00, 0x00, 0xFF, 0xFF][..]
    );
}

#[test]
fn identifier_that_fits_by_half_fails_with_half_written() {
    let table = SymbolTable::new();
    let mut fmt = Formatter::new(&table, 3);
    assert_eq!(fmt.tag(0x0201), Ok(()));
    assert_eq!(fmt.tag(0x0403), Err(SinkFull));
    assert_eq!(fmt.bytes(), &[0x01u8, 0x02, 0x03][..]);
}

#[test]
fn template_is_identifier_then_arguments_in_order() {
    let table = sink_symbols();
    let mut fmt = Formatter::new(&table, 16);
    assert_eq!(
        fmt.write("pair {=u16} {=i8}", &[Scalar::U16(0xA1B2), Scalar::I8(-3)]),
        Ok(())
    );
    assert_eq!(fmt.bytes(), &[0x04u8, 0x03, 0xB2, 0xA1, 0xFD][..]);
}

#[test]
fn template_without_arguments_is_its_identifier() {
    let table = sink_symbols();
    let mut fmt = Formatter::new(&table, 16);
    assert_eq!(fmt.write("pair {=u16} {=i8}", &[]), Ok(()));
    assert_eq!(fmt.bytes(), &[0x04u8, 0x03][..]);
}

#[test]
fn template_that_does_not_fit_fails_at_every_shorter_limit() {
    let table = sink_symbols();
    let whole = [0x04u8, 0x03, 0xB2, 0xA1, 0xFD, 0x01, 0x00, 0x00, 0x00];
    let args = [Scalar::U16(0xA1B2), Scalar::I8(-3), Scalar::U32(1)];
    for limit in 0..whole.len() {
        let mut fmt = Formatter::new(&table, limit);
        assert_eq!(fmt.write("pair {=u16} {=i8}", &args), Err(SinkFull));
        assert_eq!(fmt.bytes(), &whole[..limit]);
    }
    let mut fmt = Formatter::new(&table, whole.len());
    assert_eq!(fmt.write("pair {=u16} {=i8}", &args), Ok(()));
    assert_eq!(fmt.bytes(), &whole[..]);
}

#[test]
fn sink_asks_the_interner_it_was_made_with() {
    let table = sink_symbols();
    let fmt = Formatter::new(&table, 4);
    assert_eq!(fmt.interner().intern("pair {=u16} {=i8}"), 0x0304);
    assert_eq!(fmt.interner().intern("filler 5"), 5);
}
