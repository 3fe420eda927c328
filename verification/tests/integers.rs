use defmt_encode::{Format, Formatter, Scalar, SymbolTable};

fn integer_symbols() -> SymbolTable {
    let mut table = SymbolTable::new();
    for pattern in [
        "{=u8}", "{=u16}", "{=u32}", "{=u64}", "{=i8}", "{=i16}", "{=i32}", "{=i64}",
    ] {
        assert!(table.register(pattern).is_some());
    }
    table
}

fn data_of<T: Format>(value: T, table: &SymbolTable) -> Vec<u8> {
    let mut fmt = Formatter::new(table, 16);
    assert_eq!(value._format_data(&mut fmt), Ok(()));
    fmt.bytes().to_vec()
}

#[test]
fn unsigned_integers_are_little_endian() {
    let table = integer_symbols();
    assert_eq!(data_of(0xABu8, &table), 0xABu8.to_le_bytes());
    assert_eq!(data_of(0x0102u16, &table), vec![0x02u8, 0x01]);
    assert_eq!(data_of(0x0102_0304u32, &table), vec![0x04u8, 0x03, 0x02, 0x01]);
    assert_eq!(
        data_of(0x0102_0304_0506_0708u64, &table),
        vec![0x08u8, 0x07, 0x06, 0x05, 0x04, 0x03, 0x02, 0x01]
    );
    assert_eq!(data_of(u64::MAX, &table), vec![0xFFu8; 8]);
    assert_eq!(data_of(0u32, &table), vec![0u8; 4]);
}

#[test]
fn signed_integers_are_twos_complement() {
    let table = integer_symbols();
    assert_eq!(data_of(-1i8, &table), vec![0xFFu8]);
    assert_eq!(data_of(i8::MIN, &table), vec![0x80u8]);
    assert_eq!(data_of(-2i16, &table), vec![0xFEu8, 0xFF]);
    assert_eq!(data_of(7i32, &table), vec![0x07u8, 0x00, 0x00, 0x00]);
    assert_eq!(data_of(-7i32, &table), (-7i32).to_le_bytes());
    assert_eq!(data_of(i32::MIN, &table), vec![0x00u8, 0x00, 0x00, 0x80]);
    assert_eq!(data_of(i64::MIN, &table), i64::MIN.to_le_bytes());
    assert_eq!(data_of(-1i64, &table), vec![0xFFu8; 8]);
    assert_eq!(data_of(i64::MAX, &table), i64::MAX.to_le_bytes());
}

#[test]
fn integers_take_their_identifiers_from_their_patterns() {
    let table = integer_symbols();
    assert_eq!(0u8._format_tag(&table), 0);
    assert_eq!(0u16._format_tag(&table), 1);
    assert_eq!(0u32._format_tag(&table), 2);
    assert_eq!(0u64._format_tag(&table), 3);
    assert_eq!(0i8._format_tag(&table), 4);
    assert_eq!(0i16._format_tag(&table), 5);
    assert_eq!(0i32._format_tag(&table), 6);
    assert_eq!(0i64._format_tag(&table), 7);
}

#[test]
fn integer_standing_alone_is_identifier_then_data() {
    let table = integer_symbols();
    let mut fmt = Formatter::new(&table, 16);
    assert_eq!(0x1234i16.format(&mut fmt), Ok(()));
    assert_eq!(fmt.bytes(), &[0x05u8, 0x00, 0x34, 0x12][..]);
}

#[test]
fn scalars_of_every_width() {
    let table = integer_symbols();
    let mut fmt = Formatter::new(&table, 64);
    for value in [
        Scalar::U8(1),
        Scalar::U16(2),
        Scalar::U32(3),
        Scalar::U64(4),
        Scalar::I8(-1),
        Scalar::I16(-2),
        Scalar::I32(-3),
        Scalar::I64(-4),
    ] {
        assert_eq!(fmt.scalar(value), Ok(()));
    }
    let mut expected: Vec<u8> = Vec::new();
    expected.extend_from_slice(&1u8.to_le_bytes());
    expected.extend_from_slice(&2u16.to_le_bytes());
    expected.extend_from_slice(&3u32.to_le_bytes());
    expected.extend_from_slice(&4u64.to_le_bytes());
    expected.extend_from_slice(&(-1i8).to_le_bytes());
    expected.extend_from_slice(&(-2i16).to_le_bytes());
    expected.extend_from_slice(&(-3i32).to_le_bytes());
    expected.extend_from_slice(&(-4i64).to_le_bytes());
    assert_eq!(fmt.bytes(), &expected[..]);
    assert_eq!(fmt.remaining(), 64 - 30);
}
