use defmt_encode::{Format, Formatter, SinkFull, SymbolTable};

/// A table in which the 32-bit integer has the identifier 0x0102 and the
/// optional 0x0103, so that both bytes of an identifier show.
fn optional_symbols() -> SymbolTable {
    let mut table = SymbolTable::new();
    for i in 0..0x0102u32 {
        assert_eq!(table.register(&format!("filler {}", i)), Some(i as u16));
    }
    assert_eq!(table.register("{=i32}"), Some(0x0102));
    assert_eq!(table.register("None|Some({=?})"), Some(0x0103));
    table
}

#[test]
fn absent_optional_is_one_zero_byte() {
    let table = optional_symbols();
    let mut fmt = Formatter::new(&table, 16);
    let value: Option<i32> = None;
    assert_eq!(value._format_data(&mut fmt), Ok(()));
    assert_eq!(fmt.bytes(), &[0x00u8][..]);
}

#[test]
fn present_optional_is_discriminant_identifier_and_element() {
    let table = optional_symbols();
    let mut fmt = Formatter::new(&table, 16);
    let value: Option<i32> = Some(7);
    assert_eq!(value._format_data(&mut fmt), Ok(()));
    assert_eq!(fmt.bytes(), &[0x01u8, 0x02, 0x01, 0x07, 0x00, 0x00, 0x00][..]);
}

#[test]
fn present_optional_ends_in_the_data_of_the_element_alone() {
    let table = optional_symbols();
    let mut whole = Formatter::new(&table, 16);
    let mut alone = Formatter::new(&table, 16);
    let element: i32 = -123_456;
    assert_eq!(Some(element)._format_data(&mut whole), Ok(()));
    assert_eq!(element._format_data(&mut alone), Ok(()));
    assert_eq!(whole.bytes()[0], 1);
    assert_eq!(&whole.bytes()[1..3], &element._format_tag(&table).to_le_bytes()[..]);
    assert_eq!(&whole.bytes()[3..], alone.bytes());
}

#[test]
fn optional_standing_alone_starts_with_its_own_identifier() {
    let table = optional_symbols();
    let mut fmt = Formatter::new(&table, 16);
    let value: Option<i32> = Some(7);
    assert_eq!(value._format_tag(&table), 0x0103);
    assert_eq!(value.format(&mut fmt), Ok(()));
    assert_eq!(fmt.bytes(), &[0x03u8, 0x01, 0x01, 0x02, 0x01, 0x07, 0x00, 0x00, 0x00][..]);
}

#[test]
fn nested_optional_repeats_the_rule_at_each_level() {
    let table = optional_symbols();
    let mut fmt = Formatter::new(&table, 32);
    let value: Option<Option<i32>> = Some(Some(7));
    assert_eq!(value._format_data(&mut fmt), Ok(()));
    assert_eq!(
        fmt.bytes(),
        &[0x01u8, 0x03, 0x01, 0x01, 0x02, 0x01, 0x07, 0x00, 0x00, 0x00][..]
    );

    let mut inner_absent = Formatter::new(&table, 32);
    let value: Option<Option<i32>> = Some(None);
    assert_eq!(value._format_data(&mut inner_absent), Ok(()));
    assert_eq!(inner_absent.bytes(), &[0x01u8, 0x03, 0x01, 0x00][..]);
}

#[test]
fn optional_reference_encodes_as_the_value() {
    let table = optional_symbols();
    let seven: i32 = 7;
    let mut by_reference = Formatter::new(&table, 16);
    let mut by_value = Formatter::new(&table, 16);
    assert_eq!(Some(&seven).format(&mut by_reference), Ok(()));
    assert_eq!(Some(seven).format(&mut by_value), Ok(()));
    assert_eq!(by_reference.bytes(), by_value.bytes());
    assert_eq!((&seven)._format_tag(&table), 0x0102);
}

#[test]
fn optional_that_does_not_fit_fails_and_fills_the_sink() {
    let table = optional_symbols();
    for limit in 0..7usize {
        let mut fmt = Formatter::new(&table, limit);
        assert_eq!(Some(7i32)._format_data(&mut fmt), Err(SinkFull));
        assert_eq!(fmt.bytes(), &[0x01u8, 0x02, 0x01, 0x07, 0x00, 0x00, 0x00][..limit]);
        assert_eq!(fmt.remaining(), 0);
    }
    let mut fmt = Formatter::new(&table, 7);
    assert_eq!(Some(7i32)._format_data(&mut fmt), Ok(()));
    assert_eq!(fmt.remaining(), 0);
}
