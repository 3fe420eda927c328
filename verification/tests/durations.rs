use core::time::Duration;
use defmt_encode::impls::core_::write_duration;
use defmt_encode::{Format, Formatter, SinkFull, SymbolTable};

fn duration_symbols() -> SymbolTable {
    let mut table = SymbolTable::new();
    assert_eq!(table.register("{=u64}"), Some(0));
    assert_eq!(table.register("{=u32}"), Some(1));
    assert_eq!(
        table.register("Duration {{ secs: {=u64}, nanos: {=u32} }}"),
        Some(2)
    );
    assert_eq!(table.register("None|Some({=?})"), Some(3));
    table
}

/// Reads the two fields back from the bytes behind the identifier.
fn read_fields(data: &[u8]) -> (u64, u32) {
    let mut secs = [0u8; 8];
    let mut nanos = [0u8; 4];
    secs.copy_from_slice(&data[0..8]);
    nanos.copy_from_slice(&data[8..12]);
    (u64::from_le_bytes(secs), u32::from_le_bytes(nanos))
}

#[test]
fn duration_of_three_and_a_half_seconds() {
    let table = duration_symbols();
    let mut fmt = Formatter::new(&table, 32);
    let value = Duration::new(3, 500_000_000);
    assert_eq!(value.format(&mut fmt), Ok(()));
    assert_eq!(
        fmt.bytes(),
        &[
            0x02u8, 0x00, // the template
            0x03, 0x00, 0x00, 0x00, 0x00, 0x00, 0x00, 0x00, // secs = 3
            0x00, 0x65, 0xCD, 0x1D, // nanos = 500000000
        ][..]
    );
    let (secs, nanos) = read_fields(&fmt.bytes()[2..]);
    assert_eq!((secs, nanos), (3, 500_000_000));
    assert_eq!(Duration::new(secs, nanos), value);
}

#[test]
fn duration_fields_split_and_join_without_loss() {
    let table = duration_symbols();
    let cases = [
        Duration::new(0, 0),
        Duration::new(0, 1),
        Duration::new(0, 999_999_999),
        Duration::new(1, 0),
        Duration::new(u64::MAX, 0),
        Duration::new(u64::MAX, 999_999_999),
        Duration::from_nanos(1_999_999_999),
        Duration::new(7, 1_000_000_001),
    ];
    for value in cases {
        let mut fmt = Formatter::new(&table, 32);
        assert_eq!(value.format(&mut fmt), Ok(()));
        assert_eq!(fmt.bytes().len(), 14);
        let (secs, nanos) = read_fields(&fmt.bytes()[2..]);
        assert!(nanos < 1_000_000_000);
        assert_eq!(
            secs as u128 * 1_000_000_000 + nanos as u128,
            value.as_nanos()
        );
        assert_eq!(Duration::new(secs, nanos), value);
    }
    let mut fmt = Formatter::new(&table, 32);
    assert_eq!(Duration::new(7, 1_000_000_001).format(&mut fmt), Ok(()));
    assert_eq!(read_fields(&fmt.bytes()[2..]), (8, 1));
}

#[test]
fn duration_tag_and_data_make_up_what_format_writes() {
    let table = duration_symbols();
    let value = Duration::new(0x0102_0304_0506_0708, 0x0A0B_0C0D % 1_000_000_000);
    let mut whole = Formatter::new(&table, 32);
    let mut data = Formatter::new(&table, 32);
    assert_eq!(value.format(&mut whole), Ok(()));
    assert_eq!(value._format_data(&mut data), Ok(()));
    assert_eq!(value._format_tag(&table), 2);
    assert_eq!(&whole.bytes()[..2], &[0x02u8, 0x00][..]);
    assert_eq!(&whole.bytes()[2..], data.bytes());
    assert_eq!(
        &data.bytes()[..8],
        &[0x08u8, 0x07, 0x06, 0x05, 0x04, 0x03, 0x02, 0x01][..]
    );
    assert_eq!(read_fields(data.bytes()).1, 0x0A0B_0C0D % 1_000_000_000);
}

#[test]
fn duration_given_by_its_parts() {
    let table = duration_symbols();
    let mut fmt = Formatter::new(&table, 32);
    assert_eq!(write_duration(3, 500_000_000, &mut fmt), Ok(()));
    let mut through_the_type = Formatter::new(&table, 32);
    assert_eq!(
        Duration::new(3, 500_000_000).format(&mut through_the_type),
        Ok(())
    );
    assert_eq!(fmt.bytes(), through_the_type.bytes());
}

#[test]
fn duration_inside_an_optional() {
    let table = duration_symbols();
    let mut fmt = Formatter::new(&table, 32);
    let value = Some(Duration::new(1, 2));
    assert_eq!(value._format_data(&mut fmt), Ok(()));
    assert_eq!(
        fmt.bytes(),
        &[
            0x01u8, 0x02, 0x00, 0x01, 0x00, 0x00, 0x00, 0x00, 0x00, 0x00, 0x00, 0x02, 0x00, 0x00,
            0x00,
        ][..]
    );
}

#[test]
fn duration_that_does_not_fit_fails() {
    let table = duration_symbols();
    let value = Duration::new(3, 500_000_000);
    for limit in 0..14usize {
        let mut fmt = Formatter::new(&table, limit);
        assert_eq!(value.format(&mut fmt), Err(SinkFull));
        assert_eq!(fmt.bytes().len(), limit);
        let mut data = Formatter::new(&table, limit);
        let outcome = value._format_data(&mut data);
        assert_eq!(outcome, if limit < 12 { Err(SinkFull) } else { Ok(()) });
    }
    let mut fmt = Formatter::new(&table, 14);
    assert_eq!(value.format(&mut fmt), Ok(()));
}
