use std::collections::HashMap;

use stc::definitions::TableDefinition;
use stc::error::{Error, IoError};
use stc::named::NamedTable;
use stc::table::Table;
use stc::value::Value;

fn sample() -> Table {
    let mut table = Table::new(1);
    table
        .add_row(vec![
            Value::I32(-1),
            Value::String("0,1,2".into()),
            Value::String("a:0,b:1,c:2".into()),
        ])
        .unwrap();
    table
}

#[test]
fn adding() {
    // empty table
    let mut table = Table::new(1);
    let buffer = table.serialize().unwrap();
    assert_eq!(buffer, vec![1, 0, 2, 0, 0, 0]);

    // row with invalid id
    let row = vec![Value::U8(0)];
    assert!(matches!(table.add_row(row), Err(Error::InvalidRowID)));

    // row with too many columns
    let mut row = vec![Value::I32(0)];
    for _ in 1..256 {
        row.push(Value::U8(0));
    }
    assert!(matches!(table.add_row(row), Err(Error::TooManyColumns)));

    // too many rows
    let mut table = Table::new(0);
    for _ in 0..65535 {
        table.add_row(vec![Value::I32(0)]).unwrap();
    }
    assert!(matches!(
        table.add_row(vec![Value::I32(0)]),
        Err(Error::TooManyRows)
    ));

    // inconsistent row length
    let mut table = Table::new(0);
    table.add_row(vec![Value::I32(0), Value::I32(0)]).unwrap();
    assert!(matches!(
        table.add_row(vec![Value::I32(0)]),
        Err(Error::InconsistentRowLength)
    ))
}

#[test]
fn getters() {
    let table = sample();

    assert!(matches!(table.value::<i32>(0, 0), Ok(-1)));
    assert!(matches!(table.value::<String>(0, 0).as_deref(), Ok("-1")));

    assert!(matches!(
        table.value::<i32>(0, 1),
        Err(Error::ValueConversionFailed)
    ));
    assert!(matches!(
        table.value::<String>(0, 1).as_deref(),
        Ok("0,1,2")
    ));
    assert!(matches!(
        table.vector::<i32>(0, 1, ",").as_deref(),
        Ok(&[0, 1, 2])
    ));

    let mut map = HashMap::new();
    map.insert("a".to_string(), 0);
    map.insert("b".to_string(), 1);
    map.insert("c".to_string(), 2);
    if let Ok(ret) = table.map::<String, i32>(0, 2, ",", ":") {
        let ret: HashMap<String, i32> = ret.into_iter().collect();
        assert!(ret == map);
    }
    assert!(matches!(table.value::<i32>(1, 0), Err(Error::RowNotFound)));

    let def = TableDefinition {
        name: "Test".into(),
        columns: vec!["id".into(), "array".into(), "map".into()],
        types: vec!["i32".into(), "string".into(), "string".into()],
    };
    let named = NamedTable::from_definition(table, &def).unwrap();

    assert!(matches!(named.value::<i32>(-1, "id"), Ok(-1)));
    assert!(matches!(
        named.vector::<i32>(-1, "array", ",").as_deref(),
        Ok(&[0, 1, 2])
    ));
    if let Ok(ret) = named.map::<String, i32>(-1, "map", ",", ":") {
        let ret: HashMap<String, i32> = ret.into_iter().collect();
        assert!(ret == map);
    }
}

#[test]
fn empty_table_round_trip() {
    let table = Table::new(1);
    let bytes = table.serialize().unwrap();
    assert_eq!(bytes, vec![0x01, 0x00, 0x02, 0x00, 0x00, 0x00]);
    let back = Table::deserialize(&bytes).unwrap();
    assert_eq!(back.id, 1);
    assert!(back.rows.is_empty());
}

#[test]
fn single_i32_row_round_trip() {
    let mut table = Table::new(1);
    table.add_row(vec![Value::I32(-1)]).unwrap();
    let bytes = table.serialize().unwrap();
    // header, one column of type i32, one jump entry, one row
    assert_eq!(
        bytes,
        vec![1, 0, 16, 0, 1, 0, 1, 5, 0xff, 0xff, 0xff, 0xff, 16, 0, 0, 0, 0xff, 0xff, 0xff, 0xff]
    );
    let back = Table::deserialize(&bytes).unwrap();
    assert_eq!(back.id, 1);
    assert_eq!(back.rows, vec![vec![Value::I32(-1)]]);
    assert!(matches!(back.value::<i32>(0, 0), Ok(-1)));
    assert!(matches!(back.value::<String>(0, 0).as_deref(), Ok("-1")));
    assert!(matches!(back.value::<i32>(1, 0), Err(Error::RowNotFound)));
}

#[test]
fn every_type_round_trips() {
    let row = vec![
        Value::I32(7),
        Value::I8(-128),
        Value::U8(255),
        Value::I16(-2),
        Value::U16(65535),
        Value::I32(i32::MIN),
        Value::U32(u32::MAX),
        Value::I64(i64::MIN),
        Value::U64(u64::MAX),
        Value::F32(1.5f32.to_bits()),
        Value::F64((-0.25f64).to_bits()),
        Value::String("h\u{e9}llo".into()),
    ];
    let mut table = Table::new(4242);
    table.add_row(row.clone()).unwrap();
    let mut second = row.clone();
    second[0] = Value::I32(8);
    second[11] = Value::String(String::new());
    table.add_row(second.clone()).unwrap();
    let bytes = table.serialize().unwrap();
    let back = Table::deserialize(&bytes).unwrap();
    assert_eq!(back.id, 4242);
    assert_eq!(back.rows, vec![row, second]);
}

#[test]
fn jump_table_has_one_entry_per_hundred_rows() {
    for n in [1usize, 99, 100, 101, 250] {
        let mut table = Table::new(9);
        for i in 0..n {
            table.add_row(vec![Value::I32(i as i32 * 10), Value::U8(1)]).unwrap();
        }
        let bytes = table.serialize().unwrap();
        let c = 2usize;
        let entries = 1 + n / 100;
        let start = 7 + c + 8 * entries;
        assert_eq!(bytes.len(), start + 5 * n);
        // first entry: id of row 0 and the offset of row 0
        assert_eq!(&bytes[7 + c..7 + c + 4], &0i32.to_le_bytes());
        assert_eq!(&bytes[7 + c + 4..7 + c + 8], &(start as u32).to_le_bytes());
        // entry k points at row 100 k where that row exists
        for k in 1..entries {
            let at = 7 + c + 8 * k;
            if 100 * k < n {
                assert_eq!(&bytes[at..at + 4], &((100 * k) as i32 * 10).to_le_bytes());
                assert_eq!(&bytes[at + 4..at + 8], &((start + 500 * k) as u32).to_le_bytes());
            } else {
                assert_eq!(&bytes[at..at + 8], &[0u8; 8]);
            }
        }
        let lbs = u16::from_le_bytes([bytes[2], bytes[3]]) as usize;
        assert_eq!(lbs, (bytes.len() - 4) % 65536);
        let back = Table::deserialize(&bytes).unwrap();
        assert_eq!(back.rows, table.rows);
    }
}

#[test]
fn last_block_size_tamper() {
    let table = sample();
    let mut bytes = table.serialize().unwrap();
    bytes[2] = bytes[2].wrapping_add(1);
    assert!(matches!(
        Table::deserialize(&bytes),
        Err(Error::LastBlockSizeMismatch)
    ));
}

#[test]
fn deserialize_errors() {
    assert!(matches!(
        Table::deserialize(&[1, 0, 2]),
        Err(Error::Io(IoError::UnexpectedEof))
    ));
    let mut table = Table::new(3);
    table.add_row(vec![Value::I32(5)]).unwrap();
    let mut bytes = table.serialize().unwrap();
    bytes.pop();
    assert!(matches!(
        Table::deserialize(&bytes),
        Err(Error::Io(IoError::UnexpectedEof))
    ));
    let mut bytes = table.serialize().unwrap();
    bytes[7] = 12;
    assert!(matches!(
        Table::deserialize(&bytes),
        Err(Error::Io(IoError::InvalidData))
    ));
}

#[test]
fn serialize_errors() {
    let mut table = Table::new(1);
    table
        .add_row(vec![Value::I32(1), Value::String("x".repeat(65536))])
        .unwrap();
    assert!(matches!(table.serialize(), Err(Error::StringTooBig)));

    let mut table = Table::new(1);
    table.rows.push(vec![Value::U8(1)]);
    assert!(matches!(table.serialize(), Err(Error::InvalidRowID)));
}

#[test]
fn string_round_trip_is_lossy_on_bad_utf8() {
    let mut table = Table::new(2);
    table.add_row(vec![Value::I32(1), Value::String("ab".into())]).unwrap();
    let mut bytes = table.serialize().unwrap();
    let n = bytes.len();
    bytes[n - 1] = 0xff;
    let back = Table::deserialize(&bytes).unwrap();
    assert_eq!(back.rows[0][1], Value::String("a\u{fffd}".into()));
}

#[test]
fn value_read_after_serialize() {
    let cells = [
        Value::I8(-5),
        Value::U16(513),
        Value::I64(-1234567890123),
        Value::String("abc".into()),
    ];
    for cell in cells.iter() {
        let mut out = Vec::new();
        cell.serialize(&mut out).unwrap();
        let (back, end) = Value::read(cell.type_as_u8(), &out, 0).unwrap();
        assert_eq!(&back, cell);
        assert_eq!(end, out.len());
    }
    let mut out = vec![9u8];
    Value::String("ab".into()).serialize(&mut out).unwrap();
    assert_eq!(out, vec![9, 1, 2, 0, b'a', b'b']);
    assert!(matches!(
        Value::read(0, &out, 0),
        Err(Error::Io(IoError::InvalidData))
    ));
}

#[test]
fn type_names_and_text() {
    assert_eq!(Value::I8(0).type_as_string(), "i8");
    assert_eq!(Value::U64(0).type_as_string(), "u64");
    assert_eq!(Value::F32(0).type_as_string(), "f32");
    assert_eq!(Value::String(String::new()).type_as_string(), "string");
    assert_eq!(Value::F64(0).type_as_u8(), 10);
    assert_eq!(Value::I64(-42).to_string().as_deref(), Some("-42"));
    assert_eq!(Value::U64(u64::MAX).to_string().as_deref(), Some("18446744073709551615"));
    assert_eq!(Value::F32(0).to_string(), None);
    assert_eq!(Value::String("q".into()).as_str(), Some("q"));
    assert_eq!(Value::U8(1).as_str(), None);
}

#[test]
fn strict_conversions() {
    let mut table = Table::new(1);
    table
        .add_row(vec![Value::I32(3), Value::U32(4), Value::String("-1,+2,x".into())])
        .unwrap();
    assert!(matches!(table.value::<u32>(0, 1), Ok(4)));
    assert!(matches!(
        table.value::<i32>(0, 1),
        Err(Error::ValueConversionFailed)
    ));
    assert!(matches!(table.value::<i32>(0, 3), Err(Error::ColumnNotFound)));
    assert!(matches!(
        table.vector::<i32>(0, 1, ","),
        Err(Error::InvalidColumnType)
    ));
    assert!(matches!(
        table.vector::<i32>(0, 2, ","),
        Err(Error::ValueConversionFailed)
    ));
    assert_eq!(table.vector::<String>(0, 2, ",").unwrap(), vec!["-1", "+2", "x"]);
    assert!(matches!(
        table.vector::<u8>(0, 2, "x"),
        Err(Error::ValueConversionFailed)
    ));
}

#[test]
fn map_later_key_wins() {
    let mut table = Table::new(1);
    table
        .add_row(vec![Value::I32(3), Value::String("a=1;b=2;a=3".into()), Value::String("a".into())])
        .unwrap();
    let m = table.map::<String, u8>(0, 1, ";", "=").unwrap();
    assert_eq!(m, vec![("a".to_string(), 3), ("b".to_string(), 2)]);
    assert!(matches!(
        table.map::<String, u8>(0, 2, ";", "="),
        Err(Error::ValueConversionFailed)
    ));
}

#[test]
fn named_table_lookups() {
    let mut table = Table::new(1);
    table.add_row(vec![Value::I32(10), Value::String("1|2".into())]).unwrap();
    table.add_row(vec![Value::I32(20), Value::String("3".into())]).unwrap();
    table.add_row(vec![Value::I32(10), Value::String("4|5|6".into())]).unwrap();
    let def = TableDefinition {
        name: "T".into(),
        columns: vec!["id".into(), "list".into()],
        types: vec!["i32".into(), "string".into()],
    };
    let named = NamedTable::from_definition(table, &def).unwrap();
    assert_eq!(named.row_ids(), vec![10, 20]);
    assert_eq!(named.vector::<u8>(10, "list", "|").unwrap(), vec![4, 5, 6]);
    assert_eq!(named.array::<u8>(20, "list", "|", 1).unwrap(), vec![3]);
    assert!(matches!(
        named.array::<u8>(20, "list", "|", 2),
        Err(Error::MismatchedLength)
    ));
    assert!(matches!(named.value::<i32>(30, "id"), Err(Error::RowNotFound)));
    assert!(matches!(named.value::<i32>(20, "nope"), Err(Error::ColumnNotFound)));
    assert_eq!(named.value::<i32>(20, "id").unwrap(), named.table.value::<i32>(1, 0).unwrap());

    let mut bad = Table::new(1);
    bad.rows.push(vec![Value::U8(1)]);
    assert!(matches!(
        NamedTable::from_definition(bad, &def),
        Err(Error::ColumnNotFound)
    ));
}
