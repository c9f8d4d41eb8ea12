use stc::catchdata::decrypt;
use stc::convert::{cell_from_text, type_tag, FromValue};
use stc::error::Error;
use stc::text::{split, split_once};
use stc::value::Value;

#[test]
fn type_names_map_to_tags() {
    assert_eq!(type_tag("i8").unwrap(), 1);
    assert_eq!(type_tag("u64").unwrap(), 8);
    assert_eq!(type_tag("f64").unwrap(), 10);
    assert_eq!(type_tag("string").unwrap(), 11);
    assert!(matches!(type_tag("str"), Err(Error::InvalidColumnType)));
    assert!(matches!(type_tag(""), Err(Error::InvalidColumnType)));
}

#[test]
fn cells_from_text() {
    assert_eq!(cell_from_text(1, "-128").unwrap(), Value::I8(-128));
    assert_eq!(cell_from_text(5, "101").unwrap(), Value::I32(101));
    assert_eq!(cell_from_text(8, "+18446744073709551615").unwrap(), Value::U64(u64::MAX));
    assert_eq!(cell_from_text(11, "a,b").unwrap(), Value::String("a,b".into()));
    assert!(matches!(cell_from_text(1, "128"), Err(Error::ValueConversionFailed)));
    assert!(matches!(cell_from_text(2, "-0"), Err(Error::ValueConversionFailed)));
    assert!(matches!(cell_from_text(5, " 1"), Err(Error::ValueConversionFailed)));
    assert!(matches!(cell_from_text(5, "-"), Err(Error::ValueConversionFailed)));
}

#[test]
fn numbers_parse_strictly() {
    assert_eq!(<i16 as FromValue>::parse("-32768"), Some(i16::MIN));
    assert_eq!(<i16 as FromValue>::parse("32768"), None);
    assert_eq!(<u32 as FromValue>::parse("+7"), Some(7));
    assert_eq!(<u32 as FromValue>::parse("7x"), None);
    assert_eq!(<String as FromValue>::parse("7x"), Some("7x".to_string()));
}

#[test]
fn splitting_text() {
    assert_eq!(split("a,b,,c", ","), vec!["a", "b", "", "c"]);
    assert_eq!(split("", ","), vec![""]);
    assert_eq!(split("ab", ""), vec!["", "a", "b", ""]);
    assert_eq!(split("a::b:::c", "::"), vec!["a", "b", ":c"]);
    assert_eq!(split_once("k:v:w", ":"), Some(("k", "v:w")));
    assert_eq!(split_once("kv", ":"), None);
    assert_eq!(split_once("kv", ""), Some(("", "kv")));
}

#[test]
fn decrypt_twice_restores() {
    let plain = b"hello, table".to_vec();
    let key = b"k3y";
    let mut data = plain.clone();
    decrypt(&mut data, key);
    assert_eq!(data[0], b'h' ^ b'k');
    assert_eq!(data[4], b'o' ^ b'3');
    assert_ne!(data, plain);
    decrypt(&mut data, key);
    assert_eq!(data, plain);
}

#[test]
fn variant_getters() {
    assert_eq!(Value::I8(-3).as_i8(), Some(-3));
    assert_eq!(Value::I8(-3).as_u8(), None);
    assert_eq!(Value::U32(9).as_u32(), Some(9));
    assert_eq!(Value::U32(9).as_i32(), None);
    assert_eq!(Value::I64(-9).as_i64(), Some(-9));
    assert_eq!(Value::U64(9).as_u64(), Some(9));
    assert_eq!(Value::I16(-2).as_i16(), Some(-2));
    assert_eq!(Value::U16(2).as_u16(), Some(2));
    assert_eq!(Value::U8(2).as_u8(), Some(2));
    assert_eq!(Value::F32(2.5f32.to_bits()).as_f32_bits(), Some(2.5f32.to_bits()));
    assert_eq!(Value::F64(2.5f64.to_bits()).as_f64_bits(), Some(2.5f64.to_bits()));
    assert_eq!(Value::F64(0).as_f32_bits(), None);
}
