use std::collections::HashMap;

use stc::definitions::{parse, TableDefinition};
use stc::error::Error;

#[test]
fn definitions_test() {
    let defs = r#"
    // comment
    5000;table_1;col_1,col_2;i32,i32
    5001;table_2;col_1,col_2;i32,i32
    "#;

    let mut parsed_defs = HashMap::new();
    let columns: Vec<String> = vec!["col_1", "col_2"]
        .into_iter()
        .map(String::from)
        .collect();
    let types: Vec<String> = vec!["i32", "i32"].into_iter().map(String::from).collect();
    parsed_defs.insert(
        5000,
        TableDefinition {
            name: "table_1".to_owned(),
            columns: columns.clone(),
            types: types.clone(),
        },
    );
    parsed_defs.insert(
        5001,
        TableDefinition {
            name: "table_2".to_owned(),
            columns,
            types,
        },
    );

    assert_eq!(parse(defs).unwrap(), parsed_defs);
}

#[test]
fn definitions_errors() {
    assert!(matches!(
        parse("5000;table_1;col_1,col_2"),
        Err(Error::NoTableColumnTypes)
    ));
    assert!(matches!(
        parse("5000;table_1;col_1,col_2;i32"),
        Err(Error::InconsistentNamesAndTypesLength)
    ));
    assert!(matches!(parse("5000"), Err(Error::NoTableName)));
    assert!(matches!(parse("5000;t"), Err(Error::NoTableColumnNames)));
    assert!(matches!(parse("x;t;a;b"), Err(Error::InvalidTableId(_))));
    assert!(matches!(parse("70000;t;a;b"), Err(Error::InvalidTableId(_))));
}

#[test]
fn definitions_last_wins_and_blank_lines() {
    let defs = parse("\r\n 7;a;x;u8 \n\n// 8;b;y;u8\n7;c;x,y;u8,i64\n").unwrap();
    assert_eq!(defs.len(), 1);
    let d = &defs[&7];
    assert_eq!(d.name, "c");
    assert_eq!(d.columns, vec!["x".to_string(), "y".to_string()]);
    assert_eq!(d.types, vec!["u8".to_string(), "i64".to_string()]);
    assert!(parse("").unwrap().is_empty());
}
