//! Typed reads of cells and of delimited text.
use crate::text::{decimal, int_text, numeral_in, parse_in};
use crate::error::Error;
use crate::value::{tag_name, tag_of, Value, ValueView};
use vstd::string::StringExecFns;
use vstd::prelude::*;

verus! {

/// A cell does not hold the requested type.
#[derive(Debug, Clone, Copy, PartialEq, Eq, Structural)]
pub struct InvalidType;

/// The text of a cell: the decimal numeral of an integer, the characters of a string.
/// Floating-point cells have no text here.
pub open spec fn display_text(v: ValueView) -> Option<Seq<char>> {
    match v {
        ValueView::I8(x) => Some(int_text(x as int)),
        ValueView::U8(x) => Some(int_text(x as int)),
        ValueView::I16(x) => Some(int_text(x as int)),
        ValueView::U16(x) => Some(int_text(x as int)),
        ValueView::I32(x) => Some(int_text(x as int)),
        ValueView::U32(x) => Some(int_text(x as int)),
        ValueView::I64(x) => Some(int_text(x as int)),
        ValueView::U64(x) => Some(int_text(x as int)),
        ValueView::F32(_) => None,
        ValueView::F64(_) => None,
        ValueView::Str(s) => Some(s),
    }
}

impl Value {
    /// A cell of type `tag` holding zero or the empty string.
    fn default_of(tag: u8) -> (r: Value)
        requires
            1 <= tag <= 11,
        ensures
            tag_of(r@) == tag,
    {
        match tag {
            1 => Value::I8(0),
            2 => Value::U8(0),
            3 => Value::I16(0),
            4 => Value::U16(0),
            5 => Value::I32(0),
            6 => Value::U32(0),
            7 => Value::I64(0),
            8 => Value::U64(0),
            9 => Value::F32(0),
            10 => Value::F64(0),
            _ => Value::String(String::new()),
        }
    }

    /// The text of the cell; `None` for a floating-point cell, whose rendering is left to
    /// the caller.
    pub fn to_string(&self) -> (r: Option<String>)
        ensures
            match display_text(self@) {
                Some(t) => r matches Some(x) && x@ == t,
                None => r is None,
            },
    {
        match self {
            Value::I8(v) => Some(decimal(*v as i128)),
            Value::U8(v) => Some(decimal(*v as i128)),
            Value::I16(v) => Some(decimal(*v as i128)),
            Value::U16(v) => Some(decimal(*v as i128)),
            Value::I32(v) => Some(decimal(*v as i128)),
            Value::U32(v) => Some(decimal(*v as i128)),
            Value::I64(v) => Some(decimal(*v as i128)),
            Value::U64(v) => Some(decimal(*v as i128)),
            Value::F32(_) => None,
            Value::F64(_) => None,
            Value::String(s) => Some(s.clone()),
        }
    }
}

/// A type that a cell converts to and that a piece of delimited text parses as.
pub trait FromValue: Sized + View {
    /// What a cell converts to, if it converts.
    spec fn from_value_spec(v: ValueView) -> Option<Self::V>;

    /// What a piece of text parses as, if it parses.
    spec fn parse_spec(s: Seq<char>) -> Option<Self::V>;

    fn from_value(v: &Value) -> (r: Result<Self, InvalidType>)
        ensures
            match Self::from_value_spec(v@) {
                Some(x) => r matches Ok(y) && y@ == x,
                None => r is Err,
            },
    ;

    fn parse(s: &str) -> (r: Option<Self>)
        ensures
            match Self::parse_spec(s@) {
                Some(x) => r matches Some(y) && y@ == x,
                None => r is None,
            },
    ;

    fn same(&self, other: &Self) -> (r: bool)
        ensures
            r == (self@ == other@),
    ;
}

impl FromValue for i8 {
    open spec fn from_value_spec(v: ValueView) -> Option<i8> {
        match v {
            ValueView::I8(x) => Some(x),
            _ => None,
        }
    }

    open spec fn parse_spec(s: Seq<char>) -> Option<i8> {
        match numeral_in(s, i8::MIN as int, i8::MAX as int) {
            Some(x) => Some(x as i8),
            None => None,
        }
    }

    fn from_value(v: &Value) -> (r: Result<i8, InvalidType>) {
        match v {
            Value::I8(x) => Ok(*x),
            _ => Err(InvalidType),
        }
    }

    fn parse(s: &str) -> (r: Option<i8>) {
        match parse_in(s, i8::MIN as i128, i8::MAX as i128) {
            Some(x) => Some(x as i8),
            None => None,
        }
    }

    fn same(&self, other: &i8) -> (r: bool) {
        *self == *other
    }
}

impl FromValue for u8 {
    open spec fn from_value_spec(v: ValueView) -> Option<u8> {
        match v {
            ValueView::U8(x) => Some(x),
            _ => None,
        }
    }

    open spec fn parse_spec(s: Seq<char>) -> Option<u8> {
        match numeral_in(s, u8::MIN as int, u8::MAX as int) {
            Some(x) => Some(x as u8),
            None => None,
        }
    }

    fn from_value(v: &Value) -> (r: Result<u8, InvalidType>) {
        match v {
            Value::U8(x) => Ok(*x),
            _ => Err(InvalidType),
        }
    }

    fn parse(s: &str) -> (r: Option<u8>) {
        match parse_in(s, u8::MIN as i128, u8::MAX as i128) {
            Some(x) => Some(x as u8),
            None => None,
        }
    }

    fn same(&self, other: &u8) -> (r: bool) {
        *self == *other
    }
}

impl FromValue for i16 {
    open spec fn from_value_spec(v: ValueView) -> Option<i16> {
        match v {
            ValueView::I16(x) => Some(x),
            _ => None,
        }
    }

    open spec fn parse_spec(s: Seq<char>) -> Option<i16> {
        match numeral_in(s, i16::MIN as int, i16::MAX as int) {
            Some(x) => Some(x as i16),
            None => None,
        }
    }

    fn from_value(v: &Value) -> (r: Result<i16, InvalidType>) {
        match v {
            Value::I16(x) => Ok(*x),
            _ => Err(InvalidType),
        }
    }

    fn parse(s: &str) -> (r: Option<i16>) {
        match parse_in(s, i16::MIN as i128, i16::MAX as i128) {
            Some(x) => Some(x as i16),
            None => None,
        }
    }

    fn same(&self, other: &i16) -> (r: bool) {
        *self == *other
    }
}

impl FromValue for u16 {
    open spec fn from_value_spec(v: ValueView) -> Option<u16> {
        match v {
            ValueView::U16(x) => Some(x),
            _ => None,
        }
    }

    open spec fn parse_spec(s: Seq<char>) -> Option<u16> {
        match numeral_in(s, u16::MIN as int, u16::MAX as int) {
            Some(x) => Some(x as u16),
            None => None,
        }
    }

    fn from_value(v: &Value) -> (r: Result<u16, InvalidType>) {
        match v {
            Value::U16(x) => Ok(*x),
            _ => Err(InvalidType),
        }
    }

    fn parse(s: &str) -> (r: Option<u16>) {
        match parse_in(s, u16::MIN as i128, u16::MAX as i128) {
            Some(x) => Some(x as u16),
            None => None,
        }
    }

    fn same(&self, other: &u16) -> (r: bool) {
        *self == *other
    }
}

impl FromValue for i32 {
    open spec fn from_value_spec(v: ValueView) -> Option<i32> {
        match v {
            ValueView::I32(x) => Some(x),
            _ => None,
        }
    }

    open spec fn parse_spec(s: Seq<char>) -> Option<i32> {
        match numeral_in(s, i32::MIN as int, i32::MAX as int) {
            Some(x) => Some(x as i32),
            None => None,
        }
    }

    fn from_value(v: &Value) -> (r: Result<i32, InvalidType>) {
        match v {
            Value::I32(x) => Ok(*x),
            _ => Err(InvalidType),
        }
    }

    fn parse(s: &str) -> (r: Option<i32>) {
        match parse_in(s, i32::MIN as i128, i32::MAX as i128) {
            Some(x) => Some(x as i32),
            None => None,
        }
    }

    fn same(&self, other: &i32) -> (r: bool) {
        *self == *other
    }
}

impl FromValue for u32 {
    open spec fn from_value_spec(v: ValueView) -> Option<u32> {
        match v {
            ValueView::U32(x) => Some(x),
            _ => None,
        }
    }

    open spec fn parse_spec(s: Seq<char>) -> Option<u32> {
        match numeral_in(s, u32::MIN as int, u32::MAX as int) {
            Some(x) => Some(x as u32),
            None => None,
        }
    }

    fn from_value(v: &Value) -> (r: Result<u32, InvalidType>) {
        match v {
            Value::U32(x) => Ok(*x),
            _ => Err(InvalidType),
        }
    }

    fn parse(s: &str) -> (r: Option<u32>) {
        match parse_in(s, u32::MIN as i128, u32::MAX as i128) {
            Some(x) => Some(x as u32),
            None => None,
        }
    }

    fn same(&self, other: &u32) -> (r: bool) {
        *self == *other
    }
}

impl FromValue for i64 {
    open spec fn from_value_spec(v: ValueView) -> Option<i64> {
        match v {
            ValueView::I64(x) => Some(x),
            _ => None,
        }
    }

    open spec fn parse_spec(s: Seq<char>) -> Option<i64> {
        match numeral_in(s, i64::MIN as int, i64::MAX as int) {
            Some(x) => Some(x as i64),
            None => None,
        }
    }

    fn from_value(v: &Value) -> (r: Result<i64, InvalidType>) {
        match v {
            Value::I64(x) => Ok(*x),
            _ => Err(InvalidType),
        }
    }

    fn parse(s: &str) -> (r: Option<i64>) {
        match parse_in(s, i64::MIN as i128, i64::MAX as i128) {
            Some(x) => Some(x as i64),
            None => None,
        }
    }

    fn same(&self, other: &i64) -> (r: bool) {
        *self == *other
    }
}

impl FromValue for u64 {
    open spec fn from_value_spec(v: ValueView) -> Option<u64> {
        match v {
            ValueView::U64(x) => Some(x),
            _ => None,
        }
    }

    open spec fn parse_spec(s: Seq<char>) -> Option<u64> {
        match numeral_in(s, u64::MIN as int, u64::MAX as int) {
            Some(x) => Some(x as u64),
            None => None,
        }
    }

    fn from_value(v: &Value) -> (r: Result<u64, InvalidType>) {
        match v {
            Value::U64(x) => Ok(*x),
            _ => Err(InvalidType),
        }
    }

    fn parse(s: &str) -> (r: Option<u64>) {
        match parse_in(s, u64::MIN as i128, u64::MAX as i128) {
            Some(x) => Some(x as u64),
            None => None,
        }
    }

    fn same(&self, other: &u64) -> (r: bool) {
        *self == *other
    }
}

impl FromValue for String {
    open spec fn from_value_spec(v: ValueView) -> Option<Seq<char>> {
        display_text(v)
    }

    open spec fn parse_spec(s: Seq<char>) -> Option<Seq<char>> {
        Some(s)
    }

    fn from_value(v: &Value) -> (r: Result<String, InvalidType>) {
        match v.to_string() {
            Some(t) => Ok(t),
            None => Err(InvalidType),
        }
    }

    fn parse(s: &str) -> (r: Option<String>) {
        Some(s.to_owned())
    }

    fn same(&self, other: &String) -> (r: bool) {
        *self == *other
    }
}

/// The type tag that `name` stands for; `InvalidColumnType` for a name of no type.
pub fn type_tag(name: &str) -> (r: Result<u8, Error>)
    ensures
        match r {
            Ok(t) => 1 <= t <= 11 && tag_name(t) == name@,
            Err(e) => e == Error::InvalidColumnType && forall|t: u8|
                1 <= t <= 11 ==> tag_name(t) != name@,
        },
{
    let wanted = String::from_str(name);
    let mut t: u8 = 1;
    while t <= 11
        invariant
            1 <= t <= 12,
            wanted@ == name@,
            forall|u: u8| 1 <= u < t ==> tag_name(u) != name@,
        decreases 12 - t,
    {
        let candidate = Value::default_of(t).type_as_string();
        if candidate == wanted {
            return Ok(t);
        }
        t += 1;
    }
    Err(Error::InvalidColumnType)
}

/// The cell that `text` gives in a column of type `tag`, as a CSV cell is read. Parsing
/// floating-point text is left to the caller.
pub fn cell_from_text(tag: u8, text: &str) -> (r: Result<Value, Error>)
    requires
        1 <= tag <= 8 || tag == 11,
    ensures
        match r {
            Ok(v) => tag_of(v@) == tag && (tag == 11 ==> v@ == ValueView::Str(text@)) && (tag
                != 11 ==> display_text(v@) is Some && integer_of(v@) == numeral_of(tag, text@)),
            Err(e) => e == Error::ValueConversionFailed && tag != 11 && numeral_of(tag, text@)
                is None,
        },
{
    match tag {
        1 => match <i8 as FromValue>::parse(text) {
            Some(x) => Ok(Value::I8(x)),
            None => Err(Error::ValueConversionFailed),
        },
        2 => match <u8 as FromValue>::parse(text) {
            Some(x) => Ok(Value::U8(x)),
            None => Err(Error::ValueConversionFailed),
        },
        3 => match <i16 as FromValue>::parse(text) {
            Some(x) => Ok(Value::I16(x)),
            None => Err(Error::ValueConversionFailed),
        },
        4 => match <u16 as FromValue>::parse(text) {
            Some(x) => Ok(Value::U16(x)),
            None => Err(Error::ValueConversionFailed),
        },
        5 => match <i32 as FromValue>::parse(text) {
            Some(x) => Ok(Value::I32(x)),
            None => Err(Error::ValueConversionFailed),
        },
        6 => match <u32 as FromValue>::parse(text) {
            Some(x) => Ok(Value::U32(x)),
            None => Err(Error::ValueConversionFailed),
        },
        7 => match <i64 as FromValue>::parse(text) {
            Some(x) => Ok(Value::I64(x)),
            None => Err(Error::ValueConversionFailed),
        },
        8 => match <u64 as FromValue>::parse(text) {
            Some(x) => Ok(Value::U64(x)),
            None => Err(Error::ValueConversionFailed),
        },
        _ => Ok(Value::String(String::from_str(text))),
    }
}

/// The range of the integer type of tag `tag`.
pub open spec fn tag_range(tag: u8) -> (int, int) {
    if tag == 1 {
        (i8::MIN as int, i8::MAX as int)
    } else if tag == 2 {
        (0, u8::MAX as int)
    } else if tag == 3 {
        (i16::MIN as int, i16::MAX as int)
    } else if tag == 4 {
        (0, u16::MAX as int)
    } else if tag == 5 {
        (i32::MIN as int, i32::MAX as int)
    } else if tag == 6 {
        (0, u32::MAX as int)
    } else if tag == 7 {
        (i64::MIN as int, i64::MAX as int)
    } else {
        (0, u64::MAX as int)
    }
}

/// The number that `text` denotes in the integer type of tag `tag`.
pub open spec fn numeral_of(tag: u8, text: Seq<char>) -> Option<int> {
    numeral_in(text, tag_range(tag).0, tag_range(tag).1)
}

/// The number an integer cell holds.
pub open spec fn integer_of(v: ValueView) -> Option<int> {
    match v {
        ValueView::I8(x) => Some(x as int),
        ValueView::U8(x) => Some(x as int),
        ValueView::I16(x) => Some(x as int),
        ValueView::U16(x) => Some(x as int),
        ValueView::I32(x) => Some(x as int),
        ValueView::U32(x) => Some(x as int),
        ValueView::I64(x) => Some(x as int),
        ValueView::U64(x) => Some(x as int),
        _ => None,
    }
}

} // verus!
