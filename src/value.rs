//! The typed cell of a table and its wire encoding.
use crate::bytes::{
    decode_lossy, le_bytes, le_value, lemma_le_bytes_len, lemma_le_round_trip, pow256, read_u16_at,
    read_u32_at, read_u64_at, u16_le, u32_le, u64_le, utf8_lossy,
};
use crate::error::{Error, IoError};
use vstd::prelude::*;
use vstd::slice::{slice_subrange, slice_to_vec};
use vstd::utf8::*;

verus! {

/// One cell. Floating-point cells hold their IEEE-754 bit pattern.
#[derive(Debug, Clone)]
pub enum Value {
    I8(i8),
    U8(u8),
    I16(i16),
    U16(u16),
    I32(i32),
    U32(u32),
    I64(i64),
    U64(u64),
    F32(u32),
    F64(u64),
    String(String),
}

/// The mathematical content of a [`Value`].
pub enum ValueView {
    I8(i8),
    U8(u8),
    I16(i16),
    U16(u16),
    I32(i32),
    U32(u32),
    I64(i64),
    U64(u64),
    F32(u32),
    F64(u64),
    Str(Seq<char>),
}

impl View for Value {
    type V = ValueView;

    open spec fn view(&self) -> ValueView {
        match self {
            Value::I8(v) => ValueView::I8(*v),
            Value::U8(v) => ValueView::U8(*v),
            Value::I16(v) => ValueView::I16(*v),
            Value::U16(v) => ValueView::U16(*v),
            Value::I32(v) => ValueView::I32(*v),
            Value::U32(v) => ValueView::U32(*v),
            Value::I64(v) => ValueView::I64(*v),
            Value::U64(v) => ValueView::U64(*v),
            Value::F32(v) => ValueView::F32(*v),
            Value::F64(v) => ValueView::F64(*v),
            Value::String(s) => ValueView::Str(s@),
        }
    }
}

impl PartialEq for Value {
    fn eq(&self, other: &Value) -> (r: bool) {
        match (self, other) {
            (Value::I8(a), Value::I8(b)) => *a == *b,
            (Value::U8(a), Value::U8(b)) => *a == *b,
            (Value::I16(a), Value::I16(b)) => *a == *b,
            (Value::U16(a), Value::U16(b)) => *a == *b,
            (Value::I32(a), Value::I32(b)) => *a == *b,
            (Value::U32(a), Value::U32(b)) => *a == *b,
            (Value::I64(a), Value::I64(b)) => *a == *b,
            (Value::U64(a), Value::U64(b)) => *a == *b,
            (Value::F32(a), Value::F32(b)) => *a == *b,
            (Value::F64(a), Value::F64(b)) => *a == *b,
            (Value::String(a), Value::String(b)) => *a == *b,
            _ => false,
        }
    }
}

impl vstd::std_specs::cmp::PartialEqSpecImpl for Value {
    open spec fn obeys_eq_spec() -> bool {
        true
    }

    open spec fn eq_spec(&self, other: &Value) -> bool {
        self@ == other@
    }
}

/// The wire tag of each variant.
pub open spec fn tag_of(v: ValueView) -> u8 {
    match v {
        ValueView::I8(_) => 1,
        ValueView::U8(_) => 2,
        ValueView::I16(_) => 3,
        ValueView::U16(_) => 4,
        ValueView::I32(_) => 5,
        ValueView::U32(_) => 6,
        ValueView::I64(_) => 7,
        ValueView::U64(_) => 8,
        ValueView::F32(_) => 9,
        ValueView::F64(_) => 10,
        ValueView::Str(_) => 11,
    }
}

/// The text name of each wire tag; empty for a tag that names no type.
pub open spec fn tag_name(tag: u8) -> Seq<char> {
    if tag == 1 {
        "i8"@
    } else if tag == 2 {
        "u8"@
    } else if tag == 3 {
        "i16"@
    } else if tag == 4 {
        "u16"@
    } else if tag == 5 {
        "i32"@
    } else if tag == 6 {
        "u32"@
    } else if tag == 7 {
        "i64"@
    } else if tag == 8 {
        "u64"@
    } else if tag == 9 {
        "f32"@
    } else if tag == 10 {
        "f64"@
    } else if tag == 11 {
        "string"@
    } else {
        Seq::empty()
    }
}

/// Two's complement bits of a signed number of `8 * k` bits.
pub open spec fn twos(v: int, k: nat) -> nat {
    if v < 0 {
        (v + pow256(k)) as nat
    } else {
        v as nat
    }
}

/// The signed number that `8 * k` bits `u` hold in two's complement.
pub open spec fn signed(u: nat, k: nat) -> int {
    if 2 * u < pow256(k) {
        u as int
    } else {
        u - pow256(k)
    }
}

/// The advisory ASCII flag of a string.
pub open spec fn ascii_flag(s: Seq<char>) -> u8 {
    if is_ascii_chars(s) {
        1
    } else {
        0
    }
}

/// The bytes of a cell on the wire, or why it has none.
pub open spec fn encode_value(v: ValueView) -> Result<Seq<u8>, Error> {
    match v {
        ValueView::I8(x) => Ok(le_bytes(twos(x as int, 1), 1)),
        ValueView::U8(x) => Ok(le_bytes(x as nat, 1)),
        ValueView::I16(x) => Ok(le_bytes(twos(x as int, 2), 2)),
        ValueView::U16(x) => Ok(le_bytes(x as nat, 2)),
        ValueView::I32(x) => Ok(le_bytes(twos(x as int, 4), 4)),
        ValueView::U32(x) => Ok(le_bytes(x as nat, 4)),
        ValueView::I64(x) => Ok(le_bytes(twos(x as int, 8), 8)),
        ValueView::U64(x) => Ok(le_bytes(x as nat, 8)),
        ValueView::F32(x) => Ok(le_bytes(x as nat, 4)),
        ValueView::F64(x) => Ok(le_bytes(x as nat, 8)),
        ValueView::Str(s) => {
            let text = encode_utf8(s);
            if text.len() > 65535 {
                Err(Error::StringTooBig)
            } else {
                Ok(seq![ascii_flag(s)] + le_bytes(text.len(), 2) + text)
            }
        },
    }
}

/// Whether `k` bytes are there to read at `pos`.
pub open spec fn has_bytes(b: Seq<u8>, pos: int, k: int) -> bool {
    0 <= pos && pos + k <= b.len()
}

/// The number held by the `k` bytes at `pos`.
pub open spec fn field(b: Seq<u8>, pos: int, k: int) -> nat {
    le_value(b.subrange(pos, pos + k))
}

/// Reading a fixed-size field of `k` bytes at `pos`.
pub open spec fn decode_fixed(b: Seq<u8>, pos: int, tag: u8, k: int) -> Result<(ValueView, int), Error> {
    if !has_bytes(b, pos, k) {
        Err(Error::Io(IoError::UnexpectedEof))
    } else {
        let u = field(b, pos, k);
        let v = if tag == 1 {
            ValueView::I8(signed(u, 1) as i8)
        } else if tag == 2 {
            ValueView::U8(u as u8)
        } else if tag == 3 {
            ValueView::I16(signed(u, 2) as i16)
        } else if tag == 4 {
            ValueView::U16(u as u16)
        } else if tag == 5 {
            ValueView::I32(signed(u, 4) as i32)
        } else if tag == 6 {
            ValueView::U32(u as u32)
        } else if tag == 7 {
            ValueView::I64(signed(u, 8) as i64)
        } else if tag == 8 {
            ValueView::U64(u as u64)
        } else if tag == 9 {
            ValueView::F32(u as u32)
        } else {
            ValueView::F64(u as u64)
        };
        Ok((v, pos + k))
    }
}

/// The size on the wire of a fixed-size type tag.
pub open spec fn fixed_size(tag: u8) -> int {
    if tag == 1 || tag == 2 {
        1
    } else if tag == 3 || tag == 4 {
        2
    } else if tag == 5 || tag == 6 || tag == 9 {
        4
    } else {
        8
    }
}

/// Reading the cell of type `tag` at `pos`: the cell and the position after it.
pub open spec fn decode_value(b: Seq<u8>, pos: int, tag: u8) -> Result<(ValueView, int), Error> {
    if 1 <= tag <= 10 {
        decode_fixed(b, pos, tag, fixed_size(tag))
    } else if tag == 11 {
        if !has_bytes(b, pos, 3) {
            Err(Error::Io(IoError::UnexpectedEof))
        } else {
            let len = field(b, pos + 1, 2) as int;
            if !has_bytes(b, pos + 3, len) {
                Err(Error::Io(IoError::UnexpectedEof))
            } else {
                Ok((ValueView::Str(utf8_lossy(b.subrange(pos + 3, pos + 3 + len))), pos + 3 + len))
            }
        }
    } else {
        Err(Error::Io(IoError::InvalidData))
    }
}

fn eof<T>() -> (r: Result<T, Error>)
    ensures
        r == Err::<T, Error>(Error::Io(IoError::UnexpectedEof)),
{
    Err(Error::Io(IoError::UnexpectedEof))
}

impl Value {
    /// Reads the cell of type `field_type` at `pos` of `b`; returns it with the position after it.
    pub fn read(field_type: u8, b: &[u8], pos: usize) -> (r: Result<(Value, usize), Error>)
        ensures
            match decode_value(b@, pos as int, field_type) {
                Ok((v, end)) => r matches Ok((x, p)) && x@ == v && p == end,
                Err(e) => r == Err::<(Value, usize), Error>(e),
            },
    {
        if field_type == 0 || field_type > 11 {
            return Err(Error::Io(IoError::InvalidData));
        }
        let k: usize = if field_type == 11 {
            3
        } else if field_type <= 2 {
            1
        } else if field_type <= 4 {
            2
        } else if field_type <= 6 || field_type == 9 {
            4
        } else {
            8
        };
        if pos > b.len() || b.len() - pos < k {
            return eof();
        }
        let v = match field_type {
            1 => {
                let u = b[pos];
                assert(field(b@, pos as int, 1) == u) by {
                    reveal_with_fuel(le_value, 2);
                    assert(b@.subrange(pos as int, pos + 1).subrange(1, 1) =~= Seq::<u8>::empty());
                }
                Value::I8(if u < 128 { u as i8 } else { (u as i16 - 256) as i8 })
            },
            2 => {
                let u = b[pos];
                assert(field(b@, pos as int, 1) == u) by {
                    reveal_with_fuel(le_value, 2);
                    assert(b@.subrange(pos as int, pos + 1).subrange(1, 1) =~= Seq::<u8>::empty());
                }
                Value::U8(u)
            },
            3 => {
                let u = read_u16_at(b, pos);
                Value::I16(if u < 0x8000 { u as i16 } else { (u as i32 - 0x1_0000) as i16 })
            },
            4 => Value::U16(read_u16_at(b, pos)),
            5 => {
                let u = read_u32_at(b, pos);
                Value::I32(if u < 0x8000_0000 { u as i32 } else { (u as i64 - 0x1_0000_0000) as i32 })
            },
            6 => Value::U32(read_u32_at(b, pos)),
            7 => {
                let u = read_u64_at(b, pos);
                Value::I64(
                    if u < 0x8000_0000_0000_0000 {
                        u as i64
                    } else {
                        (u as i128 - 0x1_0000_0000_0000_0000) as i64
                    },
                )
            },
            8 => Value::U64(read_u64_at(b, pos)),
            9 => Value::F32(read_u32_at(b, pos)),
            10 => Value::F64(read_u64_at(b, pos)),
            _ => {
                let len = read_u16_at(b, pos + 1) as usize;
                if b.len() - (pos + 3) < len {
                    return eof();
                }
                let text = decode_lossy(slice_subrange(b, pos + 3, pos + 3 + len));
                return Ok((Value::String(text), pos + 3 + len));
            },
        };
        proof {
            reveal_with_fuel(pow256, 9);
        }
        Ok((v, pos + k))
    }

    /// Appends the wire encoding of the cell to `out`.
    pub fn serialize(&self, out: &mut Vec<u8>) -> (r: Result<(), Error>)
        ensures
            match encode_value(self@) {
                Ok(bytes) => r is Ok && final(out)@ == old(out)@ + bytes,
                Err(e) => r == Err::<(), Error>(e),
            },
    {
        proof {
            reveal_with_fuel(pow256, 9);
        }
        let mut bytes = match self {
            Value::I8(v) => {
                let u: u8 = if *v >= 0 { *v as u8 } else { (*v as i16 + 256) as u8 };
                let mut one = Vec::new();
                one.push(u);
                assert(one@ =~= le_bytes(twos(*v as int, 1), 1)) by {
                    reveal_with_fuel(le_bytes, 2);
                }
                one
            },
            Value::U8(v) => {
                let mut one = Vec::new();
                one.push(*v);
                assert(one@ =~= le_bytes(*v as nat, 1)) by {
                    reveal_with_fuel(le_bytes, 2);
                }
                one
            },
            Value::I16(v) => u16_le(if *v >= 0 { *v as u16 } else { (*v as i32 + 0x1_0000) as u16 }),
            Value::U16(v) => u16_le(*v),
            Value::I32(v) => u32_le(
                if *v >= 0 { *v as u32 } else { (*v as i64 + 0x1_0000_0000) as u32 },
            ),
            Value::U32(v) => u32_le(*v),
            Value::I64(v) => u64_le(
                if *v >= 0 { *v as u64 } else { (*v as i128 + 0x1_0000_0000_0000_0000) as u64 },
            ),
            Value::U64(v) => u64_le(*v),
            Value::F32(v) => u32_le(*v),
            Value::F64(v) => u64_le(*v),
            Value::String(s) => {
                let text = s.as_str().as_bytes();
                if text.len() > 65535 {
                    return Err(Error::StringTooBig);
                }
                let mut framed = Vec::new();
                framed.push(if s.is_ascii() { 1u8 } else { 0u8 });
                let mut len = u16_le(text.len() as u16);
                framed.append(&mut len);
                let mut payload = slice_to_vec(text);
                framed.append(&mut payload);
                framed
            },
        };
        out.append(&mut bytes);
        Ok(())
    }

    /// The wire tag of the cell's type.
    pub fn type_as_u8(&self) -> (r: u8)
        ensures
            r == tag_of(self@),
    {
        match self {
            Value::I8(_) => 1,
            Value::U8(_) => 2,
            Value::I16(_) => 3,
            Value::U16(_) => 4,
            Value::I32(_) => 5,
            Value::U32(_) => 6,
            Value::I64(_) => 7,
            Value::U64(_) => 8,
            Value::F32(_) => 9,
            Value::F64(_) => 10,
            Value::String(_) => 11,
        }
    }

    /// The text name of the cell's type.
    pub fn type_as_string(&self) -> (r: String)
        ensures
            r@ == tag_name(tag_of(self@)),
    {
        let name = match self {
            Value::I8(_) => "i8",
            Value::U8(_) => "u8",
            Value::I16(_) => "i16",
            Value::U16(_) => "u16",
            Value::I32(_) => "i32",
            Value::U32(_) => "u32",
            Value::I64(_) => "i64",
            Value::U64(_) => "u64",
            Value::F32(_) => "f32",
            Value::F64(_) => "f64",
            Value::String(_) => "string",
        };
        name.to_owned()
    }

    /// The number of an `I8` cell.
    pub fn as_i8(&self) -> (r: Option<i8>)
        ensures
            match self@ {
                ValueView::I8(x) => r == Some(x),
                _ => r is None,
            },
    {
        match self {
            Value::I8(v) => Some(*v),
            _ => None,
        }
    }

    /// The number of an `U8` cell.
    pub fn as_u8(&self) -> (r: Option<u8>)
        ensures
            match self@ {
                ValueView::U8(x) => r == Some(x),
                _ => r is None,
            },
    {
        match self {
            Value::U8(v) => Some(*v),
            _ => None,
        }
    }

    /// The number of an `I16` cell.
    pub fn as_i16(&self) -> (r: Option<i16>)
        ensures
            match self@ {
                ValueView::I16(x) => r == Some(x),
                _ => r is None,
            },
    {
        match self {
            Value::I16(v) => Some(*v),
            _ => None,
        }
    }

    /// The number of an `U16` cell.
    pub fn as_u16(&self) -> (r: Option<u16>)
        ensures
            match self@ {
                ValueView::U16(x) => r == Some(x),
                _ => r is None,
            },
    {
        match self {
            Value::U16(v) => Some(*v),
            _ => None,
        }
    }

    /// The number of an `I32` cell.
    pub fn as_i32(&self) -> (r: Option<i32>)
        ensures
            match self@ {
                ValueView::I32(x) => r == Some(x),
                _ => r is None,
            },
    {
        match self {
            Value::I32(v) => Some(*v),
            _ => None,
        }
    }

    /// The number of an `U32` cell.
    pub fn as_u32(&self) -> (r: Option<u32>)
        ensures
            match self@ {
                ValueView::U32(x) => r == Some(x),
                _ => r is None,
            },
    {
        match self {
            Value::U32(v) => Some(*v),
            _ => None,
        }
    }

    /// The number of an `I64` cell.
    pub fn as_i64(&self) -> (r: Option<i64>)
        ensures
            match self@ {
                ValueView::I64(x) => r == Some(x),
                _ => r is None,
            },
    {
        match self {
            Value::I64(v) => Some(*v),
            _ => None,
        }
    }

    /// The number of an `U64` cell.
    pub fn as_u64(&self) -> (r: Option<u64>)
        ensures
            match self@ {
                ValueView::U64(x) => r == Some(x),
                _ => r is None,
            },
    {
        match self {
            Value::U64(v) => Some(*v),
            _ => None,
        }
    }

    /// The IEEE-754 bits of an `F32` cell.
    pub fn as_f32_bits(&self) -> (r: Option<u32>)
        ensures
            match self@ {
                ValueView::F32(x) => r == Some(x),
                _ => r is None,
            },
    {
        match self {
            Value::F32(v) => Some(*v),
            _ => None,
        }
    }

    /// The IEEE-754 bits of an `F64` cell.
    pub fn as_f64_bits(&self) -> (r: Option<u64>)
        ensures
            match self@ {
                ValueView::F64(x) => r == Some(x),
                _ => r is None,
            },
    {
        match self {
            Value::F64(v) => Some(*v),
            _ => None,
        }
    }

    /// The text of a string cell.
    pub fn as_str(&self) -> (r: Option<&str>)
        ensures
            match self@ {
                ValueView::Str(s) => r matches Some(x) && x@ == s,
                _ => r is None,
            },
    {
        match self {
            Value::String(v) => Some(v.as_str()),
            _ => None,
        }
    }
}

/// Reading a cell back from its own encoding, wherever the encoding stands in a byte
/// sequence, gives the same cell and the position just after the encoding.
pub proof fn lemma_value_round_trip(v: ValueView, b: Seq<u8>, pos: int)
    requires
        encode_value(v) is Ok,
        0 <= pos,
        pos + encode_value(v)->Ok_0.len() <= b.len(),
        b.subrange(pos, pos + encode_value(v)->Ok_0.len()) == encode_value(v)->Ok_0,
    ensures
        decode_value(b, pos, tag_of(v)) == Ok::<(ValueView, int), Error>(
            (v, pos + encode_value(v)->Ok_0.len()),
        ),
{
    reveal_with_fuel(pow256, 9);
    let e = encode_value(v)->Ok_0;
    match v {
        ValueView::I8(x) => lemma_le_round_trip(twos(x as int, 1), 1),
        ValueView::U8(x) => lemma_le_round_trip(x as nat, 1),
        ValueView::I16(x) => lemma_le_round_trip(twos(x as int, 2), 2),
        ValueView::U16(x) => lemma_le_round_trip(x as nat, 2),
        ValueView::I32(x) => lemma_le_round_trip(twos(x as int, 4), 4),
        ValueView::U32(x) => lemma_le_round_trip(x as nat, 4),
        ValueView::I64(x) => lemma_le_round_trip(twos(x as int, 8), 8),
        ValueView::U64(x) => lemma_le_round_trip(x as nat, 8),
        ValueView::F32(x) => lemma_le_round_trip(x as nat, 4),
        ValueView::F64(x) => lemma_le_round_trip(x as nat, 8),
        ValueView::Str(s) => {
            let text = encode_utf8(s);
            lemma_le_round_trip(text.len(), 2);
            assert(e == seq![ascii_flag(s)] + le_bytes(text.len(), 2) + text);
            assert(b.subrange(pos + 1, pos + 3) =~= e.subrange(1, 3));
            assert(e.subrange(1, 3) =~= le_bytes(text.len(), 2));
            assert(b.subrange(pos + 3, pos + 3 + text.len()) =~= e.subrange(3, e.len() as int));
            assert(e.subrange(3, e.len() as int) =~= text);
            encode_utf8_valid_utf8(s);
            encode_utf8_decode_utf8(s);
        },
    }
}

} // verus!
