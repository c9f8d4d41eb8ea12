//! Little-endian integers and UTF-8 text as byte sequences.
use byteorder::{ByteOrder, LittleEndian};
use vstd::prelude::*;
use vstd::utf8::*;

verus! {

/// The unsigned number that `b` holds, least significant byte first.
pub open spec fn le_value(b: Seq<u8>) -> nat
    decreases b.len(),
{
    if b.len() == 0 {
        0
    } else {
        b[0] as nat + 256 * le_value(b.subrange(1, b.len() as int))
    }
}

/// The `k` low bytes of `n`, least significant first.
pub open spec fn le_bytes(n: nat, k: nat) -> Seq<u8>
    decreases k,
{
    if k == 0 {
        Seq::empty()
    } else {
        seq![(n % 256) as u8] + le_bytes(n / 256, (k - 1) as nat)
    }
}

/// 256 to the power `k`.
pub open spec fn pow256(k: nat) -> nat
    decreases k,
{
    if k == 0 {
        1
    } else {
        256 * pow256((k - 1) as nat)
    }
}

pub proof fn lemma_le_bytes_len(n: nat, k: nat)
    ensures
        le_bytes(n, k).len() == k,
    decreases k,
{
    if k > 0 {
        lemma_le_bytes_len(n / 256, (k - 1) as nat);
    }
}

/// Reading back `k` bytes written from a number below `256^k` gives the number.
pub proof fn lemma_le_round_trip(n: nat, k: nat)
    requires
        n < pow256(k),
    ensures
        le_value(le_bytes(n, k)) == n,
        le_bytes(n, k).len() == k,
    decreases k,
{
    lemma_le_bytes_len(n, k);
    if k > 0 {
        let rest = (k - 1) as nat;
        assert(n / 256 < pow256(rest)) by (nonlinear_arith)
            requires
                n < 256 * pow256(rest),
        ;
        lemma_le_round_trip(n / 256, rest);
        let b = le_bytes(n, k);
        assert(b.subrange(1, b.len() as int) =~= le_bytes(n / 256, rest));
        assert(n == n % 256 + 256 * (n / 256)) by (nonlinear_arith);
    }
}

/// Relies on byteorder's `LittleEndian::read_u16`: the first two bytes of the slice, low byte first.
#[verifier::external_body]
pub(crate) fn read_u16_at(b: &[u8], pos: usize) -> (r: u16)
    requires
        pos + 2 <= b@.len(),
    ensures
        r as nat == le_value(b@.subrange(pos as int, pos + 2)),
{
    LittleEndian::read_u16(&b[pos..])
}

/// Relies on byteorder's `LittleEndian::read_u32`: the first four bytes of the slice, low byte first.
#[verifier::external_body]
pub(crate) fn read_u32_at(b: &[u8], pos: usize) -> (r: u32)
    requires
        pos + 4 <= b@.len(),
    ensures
        r as nat == le_value(b@.subrange(pos as int, pos + 4)),
{
    LittleEndian::read_u32(&b[pos..])
}

/// Relies on byteorder's `LittleEndian::read_u64`: the first eight bytes of the slice, low byte first.
#[verifier::external_body]
pub(crate) fn read_u64_at(b: &[u8], pos: usize) -> (r: u64)
    requires
        pos + 8 <= b@.len(),
    ensures
        r as nat == le_value(b@.subrange(pos as int, pos + 8)),
{
    LittleEndian::read_u64(&b[pos..])
}

/// Relies on byteorder's `LittleEndian::write_u16`: the two bytes of `n`, low byte first.
#[verifier::external_body]
pub(crate) fn u16_le(n: u16) -> (r: Vec<u8>)
    ensures
        r@ == le_bytes(n as nat, 2),
{
    let mut buf = vec![0u8; 2];
    LittleEndian::write_u16(&mut buf, n);
    buf
}

/// Relies on byteorder's `LittleEndian::write_u32`: the four bytes of `n`, low byte first.
#[verifier::external_body]
pub(crate) fn u32_le(n: u32) -> (r: Vec<u8>)
    ensures
        r@ == le_bytes(n as nat, 4),
{
    let mut buf = vec![0u8; 4];
    LittleEndian::write_u32(&mut buf, n);
    buf
}

/// Relies on byteorder's `LittleEndian::write_u64`: the eight bytes of `n`, low byte first.
#[verifier::external_body]
pub(crate) fn u64_le(n: u64) -> (r: Vec<u8>)
    ensures
        r@ == le_bytes(n as nat, 8),
{
    let mut buf = vec![0u8; 8];
    LittleEndian::write_u64(&mut buf, n);
    buf
}

/// The text that lossy decoding makes of bytes that are not well-formed UTF-8.
pub uninterp spec fn lossy_text(b: Seq<u8>) -> Seq<char>;

/// The text of `b` decoded as UTF-8, each ill-formed sequence replaced by U+FFFD.
pub open spec fn utf8_lossy(b: Seq<u8>) -> Seq<char> {
    if valid_utf8(b) {
        decode_utf8(b)
    } else {
        lossy_text(b)
    }
}

/// Relies on `String::from_utf8_lossy`: well-formed UTF-8 decodes to the characters it
/// encodes; what it makes of other bytes depends on the bytes alone.
#[verifier::external_body]
pub(crate) fn decode_lossy(b: &[u8]) -> (r: String)
    ensures
        valid_utf8(b@) ==> r@ == decode_utf8(b@),
        !valid_utf8(b@) ==> r@ == lossy_text(b@),
{
    String::from_utf8_lossy(b).into_owned()
}

} // verus!
