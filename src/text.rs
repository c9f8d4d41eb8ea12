//! Decimal numerals and delimited text.
use vstd::prelude::*;
use vstd::string::StrSliceExecFns;

verus! {

/// The character of decimal digit `d`.
pub open spec fn digit_char(d: nat) -> char {
    (d + 48) as char
}

/// The decimal numeral of `n`, without leading zeros.
pub open spec fn nat_text(n: nat) -> Seq<char>
    decreases n,
{
    if n < 10 {
        seq![digit_char(n)]
    } else {
        nat_text(n / 10).push(digit_char(n % 10))
    }
}

/// The decimal numeral of `v`, with a minus sign when it is negative.
pub open spec fn int_text(v: int) -> Seq<char> {
    if v < 0 {
        seq!['-'] + nat_text((-v) as nat)
    } else {
        nat_text(v as nat)
    }
}

pub open spec fn is_digit(c: char) -> bool {
    '0' <= c <= '9'
}

/// A non-empty run of decimal digits.
pub open spec fn all_digits(s: Seq<char>) -> bool {
    s.len() > 0 && forall|i: int| 0 <= i < s.len() ==> is_digit(#[trigger] s[i])
}

/// The number that a run of decimal digits denotes.
pub open spec fn digits_value(s: Seq<char>) -> nat
    decreases s.len(),
{
    if s.len() == 0 {
        0
    } else {
        digits_value(s.drop_last()) * 10 + (s.last() as nat - 48) as nat
    }
}

/// The integer that a decimal numeral with an optional `+` or `-` sign denotes.
pub open spec fn decimal_value(s: Seq<char>) -> Option<int> {
    if s.len() > 0 && (s[0] == '+' || s[0] == '-') {
        if all_digits(s.drop_first()) {
            if s[0] == '-' {
                Some(-digits_value(s.drop_first()))
            } else {
                Some(digits_value(s.drop_first()) as int)
            }
        } else {
            None
        }
    } else if all_digits(s) {
        Some(digits_value(s) as int)
    } else {
        None
    }
}

/// Whether `s` begins with a minus sign.
pub open spec fn negative_sign(s: Seq<char>) -> bool {
    s.len() > 0 && s[0] == '-'
}

/// The number that `s` denotes if it lies in `lo..=hi`; a type without negative numbers
/// takes no minus sign.
pub open spec fn numeral_in(s: Seq<char>, lo: int, hi: int) -> Option<int> {
    if lo >= 0 && negative_sign(s) {
        None
    } else {
        match decimal_value(s) {
            Some(v) => if lo <= v <= hi {
                Some(v)
            } else {
                None
            },
            None => None,
        }
    }
}

/// Relies on the `Display` of `i128` (through `ToString`): the decimal numeral, with a minus
/// sign for a negative number.
#[verifier::external_body]
pub(crate) fn decimal(v: i128) -> (r: String)
    ensures
        r@ == int_text(v as int),
{
    v.to_string()
}

/// Relies on `str::parse::<i128>`: an optional sign and decimal digits, nothing else, and a
/// value in range.
#[verifier::external_body]
pub(crate) fn parse_i128(s: &str) -> (r: Option<i128>)
    ensures
        r == (match decimal_value(s@) {
            Some(v) => if i128::MIN <= v <= i128::MAX {
                Some(v as i128)
            } else {
                None
            },
            None => None,
        }),
{
    s.parse::<i128>().ok()
}

/// The number that `s` denotes, when it lies in `lo..=hi`.
pub(crate) fn parse_in(s: &str, lo: i128, hi: i128) -> (r: Option<i128>)
    ensures
        match numeral_in(s@, lo as int, hi as int) {
            Some(v) => r == Some(v as i128),
            None => r is None,
        },
{
    if lo >= 0 && !s.is_empty() && s.get_char(0) == '-' {
        return None;
    }
    match parse_i128(s) {
        Some(v) => if lo <= v && v <= hi {
            Some(v)
        } else {
            None
        },
        None => None,
    }
}

/// The pieces of `s` between non-overlapping occurrences of a non-empty `sep`, scanning from
/// `i` with the current piece begun at `start`.
pub open spec fn split_from(s: Seq<char>, sep: Seq<char>, start: int, i: int) -> Seq<Seq<char>>
    decreases s.len() - i,
{
    if sep.len() == 0 || i < 0 || i + sep.len() > s.len() {
        seq![s.subrange(start, s.len() as int)]
    } else if s.subrange(i, i + sep.len()) == sep {
        seq![s.subrange(start, i)] + split_from(s, sep, i + sep.len(), i + sep.len())
    } else {
        split_from(s, sep, start, i + 1)
    }
}

/// The pieces of `s` between the occurrences of `sep`, left to right, as `str::split` gives
/// them; an empty separator matches before and after every character.
pub open spec fn split_text(s: Seq<char>, sep: Seq<char>) -> Seq<Seq<char>> {
    if sep.len() == 0 {
        seq![Seq::empty()] + Seq::new(s.len(), |i: int| seq![s[i]]) + seq![Seq::empty()]
    } else {
        split_from(s, sep, 0, 0)
    }
}

/// The characters of `s`, one by one.
fn chars_of(s: &str) -> (r: Vec<char>)
    ensures
        r@ == s@,
{
    let n = s.unicode_len();
    let mut r: Vec<char> = Vec::new();
    let mut i: usize = 0;
    while i < n
        invariant
            0 <= i <= n,
            n == s@.len(),
            r@ == s@.take(i as int),
        decreases n - i,
    {
        r.push(s.get_char(i));
        assert(r@ =~= s@.take(i + 1));
        i += 1;
    }
    assert(s@.take(n as int) =~= s@);
    r
}

/// Whether `sep` occurs in `s` at `i`.
fn occurs_at(s: &Vec<char>, sep: &Vec<char>, i: usize) -> (r: bool)
    requires
        i + sep@.len() <= s@.len(),
    ensures
        r == (s@.subrange(i as int, i + sep@.len()) == sep@),
{
    let n = s.len();
    let mut k: usize = 0;
    while k < sep.len()
        invariant
            0 <= k <= sep@.len(),
            n == s@.len(),
            i + sep@.len() <= s@.len(),
            s@.subrange(i as int, i + k) == sep@.take(k as int),
        decreases sep@.len() - k,
    {
        if s[i + k] != sep[k] {
            assert(s@.subrange(i as int, i + sep@.len())[k as int] != sep@[k as int]);
            return false;
        }
        assert(s@.subrange(i as int, i + k + 1) =~= sep@.take(k + 1));
        k += 1;
    }
    assert(sep@.take(sep@.len() as int) =~= sep@);
    true
}

/// The pieces of `s` between the occurrences of `sep`.
pub fn split<'a>(s: &'a str, sep: &str) -> (r: Vec<&'a str>)
    ensures
        r@.map_values(|p: &str| p@) == split_text(s@, sep@),
{
    let chars = chars_of(s);
    let sepc = chars_of(sep);
    let n = chars.len();
    let m = sepc.len();
    let mut r: Vec<&'a str> = Vec::new();
    if m == 0 {
        let first = s.substring_char(0, 0);
        r.push(first);
        assert(first@ =~= Seq::<char>::empty());
        assert(r@.map_values(|p: &str| p@) =~= seq![Seq::<char>::empty()] + Seq::new(
            0,
            |j: int| seq![s@[j]],
        ));
        let mut i: usize = 0;
        while i < n
            invariant
                0 <= i <= n,
                n == s@.len(),
                r@.map_values(|p: &str| p@) == seq![Seq::<char>::empty()] + Seq::new(
                    i as nat,
                    |j: int| seq![s@[j]],
                ),
            decreases n - i,
        {
            let piece = s.substring_char(i, i + 1);
            let ghost before = r@.map_values(|p: &str| p@);
            r.push(piece);
            assert(piece@ =~= seq![s@[i as int]]);
            assert(r@.map_values(|p: &str| p@) =~= before.push(piece@));
            assert(r@.map_values(|p: &str| p@) =~= seq![Seq::<char>::empty()] + Seq::new(
                (i + 1) as nat,
                |j: int| seq![s@[j]],
            ));
            i += 1;
        }
        let last = s.substring_char(n, n);
        let ghost before = r@.map_values(|p: &str| p@);
        r.push(last);
        assert(last@ =~= Seq::<char>::empty());
        assert(r@.map_values(|p: &str| p@) =~= before.push(last@));
        assert(r@.map_values(|p: &str| p@) =~= split_text(s@, sep@));
        return r;
    }
    let mut start: usize = 0;
    let mut i: usize = 0;
    while m <= n - i
        invariant
            0 <= start <= i <= n,
            n == s@.len(),
            m == sep@.len(),
            m > 0,
            chars@ == s@,
            sepc@ == sep@,
            r@.map_values(|p: &str| p@) + split_from(s@, sep@, start as int, i as int)
                == split_text(s@, sep@),
        decreases n - i,
    {
        let ghost before = r@.map_values(|p: &str| p@);
        if occurs_at(&chars, &sepc, i) {
            let piece = s.substring_char(start, i);
            r.push(piece);
            assert(r@.map_values(|p: &str| p@) =~= before + seq![piece@]);
            assert(before + split_from(s@, sep@, start as int, i as int) =~= r@.map_values(
                |p: &str| p@,
            ) + split_from(s@, sep@, (i + m) as int, (i + m) as int));
            i = i + m;
            start = i;
        } else {
            i = i + 1;
        }
    }
    let piece = s.substring_char(start, n);
    let ghost before = r@.map_values(|p: &str| p@);
    r.push(piece);
    assert(r@.map_values(|p: &str| p@) =~= before + seq![piece@]);
    r
}

/// The first position at or after `i` where `sep` occurs in `s`.
pub open spec fn first_occurrence(s: Seq<char>, sep: Seq<char>, i: int) -> Option<int>
    decreases s.len() + 1 - i,
{
    if i < 0 || i + sep.len() > s.len() {
        None
    } else if s.subrange(i, i + sep.len()) == sep {
        Some(i)
    } else {
        first_occurrence(s, sep, i + 1)
    }
}

/// `s` cut at the first occurrence of `sep`: what stands before it and what stands after.
pub open spec fn split_once_text(s: Seq<char>, sep: Seq<char>) -> Option<(Seq<char>, Seq<char>)> {
    match first_occurrence(s, sep, 0) {
        Some(i) => Some((s.subrange(0, i), s.subrange(i + sep.len(), s.len() as int))),
        None => None,
    }
}

/// `s` cut at the first occurrence of `sep`.
pub fn split_once<'a>(s: &'a str, sep: &str) -> (r: Option<(&'a str, &'a str)>)
    ensures
        match split_once_text(s@, sep@) {
            Some((a, b)) => r matches Some((x, y)) && x@ == a && y@ == b,
            None => r is None,
        },
{
    let chars = chars_of(s);
    let sepc = chars_of(sep);
    let n = chars.len();
    let m = sepc.len();
    let mut i: usize = 0;
    while i <= n && m <= n - i
        invariant
            0 <= i,
            n == s@.len(),
            m == sep@.len(),
            chars@ == s@,
            sepc@ == sep@,
            first_occurrence(s@, sep@, 0) == first_occurrence(s@, sep@, i as int),
        decreases n + 1 - i,
    {
        if occurs_at(&chars, &sepc, i) {
            return Some((s.substring_char(0, i), s.substring_char(i + m, n)));
        }
        assert(m > 0) by {
            if m == 0 {
                assert(chars@.subrange(i as int, i as int) =~= sepc@);
            }
        }
        i = i + 1;
    }
    None
}

/// Characters with the Unicode White_Space property.
pub open spec fn is_white_space(c: char) -> bool {
    ('\u{9}' <= c <= '\u{d}') || c == ' ' || c == '\u{85}' || c == '\u{a0}' || c == '\u{1680}'
        || ('\u{2000}' <= c <= '\u{200a}') || c == '\u{2028}' || c == '\u{2029}' || c
        == '\u{202f}' || c == '\u{205f}' || c == '\u{3000}'
}

/// `s` without its leading white space.
pub open spec fn trim_start_text(s: Seq<char>) -> Seq<char>
    decreases s.len(),
{
    if s.len() > 0 && is_white_space(s[0]) {
        trim_start_text(s.drop_first())
    } else {
        s
    }
}

/// `s` without its trailing white space.
pub open spec fn trim_end_text(s: Seq<char>) -> Seq<char>
    decreases s.len(),
{
    if s.len() > 0 && is_white_space(s.last()) {
        trim_end_text(s.drop_last())
    } else {
        s
    }
}

/// `s` without its leading and trailing white space.
pub open spec fn trim_text(s: Seq<char>) -> Seq<char> {
    trim_end_text(trim_start_text(s))
}

/// Relies on `str::trim`: the leading and trailing characters with the White_Space property
/// removed.
#[verifier::external_body]
pub(crate) fn trim<'a>(s: &'a str) -> (r: &'a str)
    ensures
        r@ == trim_text(s@),
{
    s.trim()
}

/// Splitting scans to the end, so there is always a last piece.
pub proof fn lemma_split_from_nonempty(s: Seq<char>, sep: Seq<char>, start: int, i: int)
    ensures
        split_from(s, sep, start, i).len() >= 1,
    decreases s.len() - i,
{
    if sep.len() == 0 || i < 0 || i + sep.len() > s.len() {
    } else if s.subrange(i, i + sep.len()) == sep {
        lemma_split_from_nonempty(s, sep, i + sep.len(), i + sep.len());
    } else {
        lemma_split_from_nonempty(s, sep, start, i + 1);
    }
}

/// Splitting gives at least one piece.
pub proof fn lemma_split_nonempty(s: Seq<char>, sep: Seq<char>)
    ensures
        split_text(s, sep).len() >= 1,
{
    if sep.len() > 0 {
        lemma_split_from_nonempty(s, sep, 0, 0);
    }
}

} // verus!
