//! Typed reads of a table's cells by row and column position.
use crate::convert::FromValue;
use crate::error::Error;
use crate::table::{row_view, Table, TableView};
use crate::text::{split, split_once, split_once_text, split_text};
use crate::value::{Value, ValueView};
use vstd::pervasive::VecAdditionalExecFns;
use vstd::prelude::*;

verus! {

/// The cell at `row`, `col`, or which of the two is out of range.
pub open spec fn cell_at(t: TableView, row: int, col: int) -> Result<ValueView, Error> {
    if !(0 <= row < t.rows.len()) {
        Err(Error::RowNotFound)
    } else if !(0 <= col < t.rows[row].len()) {
        Err(Error::ColumnNotFound)
    } else {
        Ok(t.rows[row][col])
    }
}

/// A result with the view of its success value.
pub open spec fn view_result<T: View>(r: Result<T, Error>) -> Result<T::V, Error> {
    match r {
        Ok(x) => Ok(x@),
        Err(e) => Err(e),
    }
}

/// What `value` reads at `row`, `col`.
pub open spec fn value_spec<T: FromValue>(t: TableView, row: int, col: int) -> Result<T::V, Error> {
    match cell_at(t, row, col) {
        Err(e) => Err(e),
        Ok(v) => match T::from_value_spec(v) {
            Some(x) => Ok(x),
            None => Err(Error::ValueConversionFailed),
        },
    }
}

/// Each piece parsed, or `None` if one does not parse.
pub open spec fn parse_pieces<T: FromValue>(pieces: Seq<Seq<char>>) -> Option<Seq<T::V>>
    decreases pieces.len(),
{
    if pieces.len() == 0 {
        Some(Seq::empty())
    } else {
        match parse_pieces::<T>(pieces.drop_last()) {
            None => None,
            Some(xs) => match T::parse_spec(pieces.last()) {
                None => None,
                Some(x) => Some(xs.push(x)),
            },
        }
    }
}

/// The list that the string cell at `row`, `col` holds, its items separated by `sep`.
pub open spec fn vector_spec<T: FromValue>(t: TableView, row: int, col: int, sep: Seq<char>) -> Result<
    Seq<T::V>,
    Error,
> {
    match cell_at(t, row, col) {
        Err(e) => Err(e),
        Ok(ValueView::Str(s)) => match parse_pieces::<T>(split_text(s, sep)) {
            Some(xs) => Ok(xs),
            None => Err(Error::ValueConversionFailed),
        },
        Ok(_) => Err(Error::InvalidColumnType),
    }
}

/// The position of the entry with key `k`.
pub open spec fn find_key<A, B>(m: Seq<(A, B)>, k: A) -> Option<int>
    decreases m.len(),
{
    if m.len() == 0 {
        None
    } else {
        match find_key(m.drop_last(), k) {
            Some(i) => Some(i),
            None => if m.last().0 == k {
                Some(m.len() - 1)
            } else {
                None
            },
        }
    }
}

/// The entries `m` with `k` bound to `v`: a later value replaces an earlier one in place.
pub open spec fn put<A, B>(m: Seq<(A, B)>, k: A, v: B) -> Seq<(A, B)> {
    match find_key(m, k) {
        Some(i) => m.update(i, (k, v)),
        None => m.push((k, v)),
    }
}

/// A `key kv_sep value` piece, both sides parsed.
pub open spec fn pair_spec<K: FromValue, V: FromValue>(p: Seq<char>, kv_sep: Seq<char>) -> Option<
    (K::V, V::V),
> {
    match split_once_text(p, kv_sep) {
        None => None,
        Some((a, b)) => match (K::parse_spec(a), V::parse_spec(b)) {
            (Some(k), Some(v)) => Some((k, v)),
            _ => None,
        },
    }
}

/// The entries of a list of pieces, or `None` if one is not a pair that parses.
pub open spec fn collect_pairs<K: FromValue, V: FromValue>(
    pieces: Seq<Seq<char>>,
    kv_sep: Seq<char>,
) -> Option<Seq<(K::V, V::V)>>
    decreases pieces.len(),
{
    if pieces.len() == 0 {
        Some(Seq::empty())
    } else {
        match collect_pairs::<K, V>(pieces.drop_last(), kv_sep) {
            None => None,
            Some(m) => match pair_spec::<K, V>(pieces.last(), kv_sep) {
                None => None,
                Some((k, v)) => Some(put(m, k, v)),
            },
        }
    }
}

/// The map that the string cell at `row`, `col` holds: entries separated by `pair_sep`, key
/// and value by `kv_sep`.
pub open spec fn map_spec<K: FromValue, V: FromValue>(
    t: TableView,
    row: int,
    col: int,
    pair_sep: Seq<char>,
    kv_sep: Seq<char>,
) -> Result<Seq<(K::V, V::V)>, Error> {
    match cell_at(t, row, col) {
        Err(e) => Err(e),
        Ok(ValueView::Str(s)) => match collect_pairs::<K, V>(split_text(s, pair_sep), kv_sep) {
            Some(m) => Ok(m),
            None => Err(Error::ValueConversionFailed),
        },
        Ok(_) => Err(Error::InvalidColumnType),
    }
}

/// The view of a list of entries.
pub open spec fn entries_view<K: View, V: View>(m: Seq<(K, V)>) -> Seq<(K::V, V::V)> {
    m.map_values(|p: (K, V)| (p.0@, p.1@))
}

/// Once a key is found in a prefix, it is found there in the whole.
pub proof fn lemma_find_key_prefix<A, B>(m: Seq<(A, B)>, k: A, i: int)
    requires
        0 <= i <= m.len(),
        find_key(m.take(i), k) is Some,
    ensures
        find_key(m, k) == find_key(m.take(i), k),
    decreases m.len() - i,
{
    if i < m.len() {
        assert(m.take(i + 1).drop_last() =~= m.take(i));
        lemma_find_key_prefix(m, k, i + 1);
    } else {
        assert(m.take(i) =~= m);
    }
}

/// Binds `k` to `v` in `m`.
fn put_entry<K: FromValue, V: FromValue>(m: &mut Vec<(K, V)>, k: K, v: V)
    ensures
        entries_view(final(m)@) == put(entries_view(old(m)@), k@, v@),
{
    let ghost mv = entries_view(m@);
    let mut j: usize = 0;
    while j < m.len()
        invariant
            0 <= j <= m@.len(),
            mv == entries_view(m@),
            mv == entries_view(old(m)@),
            find_key(mv.take(j as int), k@) is None,
        decreases m@.len() - j,
    {
        assert(mv.take(j + 1).drop_last() =~= mv.take(j as int));
        if m[j].0.same(&k) {
            assert(mv[j as int].0 == k@);
            assert(mv.take(j + 1).last() == mv[j as int]);
            assert(find_key(mv.take(j + 1), k@) == Some(j as int));
            proof {
                lemma_find_key_prefix(mv, k@, j + 1);
            }
            m.set(j, (k, v));
            assert(entries_view(m@) =~= mv.update(j as int, (k@, v@)));
            return;
        }
        j += 1;
    }
    assert(mv.take(m@.len() as int) =~= mv);
    m.push((k, v));
    assert(entries_view(m@) =~= mv.push((k@, v@)));
}

impl Table {
    /// The cell at `row`, `column`, converted to `T`.
    pub fn value<T: FromValue>(&self, row: usize, column: usize) -> (r: Result<T, Error>)
        ensures
            view_result(r) == value_spec::<T>(self@, row as int, column as int),
    {
        if row >= self.rows.len() {
            return Err(Error::RowNotFound);
        }
        let cells = &self.rows[row];
        assert(row_view(*cells) == self@.rows[row as int]);
        if column >= cells.len() {
            return Err(Error::ColumnNotFound);
        }
        match T::from_value(&cells[column]) {
            Ok(x) => Ok(x),
            Err(_) => Err(Error::ValueConversionFailed),
        }
    }

    /// The string cell at `row`, `column` read as a list of `T` separated by `separator`.
    pub fn vector<T: FromValue>(&self, row: usize, column: usize, separator: &str) -> (r: Result<
        Vec<T>,
        Error,
    >)
        ensures
            match vector_spec::<T>(self@, row as int, column as int, separator@) {
                Ok(xs) => r matches Ok(v) && v@.map_values(|x: T| x@) == xs,
                Err(e) => r == Err::<Vec<T>, Error>(e),
            },
    {
        if row >= self.rows.len() {
            return Err(Error::RowNotFound);
        }
        let cells = &self.rows[row];
        assert(row_view(*cells) == self@.rows[row as int]);
        if column >= cells.len() {
            return Err(Error::ColumnNotFound);
        }
        let text = match &cells[column] {
            Value::String(s) => s.as_str(),
            _ => return Err(Error::InvalidColumnType),
        };
        let pieces = split(text, separator);
        let ghost ps = split_text(text@, separator@);
        let mut out: Vec<T> = Vec::new();
        let mut i: usize = 0;
        assert(ps.take(0) =~= Seq::<Seq<char>>::empty());
        while i < pieces.len()
            invariant
                0 <= i <= pieces@.len(),
                pieces@.map_values(|p: &str| p@) == ps,
                ps == split_text(text@, separator@),
                cell_at(self@, row as int, column as int) == Ok::<ValueView, Error>(
                    ValueView::Str(text@),
                ),
                parse_pieces::<T>(ps.take(i as int)) == Some(out@.map_values(|x: T| x@)),
            decreases pieces@.len() - i,
        {
            assert(ps.take(i + 1).drop_last() =~= ps.take(i as int));
            assert(ps.take(i + 1).last() == pieces@[i as int]@);
            match T::parse(pieces[i]) {
                Some(x) => {
                    let ghost before = out@.map_values(|x: T| x@);
                    out.push(x);
                    assert(out@.map_values(|x: T| x@) =~= before.push(x@));
                },
                None => {
                    proof {
                        lemma_parse_none_stays::<T>(ps, i + 1);
                    }
                    return Err(Error::ValueConversionFailed);
                },
            }
            i += 1;
        }
        assert(ps.take(pieces@.len() as int) =~= ps);
        Ok(out)
    }

    /// The string cell at `row`, `column` read as a map: entries separated by
    /// `pair_separator`, key and value by `kv_separator`. A later key replaces an earlier one.
    pub fn map<K: FromValue, V: FromValue>(
        &self,
        row: usize,
        column: usize,
        pair_separator: &str,
        kv_separator: &str,
    ) -> (r: Result<Vec<(K, V)>, Error>)
        ensures
            match map_spec::<K, V>(self@, row as int, column as int, pair_separator@, kv_separator@) {
                Ok(m) => r matches Ok(v) && entries_view(v@) == m,
                Err(e) => r == Err::<Vec<(K, V)>, Error>(e),
            },
    {
        if row >= self.rows.len() {
            return Err(Error::RowNotFound);
        }
        let cells = &self.rows[row];
        assert(row_view(*cells) == self@.rows[row as int]);
        if column >= cells.len() {
            return Err(Error::ColumnNotFound);
        }
        let text = match &cells[column] {
            Value::String(s) => s.as_str(),
            _ => return Err(Error::InvalidColumnType),
        };
        let pieces = split(text, pair_separator);
        let ghost ps = split_text(text@, pair_separator@);
        let mut out: Vec<(K, V)> = Vec::new();
        let mut i: usize = 0;
        assert(ps.take(0) =~= Seq::<Seq<char>>::empty());
        assert(entries_view(out@) =~= Seq::<(K::V, V::V)>::empty());
        while i < pieces.len()
            invariant
                0 <= i <= pieces@.len(),
                pieces@.map_values(|p: &str| p@) == ps,
                ps == split_text(text@, pair_separator@),
                cell_at(self@, row as int, column as int) == Ok::<ValueView, Error>(
                    ValueView::Str(text@),
                ),
                collect_pairs::<K, V>(ps.take(i as int), kv_separator@) == Some(entries_view(out@)),
            decreases pieces@.len() - i,
        {
            assert(ps.take(i + 1).drop_last() =~= ps.take(i as int));
            assert(ps.take(i + 1).last() == pieces@[i as int]@);
            let parsed = match split_once(pieces[i], kv_separator) {
                Some((a, b)) => match (K::parse(a), V::parse(b)) {
                    (Some(k), Some(v)) => Some((k, v)),
                    _ => None,
                },
                None => None,
            };
            match parsed {
                Some((k, v)) => put_entry(&mut out, k, v),
                None => {
                    proof {
                        lemma_pairs_none_stays::<K, V>(ps, kv_separator@, i + 1);
                    }
                    return Err(Error::ValueConversionFailed);
                },
            }
            i += 1;
        }
        assert(ps.take(pieces@.len() as int) =~= ps);
        Ok(out)
    }
}

/// Once a piece fails to parse, the whole list fails.
pub proof fn lemma_parse_none_stays<T: FromValue>(ps: Seq<Seq<char>>, k: int)
    requires
        0 <= k <= ps.len(),
        parse_pieces::<T>(ps.take(k)) is None,
    ensures
        parse_pieces::<T>(ps) is None,
    decreases ps.len() - k,
{
    if k < ps.len() {
        assert(ps.take(k + 1).drop_last() =~= ps.take(k));
        lemma_parse_none_stays::<T>(ps, k + 1);
    } else {
        assert(ps.take(k) =~= ps);
    }
}

/// Once a piece is not a pair that parses, the whole map fails.
pub proof fn lemma_pairs_none_stays<K: FromValue, V: FromValue>(
    ps: Seq<Seq<char>>,
    kv_sep: Seq<char>,
    k: int,
)
    requires
        0 <= k <= ps.len(),
        collect_pairs::<K, V>(ps.take(k), kv_sep) is None,
    ensures
        collect_pairs::<K, V>(ps, kv_sep) is None,
    decreases ps.len() - k,
{
    if k < ps.len() {
        assert(ps.take(k + 1).drop_last() =~= ps.take(k));
        lemma_pairs_none_stays::<K, V>(ps, kv_sep, k + 1);
    } else {
        assert(ps.take(k) =~= ps);
    }
}

} // verus!
