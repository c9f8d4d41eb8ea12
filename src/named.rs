//! A table with its rows found by row id and its columns found by name.
use crate::access::{find_key, map_spec, put, value_spec, vector_spec, entries_view, view_result};
use crate::convert::FromValue;
use crate::definitions::{strings_view, TableDefinition};
use crate::error::Error;
use crate::table::{row_view, Table, TableView};
use crate::value::{Value, ValueView};
use indexmap::IndexMap;
use vstd::prelude::*;

verus! {

#[verifier::external_type_specification]
#[verifier::external_body]
#[verifier::reject_recursive_types(K)]
#[verifier::reject_recursive_types(V)]
#[verifier::reject_recursive_types(S)]
pub struct ExIndexMap<K, V, S>(IndexMap<K, V, S>);

/// The entries of an id index, in insertion order.
pub uninterp spec fn id_entries(m: IndexMap<i32, usize>) -> Seq<(i32, usize)>;

/// Relies on `IndexMap::new`: an empty map.
#[verifier::external_body]
fn index_new() -> (r: IndexMap<i32, usize>)
    ensures
        id_entries(r) == Seq::<(i32, usize)>::empty(),
{
    IndexMap::new()
}

/// Relies on `IndexMap::insert`: an existing key keeps its place and takes the new value; a
/// new key goes last.
#[verifier::external_body]
fn index_insert(m: &mut IndexMap<i32, usize>, k: i32, v: usize)
    ensures
        id_entries(*final(m)) == put(id_entries(*old(m)), k, v),
{
    m.insert(k, v);
}

/// Relies on `IndexMap::get`: the value of the entry with key `k`.
#[verifier::external_body]
fn index_get(m: &IndexMap<i32, usize>, k: i32) -> (r: Option<usize>)
    ensures
        r == (match find_key(id_entries(*m), k) {
            Some(i) => Some(id_entries(*m)[i].1),
            None => None,
        }),
{
    m.get(&k).copied()
}

/// Relies on `IndexMap::keys`: the keys in entry order.
#[verifier::external_body]
fn index_keys(m: &IndexMap<i32, usize>) -> (r: Vec<i32>)
    ensures
        r@ == id_entries(*m).map_values(|e: (i32, usize)| e.0),
{
    m.keys().copied().collect()
}

/// A table with the name, column names and row-id index of its definition.
pub struct NamedTable {
    pub name: String,
    // row id to row position, in row order
    id_to_index: IndexMap<i32, usize>,
    // column names in column order
    columns: Vec<String>,
    pub table: Table,
}

/// The mathematical content of a [`NamedTable`].
pub struct NamedTableView {
    pub name: Seq<char>,
    pub ids: Seq<(i32, usize)>,
    pub columns: Seq<Seq<char>>,
    pub table: TableView,
}

impl View for NamedTable {
    type V = NamedTableView;

    closed spec fn view(&self) -> NamedTableView {
        NamedTableView {
            name: self.name@,
            ids: id_entries(self.id_to_index),
            columns: strings_view(self.columns@),
            table: self.table@,
        }
    }
}

/// Every row starts with an `i32` id.
pub open spec fn rows_have_ids(rows: Seq<Seq<ValueView>>) -> bool {
    forall|i: int| 0 <= i < rows.len() ==> (#[trigger] rows[i]).len() > 0 && rows[i][0] is I32
}

/// The id index of `rows`: each id bound to the position of the last row that holds it, ids
/// in the order of their first row.
pub open spec fn id_index(rows: Seq<Seq<ValueView>>) -> Seq<(i32, usize)>
    decreases rows.len(),
{
    if rows.len() == 0 {
        Seq::empty()
    } else {
        put(id_index(rows.drop_last()), rows.last()[0]->I32_0, (rows.len() - 1) as usize)
    }
}

/// The position of the last column named `name`.
pub open spec fn column_of(columns: Seq<Seq<char>>, name: Seq<char>) -> Option<int>
    decreases columns.len(),
{
    if columns.len() == 0 {
        None
    } else if columns.last() == name {
        Some(columns.len() - 1)
    } else {
        column_of(columns.drop_last(), name)
    }
}

/// The row position that the index gives for `id`.
pub open spec fn row_of(ids: Seq<(i32, usize)>, id: i32) -> Option<usize> {
    match find_key(ids, id) {
        Some(i) => Some(ids[i].1),
        None => None,
    }
}

/// The row and column positions of `id` and `name`, or which of them is unknown.
pub open spec fn resolve(n: NamedTableView, id: i32, name: Seq<char>) -> Result<(int, int), Error> {
    match row_of(n.ids, id) {
        None => Err(Error::RowNotFound),
        Some(r) => match column_of(n.columns, name) {
            None => Err(Error::ColumnNotFound),
            Some(c) => Ok((r as int, c)),
        },
    }
}

/// What `NamedTable::value` reads.
pub open spec fn named_value_spec<T: FromValue>(n: NamedTableView, id: i32, name: Seq<char>) -> Result<
    T::V,
    Error,
> {
    match resolve(n, id, name) {
        Err(e) => Err(e),
        Ok((r, c)) => value_spec::<T>(n.table, r, c),
    }
}

/// What `NamedTable::vector` reads.
pub open spec fn named_vector_spec<T: FromValue>(
    n: NamedTableView,
    id: i32,
    name: Seq<char>,
    sep: Seq<char>,
) -> Result<Seq<T::V>, Error> {
    match resolve(n, id, name) {
        Err(e) => Err(e),
        Ok((r, c)) => vector_spec::<T>(n.table, r, c, sep),
    }
}

/// What `NamedTable::array` reads: a list of exactly `len` items.
pub open spec fn named_array_spec<T: FromValue>(
    n: NamedTableView,
    id: i32,
    name: Seq<char>,
    sep: Seq<char>,
    len: int,
) -> Result<Seq<T::V>, Error> {
    match named_vector_spec::<T>(n, id, name, sep) {
        Err(e) => Err(e),
        Ok(xs) => if xs.len() == len {
            Ok(xs)
        } else {
            Err(Error::MismatchedLength)
        },
    }
}

/// What `NamedTable::map` reads.
pub open spec fn named_map_spec<K: FromValue, V: FromValue>(
    n: NamedTableView,
    id: i32,
    name: Seq<char>,
    pair_sep: Seq<char>,
    kv_sep: Seq<char>,
) -> Result<Seq<(K::V, V::V)>, Error> {
    match resolve(n, id, name) {
        Err(e) => Err(e),
        Ok((r, c)) => map_spec::<K, V>(n.table, r, c, pair_sep, kv_sep),
    }
}

/// A found column lies among the columns.
pub proof fn lemma_column_of_bounds(columns: Seq<Seq<char>>, name: Seq<char>)
    ensures
        column_of(columns, name) matches Some(c) ==> 0 <= c < columns.len(),
    decreases columns.len(),
{
    if columns.len() > 0 {
        lemma_column_of_bounds(columns.drop_last(), name);
    }
}

/// The position of the last column named `name`.
fn find_column(columns: &Vec<String>, name: &str) -> (r: Option<usize>)
    ensures
        match r {
            Some(c) => column_of(strings_view(columns@), name@) == Some(c as int),
            None => column_of(strings_view(columns@), name@) is None,
        },
{
    proof {
        lemma_column_of_bounds(strings_view(columns@), name@);
    }
    let wanted = name.to_owned();
    let mut j: usize = columns.len();
    let ghost cols = strings_view(columns@);
    assert(cols.take(j as int) =~= cols);
    while j > 0
        invariant
            0 <= j <= columns@.len(),
            cols == strings_view(columns@),
            column_of(cols, name@) == column_of(cols.take(j as int), name@),
            wanted@ == name@,
        decreases j,
    {
        assert(cols.take(j as int).drop_last() =~= cols.take(j - 1));
        assert(cols.take(j as int).last() == columns@[j - 1]@);
        if columns[j - 1] == wanted {
            return Some(j - 1);
        }
        j -= 1;
    }
    assert(cols.take(0) =~= Seq::<Seq<char>>::empty());
    None
}

impl NamedTable {
    /// Pairs `table` with its definition. Fails with `ColumnNotFound` when a row does not
    /// start with an `i32` id.
    pub fn from_definition(table: Table, def: &TableDefinition) -> (r: Result<NamedTable, Error>)
        ensures
            rows_have_ids(table@.rows) ==> (r matches Ok(n) && n@ == (NamedTableView {
                name: def.name@,
                ids: id_index(table@.rows),
                columns: strings_view(def.columns@),
                table: table@,
            })),
            !rows_have_ids(table@.rows) ==> r == Err::<NamedTable, Error>(Error::ColumnNotFound),
    {
        let mut ids = index_new();
        let ghost rows = table@.rows;
        let mut i: usize = 0;
        assert(rows.take(0) =~= Seq::<Seq<ValueView>>::empty());
        while i < table.rows.len()
            invariant
                0 <= i <= rows.len(),
                rows == table@.rows,
                rows_have_ids(rows.take(i as int)),
                id_entries(ids) == id_index(rows.take(i as int)),
            decreases rows.len() - i,
        {
            let row = &table.rows[i];
            assert(row_view(*row) == rows[i as int]);
            if row.len() == 0 {
                return Err(Error::ColumnNotFound);
            }
            let id = match &row[0] {
                Value::I32(id) => *id,
                _ => return Err(Error::ColumnNotFound),
            };
            index_insert(&mut ids, id, i);
            assert(rows.take(i + 1).drop_last() =~= rows.take(i as int));
            assert(rows_have_ids(rows.take(i + 1))) by {
                assert forall|k: int| 0 <= k < i + 1 implies (#[trigger] rows.take(i + 1)[k]).len()
                    > 0 && rows.take(i + 1)[k][0] is I32 by {
                    if k < i {
                        assert(rows.take(i + 1)[k] == rows.take(i as int)[k]);
                    }
                }
            }
            i += 1;
        }
        assert(rows.take(rows.len() as int) =~= rows);
        Ok(NamedTable { name: def.name.clone(), id_to_index: ids, columns: def.columns.clone(), table })
    }

    /// The column names of the definition, in column order.
    pub fn columns(&self) -> (r: &Vec<String>)
        ensures
            strings_view(r@) == self@.columns,
    {
        &self.columns
    }

    /// The row ids, in the order of their first row.
    pub fn row_ids(&self) -> (r: Vec<i32>)
        ensures
            r@ == self@.ids.map_values(|e: (i32, usize)| e.0),
    {
        index_keys(&self.id_to_index)
    }

    fn locate(&self, row_id: i32, column_name: &str) -> (r: Result<(usize, usize), Error>)
        ensures
            match r {
                Ok((row, col)) => resolve(self@, row_id, column_name@) == Ok::<(int, int), Error>(
                    (row as int, col as int),
                ),
                Err(e) => resolve(self@, row_id, column_name@) == Err::<(int, int), Error>(e),
            },
    {
        let row = match index_get(&self.id_to_index, row_id) {
            Some(row) => row,
            None => return Err(Error::RowNotFound),
        };
        proof {
            lemma_column_of_bounds(strings_view(self.columns@), column_name@);
        }
        assert(self@.columns == strings_view(self.columns@));
        assert(self@.ids == id_entries(self.id_to_index));
        assert(row_of(self@.ids, row_id) == Some(row));
        match find_column(&self.columns, column_name) {
            Some(col) => Ok((row, col)),
            None => Err(Error::ColumnNotFound),
        }
    }

    /// The cell of row `row_id` in column `column_name`, converted to `T`.
    pub fn value<T: FromValue>(&self, row_id: i32, column_name: &str) -> (r: Result<T, Error>)
        ensures
            view_result(r) == named_value_spec::<T>(self@, row_id, column_name@),
    {
        let (row, col) = self.locate(row_id, column_name)?;
        self.table.value(row, col)
    }

    /// The string cell of row `row_id` in column `column_name` read as a list.
    pub fn vector<T: FromValue>(&self, row_id: i32, column_name: &str, separator: &str) -> (r:
        Result<Vec<T>, Error>)
        ensures
            match named_vector_spec::<T>(self@, row_id, column_name@, separator@) {
                Ok(xs) => r matches Ok(v) && v@.map_values(|x: T| x@) == xs,
                Err(e) => r == Err::<Vec<T>, Error>(e),
            },
    {
        let (row, col) = self.locate(row_id, column_name)?;
        self.table.vector(row, col, separator)
    }

    /// Like `vector`, but fails with `MismatchedLength` unless the list has `length` items.
    pub fn array<T: FromValue>(
        &self,
        row_id: i32,
        column_name: &str,
        separator: &str,
        length: usize,
    ) -> (r: Result<Vec<T>, Error>)
        ensures
            match named_array_spec::<T>(self@, row_id, column_name@, separator@, length as int) {
                Ok(xs) => r matches Ok(v) && v@.map_values(|x: T| x@) == xs,
                Err(e) => r == Err::<Vec<T>, Error>(e),
            },
    {
        let ret = self.vector(row_id, column_name, separator)?;
        if ret.len() != length {
            Err(Error::MismatchedLength)
        } else {
            Ok(ret)
        }
    }

    /// The string cell of row `row_id` in column `column_name` read as a map.
    pub fn map<K: FromValue, V: FromValue>(
        &self,
        row_id: i32,
        column_name: &str,
        pair_separator: &str,
        kv_separator: &str,
    ) -> (r: Result<Vec<(K, V)>, Error>)
        ensures
            match named_map_spec::<K, V>(
                self@,
                row_id,
                column_name@,
                pair_separator@,
                kv_separator@,
            ) {
                Ok(m) => r matches Ok(v) && entries_view(v@) == m,
                Err(e) => r == Err::<Vec<(K, V)>, Error>(e),
            },
    {
        let (row, col) = self.locate(row_id, column_name)?;
        self.table.map(row, col, pair_separator, kv_separator)
    }
}

/// A found key is at its position.
pub proof fn lemma_find_key_found<A, B>(m: Seq<(A, B)>, k: A)
    ensures
        find_key(m, k) matches Some(i) ==> 0 <= i < m.len() && m[i].0 == k,
    decreases m.len(),
{
    if m.len() > 0 {
        lemma_find_key_found(m.drop_last(), k);
    }
}

/// Rebinding a key in place moves no key.
pub proof fn lemma_find_key_update<A, B>(m: Seq<(A, B)>, i: int, k: A, v: B, key: A)
    requires
        0 <= i < m.len(),
        m[i].0 == k,
    ensures
        find_key(m.update(i, (k, v)), key) == find_key(m, key),
    decreases m.len(),
{
    let u = m.update(i, (k, v));
    if i == m.len() - 1 {
        assert(u.drop_last() =~= m.drop_last());
    } else {
        assert(u.drop_last() =~= m.drop_last().update(i, (k, v)));
        lemma_find_key_update(m.drop_last(), i, k, v, key);
    }
}

/// After `put`, `k` gives `v` and every other key what it gave before.
pub proof fn lemma_row_of_put(m: Seq<(i32, usize)>, k: i32, v: usize, id: i32)
    ensures
        row_of(put(m, k, v), id) == (if k == id {
            Some(v)
        } else {
            row_of(m, id)
        }),
{
    lemma_find_key_found(m, k);
    lemma_find_key_found(m, id);
    match find_key(m, k) {
        Some(i) => {
            lemma_find_key_update(m, i, k, v, id);
            if k == id {
                assert(find_key(m, id) == Some(i));
            }
        },
        None => {
            assert(m.push((k, v)).drop_last() =~= m);
        },
    }
}

/// In the index of a table's rows, an id resolves to the last row that holds it; an id that
/// no row holds does not resolve.
pub proof fn lemma_id_index(rows: Seq<Seq<ValueView>>, id: i32)
    requires
        rows_have_ids(rows),
        rows.len() <= usize::MAX,
    ensures
        match row_of(id_index(rows), id) {
            Some(r) => {
                &&& 0 <= r < rows.len()
                &&& rows[r as int][0] == ValueView::I32(id)
                &&& forall|k: int| r < k < rows.len() ==> (#[trigger] rows[k])[0] != ValueView::I32(id)
            },
            None => forall|k: int| 0 <= k < rows.len() ==> (#[trigger] rows[k])[0] != ValueView::I32(id),
        },
    decreases rows.len(),
{
    if rows.len() > 0 {
        let pre = rows.drop_last();
        let last = (rows.len() - 1) as int;
        assert(rows_have_ids(pre)) by {
            assert forall|i: int| 0 <= i < pre.len() implies (#[trigger] pre[i]).len() > 0
                && pre[i][0] is I32 by {
                assert(pre[i] == rows[i]);
            }
        }
        lemma_id_index(pre, id);
        lemma_row_of_put(id_index(pre), rows.last()[0]->I32_0, (rows.len() - 1) as usize, id);
        assert(rows[last] == rows.last());
        assert forall|k: int| 0 <= k < pre.len() implies #[trigger] rows[k] == pre[k] by {}
        if rows.last()[0]->I32_0 == id {
            assert(row_of(id_index(rows), id) == Some(last as usize));
        } else {
            assert(rows[last][0] != ValueView::I32(id));
            assert(row_of(id_index(rows), id) == row_of(id_index(pre), id));
        }
    }
}

/// Name-keyed reads agree with positional reads at the row and column that the id and the
/// name resolve to.
pub proof fn lemma_named_agrees_with_positional<T: FromValue, K: FromValue, V: FromValue>(
    n: NamedTableView,
    id: i32,
    name: Seq<char>,
    sep: Seq<char>,
    pair_sep: Seq<char>,
    kv_sep: Seq<char>,
)
    requires
        resolve(n, id, name) is Ok,
    ensures
        ({
            let (r, c) = resolve(n, id, name)->Ok_0;
            &&& named_value_spec::<T>(n, id, name) == value_spec::<T>(n.table, r, c)
            &&& named_vector_spec::<T>(n, id, name, sep) == vector_spec::<T>(n.table, r, c, sep)
            &&& named_map_spec::<K, V>(n, id, name, pair_sep, kv_sep) == map_spec::<K, V>(
                n.table,
                r,
                c,
                pair_sep,
                kv_sep,
            )
        }),
{
}

} // verus!
