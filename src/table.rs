//! A table of rows and its binary container format.
use crate::bytes::{le_bytes, read_u16_at, read_u32_at, u16_le, u32_le};
use crate::error::{Error, IoError};
use crate::value::{encode_value, field, tag_of, twos, decode_value, Value, ValueView};
use vstd::arithmetic::div_mod::{lemma_add_mod_noop, lemma_small_mod};
use vstd::prelude::*;
use vstd::slice::slice_subrange;

verus! {

pub type Row = Vec<Value>;

/// A table: its id and its rows, the first cell of each row being the row id.
#[derive(Debug, Clone)]
pub struct Table {
    pub id: u16,
    pub rows: Vec<Row>,
}

/// The mathematical content of a [`Table`].
pub struct TableView {
    pub id: u16,
    pub rows: Seq<Seq<ValueView>>,
}

pub open spec fn row_view(r: Row) -> Seq<ValueView> {
    r@.map_values(|v: Value| v@)
}

impl View for Table {
    type V = TableView;

    open spec fn view(&self) -> TableView {
        TableView { id: self.id, rows: self.rows@.map_values(|r: Row| row_view(r)) }
    }
}

/// The type tags of a row.
pub open spec fn tags_of(row: Seq<ValueView>) -> Seq<u8> {
    row.map_values(|v: ValueView| tag_of(v))
}

/// The error with which `add_row` turns `row` away from `t`, if any.
pub open spec fn add_row_error(t: TableView, row: Seq<ValueView>) -> Option<Error> {
    if t.rows.len() >= 65535 {
        Some(Error::TooManyRows)
    } else if row.len() > 255 {
        Some(Error::TooManyColumns)
    } else if row.len() == 0 || !(row[0] is I32) {
        Some(Error::InvalidRowID)
    } else if t.rows.len() > 0 && t.rows[0].len() != row.len() {
        Some(Error::InconsistentRowLength)
    } else {
        None
    }
}

/// A table that the format can hold: at most 65 535 rows, each of 1 to 255 cells with an
/// `i32` first, all of the first row's types, and no string over 65 535 bytes.
pub open spec fn table_valid(t: TableView) -> bool {
    &&& t.rows.len() <= 65535
    &&& forall|i: int|
        0 <= i < t.rows.len() ==> {
            &&& 1 <= #[trigger] t.rows[i].len() <= 255
            &&& t.rows[i][0] is I32
            &&& tags_of(t.rows[i]) == tags_of(t.rows[0])
        }
    &&& forall|i: int, j: int|
        0 <= i < t.rows.len() && 0 <= j < t.rows[i].len() ==> encode_value(
            #[trigger] t.rows[i][j],
        ) is Ok
}

/// The bytes of a row's cells, one after another, or the first cell's reason for having none.
pub open spec fn encode_cells(row: Seq<ValueView>) -> Result<Seq<u8>, Error>
    decreases row.len(),
{
    if row.len() == 0 {
        Ok(Seq::empty())
    } else {
        match encode_cells(row.drop_last()) {
            Err(e) => Err(e),
            Ok(p) => match encode_value(row.last()) {
                Err(e) => Err(e),
                Ok(b) => Ok(p + b),
            },
        }
    }
}

/// The jump-table entry that row `i`, starting at file offset `pos`, contributes: one for
/// every hundredth row, holding its id and offset.
pub open spec fn row_mark(row: Seq<ValueView>, i: int, pos: int) -> Result<Seq<(i32, u32)>, Error> {
    if i % 100 != 0 {
        Ok(Seq::empty())
    } else if row.len() == 0 || !(row[0] is I32) {
        Err(Error::InvalidRowID)
    } else if pos > u32::MAX {
        Err(Error::BookmarkOutOfBounds)
    } else {
        Ok(seq![(row[0]->I32_0, pos as u32)])
    }
}

/// The row payload of a file whose rows start at offset `base`, with the jump-table entries
/// collected on the way.
pub open spec fn encode_payload(rows: Seq<Seq<ValueView>>, base: int) -> Result<
    (Seq<u8>, Seq<(i32, u32)>),
    Error,
>
    decreases rows.len(),
{
    if rows.len() == 0 {
        Ok((Seq::empty(), Seq::empty()))
    } else {
        match encode_payload(rows.drop_last(), base) {
            Err(e) => Err(e),
            Ok((p, marks)) => match row_mark(rows.last(), rows.len() - 1, base + p.len()) {
                Err(e) => Err(e),
                Ok(m) => match encode_cells(rows.last()) {
                    Err(e) => Err(e),
                    Ok(c) => Ok((p + c, marks + m)),
                },
            },
        }
    }
}

/// Jump-table slot `k`: the collected entry, or zeros where none was collected.
pub open spec fn jump_entry(marks: Seq<(i32, u32)>, k: int) -> Seq<u8> {
    if k < marks.len() {
        le_bytes(twos(marks[k].0 as int, 4), 4) + le_bytes(marks[k].1 as nat, 4)
    } else {
        le_bytes(0, 4) + le_bytes(0, 4)
    }
}

/// The first `count` jump-table slots.
pub open spec fn jump_bytes(marks: Seq<(i32, u32)>, count: nat) -> Seq<u8>
    decreases count,
{
    if count == 0 {
        Seq::empty()
    } else {
        jump_bytes(marks, (count - 1) as nat) + jump_entry(marks, count - 1)
    }
}

/// The number of jump-table slots of a table of `n` rows.
pub open spec fn jump_count(n: nat) -> nat {
    1 + n / 100
}

/// The offset of the first row of a non-empty table of `c` columns and `n` rows.
pub open spec fn rows_start(c: nat, n: nat) -> nat {
    7 + c + 8 * jump_count(n)
}

/// The last-block-size field of a file that ends at `end`.
pub open spec fn last_block_size(end: int) -> int {
    (end - 4) % 65536
}

/// The file that encodes `t`, or why there is none.
pub open spec fn encode_table(t: TableView) -> Result<Seq<u8>, Error> {
    let n = t.rows.len();
    if n > 65535 {
        Err(Error::TooManyRows)
    } else if n == 0 {
        Ok(le_bytes(t.id as nat, 2) + le_bytes(2, 2) + le_bytes(0, 2))
    } else if t.rows[0].len() > 255 {
        Err(Error::TooManyColumns)
    } else {
        let c = t.rows[0].len();
        let base = rows_start(c, n);
        match encode_payload(t.rows, base as int) {
            Err(e) => Err(e),
            Ok((p, marks)) => Ok(
                le_bytes(t.id as nat, 2) + le_bytes(last_block_size((base + p.len()) as int) as nat, 2)
                    + le_bytes(n, 2) + seq![c as u8] + tags_of(t.rows[0]) + jump_bytes(
                    marks,
                    jump_count(n),
                ) + p,
            ),
        }
    }
}

/// Once a row's encoding fails, the failure is that of the whole row.
pub proof fn lemma_cells_err_stays(row: Seq<ValueView>, k: int)
    requires
        0 <= k <= row.len(),
        encode_cells(row.take(k)) is Err,
    ensures
        encode_cells(row) == encode_cells(row.take(k)),
    decreases row.len() - k,
{
    if k < row.len() {
        let next = row.take(k + 1);
        assert(next.drop_last() =~= row.take(k));
        lemma_cells_err_stays(row, k + 1);
    } else {
        assert(row.take(k) =~= row);
    }
}

/// Once the payload's encoding fails, the failure is that of the whole payload.
pub proof fn lemma_payload_err_stays(rows: Seq<Seq<ValueView>>, base: int, k: int)
    requires
        0 <= k <= rows.len(),
        encode_payload(rows.take(k), base) is Err,
    ensures
        encode_payload(rows, base) == encode_payload(rows.take(k), base),
    decreases rows.len() - k,
{
    if k < rows.len() {
        let next = rows.take(k + 1);
        assert(next.drop_last() =~= rows.take(k));
        lemma_payload_err_stays(rows, base, k + 1);
    } else {
        assert(rows.take(k) =~= rows);
    }
}

/// Reading one row whose column types are `tags`, starting at `pos`: the cells and the
/// position after them.
pub open spec fn decode_row(b: Seq<u8>, pos: int, tags: Seq<u8>) -> Result<
    (Seq<ValueView>, int),
    Error,
>
    decreases tags.len(),
{
    if tags.len() == 0 {
        Ok((Seq::empty(), pos))
    } else {
        match decode_row(b, pos, tags.drop_last()) {
            Err(e) => Err(e),
            Ok((cells, p)) => match decode_value(b, p, tags.last()) {
                Err(e) => Err(e),
                Ok((v, q)) => Ok((cells.push(v), q)),
            },
        }
    }
}

/// Reading `n` rows one after another, starting at `pos`.
pub open spec fn decode_rows(b: Seq<u8>, pos: int, tags: Seq<u8>, n: nat) -> Result<
    (Seq<Seq<ValueView>>, int),
    Error,
>
    decreases n,
{
    if n == 0 {
        Ok((Seq::empty(), pos))
    } else {
        match decode_rows(b, pos, tags, (n - 1) as nat) {
            Err(e) => Err(e),
            Ok((rows, p)) => match decode_row(b, p, tags) {
                Err(e) => Err(e),
                Ok((r, q)) => Ok((rows.push(r), q)),
            },
        }
    }
}

/// The table that the file `b` holds, or why it holds none. Only the first jump-table entry
/// is read: it gives the offset of the first row.
pub open spec fn decode_table(b: Seq<u8>) -> Result<TableView, Error> {
    if b.len() < 6 {
        Err(Error::Io(IoError::UnexpectedEof))
    } else {
        let id = field(b, 0, 2) as u16;
        let lbs = field(b, 2, 2) as int;
        let n = field(b, 4, 2);
        if n == 0 {
            Ok(TableView { id, rows: Seq::empty() })
        } else if b.len() < 7 || b.len() < 7 + b[6] + 8 {
            Err(Error::Io(IoError::UnexpectedEof))
        } else {
            let c = b[6] as int;
            let tags = b.subrange(7, 7 + c);
            let start = field(b, 7 + c + 4, 4) as int;
            match decode_rows(b, start, tags, n) {
                Err(e) => Err(e),
                Ok((rows, end)) => if lbs == last_block_size(end) {
                    Ok(TableView { id, rows })
                } else {
                    Err(Error::LastBlockSizeMismatch)
                },
            }
        }
    }
}

/// Once reading a row fails, the failure is that of the whole row.
pub proof fn lemma_row_err_stays(b: Seq<u8>, pos: int, tags: Seq<u8>, k: int)
    requires
        0 <= k <= tags.len(),
        decode_row(b, pos, tags.take(k)) is Err,
    ensures
        decode_row(b, pos, tags) == decode_row(b, pos, tags.take(k)),
    decreases tags.len() - k,
{
    if k < tags.len() {
        assert(tags.take(k + 1).drop_last() =~= tags.take(k));
        lemma_row_err_stays(b, pos, tags, k + 1);
    } else {
        assert(tags.take(k) =~= tags);
    }
}

/// Once reading the rows fails, the failure is that of all of them.
pub proof fn lemma_rows_err_stays(b: Seq<u8>, pos: int, tags: Seq<u8>, n: nat, k: nat)
    requires
        k <= n,
        decode_rows(b, pos, tags, k) is Err,
    ensures
        decode_rows(b, pos, tags, n) == decode_rows(b, pos, tags, k),
    decreases n - k,
{
    if k < n {
        lemma_rows_err_stays(b, pos, tags, n, k + 1);
    }
}

/// The two's complement bits of an `i32`.
fn i32_bits(v: i32) -> (r: u32)
    ensures
        r as nat == twos(v as int, 4),
{
    proof {
        reveal_with_fuel(crate::bytes::pow256, 5);
    }
    if v >= 0 {
        v as u32
    } else {
        (v as i64 + 0x1_0000_0000) as u32
    }
}

impl Table {
    /// An empty table with the given id.
    pub fn new(id: u16) -> (r: Table)
        ensures
            r@ == (TableView { id, rows: Seq::empty() }),
    {
        let r = Table { id, rows: Vec::new() };
        assert(r@.rows =~= Seq::<Seq<ValueView>>::empty());
        r
    }

    /// Appends a row, or says which of the table's limits it breaks.
    pub fn add_row(&mut self, row: Vec<Value>) -> (r: Result<(), Error>)
        ensures
            match add_row_error(old(self)@, row_view(row)) {
                Some(e) => r == Err::<(), Error>(e) && final(self)@ == old(self)@,
                None => r is Ok && final(self)@ == (TableView {
                    id: old(self)@.id,
                    rows: old(self)@.rows.push(row_view(row)),
                }),
            },
    {
        if self.rows.len() >= 65535 {
            return Err(Error::TooManyRows);
        }
        if row.len() > 255 {
            return Err(Error::TooManyColumns);
        }
        if row.len() == 0 {
            return Err(Error::InvalidRowID);
        }
        match &row[0] {
            Value::I32(_) => {},
            _ => return Err(Error::InvalidRowID),
        }
        if self.rows.len() > 0 && self.rows[0].len() != row.len() {
            return Err(Error::InconsistentRowLength);
        }
        self.rows.push(row);
        assert(self@.rows =~= old(self)@.rows.push(row_view(row)));
        Ok(())
    }

    /// The container file that holds the table: header, column types, jump table and rows.
    pub fn serialize(&self) -> (r: Result<Vec<u8>, Error>)
        ensures
            match encode_table(self@) {
                Ok(b) => r matches Ok(x) && x@ == b,
                Err(e) => r == Err::<Vec<u8>, Error>(e),
            },
    {
        let n = self.rows.len();
        if n > 65535 {
            return Err(Error::TooManyRows);
        }
        let mut out = u16_le(self.id);
        if n == 0 {
            let mut lbs = u16_le(2);
            out.append(&mut lbs);
            let mut count = u16_le(0);
            out.append(&mut count);
            return Ok(out);
        }
        let first = &self.rows[0];
        let c = first.len();
        if c > 255 {
            return Err(Error::TooManyColumns);
        }
        let jumps: usize = 1 + n / 100;
        let base: usize = 7 + c + 8 * jumps;
        let ghost rows = self@.rows;
        let mut payload: Vec<u8> = Vec::new();
        let mut marks: Vec<(i32, u32)> = Vec::new();
        let mut i: usize = 0;
        assert(rows.take(0) =~= Seq::<Seq<ValueView>>::empty());
        while i < n
            invariant
                0 <= i <= n,
                n == self.rows.len(),
                n == rows.len(),
                rows == self@.rows,
                c == rows[0].len(),
                c <= 255,
                n <= 65535,
                jumps == jump_count(n as nat),
                base == rows_start(c as nat, n as nat),
                encode_payload(rows.take(i as int), base as int) == Ok::<
                    (Seq<u8>, Seq<(i32, u32)>),
                    Error,
                >((payload@, marks@)),
            decreases n - i,
        {
            let row = &self.rows[i];
            let ghost rv = row_view(*row);
            let ghost p_before = payload@;
            let ghost m_before = marks@;
            assert(rows.take(i + 1).drop_last() =~= rows.take(i as int));
            assert(rows.take(i + 1).last() == rv);
            let ghost mut m_row: Seq<(i32, u32)> = Seq::empty();
            if i % 100 == 0 {
                if row.len() == 0 {
                    proof {
                        lemma_payload_err_stays(rows, base as int, i + 1);
                    }
                    return Err(Error::InvalidRowID);
                }
                match &row[0] {
                    Value::I32(id) => {
                        if payload.len() > 0xFFFF_FFFF - base {
                            proof {
                                lemma_payload_err_stays(rows, base as int, i + 1);
                            }
                            return Err(Error::BookmarkOutOfBounds);
                        }
                        marks.push((*id, (base + payload.len()) as u32));
                        proof {
                            m_row = seq![(*id, (base + p_before.len()) as u32)];
                        }
                    },
                    _ => {
                        proof {
                            lemma_payload_err_stays(rows, base as int, i + 1);
                        }
                        return Err(Error::InvalidRowID);
                    },
                }
            }
            assert(row_mark(rv, i as int, base + p_before.len()) == Ok::<Seq<(i32, u32)>, Error>(
                m_row,
            ));
            assert(marks@ =~= m_before + m_row);
            let mut j: usize = 0;
            assert(rv.take(0) =~= Seq::<ValueView>::empty());
            while j < row.len()
                invariant
                    0 <= j <= row.len(),
                    0 <= i < n,
                    n == rows.len(),
                    n == self.rows.len(),
                    rows == self@.rows,
                    c == rows[0].len(),
                    c <= 255,
                    n <= 65535,
                    base == rows_start(c as nat, n as nat),
                    rv == row_view(*row),
                    rows[i as int] == rv,
                    rows.take(i + 1).drop_last() == rows.take(i as int),
                    rows.take(i + 1).last() == rv,
                    encode_payload(rows.take(i as int), base as int) == Ok::<
                        (Seq<u8>, Seq<(i32, u32)>),
                        Error,
                    >((p_before, m_before)),
                    row_mark(rv, i as int, base + p_before.len()) == Ok::<Seq<(i32, u32)>, Error>(
                        m_row,
                    ),
                    marks@ == m_before + m_row,
                    encode_cells(rv.take(j as int)) matches Ok(cb) && payload@ == p_before + cb,
                decreases row.len() - j,
            {
                assert(rv.take(j + 1).drop_last() =~= rv.take(j as int));
                assert(rv.take(j + 1).last() == row[j as int]@);
                match row[j].serialize(&mut payload) {
                    Ok(()) => {},
                    Err(e) => {
                        proof {
                            assert(encode_cells(rv.take(j + 1)) == Err::<Seq<u8>, Error>(e));
                            lemma_cells_err_stays(rv, j + 1);
                            assert(encode_cells(rv) == Err::<Seq<u8>, Error>(e));
                            assert(encode_payload(rows.take(i + 1), base as int) == Err::<
                                (Seq<u8>, Seq<(i32, u32)>),
                                Error,
                            >(e));
                            lemma_payload_err_stays(rows, base as int, i + 1);
                        }
                        return Err(e);
                    },
                }
                assert(payload@ =~= p_before + encode_cells(rv.take(j + 1))->Ok_0);
                j += 1;
            }
            assert(rv.take(row.len() as int) =~= rv);
            i += 1;
        }
        assert(rows.take(n as int) =~= rows);
        let lbs: u16 = ((payload.len() % 65536 + base - 4) % 65536) as u16;
        proof {
            lemma_add_mod_noop(payload@.len() as int, base - 4, 65536);
            lemma_small_mod((base - 4) as nat, 65536);
        }
        let mut lbs_bytes = u16_le(lbs);
        out.append(&mut lbs_bytes);
        let mut count = u16_le(n as u16);
        out.append(&mut count);
        out.push(c as u8);
        let mut j: usize = 0;
        let ghost tags = tags_of(rows[0]);
        let ghost head = out@;
        while j < c
            invariant
                0 <= j <= c,
                c == first@.len(),
                rows.len() > 0,
                tags == tags_of(rows[0]),
                rows[0] == row_view(*first),
                out@ == head + tags.take(j as int),
            decreases c - j,
        {
            out.push(first[j].type_as_u8());
            assert(out@ =~= head + tags.take(j + 1));
            j += 1;
        }
        assert(tags.take(c as int) =~= tags);
        let mut k: usize = 0;
        let ghost head = out@;
        while k < jumps
            invariant
                0 <= k <= jumps,
                jumps <= 656,
                out@ == head + jump_bytes(marks@, k as nat),
            decreases jumps - k,
        {
            let mut entry = if k < marks.len() {
                let mut e = u32_le(i32_bits(marks[k].0));
                let mut off = u32_le(marks[k].1);
                e.append(&mut off);
                e
            } else {
                let mut e = u32_le(0);
                let mut off = u32_le(0);
                e.append(&mut off);
                e
            };
            assert(entry@ == jump_entry(marks@, k as int));
            out.append(&mut entry);
            assert(out@ =~= head + jump_bytes(marks@, (k + 1) as nat));
            k += 1;
        }
        out.append(&mut payload);
        Ok(out)
    }

    /// Reads the table that the container file `b` holds.
    pub fn deserialize(b: &[u8]) -> (r: Result<Table, Error>)
        ensures
            match decode_table(b@) {
                Ok(t) => r matches Ok(x) && x@ == t,
                Err(e) => r == Err::<Table, Error>(e),
            },
    {
        if b.len() < 6 {
            return Err(Error::Io(IoError::UnexpectedEof));
        }
        let id = read_u16_at(b, 0);
        let lbs = read_u16_at(b, 2);
        let n = read_u16_at(b, 4);
        let mut table = Table::new(id);
        if n == 0 {
            return Ok(table);
        }
        if b.len() < 7 || b.len() - 7 < b[6] as usize + 8 {
            return Err(Error::Io(IoError::UnexpectedEof));
        }
        let c = b[6] as usize;
        let tags = slice_subrange(b, 7, 7 + c);
        let start = read_u32_at(b, 7 + c + 4) as usize;
        let mut pos: usize = start;
        let mut i: u16 = 0;
        while i < n
            invariant
                0 <= i <= n,
                b@.len() >= 7 + c + 8,
                c == b@[6],
                id == field(b@, 0, 2) as u16,
                lbs == field(b@, 2, 2),
                n == field(b@, 4, 2),
                start == field(b@, 7 + c + 4, 4),
                tags@ == b@.subrange(7, 7 + c as int),
                tags@.len() == c,
                table.id == id,
                decode_rows(b@, start as int, tags@, i as nat) == Ok::<
                    (Seq<Seq<ValueView>>, int),
                    Error,
                >((table@.rows, pos as int)),
            decreases n - i,
        {
            let mut row: Vec<Value> = Vec::new();
            let ghost p_before = pos;
            let mut j: usize = 0;
            assert(tags@.take(0) =~= Seq::<u8>::empty());
            assert(row_view(row) =~= Seq::<ValueView>::empty());
            while j < c
                invariant
                    0 <= j <= c,
                    0 <= i < n,
                    b@.len() >= 7 + c + 8,
                    c == b@[6],
                    id == field(b@, 0, 2) as u16,
                    lbs == field(b@, 2, 2),
                    n == field(b@, 4, 2),
                    start == field(b@, 7 + c + 4, 4),
                    tags@ == b@.subrange(7, 7 + c as int),
                    tags@.len() == c,
                    table.id == id,
                    decode_rows(b@, start as int, tags@, i as nat) == Ok::<
                        (Seq<Seq<ValueView>>, int),
                        Error,
                    >((table@.rows, p_before as int)),
                    decode_row(b@, p_before as int, tags@.take(j as int)) == Ok::<
                        (Seq<ValueView>, int),
                        Error,
                    >((row_view(row), pos as int)),
                decreases c - j,
            {
                assert(tags@.take(j + 1).drop_last() =~= tags@.take(j as int));
                match Value::read(tags[j], b, pos) {
                    Ok((v, next)) => {
                        row.push(v);
                        pos = next;
                        assert(row_view(row) =~= decode_row(
                            b@,
                            p_before as int,
                            tags@.take(j + 1),
                        )->Ok_0.0);
                    },
                    Err(e) => {
                        proof {
                            assert(decode_row(b@, p_before as int, tags@.take(j + 1)) == Err::<
                                (Seq<ValueView>, int),
                                Error,
                            >(e));
                            lemma_row_err_stays(b@, p_before as int, tags@, j + 1);
                            assert(tags@.take(c as int) =~= tags@);
                            assert(decode_rows(b@, start as int, tags@, (i + 1) as nat) == Err::<
                                (Seq<Seq<ValueView>>, int),
                                Error,
                            >(e));
                            lemma_rows_err_stays(b@, start as int, tags@, n as nat, (i + 1) as nat);
                        }
                        return Err(e);
                    },
                }
                j += 1;
            }
            assert(tags@.take(c as int) =~= tags@);
            let ghost before = table@.rows;
            table.rows.push(row);
            assert(table@.rows =~= before.push(row_view(row)));
            i += 1;
        }
        let end_mod = pos % 65536;
        let expected: u16 = ((end_mod + 65532) % 65536) as u16;
        proof {
            lemma_add_mod_noop(pos as int, 65532, 65536);
            lemma_small_mod(65532, 65536);
            assert((pos as int + 65532) % 65536 == (pos as int - 4) % 65536) by {
                vstd::arithmetic::div_mod::lemma_mod_add_multiples_vanish(pos as int - 4, 65536);
            }
        }
        if lbs != expected {
            return Err(Error::LastBlockSizeMismatch);
        }
        Ok(table)
    }
}

} // verus!