//! What holds of the container format across encoding and decoding.
use crate::bytes::{le_bytes, le_value, lemma_le_bytes_len, lemma_le_round_trip, pow256};
use crate::error::Error;
use crate::table::{
    decode_row, decode_rows, decode_table, encode_cells, encode_payload, encode_table,
    jump_bytes, jump_count, jump_entry, last_block_size, row_mark, rows_start, table_valid,
    tags_of, TableView,
};
use crate::value::{
    decode_value, encode_value, field, lemma_value_round_trip, tag_of, twos, ValueView,
};
use vstd::prelude::*;

verus! {

/// A row's cells read back from their encoding give the row.
pub proof fn lemma_row_round_trip(b: Seq<u8>, q: int, row: Seq<ValueView>)
    requires
        encode_cells(row) is Ok,
        0 <= q,
        q + encode_cells(row)->Ok_0.len() <= b.len(),
        b.subrange(q, q + encode_cells(row)->Ok_0.len()) == encode_cells(row)->Ok_0,
    ensures
        decode_row(b, q, tags_of(row)) == Ok::<(Seq<ValueView>, int), Error>(
            (row, q + encode_cells(row)->Ok_0.len()),
        ),
    decreases row.len(),
{
    let cb = encode_cells(row)->Ok_0;
    if row.len() == 0 {
        assert(tags_of(row) =~= Seq::<u8>::empty());
        assert(row =~= Seq::<ValueView>::empty());
    } else {
        let pre = row.drop_last();
        let cp = encode_cells(pre)->Ok_0;
        let ev = encode_value(row.last())->Ok_0;
        assert(cb == cp + ev);
        assert(b.subrange(q, q + cp.len()) =~= cb.subrange(0, cp.len() as int));
        assert(cb.subrange(0, cp.len() as int) =~= cp);
        lemma_row_round_trip(b, q, pre);
        assert(tags_of(row).drop_last() =~= tags_of(pre));
        assert(tags_of(row).last() == tag_of(row.last()));
        assert(b.subrange(q + cp.len(), q + cp.len() + ev.len()) =~= cb.subrange(
            cp.len() as int,
            cb.len() as int,
        ));
        assert(cb.subrange(cp.len() as int, cb.len() as int) =~= ev);
        lemma_value_round_trip(row.last(), b, q + cp.len());
        assert(pre.push(row.last()) =~= row);
    }
}

/// A payload read back from its encoding gives the rows, when all rows have the types `tags`.
pub proof fn lemma_rows_round_trip(
    b: Seq<u8>,
    pos: int,
    rows: Seq<Seq<ValueView>>,
    base: int,
    tags: Seq<u8>,
)
    requires
        encode_payload(rows, base) is Ok,
        forall|i: int| 0 <= i < rows.len() ==> tags_of(#[trigger] rows[i]) == tags,
        0 <= pos,
        pos + encode_payload(rows, base)->Ok_0.0.len() <= b.len(),
        b.subrange(pos, pos + encode_payload(rows, base)->Ok_0.0.len()) == encode_payload(
            rows,
            base,
        )->Ok_0.0,
    ensures
        decode_rows(b, pos, tags, rows.len()) == Ok::<(Seq<Seq<ValueView>>, int), Error>(
            (rows, pos + encode_payload(rows, base)->Ok_0.0.len()),
        ),
    decreases rows.len(),
{
    let p = encode_payload(rows, base)->Ok_0.0;
    if rows.len() == 0 {
        assert(rows =~= Seq::<Seq<ValueView>>::empty());
    } else {
        let pre = rows.drop_last();
        let pp = encode_payload(pre, base)->Ok_0.0;
        let cb = encode_cells(rows.last())->Ok_0;
        assert(p == pp + cb);
        assert(b.subrange(pos, pos + pp.len()) =~= p.subrange(0, pp.len() as int));
        assert(p.subrange(0, pp.len() as int) =~= pp);
        lemma_rows_round_trip(b, pos, pre, base, tags);
        assert(b.subrange(pos + pp.len(), pos + pp.len() + cb.len()) =~= p.subrange(
            pp.len() as int,
            p.len() as int,
        ));
        assert(p.subrange(pp.len() as int, p.len() as int) =~= cb);
        lemma_row_round_trip(b, pos + pp.len(), rows.last());
        assert(pre.push(rows.last()) =~= rows);
    }
}

/// The first jump-table entry of a non-empty payload points at its first row.
pub proof fn lemma_first_mark(rows: Seq<Seq<ValueView>>, base: int)
    requires
        rows.len() >= 1,
        encode_payload(rows, base) is Ok,
    ensures
        encode_payload(rows, base)->Ok_0.1.len() >= 1,
        rows[0].len() > 0,
        rows[0][0] is I32,
        base <= u32::MAX,
        encode_payload(rows, base)->Ok_0.1[0] == (rows[0][0]->I32_0, base as u32),
    decreases rows.len(),
{
    let pre = rows.drop_last();
    if rows.len() > 1 {
        lemma_first_mark(pre, base);
        assert(pre[0] == rows[0]);
        let (pp, pm) = encode_payload(pre, base)->Ok_0;
        let m = row_mark(rows.last(), rows.len() - 1, base + pp.len())->Ok_0;
        assert(encode_payload(rows, base)->Ok_0.1 == pm + m);
        assert((pm + m)[0] == pm[0]);
    } else {
        assert(pre =~= Seq::<Seq<ValueView>>::empty());
        assert(rows.last() == rows[0]);
        let m = row_mark(rows[0], 0, base)->Ok_0;
        assert(encode_payload(rows, base)->Ok_0.1 =~= Seq::<(i32, u32)>::empty() + m);
    }
}

/// The jump table has eight bytes per slot, and begins with slot 0.
pub proof fn lemma_jump_bytes(marks: Seq<(i32, u32)>, count: nat)
    ensures
        jump_bytes(marks, count).len() == 8 * count,
        count >= 1 ==> jump_bytes(marks, count).subrange(0, 8) == jump_entry(marks, 0),
    decreases count,
{
    if count > 0 {
        lemma_jump_bytes(marks, (count - 1) as nat);
        let k = count - 1;
        if k < marks.len() {
            lemma_le_bytes_len(twos(marks[k].0 as int, 4), 4);
            lemma_le_bytes_len(marks[k].1 as nat, 4);
        } else {
            lemma_le_bytes_len(0, 4);
        }
        if count == 1 {
            assert(jump_bytes(marks, 0) =~= Seq::<u8>::empty());
            assert(jump_bytes(marks, 1) =~= jump_entry(marks, 0));
        } else {
            let prev = jump_bytes(marks, (count - 1) as nat);
            assert(jump_bytes(marks, count).subrange(0, 8) =~= prev.subrange(0, 8));
        }
    }
}

/// A row whose cells all have an encoding has one.
pub proof fn lemma_cells_ok(row: Seq<ValueView>)
    requires
        forall|j: int| 0 <= j < row.len() ==> encode_value(#[trigger] row[j]) is Ok,
    ensures
        encode_cells(row) is Ok,
    decreases row.len(),
{
    if row.len() > 0 {
        lemma_cells_ok(row.drop_last());
    }
}

/// The payload of a valid table fails to encode only where a row offset passes 32 bits.
pub proof fn lemma_payload_errors(t: TableView, k: int, base: int)
    requires
        table_valid(t),
        0 <= k <= t.rows.len(),
    ensures
        encode_payload(t.rows.take(k), base) is Err ==> encode_payload(t.rows.take(k), base)
            == Err::<(Seq<u8>, Seq<(i32, u32)>), Error>(Error::BookmarkOutOfBounds),
    decreases k,
{
    if k > 0 {
        let rows = t.rows.take(k);
        assert(rows.drop_last() =~= t.rows.take(k - 1));
        lemma_payload_errors(t, k - 1, base);
        let last = t.rows[k - 1];
        assert(rows.last() == last);
        assert forall|j: int| 0 <= j < last.len() implies encode_value(#[trigger] last[j]) is Ok by {
            assert(encode_value(t.rows[k - 1][j]) is Ok);
        }
        lemma_cells_ok(last);
    }
}

/// Every valid table survives encoding and decoding unchanged: decoding its file gives the
/// same id and the same rows in the same order. Its encoding fails only where a row offset
/// would not fit the 32 bits of a jump-table entry.
pub proof fn lemma_table_round_trip(t: TableView)
    requires
        table_valid(t),
    ensures
        match encode_table(t) {
            Ok(b) => decode_table(b) == Ok::<TableView, Error>(t),
            Err(e) => e == Error::BookmarkOutOfBounds,
        },
{
    reveal_with_fuel(pow256, 5);
    let n = t.rows.len();
    if n == 0 {
        let b = encode_table(t)->Ok_0;
        lemma_le_round_trip(t.id as nat, 2);
        lemma_le_round_trip(2, 2);
        lemma_le_round_trip(0, 2);
        assert(b.subrange(0, 2) =~= le_bytes(t.id as nat, 2));
        assert(b.subrange(4, 6) =~= le_bytes(0, 2));
        assert(t.rows =~= Seq::<Seq<ValueView>>::empty());
    } else {
        let cn = t.rows[0].len();
        let c = cn as int;
        let base = rows_start(cn, n) as int;
        assert(t.rows.take(n as int) =~= t.rows);
        lemma_payload_errors(t, n as int, base);
        if encode_payload(t.rows, base) is Ok {
            let (p, marks) = encode_payload(t.rows, base)->Ok_0;
            let b = encode_table(t)->Ok_0;
            let lbs = last_block_size(base + p.len());
            let tags = tags_of(t.rows[0]);
            let jt = jump_bytes(marks, jump_count(n));
            lemma_jump_bytes(marks, jump_count(n));
            lemma_first_mark(t.rows, base);
            lemma_le_round_trip(t.id as nat, 2);
            lemma_le_round_trip(lbs as nat, 2);
            lemma_le_round_trip(n, 2);
            lemma_le_round_trip(twos(marks[0].0 as int, 4), 4);
            lemma_le_round_trip(base as nat, 4);
            let h = le_bytes(t.id as nat, 2) + le_bytes(lbs as nat, 2) + le_bytes(n, 2) + seq![
                c as u8,
            ] + tags + jt;
            assert(b == h + p);
            assert(tags.len() == c);
            assert(h.len() == base);
            assert(b.subrange(0, 2) =~= le_bytes(t.id as nat, 2));
            assert(b.subrange(2, 4) =~= le_bytes(lbs as nat, 2));
            assert(b.subrange(4, 6) =~= le_bytes(n, 2));
            assert(b[6] == c as u8);
            assert(b.subrange(7, 7 + c as int) =~= tags);
            assert(b.subrange(7 + c, 7 + c + 8) =~= jt.subrange(0, 8));
            assert(b.subrange(7 + c + 4, 7 + c + 8) =~= jump_entry(marks, 0).subrange(4, 8));
            assert(jump_entry(marks, 0).subrange(4, 8) =~= le_bytes(base as nat, 4));
            assert(b.subrange(base, base + p.len()) =~= p);
            assert forall|i: int| 0 <= i < t.rows.len() implies tags_of(#[trigger] t.rows[i])
                == tags by {}
            lemma_rows_round_trip(b, base, t.rows, base, tags);
        }
    }
}

/// Where the parts of a non-empty table's file stand: header fields, column types, the first
/// jump-table entry and the row payload.
pub proof fn lemma_layout(t: TableView)
    requires
        encode_table(t) is Ok,
        t.rows.len() > 0,
    ensures
        ({
            let b = encode_table(t)->Ok_0;
            let n = t.rows.len();
            let c = t.rows[0].len() as int;
            let start = rows_start(t.rows[0].len(), n) as int;
            let p = encode_payload(t.rows, start)->Ok_0.0;
            &&& encode_payload(t.rows, start) is Ok
            &&& b.len() == start + p.len()
            &&& field(b, 0, 2) == t.id
            &&& field(b, 2, 2) == last_block_size(b.len() as int)
            &&& field(b, 4, 2) == n
            &&& b[6] == c
            &&& b.subrange(7, 7 + c) == tags_of(t.rows[0])
            &&& field(b, 7 + c + 4, 4) == start
            &&& b.subrange(start, b.len() as int) == p
        }),
{
    reveal_with_fuel(pow256, 5);
    let n = t.rows.len();
    let cn = t.rows[0].len();
    let c = cn as int;
    let base = rows_start(cn, n) as int;
    let (p, marks) = encode_payload(t.rows, base)->Ok_0;
    let b = encode_table(t)->Ok_0;
    let lbs = last_block_size(base + p.len());
    let tags = tags_of(t.rows[0]);
    let jt = jump_bytes(marks, jump_count(n));
    lemma_jump_bytes(marks, jump_count(n));
    lemma_first_mark(t.rows, base);
    lemma_le_round_trip(t.id as nat, 2);
    lemma_le_round_trip(lbs as nat, 2);
    lemma_le_round_trip(n, 2);
    lemma_le_round_trip(twos(marks[0].0 as int, 4), 4);
    lemma_le_round_trip(base as nat, 4);
    let h = le_bytes(t.id as nat, 2) + le_bytes(lbs as nat, 2) + le_bytes(n, 2) + seq![c as u8]
        + tags + jt;
    assert(b == h + p);
    assert(h.len() == base);
    assert(b.subrange(0, 2) =~= le_bytes(t.id as nat, 2));
    assert(b.subrange(2, 4) =~= le_bytes(lbs as nat, 2));
    assert(b.subrange(4, 6) =~= le_bytes(n, 2));
    assert(b.subrange(7, 7 + c) =~= tags);
    assert(b.subrange(7 + c + 4, 7 + c + 8) =~= jump_entry(marks, 0).subrange(4, 8));
    assert(jump_entry(marks, 0).subrange(4, 8) =~= le_bytes(base as nat, 4));
    assert(b.subrange(base, b.len() as int) =~= p);
}

/// After encoding, offset 2 holds the file size less four, modulo 65 536, when the table has
/// rows; the file of a table without rows is exactly six bytes.
pub proof fn lemma_last_block_size(t: TableView)
    requires
        encode_table(t) is Ok,
    ensures
        t.rows.len() == 0 ==> encode_table(t)->Ok_0.len() == 6,
        t.rows.len() > 0 ==> field(encode_table(t)->Ok_0, 2, 2) == last_block_size(
            encode_table(t)->Ok_0.len() as int,
        ),
{
    if t.rows.len() == 0 {
        lemma_le_bytes_len(t.id as nat, 2);
        lemma_le_bytes_len(2, 2);
        lemma_le_bytes_len(0, 2);
    } else {
        lemma_layout(t);
    }
}

/// The jump table of a non-empty table has `1 + n / 100` entries of eight bytes between the
/// column types and the rows, and its first entry holds the offset where row 0 begins.
pub proof fn lemma_jump_table(t: TableView)
    requires
        encode_table(t) is Ok,
        t.rows.len() > 0,
    ensures
        ({
            let b = encode_table(t)->Ok_0;
            let c = t.rows[0].len() as int;
            let start = rows_start(t.rows[0].len(), t.rows.len()) as int;
            &&& start == 7 + c + 8 * (1 + t.rows.len() / 100)
            &&& field(b, 7 + c + 4, 4) == start
            &&& b.subrange(start, b.len() as int) == encode_payload(t.rows, start)->Ok_0.0
            &&& encode_cells(t.rows[0]) matches Ok(row0) && b.subrange(start, start + row0.len())
                == row0
        }),
{
    lemma_layout(t);
    let b = encode_table(t)->Ok_0;
    let start = rows_start(t.rows[0].len(), t.rows.len()) as int;
    lemma_payload_starts_with_row0(t.rows, start);
    let p = encode_payload(t.rows, start)->Ok_0.0;
    let row0 = encode_cells(t.rows[0])->Ok_0;
    assert(b.subrange(start, start + row0.len()) =~= p.subrange(0, row0.len() as int));
}

/// A non-empty payload begins with the cells of its first row.
pub proof fn lemma_payload_starts_with_row0(rows: Seq<Seq<ValueView>>, base: int)
    requires
        rows.len() >= 1,
        encode_payload(rows, base) is Ok,
    ensures
        encode_cells(rows[0]) is Ok,
        encode_cells(rows[0])->Ok_0.len() <= encode_payload(rows, base)->Ok_0.0.len(),
        encode_payload(rows, base)->Ok_0.0.subrange(0, encode_cells(rows[0])->Ok_0.len() as int)
            == encode_cells(rows[0])->Ok_0,
    decreases rows.len(),
{
    let pre = rows.drop_last();
    if rows.len() > 1 {
        lemma_payload_starts_with_row0(pre, base);
        assert(pre[0] == rows[0]);
        let pp = encode_payload(pre, base)->Ok_0.0;
        let cb = encode_cells(rows.last())->Ok_0;
        let r0 = encode_cells(rows[0])->Ok_0;
        assert(encode_payload(rows, base)->Ok_0.0 == pp + cb);
        assert((pp + cb).subrange(0, r0.len() as int) =~= pp.subrange(0, r0.len() as int));
    } else {
        assert(pre =~= Seq::<Seq<ValueView>>::empty());
        assert(rows.last() == rows[0]);
        let r0 = encode_cells(rows[0])->Ok_0;
        assert(encode_payload(rows, base)->Ok_0.0 =~= Seq::<u8>::empty() + r0);
    }
}

/// A number of `k` bytes is below `256^k`.
pub proof fn lemma_le_value_bound(b: Seq<u8>)
    ensures
        le_value(b) < pow256(b.len()),
    decreases b.len(),
{
    if b.len() > 0 {
        let rest = b.subrange(1, b.len() as int);
        lemma_le_value_bound(rest);
        assert(pow256(b.len()) == 256 * pow256(rest.len()));
        assert(b[0] as nat + 256 * le_value(rest) < 256 * pow256(rest.len())) by (nonlinear_arith)
            requires
                b[0] < 256,
                le_value(rest) < pow256(rest.len()),
        ;
    }
}

/// A cell read with type tag `tag` has that tag.
pub proof fn lemma_decoded_tag(b: Seq<u8>, pos: int, tag: u8)
    requires
        decode_value(b, pos, tag) is Ok,
    ensures
        tag_of(decode_value(b, pos, tag)->Ok_0.0) == tag,
{
}

/// A row read with types `tags` has those types.
pub proof fn lemma_decoded_row_tags(b: Seq<u8>, pos: int, tags: Seq<u8>)
    requires
        decode_row(b, pos, tags) is Ok,
    ensures
        tags_of(decode_row(b, pos, tags)->Ok_0.0) == tags,
    decreases tags.len(),
{
    if tags.len() > 0 {
        let (cells, p) = decode_row(b, pos, tags.drop_last())->Ok_0;
        lemma_decoded_row_tags(b, pos, tags.drop_last());
        lemma_decoded_tag(b, p, tags.last());
        let v = decode_value(b, p, tags.last())->Ok_0.0;
        assert(tags_of(cells.push(v)) =~= tags_of(cells).push(tag_of(v)));
        assert(tags.drop_last().push(tags.last()) =~= tags);
    } else {
        assert(tags_of(Seq::<ValueView>::empty()) =~= tags);
    }
}

/// `n` rows read with types `tags` are `n` rows of those types.
pub proof fn lemma_decoded_rows_tags(b: Seq<u8>, pos: int, tags: Seq<u8>, n: nat)
    requires
        decode_rows(b, pos, tags, n) is Ok,
    ensures
        decode_rows(b, pos, tags, n)->Ok_0.0.len() == n,
        forall|i: int|
            0 <= i < n ==> tags_of(#[trigger] decode_rows(b, pos, tags, n)->Ok_0.0[i]) == tags,
    decreases n,
{
    if n > 0 {
        let (rows, p) = decode_rows(b, pos, tags, (n - 1) as nat)->Ok_0;
        lemma_decoded_rows_tags(b, pos, tags, (n - 1) as nat);
        lemma_decoded_row_tags(b, p, tags);
    }
}

/// A payload that encodes has rows that encode.
pub proof fn lemma_payload_cells_ok(rows: Seq<Seq<ValueView>>, base: int)
    requires
        encode_payload(rows, base) is Ok,
    ensures
        forall|i: int| 0 <= i < rows.len() ==> encode_cells(#[trigger] rows[i]) is Ok,
    decreases rows.len(),
{
    if rows.len() > 0 {
        lemma_payload_cells_ok(rows.drop_last(), base);
        assert forall|i: int| 0 <= i < rows.len() implies encode_cells(#[trigger] rows[i]) is Ok by {
            if i < rows.len() - 1 {
                assert(rows[i] == rows.drop_last()[i]);
            }
        }
    }
}

/// A row that encodes has cells that encode.
pub proof fn lemma_cells_each_ok(row: Seq<ValueView>)
    requires
        encode_cells(row) is Ok,
    ensures
        forall|j: int| 0 <= j < row.len() ==> encode_value(#[trigger] row[j]) is Ok,
    decreases row.len(),
{
    if row.len() > 0 {
        lemma_cells_each_ok(row.drop_last());
        assert forall|j: int| 0 <= j < row.len() implies encode_value(#[trigger] row[j]) is Ok by {
            if j < row.len() - 1 {
                assert(row[j] == row.drop_last()[j]);
            }
        }
    }
}

/// A file that decodes to a table that encodes is re-encoded into a file that decodes to the
/// same table, though not always to the same bytes.
pub proof fn lemma_file_round_trip(f: Seq<u8>)
    requires
        decode_table(f) is Ok,
        encode_table(decode_table(f)->Ok_0) is Ok,
    ensures
        decode_table(encode_table(decode_table(f)->Ok_0)->Ok_0) == decode_table(f),
{
    let t = decode_table(f)->Ok_0;
    if t.rows.len() > 0 {
        let n = field(f, 4, 2);
        let c = f[6] as int;
        let tags = f.subrange(7, 7 + c);
        let start = field(f, 7 + c + 4, 4) as int;
        lemma_le_value_bound(f.subrange(4, 6));
        reveal_with_fuel(pow256, 3);
        lemma_decoded_rows_tags(f, start, tags, n);
        let base = rows_start(t.rows[0].len(), t.rows.len()) as int;
        lemma_first_mark(t.rows, base);
        lemma_payload_cells_ok(t.rows, base);
        assert forall|i: int| 0 <= i < t.rows.len() implies {
            &&& 1 <= #[trigger] t.rows[i].len() <= 255
            &&& t.rows[i][0] is I32
            &&& tags_of(t.rows[i]) == tags_of(t.rows[0])
        } by {
            assert(tags_of(t.rows[i]).len() == t.rows[i].len());
            assert(tags_of(t.rows[i])[0] == tag_of(t.rows[i][0]));
            assert(tags_of(t.rows[0])[0] == tag_of(t.rows[0][0]));
        }
        assert forall|i: int, j: int|
            0 <= i < t.rows.len() && 0 <= j < t.rows[i].len() implies encode_value(
            #[trigger] t.rows[i][j],
        ) is Ok by {
            lemma_cells_each_ok(t.rows[i]);
        }
        assert(table_valid(t));
    } else {
        assert(table_valid(t));
    }
    lemma_table_round_trip(t);
}

} // verus!
