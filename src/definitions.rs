//! The schema file: one table definition per line, `id;name;col,col,...;type,type,...`.
use crate::error::Error;
use crate::text::{lemma_split_nonempty, numeral_in, split, split_text, trim, trim_text};
use std::collections::HashMap;
use std::num::ParseIntError;
use vstd::prelude::*;
use vstd::string::StrSliceExecFns;

verus! {

broadcast use vstd::std_specs::hash::group_hash_axioms;

/// The name of a table and the names and type names of its columns.
#[derive(Debug, Clone, PartialEq, Eq, Hash)]
pub struct TableDefinition {
    pub name: String,
    pub columns: Vec<String>,
    pub types: Vec<String>,
}

/// The mathematical content of a [`TableDefinition`].
pub struct TableDefinitionView {
    pub name: Seq<char>,
    pub columns: Seq<Seq<char>>,
    pub types: Seq<Seq<char>>,
}

pub open spec fn strings_view(v: Seq<String>) -> Seq<Seq<char>> {
    v.map_values(|s: String| s@)
}

impl View for TableDefinition {
    type V = TableDefinitionView;

    open spec fn view(&self) -> TableDefinitionView {
        TableDefinitionView {
            name: self.name@,
            columns: strings_view(self.columns@),
            types: strings_view(self.types@),
        }
    }
}

/// Table definitions by table id.
pub type TableDefinitions = HashMap<u16, TableDefinition>;

/// Why a definition line is refused.
pub enum DefinitionFault {
    InvalidTableId,
    NoTableName,
    NoTableColumnNames,
    NoTableColumnTypes,
    InconsistentNamesAndTypesLength,
}

/// Whether `e` is the error that reports `f`.
pub open spec fn reports(f: DefinitionFault, e: Error) -> bool {
    match f {
        DefinitionFault::InvalidTableId => e is InvalidTableId,
        DefinitionFault::NoTableName => e == Error::NoTableName,
        DefinitionFault::NoTableColumnNames => e == Error::NoTableColumnNames,
        DefinitionFault::NoTableColumnTypes => e == Error::NoTableColumnTypes,
        DefinitionFault::InconsistentNamesAndTypesLength => e
            == Error::InconsistentNamesAndTypesLength,
    }
}

/// A trimmed line that holds no definition: blank, or a comment.
pub open spec fn skipped(l: Seq<char>) -> bool {
    l.len() == 0 || (l.len() >= 2 && l[0] == '/' && l[1] == '/')
}

/// The definition that a trimmed line holds.
pub open spec fn parse_line(l: Seq<char>) -> Result<(u16, TableDefinitionView), DefinitionFault> {
    let f = split_text(l, seq![';']);
    match numeral_in(f[0], 0, 65535) {
        None => Err(DefinitionFault::InvalidTableId),
        Some(id) => if f.len() < 2 {
            Err(DefinitionFault::NoTableName)
        } else if f.len() < 3 {
            Err(DefinitionFault::NoTableColumnNames)
        } else if f.len() < 4 {
            Err(DefinitionFault::NoTableColumnTypes)
        } else {
            let columns = split_text(f[2], seq![',']);
            let types = split_text(f[3], seq![',']);
            if columns.len() != types.len() {
                Err(DefinitionFault::InconsistentNamesAndTypesLength)
            } else {
                Ok((id as u16, TableDefinitionView { name: f[1], columns, types }))
            }
        },
    }
}

/// The definitions of a list of lines; a later definition of an id replaces an earlier one.
pub open spec fn parse_lines(lines: Seq<Seq<char>>) -> Result<
    Map<u16, TableDefinitionView>,
    DefinitionFault,
>
    decreases lines.len(),
{
    if lines.len() == 0 {
        Ok(Map::empty())
    } else {
        match parse_lines(lines.drop_last()) {
            Err(f) => Err(f),
            Ok(m) => {
                let l = trim_text(lines.last());
                if skipped(l) {
                    Ok(m)
                } else {
                    match parse_line(l) {
                        Err(f) => Err(f),
                        Ok((id, d)) => Ok(m.insert(id, d)),
                    }
                }
            },
        }
    }
}

/// The definitions that a schema text holds.
pub open spec fn definitions_spec(text: Seq<char>) -> Result<
    Map<u16, TableDefinitionView>,
    DefinitionFault,
> {
    parse_lines(split_text(text, seq!['\n']))
}

/// Relies on `str::parse::<u16>`: decimal digits with an optional `+`, in range; the error
/// says why not.
#[verifier::external_body]
fn parse_u16(s: &str) -> (r: Result<u16, ParseIntError>)
    ensures
        match numeral_in(s@, 0, 65535) {
            Some(v) => r == Ok::<u16, ParseIntError>(v as u16),
            None => r is Err,
        },
{
    s.parse::<u16>()
}

/// Owned copies of the pieces.
fn owned(pieces: Vec<&str>) -> (r: Vec<String>)
    ensures
        strings_view(r@) == pieces@.map_values(|p: &str| p@),
{
    let mut r: Vec<String> = Vec::new();
    let mut i: usize = 0;
    while i < pieces.len()
        invariant
            0 <= i <= pieces@.len(),
            strings_view(r@) == pieces@.map_values(|p: &str| p@).take(i as int),
        decreases pieces@.len() - i,
    {
        let ghost before = r@;
        let piece = pieces[i].to_owned();
        r.push(piece);
        assert(r@ == before.push(piece));
        assert(strings_view(r@) =~= strings_view(before).push(piece@));
        assert(pieces@.map_values(|p: &str| p@).take(i + 1) =~= pieces@.map_values(|p: &str| p@).take(
            i as int,
        ).push(pieces@[i as int]@));
        i += 1;
    }
    assert(pieces@.map_values(|p: &str| p@).take(pieces@.len() as int) =~= pieces@.map_values(
        |p: &str| p@,
    ));
    r
}

/// Parses a schema text into table definitions by id.
pub fn parse(contents: &str) -> (r: Result<TableDefinitions, Error>)
    ensures
        match definitions_spec(contents@) {
            Ok(m) => r matches Ok(d) && d@.map_values(|t: TableDefinition| t@) == m,
            Err(f) => r matches Err(e) && reports(f, e),
        },
{
    proof {
        reveal_strlit("\n");
        reveal_strlit(";");
        reveal_strlit(",");
    }
    let mut definitions: TableDefinitions = HashMap::new();
    let lines = split(contents, "\n");
    let ghost ls = split_text(contents@, seq!['\n']);
    assert("\n"@ =~= seq!['\n']);
    assert(ls.take(0) =~= Seq::<Seq<char>>::empty());
    assert(definitions@.map_values(|t: TableDefinition| t@) =~= Map::<u16, TableDefinitionView>::empty());
    let mut i: usize = 0;
    while i < lines.len()
        invariant
            0 <= i <= lines@.len(),
            lines@.map_values(|p: &str| p@) == ls,
            ls == split_text(contents@, seq!['\n']),
            ";"@ == seq![';'],
            ","@ == seq![','],
            parse_lines(ls.take(i as int)) == Ok::<Map<u16, TableDefinitionView>, DefinitionFault>(
                definitions@.map_values(|t: TableDefinition| t@),
            ),
        decreases lines@.len() - i,
    {
        assert(ls.take(i + 1).drop_last() =~= ls.take(i as int));
        assert(ls.take(i + 1).last() == lines@[i as int]@);
        let line = trim(lines[i]);
        let n = line.unicode_len();
        if n == 0 || (n >= 2 && line.get_char(0) == '/' && line.get_char(1) == '/') {
            i += 1;
            continue;
        }
        let fields = split(line, ";");
        let ghost fs = split_text(line@, seq![';']);
        proof {
            lemma_split_nonempty(line@, seq![';']);
        }
        assert(fields@.map_values(|p: &str| p@)[0] == fields@[0]@);
        let id = match parse_u16(fields[0]) {
            Ok(id) => id,
            Err(e) => {
                proof {
                    lemma_lines_err_stays(ls, i + 1);
                }
                return Err(Error::InvalidTableId(e));
            },
        };
        if fields.len() < 2 {
            proof {
                lemma_lines_err_stays(ls, i + 1);
            }
            return Err(Error::NoTableName);
        }
        if fields.len() < 3 {
            proof {
                lemma_lines_err_stays(ls, i + 1);
            }
            return Err(Error::NoTableColumnNames);
        }
        if fields.len() < 4 {
            proof {
                lemma_lines_err_stays(ls, i + 1);
            }
            return Err(Error::NoTableColumnTypes);
        }
        assert(fs[1] == fields@[1]@ && fs[2] == fields@[2]@ && fs[3] == fields@[3]@);
        let columns = owned(split(fields[2], ","));
        let types = owned(split(fields[3], ","));
        if columns.len() != types.len() {
            proof {
                lemma_lines_err_stays(ls, i + 1);
            }
            return Err(Error::InconsistentNamesAndTypesLength);
        }
        let def = TableDefinition { name: fields[1].to_owned(), columns, types };
        let ghost before = definitions@;
        definitions.insert(id, def);
        assert(definitions@.map_values(|t: TableDefinition| t@) =~= before.map_values(
            |t: TableDefinition| t@,
        ).insert(id, def@));
        i += 1;
    }
    assert(ls.take(lines@.len() as int) =~= ls);
    Ok(definitions)
}

/// Once a line is refused, the whole text is refused for it.
pub proof fn lemma_lines_err_stays(ls: Seq<Seq<char>>, k: int)
    requires
        0 <= k <= ls.len(),
        parse_lines(ls.take(k)) is Err,
    ensures
        parse_lines(ls) == parse_lines(ls.take(k)),
    decreases ls.len() - k,
{
    if k < ls.len() {
        assert(ls.take(k + 1).drop_last() =~= ls.take(k));
        lemma_lines_err_stays(ls, k + 1);
    } else {
        assert(ls.take(k) =~= ls);
    }
}

} // verus!
