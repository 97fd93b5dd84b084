use vstd::prelude::*;

use crate::project::{join_projected, join_tab, project, resolve, resolve_indexes, texts};
use crate::split::{fields_of, split_line};

verus! {

/// How many data lines are processed out of `available` under a row limit.
pub open spec fn rows_taken(top_n: Option<usize>, available: int) -> int {
    match top_n {
        None => available,
        Some(n) => if n < available {
            n as int
        } else {
            available
        },
    }
}

/// The output line for one data line.
pub open spec fn row_line(line: Seq<char>, delimiter: Seq<char>, indexes: Seq<int>) -> Seq<char> {
    join_tab(project(fields_of(line, delimiter), indexes))
}

/// Everything projection mode writes: the selected column titles, then one
/// line for each data line within the limit. A file without a header line
/// gives nothing.
pub open spec fn projection_output(
    header: Seq<Seq<char>>,
    delimiter: Seq<char>,
    selection: Seq<Seq<char>>,
    top_n: Option<usize>,
    lines: Seq<Seq<char>>,
) -> Seq<Seq<char>> {
    if header.len() == 0 {
        Seq::empty()
    } else {
        let indexes = resolve(header, selection);
        seq![join_tab(project(header, indexes))] + Seq::new(
            rows_taken(top_n, lines.len() as int) as nat,
            |k: int| row_line(lines[k], delimiter, indexes),
        )
    }
}

/// Whether the data line counted `count` (from 1) is still within the row
/// limit `top_n`.
pub fn takes_row(top_n: Option<usize>, count: usize) -> (r: bool)
    ensures
        r == match top_n {
            None => true,
            Some(n) => count <= n,
        },
{
    match top_n {
        None => true,
        Some(n) => count <= n,
    }
}

/// A delimited table: the column names read from its header line, and the
/// delimiter that splits the header and every data line.
pub struct Csv {
    columns: Vec<String>,
    delimiter: String,
}

impl Csv {
    /// The column names.
    pub closed spec fn header(&self) -> Seq<Seq<char>> {
        texts(self.columns@)
    }

    /// The field delimiter.
    pub closed spec fn delimiter(&self) -> Seq<char> {
        self.delimiter@
    }

    /// Builds the table from its header line, `None` where the file has no
    /// first line; the header then has no columns.
    pub fn from(header: Option<&str>, delimiter: &str) -> (r: Csv)
        ensures
            r.header() == match header {
                Some(h) => fields_of(h@, delimiter@),
                None => Seq::empty(),
            },
            r.delimiter() == delimiter@,
    {
        let columns = match header {
            Some(h) => split_line(h, delimiter),
            None => Vec::new(),
        };
        proof {
            if header is None {
                assert(texts(columns@) =~= Seq::empty());
            }
        }
        Csv { columns, delimiter: String::from_str(delimiter) }
    }

    /// The number of columns; zero only where the file has no header line.
    pub fn column_count(&self) -> (r: usize)
        ensures
            r == self.header().len(),
    {
        self.columns.len()
    }

    /// The lines of list mode: each column name on its own.
    pub fn list_header(&self) -> (r: Vec<String>)
        ensures
            texts(r@) == self.header(),
    {
        let mut r: Vec<String> = Vec::new();
        let mut i: usize = 0;
        while i < self.columns.len()
            invariant
                i <= self.columns@.len(),
                texts(r@) == self.header().subrange(0, i as int),
            decreases self.columns@.len() - i,
        {
            let ghost before = texts(r@);
            r.push(self.columns[i].clone());
            assert(texts(r@) =~= before.push(self.columns@[i as int]@));
            assert(self.header().subrange(0, i + 1) =~= self.header().subrange(0, i as int).push(
                self.columns@[i as int]@,
            ));
            i = i + 1;
        }
        assert(self.header().subrange(0, self.columns@.len() as int) =~= self.header());
        r
    }

    /// The header positions that `selected` names; every column in order
    /// when it is empty.
    pub fn get_indexes(&self, selected: &[String]) -> (r: Vec<usize>)
        ensures
            r@.map_values(|i: usize| i as int) == resolve(self.header(), texts(selected@)),
            forall|k: int| 0 <= k < r@.len() ==> r@[k] < self.header().len(),
    {
        resolve_indexes(&self.columns, selected)
    }

    /// The column titles at `indexes`, joined by tabs.
    pub fn title_line(&self, indexes: &Vec<usize>) -> (r: String)
        ensures
            r@ == join_tab(project(self.header(), indexes@.map_values(|i: usize| i as int))),
    {
        join_projected(&self.columns, indexes)
    }

    /// The output line for one data line: its fields at `indexes`, joined by
    /// tabs.
    pub fn project_line(&self, line: &str, indexes: &Vec<usize>) -> (r: String)
        ensures
            r@ == row_line(line@, self.delimiter(), indexes@.map_values(|i: usize| i as int)),
    {
        let fields = split_line(line, self.delimiter.as_str());
        join_projected(&fields, indexes)
    }

    /// Projection mode over the data lines that follow the header: the
    /// titles of the selected columns, then each data line within `top_n`.
    pub fn list_columns(&self, selected: &[String], top_n: Option<usize>, lines: &[String]) -> (r:
        Vec<String>)
        ensures
            texts(r@) == projection_output(
                self.header(),
                self.delimiter(),
                texts(selected@),
                top_n,
                texts(lines@),
            ),
    {
        let mut r: Vec<String> = Vec::new();
        if self.columns.len() == 0 {
            assert(texts(r@) =~= Seq::empty());
            return r;
        }
        let indexes = self.get_indexes(selected);
        let ghost idx = indexes@.map_values(|i: usize| i as int);
        let ghost out = projection_output(
            self.header(),
            self.delimiter(),
            texts(selected@),
            top_n,
            texts(lines@),
        );
        let ghost taken = rows_taken(top_n, lines@.len() as int);
        r.push(self.title_line(&indexes));
        let mut i: usize = 0;
        while i < lines.len() && takes_row(top_n, i + 1)
            invariant
                self.header().len() > 0,
                idx == indexes@.map_values(|i: usize| i as int),
                idx == resolve(self.header(), texts(selected@)),
                out == projection_output(
                    self.header(),
                    self.delimiter(),
                    texts(selected@),
                    top_n,
                    texts(lines@),
                ),
                taken == rows_taken(top_n, lines@.len() as int),
                i <= taken,
                texts(r@) == out.subrange(0, i + 1),
            decreases lines@.len() - i,
        {
            let ghost before = texts(r@);
            let line = self.project_line(lines[i].as_str(), &indexes);
            r.push(line);
            assert(texts(r@) =~= before.push(line@));
            assert(out[i + 1] == row_line(texts(lines@)[i as int], self.delimiter(), idx));
            assert(out.subrange(0, i + 2) =~= out.subrange(0, i + 1).push(out[i + 1]));
            i = i + 1;
        }
        assert(out.len() == taken + 1);
        assert(out.subrange(0, taken + 1) =~= out);
        r
    }
}

} // verus!
