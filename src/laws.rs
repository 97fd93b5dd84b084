use vstd::prelude::*;

use crate::project::{field_at, join_tab, positions_of, project, resolve, selected_positions};
use crate::table::{projection_output, row_line, rows_taken};

verus! {

/// An empty selection resolves to every column of the header, in order.
pub proof fn lemma_empty_selection_all_columns(header: Seq<Seq<char>>)
    ensures
        resolve(header, Seq::empty()) == Seq::new(header.len(), |i: int| i),
{
}

proof fn lemma_positions_absent(header: Seq<Seq<char>>, name: Seq<char>)
    requires
        forall|q: int| 0 <= q < header.len() ==> header[q] != name,
    ensures
        positions_of(header, name) == Seq::<int>::empty(),
    decreases header.len(),
{
    if header.len() > 0 {
        lemma_positions_absent(header.drop_last(), name);
    }
}

proof fn lemma_positions_unique(header: Seq<Seq<char>>, name: Seq<char>, p: int)
    requires
        0 <= p < header.len(),
        header[p] == name,
        forall|q: int| 0 <= q < header.len() && q != p ==> header[q] != name,
    ensures
        positions_of(header, name) == seq![p],
    decreases header.len(),
{
    if p == header.len() - 1 {
        lemma_positions_absent(header.drop_last(), name);
        assert(Seq::<int>::empty().push(p) =~= seq![p]);
    } else {
        lemma_positions_unique(header.drop_last(), name, p);
    }
}

/// Selecting a single name that exactly one column holds projects every row
/// onto that row's field at the column's position.
pub proof fn lemma_single_column_projection(
    header: Seq<Seq<char>>,
    name: Seq<char>,
    p: int,
    row: Seq<Seq<char>>,
)
    requires
        0 <= p < header.len(),
        header[p] == name,
        forall|q: int| 0 <= q < header.len() && q != p ==> header[q] != name,
    ensures
        resolve(header, seq![name]) == seq![p],
        project(row, resolve(header, seq![name])) == seq![field_at(row, p)],
        join_tab(project(row, resolve(header, seq![name]))) == field_at(row, p),
{
    lemma_positions_unique(header, name, p);
    assert(seq![name].drop_last() =~= Seq::<Seq<char>>::empty());
    assert(seq![name].last() == name);
    assert(selected_positions(header, Seq::<Seq<char>>::empty()) == Seq::<int>::empty());
    assert(Seq::<int>::empty() + seq![p] =~= seq![p]);
    assert(selected_positions(header, seq![name]) =~= seq![p]);
    assert(project(row, seq![p]) =~= seq![field_at(row, p)]);
}

/// Projection mode is a function of the header, the delimiter, the
/// selection, the row limit and the data lines: two runs on the same input
/// write the same lines.
pub proof fn lemma_projection_repeatable(
    first: Seq<Seq<char>>,
    second: Seq<Seq<char>>,
    header: Seq<Seq<char>>,
    delimiter: Seq<char>,
    selection: Seq<Seq<char>>,
    top_n: Option<usize>,
    lines: Seq<Seq<char>>,
)
    requires
        first == projection_output(header, delimiter, selection, top_n, lines),
        second == projection_output(header, delimiter, selection, top_n, lines),
    ensures
        first == second,
{
}

/// Under a row limit of `n` at most `n` data lines follow the title line; a
/// limit of zero leaves the title line alone, and no limit keeps every data
/// line.
pub proof fn lemma_row_limit(
    header: Seq<Seq<char>>,
    delimiter: Seq<char>,
    selection: Seq<Seq<char>>,
    top_n: Option<usize>,
    lines: Seq<Seq<char>>,
)
    requires
        header.len() > 0,
    ensures
        projection_output(header, delimiter, selection, top_n, lines).len() == 1 + rows_taken(
            top_n,
            lines.len() as int,
        ),
        top_n == Some(0usize) ==> projection_output(header, delimiter, selection, top_n, lines).len()
            == 1,
        top_n is None ==> projection_output(header, delimiter, selection, top_n, lines).len() == 1
            + lines.len(),
        forall|n: usize|
            top_n == Some(n) && n <= lines.len() ==> projection_output(
                header,
                delimiter,
                selection,
                top_n,
                lines,
            ).len() == 1 + n,
        forall|k: int|
            0 <= k < rows_taken(top_n, lines.len() as int) ==> #[trigger] projection_output(
                header,
                delimiter,
                selection,
                top_n,
                lines,
            )[k + 1] == row_line(lines[k], delimiter, resolve(header, selection)),
{
}

/// A selection none of whose names is in the header resolves to no
/// positions, so every row projects to an empty line.
pub proof fn lemma_unknown_names(
    header: Seq<Seq<char>>,
    selection: Seq<Seq<char>>,
    row: Seq<Seq<char>>,
)
    requires
        selection.len() > 0,
        forall|j: int, q: int|
            0 <= j < selection.len() && 0 <= q < header.len() ==> header[q] != selection[j],
    ensures
        resolve(header, selection) == Seq::<int>::empty(),
        join_tab(project(row, resolve(header, selection))) == Seq::<char>::empty(),
{
    lemma_unknown_selected(header, selection);
}

proof fn lemma_unknown_selected(header: Seq<Seq<char>>, selection: Seq<Seq<char>>)
    requires
        forall|j: int, q: int|
            0 <= j < selection.len() && 0 <= q < header.len() ==> header[q] != selection[j],
    ensures
        selected_positions(header, selection) == Seq::<int>::empty(),
    decreases selection.len(),
{
    if selection.len() > 0 {
        let last = selection.last();
        assert(forall|q: int| 0 <= q < header.len() ==> header[q] != last);
        lemma_positions_absent(header, last);
        let init = selection.drop_last();
        assert forall|j: int, q: int| 0 <= j < init.len() && 0 <= q < header.len() implies header[q]
            != init[j] by {
            assert(init[j] == selection[j]);
        }
        lemma_unknown_selected(header, init);
        assert(Seq::<int>::empty() + Seq::<int>::empty() =~= Seq::<int>::empty());
    }
}

/// A file without a header line gives no output in projection mode,
/// whatever the selection, the limit and the data lines.
pub proof fn lemma_empty_file(
    delimiter: Seq<char>,
    selection: Seq<Seq<char>>,
    top_n: Option<usize>,
    lines: Seq<Seq<char>>,
)
    ensures
        projection_output(Seq::empty(), delimiter, selection, top_n, lines) == Seq::<
            Seq<char>,
        >::empty(),
{
}

} // verus!
