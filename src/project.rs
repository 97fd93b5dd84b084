use vstd::prelude::*;

verus! {

/// The contents of a sequence of strings.
pub open spec fn texts(v: Seq<String>) -> Seq<Seq<char>> {
    v.map_values(|s: String| s@)
}

/// Every position of `header` that holds `name`, in increasing order.
pub open spec fn positions_of(header: Seq<Seq<char>>, name: Seq<char>) -> Seq<int>
    decreases header.len(),
{
    if header.len() == 0 {
        Seq::empty()
    } else {
        let rest = positions_of(header.drop_last(), name);
        if header.last() == name {
            rest.push(header.len() - 1)
        } else {
            rest
        }
    }
}

/// The positions of each selected name in turn; a name that the header
/// lacks contributes nothing, one that it holds twice contributes both.
pub open spec fn selected_positions(header: Seq<Seq<char>>, selection: Seq<Seq<char>>) -> Seq<int>
    decreases selection.len(),
{
    if selection.len() == 0 {
        Seq::empty()
    } else {
        selected_positions(header, selection.drop_last()) + positions_of(header, selection.last())
    }
}

/// The positions that a selection resolves to: every column in order when
/// it is empty.
pub open spec fn resolve(header: Seq<Seq<char>>, selection: Seq<Seq<char>>) -> Seq<int> {
    if selection.len() == 0 {
        Seq::new(header.len(), |i: int| i)
    } else {
        selected_positions(header, selection)
    }
}

/// The field of `row` at position `i`, or an empty field where the row is
/// too short.
pub open spec fn field_at(row: Seq<Seq<char>>, i: int) -> Seq<char> {
    if 0 <= i < row.len() {
        row[i]
    } else {
        Seq::empty()
    }
}

/// The fields of `row` at the given positions, in their order.
pub open spec fn project(row: Seq<Seq<char>>, indexes: Seq<int>) -> Seq<Seq<char>> {
    Seq::new(indexes.len(), |k: int| field_at(row, indexes[k]))
}

/// The fields joined by tabs.
pub open spec fn join_tab(fields: Seq<Seq<char>>) -> Seq<char>
    decreases fields.len(),
{
    if fields.len() == 0 {
        Seq::empty()
    } else if fields.len() == 1 {
        fields[0]
    } else {
        join_tab(fields.drop_last()) + seq!['\t'] + fields.last()
    }
}

/// The positions of `name` in `header`.
fn positions_into(header: &Vec<String>, name: &String, out: &mut Vec<usize>)
    ensures
        final(out)@.map_values(|i: usize| i as int) == old(out)@.map_values(|i: usize| i as int)
            + positions_of(texts(header@), name@),
{
    let ghost h = texts(header@);
    let ghost start = old(out)@.map_values(|i: usize| i as int);
    let mut i: usize = 0;
    while i < header.len()
        invariant
            h == texts(header@),
            i <= header@.len(),
            out@.map_values(|i: usize| i as int) == start + positions_of(h.subrange(0, i as int), name@),
        decreases header@.len() - i,
    {
        let ghost before = out@.map_values(|i: usize| i as int);
        assert(h.subrange(0, i + 1).drop_last() =~= h.subrange(0, i as int));
        if header[i] == *name {
            out.push(i);
            assert(out@.map_values(|i: usize| i as int) =~= before.push(i as int));
        }
        i = i + 1;
    }
    assert(h.subrange(0, header@.len() as int) =~= h);
}

/// Resolves a selection of column names to positions in `header`.
pub fn resolve_indexes(header: &Vec<String>, selected: &[String]) -> (r: Vec<usize>)
    ensures
        r@.map_values(|i: usize| i as int) == resolve(texts(header@), texts(selected@)),
        forall|k: int| 0 <= k < r@.len() ==> r@[k] < header@.len(),
{
    let ghost h = texts(header@);
    let ghost sel = texts(selected@);
    let mut r: Vec<usize> = Vec::new();
    if selected.len() == 0 {
        let mut i: usize = 0;
        while i < header.len()
            invariant
                i <= header@.len(),
                r@.map_values(|i: usize| i as int) =~= Seq::new(i as nat, |j: int| j),
            decreases header@.len() - i,
        {
            let ghost before = r@.map_values(|i: usize| i as int);
            r.push(i);
            assert(r@.map_values(|i: usize| i as int) =~= before.push(i as int));
            i = i + 1;
        }
        proof { lemma_indexes_in_bounds(h, sel, r@); }
        return r;
    }
    let mut j: usize = 0;
    while j < selected.len()
        invariant
            h == texts(header@),
            sel == texts(selected@),
            j <= sel.len(),
            r@.map_values(|i: usize| i as int) == selected_positions(h, sel.subrange(0, j as int)),
        decreases sel.len() - j,
    {
        assert(sel.subrange(0, j + 1).drop_last() =~= sel.subrange(0, j as int));
        positions_into(header, &selected[j], &mut r);
        j = j + 1;
    }
    assert(sel.subrange(0, sel.len() as int) =~= sel);
    proof { lemma_indexes_in_bounds(h, sel, r@); }
    r
}

proof fn lemma_positions_in_bounds(header: Seq<Seq<char>>, name: Seq<char>)
    ensures
        forall|k: int|
            0 <= k < positions_of(header, name).len() ==> 0 <= #[trigger] positions_of(header, name)[k]
                < header.len(),
    decreases header.len(),
{
    if header.len() > 0 {
        lemma_positions_in_bounds(header.drop_last(), name);
        let rest = positions_of(header.drop_last(), name);
        assert forall|k: int| 0 <= k < positions_of(header, name).len() implies 0
            <= #[trigger] positions_of(header, name)[k] < header.len() by {
            if k < rest.len() {
                assert(rest[k] < header.drop_last().len());
            }
        }
    }
}

proof fn lemma_selected_in_bounds(header: Seq<Seq<char>>, selection: Seq<Seq<char>>)
    ensures
        forall|k: int|
            0 <= k < selected_positions(header, selection).len() ==> 0
                <= #[trigger] selected_positions(header, selection)[k] < header.len(),
    decreases selection.len(),
{
    if selection.len() > 0 {
        lemma_selected_in_bounds(header, selection.drop_last());
        lemma_positions_in_bounds(header, selection.last());
        let a = selected_positions(header, selection.drop_last());
        let b = positions_of(header, selection.last());
        assert forall|k: int| 0 <= k < selected_positions(header, selection).len() implies 0
            <= #[trigger] selected_positions(header, selection)[k] < header.len() by {
            if k < a.len() {
                assert(selected_positions(header, selection)[k] == a[k]);
            } else {
                assert(selected_positions(header, selection)[k] == b[k - a.len()]);
            }
        }
    }
}

proof fn lemma_indexes_in_bounds(header: Seq<Seq<char>>, selection: Seq<Seq<char>>, r: Seq<usize>)
    requires
        r.map_values(|i: usize| i as int) == resolve(header, selection),
    ensures
        forall|k: int| 0 <= k < r.len() ==> r[k] < header.len(),
{
    lemma_selected_in_bounds(header, selection);
    assert forall|k: int| 0 <= k < r.len() implies r[k] < header.len() by {
        let m = r.map_values(|i: usize| i as int);
        assert(m.len() == r.len());
        assert(m[k] == r[k] as int);
        assert(resolve(header, selection)[k] == r[k] as int);
        if selection.len() != 0 {
            assert(0 <= selected_positions(header, selection)[k] < header.len());
        }
    }
}


/// The output line for `row`: its fields at `indexes`, joined by tabs; a
/// position past the end of the row gives an empty field.
pub fn join_projected(row: &Vec<String>, indexes: &Vec<usize>) -> (r: String)
    ensures
        r@ == join_tab(project(texts(row@), indexes@.map_values(|i: usize| i as int))),
{
    let ghost fields = project(texts(row@), indexes@.map_values(|i: usize| i as int));
    let mut out = String::new();
    let mut k: usize = 0;
    while k < indexes.len()
        invariant
            fields == project(texts(row@), indexes@.map_values(|i: usize| i as int)),
            fields.len() == indexes@.len(),
            k <= indexes@.len(),
            out@ == join_tab(fields.subrange(0, k as int)),
        decreases indexes@.len() - k,
    {
        let ghost prev = fields.subrange(0, k as int);
        let i = indexes[k];
        assert(fields.subrange(0, k + 1).drop_last() =~= prev);
        assert(indexes@.map_values(|i: usize| i as int)[k as int] == i as int);
        if k > 0 {
            proof { reveal_strlit("\t"); }
            out.append("\t");
        }
        if i < row.len() {
            out.append(row[i].as_str());
        }
        proof {
            if k == 0 {
                assert(out@ =~= fields.subrange(0, 1)[0]);
            } else {
                assert(out@ =~= join_tab(prev) + seq!['\t'] + fields[k as int]);
            }
        }
        k = k + 1;
    }
    assert(fields.subrange(0, fields.len() as int) =~= fields);
    out
}

} // verus!
