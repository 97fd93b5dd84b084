use vstd::prelude::*;

verus! {

/// The fields of `s` when it is cut at each occurrence of `d`, scanning left
/// to right; `cur` is the part of the current field read so far.
pub open spec fn split_from(s: Seq<char>, d: Seq<char>, cur: Seq<char>) -> Seq<Seq<char>>
    decreases s.len(),
{
    if s.len() == 0 {
        seq![cur]
    } else if d.len() > 0 && d.len() <= s.len() && s.subrange(0, d.len() as int) == d {
        seq![cur] + split_from(s.subrange(d.len() as int, s.len() as int), d, Seq::empty())
    } else {
        split_from(s.subrange(1, s.len() as int), d, cur.push(s[0]))
    }
}

/// The fields of a line under a delimiter. An empty delimiter cuts between
/// every two characters and at both ends.
pub open spec fn fields_of(s: Seq<char>, d: Seq<char>) -> Seq<Seq<char>> {
    if d.len() == 0 {
        seq![Seq::<char>::empty()] + s.map_values(|c: char| seq![c]) + seq![Seq::<char>::empty()]
    } else {
        split_from(s, d, Seq::empty())
    }
}

/// The characters of `s`, in order.
fn chars_of(s: &str) -> (r: Vec<char>)
    ensures
        r@ == s@,
{
    let n = s.unicode_len();
    let mut r: Vec<char> = Vec::new();
    let mut i: usize = 0;
    while i < n
        invariant
            n == s@.len(),
            i <= n,
            r@ == s@.subrange(0, i as int),
        decreases n - i,
    {
        r.push(s.get_char(i));
        i = i + 1;
    }
    r
}


/// Whether `d` occurs in `s` starting at position `i`.
fn occurs_at(s: &Vec<char>, d: &Vec<char>, i: usize) -> (r: bool)
    requires
        i <= s@.len(),
    ensures
        r == (d@.len() <= s@.len() - i && s@.subrange(i as int, i + d@.len()) == d@),
{
    if d.len() > s.len() - i {
        return false;
    }
    let sl = s.len();
    let mut j: usize = 0;
    while j < d.len()
        invariant
            sl == s@.len(),
            i + d@.len() <= s@.len(),
            j <= d@.len(),
            forall|k: int| 0 <= k < j ==> s@[i + k] == d@[k],
        decreases d@.len() - j,
    {
        if s[i + j] != d[j] {
            assert(s@.subrange(i as int, i + d@.len())[j as int] != d@[j as int]);
            return false;
        }
        j = j + 1;
    }
    assert(s@.subrange(i as int, i + d@.len()) =~= d@);
    true
}

/// Cuts `line` into its fields at each occurrence of `delimiter`, as
/// `str::split` does.
pub fn split_line(line: &str, delimiter: &str) -> (r: Vec<String>)
    ensures
        r@.map_values(|f: String| f@) == fields_of(line@, delimiter@),
{
    let s = chars_of(line);
    let d = chars_of(delimiter);
    let n = s.len();
    let mut r: Vec<String> = Vec::new();
    if d.len() == 0 {
        r.push(String::new());
        let mut i: usize = 0;
        while i < n
            invariant
                n == line@.len(),
                s@ == line@,
                i <= n,
                r@.map_values(|f: String| f@) =~= seq![Seq::<char>::empty()]
                    + line@.subrange(0, i as int).map_values(|c: char| seq![c]),
            decreases n - i,
        {
            let ghost before = r@.map_values(|f: String| f@);
            let piece = line.substring_char(i, i + 1);
            r.push(String::from_str(piece));
            assert(r@.map_values(|f: String| f@) =~= before.push(piece@));
            i = i + 1;
            assert(line@.subrange(0, i as int) =~= line@.subrange(0, i - 1).push(line@[i - 1]));
            assert(piece@ =~= seq![line@[i - 1]]);
        }
        r.push(String::new());
        assert(line@.subrange(0, n as int) =~= line@);
        assert(r@.map_values(|f: String| f@) =~= fields_of(line@, delimiter@));
        return r;
    }
    let m = d.len();
    let mut start: usize = 0;
    let mut i: usize = 0;
    assert(line@.subrange(0, n as int) =~= line@);
    assert(line@.subrange(0, 0) =~= Seq::<char>::empty());
    assert(r@.map_values(|f: String| f@) =~= Seq::<Seq<char>>::empty());
    while i < n
        invariant
            n == line@.len(),
            s@ == line@,
            d@ == delimiter@,
            m == d@.len(),
            m > 0,
            start <= i <= n,
            r@.map_values(|f: String| f@) + split_from(
                line@.subrange(i as int, n as int),
                d@,
                line@.subrange(start as int, i as int),
            ) == split_from(line@, d@, Seq::empty()),
        decreases n - i,
    {
        let ghost rest = line@.subrange(i as int, n as int);
        let ghost cur = line@.subrange(start as int, i as int);
        let ghost before = r@.map_values(|f: String| f@);
        if occurs_at(&s, &d, i) {
            assert(rest.subrange(0, m as int) =~= line@.subrange(i as int, i + m));
            assert(rest.subrange(m as int, rest.len() as int) =~= line@.subrange(i + m, n as int));
            let piece = line.substring_char(start, i);
            r.push(String::from_str(piece));
            assert(r@.map_values(|f: String| f@) =~= before.push(cur));
            assert(before.push(cur) + split_from(line@.subrange(i + m, n as int), d@, Seq::empty())
                =~= before + (seq![cur] + split_from(line@.subrange(i + m, n as int), d@, Seq::empty())));
            i = i + m;
            start = i;
            assert(line@.subrange(start as int, i as int) =~= Seq::<char>::empty());
        } else {
            assert(rest.subrange(1, rest.len() as int) =~= line@.subrange(i + 1, n as int));
            assert(cur.push(rest[0]) =~= line@.subrange(start as int, i + 1));
            if m <= n - i {
                assert(rest.subrange(0, m as int) =~= line@.subrange(i as int, i + m));
            }
            i = i + 1;
        }
    }
    let piece = line.substring_char(start, n);
    let ghost before = r@.map_values(|f: String| f@);
    r.push(String::from_str(piece));
    assert(line@.subrange(n as int, n as int) =~= Seq::<char>::empty());
    assert(r@.map_values(|f: String| f@) =~= before.push(piece@));
    assert(before + seq![piece@] =~= before.push(piece@));
    r
}

} // verus!
