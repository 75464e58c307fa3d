//! The cells of a sheet: rows of texts, and the edits made to them.

use vstd::prelude::*;

verus! {

/// The cells after writing `v` at row `r`, column `c`: a cell inside the
/// row is replaced, a cell just past its end is appended, and any other
/// position leaves the cells as they were.
pub open spec fn cell_written(
    rows: Seq<Seq<Seq<char>>>,
    r: int,
    c: int,
    v: Seq<char>,
) -> Seq<Seq<Seq<char>>> {
    if 0 <= r < rows.len() && 0 <= c < rows[r].len() {
        rows.update(r, rows[r].update(c, v))
    } else if 0 <= r < rows.len() && c == rows[r].len() {
        rows.update(r, rows[r].push(v))
    } else {
        rows
    }
}

/// Writing at row `r`, column `c` changes the cells.
pub open spec fn cell_writable(rows: Seq<Seq<Seq<char>>>, r: int, c: int) -> bool {
    0 <= r < rows.len() && 0 <= c <= rows[r].len()
}

/// A row of `width` empty cells.
pub open spec fn blank_row(width: nat) -> Seq<Seq<char>> {
    Seq::new(width, |i: int| Seq::<char>::empty())
}

/// The cells after inserting a blank row of `width` cells at `at`, or at
/// the end where `at` lies beyond it.
pub open spec fn row_inserted(rows: Seq<Seq<Seq<char>>>, at: int, width: nat) -> Seq<
    Seq<Seq<char>>,
> {
    let pos = if at < rows.len() {
        at
    } else {
        rows.len() as int
    };
    rows.insert(pos, blank_row(width))
}

/// The cells after removing row `at`, where there is one.
pub open spec fn row_removed(rows: Seq<Seq<Seq<char>>>, at: int) -> Seq<Seq<Seq<char>>> {
    if 0 <= at < rows.len() {
        rows.remove(at)
    } else {
        rows
    }
}

/// The cell at row `r`, column `c`, where there is one.
pub open spec fn cell_at(rows: Seq<Seq<Seq<char>>>, r: int, c: int) -> Option<Seq<char>> {
    if 0 <= r < rows.len() && 0 <= c < rows[r].len() {
        Some(rows[r][c])
    } else {
        None
    }
}

/// Writes `v` at row `r`, column `c`; tells whether the cells changed.
pub fn write_cell(rows: &mut Vec<Vec<String>>, r: usize, c: usize, v: &str) -> (changed: bool)
    ensures
        final(rows).deep_view() == cell_written(old(rows).deep_view(), r as int, c as int, v@),
        changed == cell_writable(old(rows).deep_view(), r as int, c as int),
{
    if r < rows.len() {
        let n = rows[r].len();
        if c < n {
            let ghost pre = rows.deep_view();
            rows[r].set(c, v.to_owned());
            assert(rows.deep_view() =~~= cell_written(pre, r as int, c as int, v@));
            return true;
        } else if c == n {
            let ghost pre = rows.deep_view();
            rows[r].push(v.to_owned());
            assert(rows.deep_view() =~~= cell_written(pre, r as int, c as int, v@));
            return true;
        }
    }
    false
}

} // verus!

verus! {

/// Inserts a row of `width` empty cells at `at`, or at the end where `at`
/// lies beyond it.
pub fn insert_blank_row(rows: &mut Vec<Vec<String>>, at: usize, width: usize)
    ensures
        final(rows).deep_view() == row_inserted(old(rows).deep_view(), at as int, width as nat),
{
    let mut blank: Vec<String> = Vec::new();
    let mut i: usize = 0;
    while i < width
        invariant
            i <= width,
            blank@.len() == i,
            blank.deep_view() == blank_row(i as nat),
        decreases width - i,
    {
        let e = String::new();
        let ghost prev = blank@;
        blank.push(e);
        i = i + 1;
        assert forall|k: int| 0 <= k < i implies #[trigger] blank@[k]@ == Seq::<char>::empty() by {
            if k < i - 1 {
                assert(blank@[k] == prev[k]);
                assert(blank_row((i - 1) as nat)[k] == prev[k]@);
            }
        }
        assert(blank.deep_view() =~= blank_row(i as nat));
    }
    let pos = if at < rows.len() {
        at
    } else {
        rows.len()
    };
    let ghost pre = rows.deep_view();
    rows.insert(pos, blank);
    assert(rows.deep_view() =~~= row_inserted(pre, at as int, width as nat));
}

/// Removes row `at`, where there is one.
pub fn remove_row(rows: &mut Vec<Vec<String>>, at: usize) -> (removed: bool)
    ensures
        final(rows).deep_view() == row_removed(old(rows).deep_view(), at as int),
        removed == (at < old(rows)@.len()),
{
    if at < rows.len() {
        let ghost pre = rows.deep_view();
        rows.remove(at);
        assert(rows.deep_view() =~~= row_removed(pre, at as int));
        true
    } else {
        false
    }
}

/// A copy of the texts of `v`.
pub fn copy_texts(v: &Vec<String>) -> (c: Vec<String>)
    ensures
        c.deep_view() == v.deep_view(),
{
    let mut c: Vec<String> = Vec::new();
    let mut i: usize = 0;
    while i < v.len()
        invariant
            i <= v@.len(),
            c@.len() == i,
            c.deep_view() == v.deep_view().take(i as int),
        decreases v@.len() - i,
    {
        let e = v[i].clone();
        let ghost prev = c@;
        c.push(e);
        i = i + 1;
        assert forall|k: int| 0 <= k < i implies #[trigger] c@[k]@ == v@[k]@ by {
            if k < i - 1 {
                assert(c@[k] == prev[k]);
                assert(v.deep_view().take(i - 1)[k] == prev[k]@);
            }
        }
        assert(c.deep_view() =~= v.deep_view().take(i as int));
    }
    assert(v.deep_view().take(v@.len() as int) =~= v.deep_view());
    c
}

/// A copy of row `r`, where there is one.
pub fn row_copy(rows: &Vec<Vec<String>>, r: usize) -> (row: Option<Vec<String>>)
    ensures
        match row {
            Some(v) => r < rows@.len() && v.deep_view() == rows.deep_view()[r as int],
            None => r >= rows@.len(),
        },
{
    if r < rows.len() {
        Some(copy_texts(&rows[r]))
    } else {
        None
    }
}

/// A copy of the cell at row `r`, column `c`, where there is one.
pub fn cell_copy(rows: &Vec<Vec<String>>, r: usize, c: usize) -> (cell: Option<String>)
    ensures
        match cell {
            Some(s) => cell_at(rows.deep_view(), r as int, c as int) == Some(s@),
            None => cell_at(rows.deep_view(), r as int, c as int) is None,
        },
{
    if r < rows.len() && c < rows[r].len() {
        Some(rows[r][c].clone())
    } else {
        None
    }
}

} // verus!

verus! {

/// The header row of a sheet's cells: the first row, if there is one.
pub open spec fn header_of(cells: Seq<Seq<Seq<char>>>) -> Seq<Seq<char>> {
    if cells.len() == 0 {
        seq![]
    } else {
        cells[0]
    }
}

/// The data rows of a sheet's cells: all but the first.
pub open spec fn body_of(cells: Seq<Seq<Seq<char>>>) -> Seq<Seq<Seq<char>>> {
    if cells.len() == 0 {
        seq![]
    } else {
        cells.drop_first()
    }
}

/// Splits a sheet's cells into its header row and its data rows.
pub fn split_header(cells: Vec<Vec<String>>) -> (r: (Vec<String>, Vec<Vec<String>>))
    ensures
        r.0.deep_view() == header_of(cells.deep_view()),
        r.1.deep_view() == body_of(cells.deep_view()),
{
    let mut cells = cells;
    if cells.len() == 0 {
        let h: Vec<String> = Vec::new();
        assert(h.deep_view() =~= header_of(cells.deep_view()));
        assert(cells.deep_view() =~= body_of(cells.deep_view()));
        (h, cells)
    } else {
        let ghost pre = cells.deep_view();
        let h = cells.remove(0);
        assert(cells.deep_view() =~= body_of(pre));
        (h, cells)
    }
}

} // verus!

verus! {

/// A row of `width` cells holding `values`, cut or padded with empty
/// cells to that width.
pub open spec fn filled_row(values: Seq<Seq<char>>, width: nat) -> Seq<Seq<char>> {
    Seq::new(
        width,
        |j: int|
            if j < values.len() {
                values[j]
            } else {
                seq![]
            },
    )
}

/// The cells after inserting, at `at`, a row of `width` cells holding
/// `values`; past the end a blank row is appended instead.
pub open spec fn row_restored(
    rows: Seq<Seq<Seq<char>>>,
    at: int,
    values: Seq<Seq<char>>,
    width: nat,
) -> Seq<Seq<Seq<char>>> {
    if 0 <= at <= rows.len() {
        rows.insert(at, filled_row(values, width))
    } else {
        row_inserted(rows, at, width)
    }
}

} // verus!
