//! Measuring cells: column widths and row heights.
//!
//! All widths count Unicode scalar values per physical line, not bytes
//! and not terminal display width.
use vstd::prelude::*;
use vstd::math::max;
use vstd::string::StrSliceExecFns;
use crate::lines::line_split;

verus! {

/// Greatest length of any line in `ls` (0 when there are none).
pub open spec fn lines_max_len(ls: Seq<Seq<char>>) -> int
    decreases ls.len(),
{
    if ls.len() == 0 {
        0
    } else {
        max(lines_max_len(ls.drop_last()), ls.last().len() as int)
    }
}

/// Greatest physical-line length of the cell text `c`.
pub open spec fn cell_width(c: Seq<char>) -> int {
    lines_max_len(line_split(c))
}

/// Number of physical lines of the cell text `c`.
pub open spec fn cell_height(c: Seq<char>) -> int {
    line_split(c).len() as int
}

/// Greatest `cell_width` over the cells (0 when there are none).
pub open spec fn cells_max_width(cells: Seq<Seq<char>>) -> int
    decreases cells.len(),
{
    if cells.len() == 0 {
        0
    } else {
        max(cells_max_width(cells.drop_last()), cell_width(cells.last()))
    }
}

/// Greatest `cell_height` over the cells (0 when there are none).
pub open spec fn cells_max_height(cells: Seq<Seq<char>>) -> int
    decreases cells.len(),
{
    if cells.len() == 0 {
        0
    } else {
        max(cells_max_height(cells.drop_last()), cell_height(cells.last()))
    }
}

/// The shared column width of the single-row table: the greatest
/// physical-line length over all cells, and at least 1.
pub open spec fn table_width(cells: Seq<Seq<char>>) -> int {
    max(1, cells_max_width(cells))
}

/// The row height of the single-row table: the greatest line count over
/// all cells, and at least 1.
pub open spec fn table_height(cells: Seq<Seq<char>>) -> int {
    max(1, cells_max_height(cells))
}

/// `lines_max_len` bounds every line and is reached by one of them.
pub proof fn lemma_lines_max_len(ls: Seq<Seq<char>>)
    ensures
        lines_max_len(ls) >= 0,
        forall|i: int| 0 <= i < ls.len() ==> (#[trigger] ls[i]).len() <= lines_max_len(ls),
        ls.len() > 0 ==> exists|i: int|
            0 <= i < ls.len() && (#[trigger] ls[i]).len() == lines_max_len(ls),
        ls.len() == 0 ==> lines_max_len(ls) == 0,
    decreases ls.len(),
{
    if ls.len() > 0 {
        lemma_lines_max_len(ls.drop_last());
        assert forall|i: int| 0 <= i < ls.len() implies (#[trigger] ls[i]).len()
            <= lines_max_len(ls) by {
            if i < ls.len() - 1 {
                assert(ls[i] == ls.drop_last()[i]);
            }
        }
        if ls.len() == 1 || lines_max_len(ls) == ls.last().len() {
            assert(ls[ls.len() - 1].len() == lines_max_len(ls));
        } else {
            let j = choose|j: int|
                0 <= j < ls.drop_last().len() && (#[trigger] ls.drop_last()[j]).len()
                    == lines_max_len(ls.drop_last());
            assert(ls[j].len() == lines_max_len(ls));
        }
    }
}

/// `cells_max_width` bounds every cell's width and is reached by one of them.
pub proof fn lemma_cells_max_width(cells: Seq<Seq<char>>)
    ensures
        cells_max_width(cells) >= 0,
        forall|k: int| 0 <= k < cells.len() ==> cell_width(#[trigger] cells[k])
            <= cells_max_width(cells),
        cells.len() > 0 ==> exists|k: int|
            0 <= k < cells.len() && cell_width(#[trigger] cells[k]) == cells_max_width(cells),
    decreases cells.len(),
{
    if cells.len() > 0 {
        lemma_cells_max_width(cells.drop_last());
        lemma_lines_max_len(line_split(cells.last()));
        assert forall|k: int| 0 <= k < cells.len() implies cell_width(#[trigger] cells[k])
            <= cells_max_width(cells) by {
            if k < cells.len() - 1 {
                assert(cells[k] == cells.drop_last()[k]);
            }
        }
        if cells.len() == 1 || cells_max_width(cells) == cell_width(cells.last()) {
            assert(cell_width(cells[cells.len() - 1]) == cells_max_width(cells));
        } else {
            let j = choose|j: int|
                0 <= j < cells.drop_last().len() && cell_width(#[trigger] cells.drop_last()[j])
                    == cells_max_width(cells.drop_last());
            assert(cell_width(cells[j]) == cells_max_width(cells));
        }
    }
}

/// `cells_max_height` bounds every cell's line count and is reached by
/// one of them.
pub proof fn lemma_cells_max_height(cells: Seq<Seq<char>>)
    ensures
        cells_max_height(cells) >= 0,
        forall|k: int| 0 <= k < cells.len() ==> cell_height(#[trigger] cells[k])
            <= cells_max_height(cells),
        cells.len() > 0 ==> exists|k: int|
            0 <= k < cells.len() && cell_height(#[trigger] cells[k]) == cells_max_height(cells),
    decreases cells.len(),
{
    if cells.len() > 0 {
        lemma_cells_max_height(cells.drop_last());
        assert forall|k: int| 0 <= k < cells.len() implies cell_height(#[trigger] cells[k])
            <= cells_max_height(cells) by {
            if k < cells.len() - 1 {
                assert(cells[k] == cells.drop_last()[k]);
            }
        }
        if cells.len() == 1 || cells_max_height(cells) == cell_height(cells.last()) {
            assert(cell_height(cells[cells.len() - 1]) == cells_max_height(cells));
        } else {
            let j = choose|j: int|
                0 <= j < cells.drop_last().len() && cell_height(#[trigger] cells.drop_last()[j])
                    == cells_max_height(cells.drop_last());
            assert(cell_height(cells[j]) == cells_max_height(cells));
        }
    }
}

/// Greatest line length within one split cell.
pub(crate) fn split_cell_max_len(ls: &Vec<String>) -> (m: usize)
    ensures
        m as int == lines_max_len(ls.deep_view()),
{
    let mut m: usize = 0;
    let mut i: usize = 0;
    proof {
        assert(ls.deep_view().take(0) =~= Seq::<Seq<char>>::empty());
    }
    while i < ls.len()
        invariant
            i <= ls.len(),
            m as int == lines_max_len(ls.deep_view().take(i as int)),
        decreases ls.len() - i,
    {
        let l = ls[i].as_str().unicode_len();
        proof {
            let dv = ls.deep_view();
            assert(dv.take(i as int + 1).drop_last() =~= dv.take(i as int));
            assert(dv.take(i as int + 1).last() == dv[i as int]);
            assert(dv[i as int] == ls[i as int]@);
        }
        if l > m {
            m = l;
        }
        i += 1;
    }
    proof {
        assert(ls.deep_view().take(ls.len() as int) =~= ls.deep_view());
    }
    m
}

/// Splits every cell of `cells` into its physical lines.
pub(crate) fn split_all(cells: &Vec<String>) -> (r: Vec<Vec<String>>)
    ensures
        r.deep_view() == cells.deep_view().map_values(|c: Seq<char>| line_split(c)),
        r.len() == cells.len(),
{
    let mut r: Vec<Vec<String>> = Vec::new();
    let mut i: usize = 0;
    while i < cells.len()
        invariant
            i <= cells.len(),
            r.len() == i,
            r.deep_view() =~= cells.deep_view().map_values(|c: Seq<char>| line_split(c)).take(
                i as int,
            ),
        decreases cells.len() - i,
    {
        let ghost prev = r.deep_view();
        r.push(crate::lines::split_lines(cells[i].as_str()));
        proof {
            let mapped = cells.deep_view().map_values(|c: Seq<char>| line_split(c));
            assert(r.deep_view() =~= prev.push(line_split(cells[i as int]@)));
            assert(cells.deep_view()[i as int] == cells[i as int]@);
            assert(r.deep_view() =~= mapped.take(i as int + 1));
        }
        i += 1;
    }
    proof {
        let mapped = cells.deep_view().map_values(|c: Seq<char>| line_split(c));
        assert(mapped.take(cells.len() as int) =~= mapped);
    }
    r
}

/// The shared column width of the cells whose split lines are `lns`.
pub(crate) fn width_of_split(lns: &Vec<Vec<String>>, Ghost(cells): Ghost<Seq<Seq<char>>>) -> (w:
    usize)
    requires
        lns.deep_view() == cells.map_values(|c: Seq<char>| line_split(c)),
    ensures
        w as int == table_width(cells),
{
    let mut w: usize = 1;
    let mut i: usize = 0;
    proof {
        assert(cells.take(0) =~= Seq::<Seq<char>>::empty());
    }
    while i < lns.len()
        invariant
            i <= lns.len(),
            lns.deep_view() == cells.map_values(|c: Seq<char>| line_split(c)),
            w as int == table_width(cells.take(i as int)),
        decreases lns.len() - i,
    {
        let m = split_cell_max_len(&lns[i]);
        proof {
            assert(lns.deep_view().len() == lns@.len());
            assert(cells.map_values(|c: Seq<char>| line_split(c)).len() == cells.len());
            assert(i < cells.len());
            assert(lns.deep_view()[i as int] == lns[i as int].deep_view());
            assert(lns.deep_view()[i as int] == line_split(cells[i as int]));
            assert(cells.take(i as int + 1).drop_last() =~= cells.take(i as int));
            assert(cells.take(i as int + 1).last() == cells[i as int]);
        }
        if m > w {
            w = m;
        }
        i += 1;
    }
    proof {
        assert(cells.map_values(|c: Seq<char>| line_split(c)).len() == cells.len());
        assert(cells.take(cells.len() as int) =~= cells);
    }
    w
}

/// The row height of the cells whose split lines are `lns`.
pub(crate) fn height_of_split(lns: &Vec<Vec<String>>, Ghost(cells): Ghost<Seq<Seq<char>>>) -> (h:
    usize)
    requires
        lns.deep_view() == cells.map_values(|c: Seq<char>| line_split(c)),
    ensures
        h as int == table_height(cells),
{
    let mut h: usize = 1;
    let mut i: usize = 0;
    proof {
        assert(cells.take(0) =~= Seq::<Seq<char>>::empty());
    }
    while i < lns.len()
        invariant
            i <= lns.len(),
            lns.deep_view() == cells.map_values(|c: Seq<char>| line_split(c)),
            h as int == table_height(cells.take(i as int)),
        decreases lns.len() - i,
    {
        let m = lns[i].len();
        proof {
            assert(lns.deep_view().len() == lns@.len());
            assert(cells.map_values(|c: Seq<char>| line_split(c)).len() == cells.len());
            assert(i < cells.len());
            assert(lns.deep_view()[i as int] == lns[i as int].deep_view());
            assert(lns.deep_view()[i as int] == line_split(cells[i as int]));
            assert(lns[i as int].deep_view().len() == lns[i as int]@.len());
            assert(cells.take(i as int + 1).drop_last() =~= cells.take(i as int));
            assert(cells.take(i as int + 1).last() == cells[i as int]);
        }
        if m > h {
            h = m;
        }
        i += 1;
    }
    proof {
        assert(cells.map_values(|c: Seq<char>| line_split(c)).len() == cells.len());
        assert(cells.take(cells.len() as int) =~= cells);
    }
    h
}

} // verus!
