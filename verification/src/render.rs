//! The rendered form of each table, as mathematical sequences of
//! characters.
//!
//! These definitions pin down, character by character, the text that the
//! formatting operations return: the single-row table for a sequence of
//! cells, and the two-column key/value table for a sequence of entries.
use vstd::prelude::*;
use vstd::math::max;
use crate::SimpleBorderStyle;
use crate::lines::line_split;
use crate::measure::{table_height, table_width};
use crate::text::{join_with, pad_left, repeat_char};

verus! {

/// A horizontal border of the single-row table: `left`, then `cols` runs
/// of `w` copies of `h` joined by `j`, then `right`.
pub open spec fn border_line(left: char, h: char, j: char, right: char, cols: nat, w: nat) -> Seq<
    char,
> {
    seq![left] + join_with(Seq::new(cols, |i: int| repeat_char(h, w)), j) + seq![right]
}

/// Top border of the single-row table.
pub open spec fn slice_top_line(st: SimpleBorderStyle, cols: nat, w: nat) -> Seq<char> {
    border_line(st.top_left, st.horizontal, st.horizontal_down, st.top_right, cols, w)
}

/// Bottom border of the single-row table.
pub open spec fn slice_bottom_line(st: SimpleBorderStyle, cols: nat, w: nat) -> Seq<char> {
    border_line(st.bottom_left, st.horizontal, st.horizontal_up, st.bottom_right, cols, w)
}

/// Line `i` of the split cell `ls`, or the empty text when the cell has
/// fewer lines.
pub open spec fn line_at(ls: Seq<Seq<char>>, i: int) -> Seq<char> {
    if 0 <= i < ls.len() {
        ls[i]
    } else {
        Seq::empty()
    }
}

/// Content line `i` of the single-row table: each cell's line `i`
/// right-aligned to the shared width, the columns separated and bounded
/// by the vertical glyph.
pub open spec fn slice_content_line(
    st: SimpleBorderStyle,
    cells: Seq<Seq<char>>,
    i: int,
    w: nat,
) -> Seq<char> {
    seq![st.vertical] + join_with(
        Seq::new(cells.len(), |j: int| pad_left(line_at(line_split(cells[j]), i), w)),
        st.vertical,
    ) + seq![st.vertical]
}

/// Content lines `0 .. upto` of the single-row table, each followed by
/// one line feed.
pub open spec fn slice_body(st: SimpleBorderStyle, cells: Seq<Seq<char>>, w: nat, upto: nat) -> Seq<
    char,
>
    decreases upto,
{
    if upto == 0 {
        Seq::empty()
    } else {
        slice_body(st, cells, w, (upto - 1) as nat) + slice_content_line(
            st,
            cells,
            upto - 1,
            w,
        ) + seq!['\n']
    }
}

/// The full single-row table: top border, `table_height` content lines,
/// bottom border.  Every line but the bottom border is followed by one
/// line feed; nothing follows the bottom border.
pub open spec fn spec_format_slice(st: SimpleBorderStyle, cells: Seq<Seq<char>>) -> Seq<char> {
    let w = table_width(cells) as nat;
    let hgt = table_height(cells) as nat;
    slice_top_line(st, cells.len(), w) + seq!['\n'] + slice_body(st, cells, w, hgt)
        + slice_bottom_line(st, cells.len(), w)
}

/// A horizontal border of the key/value table: `left`, a run for the key
/// column, `mid`, a run for the value column, `right`.
pub open spec fn kv_border(left: char, h: char, mid: char, right: char, kw: nat, vw: nat) -> Seq<
    char,
> {
    seq![left] + repeat_char(h, kw) + seq![mid] + repeat_char(h, vw) + seq![right]
}

/// Top border of the key/value table.
pub open spec fn kv_top_line(st: SimpleBorderStyle, kw: nat, vw: nat) -> Seq<char> {
    kv_border(st.top_left, st.horizontal, st.horizontal_down, st.top_right, kw, vw)
}

/// Bottom border of the key/value table.
pub open spec fn kv_bottom_line(st: SimpleBorderStyle, kw: nat, vw: nat) -> Seq<char> {
    kv_border(st.bottom_left, st.horizontal, st.horizontal_up, st.bottom_right, kw, vw)
}

/// Divider drawn between consecutive entries of the key/value table.
pub open spec fn kv_divider_line(st: SimpleBorderStyle, kw: nat, vw: nat) -> Seq<char> {
    kv_border(st.vertical_right, st.horizontal, st.cross, st.vertical_left, kw, vw)
}

/// Height of one entry: the greater of its key's and its value's
/// physical-line counts.
pub open spec fn entry_height(e: (Seq<char>, Seq<char>)) -> int {
    max(line_split(e.0).len() as int, line_split(e.1).len() as int)
}

/// Content line `i` of one entry: key line and value line, each
/// right-aligned to its column, separated and bounded by the vertical
/// glyph.
pub open spec fn kv_content_line(
    st: SimpleBorderStyle,
    e: (Seq<char>, Seq<char>),
    i: int,
    kw: nat,
    vw: nat,
) -> Seq<char> {
    seq![st.vertical] + pad_left(line_at(line_split(e.0), i), kw) + seq![st.vertical] + pad_left(
        line_at(line_split(e.1), i),
        vw,
    ) + seq![st.vertical]
}

/// Content lines `0 .. upto` of one entry, each followed by one line feed.
pub open spec fn kv_entry_lines(
    st: SimpleBorderStyle,
    e: (Seq<char>, Seq<char>),
    kw: nat,
    vw: nat,
    upto: nat,
) -> Seq<char>
    decreases upto,
{
    if upto == 0 {
        Seq::empty()
    } else {
        kv_entry_lines(st, e, kw, vw, (upto - 1) as nat) + kv_content_line(
            st,
            e,
            upto - 1,
            kw,
            vw,
        ) + seq!['\n']
    }
}

/// One rendered entry: all of its content lines.
pub open spec fn kv_entry(st: SimpleBorderStyle, e: (Seq<char>, Seq<char>), kw: nat, vw: nat) -> Seq<
    char,
> {
    kv_entry_lines(st, e, kw, vw, entry_height(e) as nat)
}

/// The rendered entries in order, with one divider line between
/// consecutive entries.
pub open spec fn kv_rows(
    st: SimpleBorderStyle,
    rows: Seq<(Seq<char>, Seq<char>)>,
    kw: nat,
    vw: nat,
) -> Seq<char>
    decreases rows.len(),
{
    if rows.len() == 0 {
        Seq::empty()
    } else if rows.len() == 1 {
        kv_entry(st, rows[0], kw, vw)
    } else {
        kv_rows(st, rows.drop_last(), kw, vw) + kv_divider_line(st, kw, vw) + seq!['\n'] + kv_entry(
            st,
            rows.last(),
            kw,
            vw,
        )
    }
}

/// Rendering one more entry appends one divider and the entry.
pub proof fn lemma_kv_rows_push(
    st: SimpleBorderStyle,
    rows: Seq<(Seq<char>, Seq<char>)>,
    e: (Seq<char>, Seq<char>),
    kw: nat,
    vw: nat,
)
    ensures
        rows.len() == 0 ==> kv_rows(st, rows.push(e), kw, vw) == kv_entry(st, e, kw, vw),
        rows.len() >= 1 ==> kv_rows(st, rows.push(e), kw, vw) == kv_rows(st, rows, kw, vw)
            + kv_divider_line(st, kw, vw) + seq!['\n'] + kv_entry(st, e, kw, vw),
{
    assert(rows.push(e).drop_last() =~= rows);
    assert(rows.push(e).last() == e);
    if rows.len() == 0 {
        assert(rows.push(e)[0] == e);
    }
}

/// The key texts of the entries, in order.
pub open spec fn entry_keys(entries: Seq<(Seq<char>, Seq<char>)>) -> Seq<Seq<char>> {
    entries.map_values(|e: (Seq<char>, Seq<char>)| e.0)
}

/// The value texts of the entries, in order.
pub open spec fn entry_vals(entries: Seq<(Seq<char>, Seq<char>)>) -> Seq<Seq<char>> {
    entries.map_values(|e: (Seq<char>, Seq<char>)| e.1)
}

/// Key-column width: the greater of the key header's length and every
/// key's physical-line length, and at least 1.
pub open spec fn key_col_width(entries: Seq<(Seq<char>, Seq<char>)>, kh: Seq<char>) -> int {
    max(kh.len() as int, table_width(entry_keys(entries)))
}

/// Value-column width: the greater of the value header's length and
/// every value's physical-line length, and at least 1.
pub open spec fn val_col_width(entries: Seq<(Seq<char>, Seq<char>)>, vh: Seq<char>) -> int {
    max(vh.len() as int, table_width(entry_vals(entries)))
}

/// The entries that are rendered: the header entry first, unless both
/// header texts are empty, in which case no header row exists.
pub open spec fn kv_row_seq(
    entries: Seq<(Seq<char>, Seq<char>)>,
    kh: Seq<char>,
    vh: Seq<char>,
) -> Seq<(Seq<char>, Seq<char>)> {
    if kh.len() == 0 && vh.len() == 0 {
        entries
    } else {
        seq![(kh, vh)] + entries
    }
}

/// The full key/value table: top border, the rendered entries separated
/// by divider lines, bottom border.  Every line but the bottom border is
/// followed by one line feed; nothing follows the bottom border.
pub open spec fn spec_format_kv(
    st: SimpleBorderStyle,
    entries: Seq<(Seq<char>, Seq<char>)>,
    kh: Seq<char>,
    vh: Seq<char>,
) -> Seq<char> {
    let kw = key_col_width(entries, kh) as nat;
    let vw = val_col_width(entries, vh) as nat;
    kv_top_line(st, kw, vw) + seq!['\n'] + kv_rows(st, kv_row_seq(entries, kh, vh), kw, vw)
        + kv_bottom_line(st, kw, vw)
}

} // verus!
