//! The laws of the table layout, stated and proved over the rendering
//! definitions that the formatting operations' contracts use.
use vstd::prelude::*;
use crate::SimpleBorderStyle;
use crate::lines::{
    lemma_line_split_lines, lemma_line_split_no_nl, lemma_line_split_prepend, line_split,
};
use crate::measure::{
    cell_height, cell_width, cells_max_height, cells_max_width, lemma_cells_max_height,
    lemma_cells_max_width, lemma_lines_max_len, lines_max_len, table_height, table_width,
};
use crate::render::{
    border_line, entry_height, kv_border, kv_bottom_line, kv_content_line, kv_divider_line,
    kv_entry, kv_entry_lines, kv_row_seq, kv_rows, kv_top_line, line_at, slice_body,
    slice_bottom_line, slice_content_line, slice_top_line, spec_format_kv, spec_format_slice,
};
use crate::text::{join_with, lemma_join_with_len, lemma_pad_left_len, pad_left, repeat_char};

verus! {

/// `s` contains no line feed.
pub open spec fn nl_free(s: Seq<char>) -> bool {
    forall|k: int| 0 <= k < s.len() ==> s[k] != '\n'
}

/// Width correctness: the shared column width of the single-row table is
/// the greatest physical-line length over all cells (counted in Unicode
/// scalar values), and at least 1; it is 1 exactly when no line is wider.
pub proof fn lemma_width_correctness(cells: Seq<Seq<char>>)
    ensures
        table_width(cells) >= 1,
        forall|k: int, i: int|
            0 <= k < cells.len() && 0 <= i < line_split(#[trigger] cells[k]).len()
                ==> #[trigger] line_split(cells[k])[i].len() <= table_width(cells),
        table_width(cells) == 1 || exists|k: int, i: int|
            0 <= k < cells.len() && 0 <= i < line_split(#[trigger] cells[k]).len()
                && #[trigger] line_split(cells[k])[i].len() == table_width(cells),
{
    lemma_cells_max_width(cells);
    assert forall|k: int, i: int|
        0 <= k < cells.len() && 0 <= i < line_split(#[trigger] cells[k]).len()
        implies #[trigger] line_split(cells[k])[i].len() <= table_width(cells) by {
        lemma_lines_max_len(line_split(cells[k]));
    }
    if table_width(cells) != 1 {
        let k = choose|k: int|
            0 <= k < cells.len() && cell_width(#[trigger] cells[k]) == cells_max_width(cells);
        lemma_lines_max_len(line_split(cells[k]));
        let i = choose|i: int|
            0 <= i < line_split(cells[k]).len() && (#[trigger] line_split(cells[k])[i]).len()
                == cell_width(cells[k]);
        assert(line_split(cells[k])[i].len() == table_width(cells));
    }
}

/// Joining line-feed-free parts with a line-feed-free separator stays
/// line-feed-free.
pub proof fn lemma_join_with_nl_free(parts: Seq<Seq<char>>, sep: char)
    requires
        forall|j: int| 0 <= j < parts.len() ==> nl_free(#[trigger] parts[j]),
        sep != '\n',
    ensures
        nl_free(join_with(parts, sep)),
    decreases parts.len(),
{
    if parts.len() <= 1 {
    } else {
        lemma_join_with_nl_free(parts.drop_last(), sep);
    }
}

/// A border of the single-row table is one line-feed-free line of a
/// fixed length.
pub proof fn lemma_border_line_props(left: char, h: char, j: char, right: char, cols: nat, w: nat)
    requires
        left != '\n',
        h != '\n',
        j != '\n',
        right != '\n',
    ensures
        nl_free(border_line(left, h, j, right, cols, w)),
        border_line(left, h, j, right, cols, w).len() == if cols == 0 {
            2int
        } else {
            cols * (w + 1) + 1int
        },
{
    let parts = Seq::new(cols, |i: int| repeat_char(h, w));
    assert(forall|p: int| 0 <= p < parts.len() ==> (#[trigger] parts[p]).len() == w);
    assert forall|p: int| 0 <= p < parts.len() implies nl_free(#[trigger] parts[p]) by {
        assert(forall|k: int| 0 <= k < w ==> repeat_char(h, w)[k] == h);
    }
    lemma_join_with_nl_free(parts, j);
    lemma_join_with_len(parts, j, w);
    if cols > 0 {
        assert(cols * (w + 1) == cols * w + cols) by (nonlinear_arith);
    }
}

/// A content line of the single-row table is one line-feed-free line of
/// the same fixed length as the borders.
pub proof fn lemma_slice_content_line_props(
    st: SimpleBorderStyle,
    cells: Seq<Seq<char>>,
    i: int,
    w: nat,
)
    requires
        st.newline_free(),
        table_width(cells) <= w,
    ensures
        nl_free(slice_content_line(st, cells, i, w)),
        slice_content_line(st, cells, i, w).len() == if cells.len() == 0 {
            2int
        } else {
            cells.len() * (w + 1) + 1int
        },
{
    let parts = Seq::new(cells.len(), |j: int| pad_left(line_at(line_split(cells[j]), i), w));
    lemma_width_correctness(cells);
    assert forall|p: int| 0 <= p < parts.len() implies (#[trigger] parts[p]).len() == w
        && nl_free(parts[p]) by {
        let l = line_at(line_split(cells[p]), i);
        lemma_line_split_lines(cells[p]);
        lemma_lines_max_len(line_split(cells[p]));
        lemma_cells_max_width(cells);
        assert(l.len() <= w);
        lemma_pad_left_len(l, w);
        assert forall|k: int| 0 <= k < parts[p].len() implies parts[p][k] != '\n' by {
            if k < w - l.len() {
                assert(parts[p][k] == ' ');
            } else {
                assert(parts[p][k] == l[k - (w - l.len())]);
            }
        }
    }
    lemma_join_with_nl_free(parts, st.vertical);
    lemma_join_with_len(parts, st.vertical, w);
    if cells.len() > 0 {
        assert(cells.len() * (w + 1) == cells.len() * w + cells.len()) by (nonlinear_arith);
    }
}

/// The length that every line of the single-row table has.
pub open spec fn slice_row_len(cells: Seq<Seq<char>>) -> int {
    if cells.len() == 0 {
        2
    } else {
        cells.len() * (table_width(cells) + 1) + 1
    }
}

/// The physical lines of the table body followed by any text: the
/// content lines, then the lines of the rest.
pub proof fn lemma_slice_body_lines(
    st: SimpleBorderStyle,
    cells: Seq<Seq<char>>,
    w: nat,
    upto: nat,
    rest: Seq<char>,
)
    requires
        st.newline_free(),
        table_width(cells) <= w,
    ensures
        line_split(slice_body(st, cells, w, upto) + rest) == Seq::new(
            upto,
            |i: int| slice_content_line(st, cells, i, w),
        ) + line_split(rest),
    decreases upto,
{
    if upto == 0 {
        assert(slice_body(st, cells, w, upto) + rest =~= rest);
        assert(Seq::new(0nat, |i: int| slice_content_line(st, cells, i, w))
            =~= Seq::<Seq<char>>::empty());
    } else {
        let prev = (upto - 1) as nat;
        let line = slice_content_line(st, cells, upto - 1, w);
        let rest2 = line + seq!['\n'] + rest;
        assert(slice_body(st, cells, w, upto) + rest =~= slice_body(st, cells, w, prev) + rest2);
        lemma_slice_body_lines(st, cells, w, prev, rest2);
        lemma_slice_content_line_props(st, cells, upto - 1, w);
        lemma_line_split_prepend(line, rest);
        assert(line_split(rest2) == seq![line] + line_split(rest));
        assert(Seq::new(upto, |i: int| slice_content_line(st, cells, i, w)) =~= Seq::new(
            prev,
            |i: int| slice_content_line(st, cells, i, w),
        ) + seq![line]);
        assert(Seq::new(prev, |i: int| slice_content_line(st, cells, i, w)) + seq![line]
            + line_split(rest) =~= Seq::new(prev, |i: int| slice_content_line(st, cells, i, w)) + (
        seq![line] + line_split(rest)));
    }
}

/// The physical lines of the single-row table: the top border, the
/// content lines in order, the bottom border.
pub proof fn lemma_slice_line_structure(st: SimpleBorderStyle, cells: Seq<Seq<char>>)
    requires
        st.newline_free(),
    ensures
        ({
            let w = table_width(cells) as nat;
            let h = table_height(cells) as nat;
            line_split(spec_format_slice(st, cells)) == seq![slice_top_line(st, cells.len(), w)]
                + Seq::new(h, |i: int| slice_content_line(st, cells, i, w)) + seq![
                slice_bottom_line(st, cells.len(), w),
            ]
        }),
{
    let w = table_width(cells) as nat;
    let h = table_height(cells) as nat;
    let top = slice_top_line(st, cells.len(), w);
    let bottom = slice_bottom_line(st, cells.len(), w);
    let body = slice_body(st, cells, w, h);
    lemma_border_line_props(st.top_left, st.horizontal, st.horizontal_down, st.top_right,
        cells.len(), w);
    lemma_border_line_props(st.bottom_left, st.horizontal, st.horizontal_up, st.bottom_right,
        cells.len(), w);
    assert(spec_format_slice(st, cells) =~= top + seq!['\n'] + (body + bottom));
    lemma_line_split_prepend(top, body + bottom);
    lemma_slice_body_lines(st, cells, w, h, bottom);
    lemma_line_split_no_nl(bottom);
    assert(bottom.len() > 0);
    assert(seq![top] + (Seq::new(h, |i: int| slice_content_line(st, cells, i, w))
        + seq![bottom]) =~= seq![top] + Seq::new(h, |i: int| slice_content_line(st, cells, i, w))
        + seq![bottom]);
}

/// Border symmetry: every line of the single-row table — top border,
/// each content line, bottom border — has the same length.
pub proof fn lemma_border_symmetry(st: SimpleBorderStyle, cells: Seq<Seq<char>>)
    requires
        st.newline_free(),
    ensures
        ({
            let out_lines = line_split(spec_format_slice(st, cells));
            &&& out_lines.len() == table_height(cells) + 2
            &&& forall|i: int|
                0 <= i < out_lines.len() ==> (#[trigger] out_lines[i]).len() == slice_row_len(
                    cells,
                )
        }),
{
    let w = table_width(cells) as nat;
    let h = table_height(cells) as nat;
    lemma_slice_line_structure(st, cells);
    lemma_border_line_props(st.top_left, st.horizontal, st.horizontal_down, st.top_right,
        cells.len(), w);
    lemma_border_line_props(st.bottom_left, st.horizontal, st.horizontal_up, st.bottom_right,
        cells.len(), w);
    let out_lines = line_split(spec_format_slice(st, cells));
    assert forall|i: int| 0 <= i < out_lines.len() implies (#[trigger] out_lines[i]).len()
        == slice_row_len(cells) by {
        if 1 <= i < out_lines.len() - 1 {
            lemma_slice_content_line_props(st, cells, i - 1, w);
            assert(out_lines[i] == slice_content_line(st, cells, i - 1, w));
        }
    }
}

/// Idempotence of glyph mapping: wrapping the formatted output of one
/// style as a single cell of another style leaves the inner content's
/// characters unchanged.  Each physical line of the inner table
/// reappears whole in the outer table, between the outer style's
/// vertical glyphs, preceded only by alignment spaces.
pub proof fn lemma_glyph_idempotence(
    st1: SimpleBorderStyle,
    st2: SimpleBorderStyle,
    cells: Seq<Seq<char>>,
)
    requires
        st1.newline_free(),
        st2.newline_free(),
    ensures
        ({
            let inner = spec_format_slice(st1, cells);
            let outer = spec_format_slice(st2, seq![inner]);
            let w = table_width(seq![inner]) as nat;
            forall|i: int|
                0 <= i < line_split(inner).len() ==> line_split(outer)[i + 1] == seq![st2.vertical]
                    + repeat_char(' ', (w - (#[trigger] line_split(inner)[i]).len()) as nat)
                    + line_split(inner)[i] + seq![st2.vertical]
        }),
{
    let inner = spec_format_slice(st1, cells);
    let cs = seq![inner];
    let outer = spec_format_slice(st2, cs);
    let w = table_width(cs) as nat;
    let h = table_height(cs) as nat;
    lemma_slice_line_structure(st2, cs);
    lemma_width_correctness(cs);
    lemma_cells_max_height(cs);
    assert(cs[0] == inner);
    assert(cell_height(cs[0]) <= table_height(cs));
    assert forall|i: int| 0 <= i < line_split(inner).len() implies line_split(outer)[i + 1]
        == seq![st2.vertical] + repeat_char(
        ' ',
        (w - (#[trigger] line_split(inner)[i]).len()) as nat,
    ) + line_split(inner)[i] + seq![st2.vertical] by {
        let l = line_split(inner)[i];
        assert(i < h);
        assert(line_split(outer)[i + 1] == slice_content_line(st2, cs, i, w));
        let parts = Seq::new(cs.len(), |j: int| pad_left(line_at(line_split(cs[j]), i), w));
        assert(parts.len() == 1);
        assert(join_with(parts, st2.vertical) == parts[0]);
        assert(line_at(line_split(cs[0]), i) == l);
        assert(l.len() <= w);
        if l.len() == w {
            assert(repeat_char(' ', (w - l.len()) as nat) =~= Seq::<char>::empty());
            assert(pad_left(l, w) =~= repeat_char(' ', (w - l.len()) as nat) + l);
        }
        assert(slice_content_line(st2, cs, i, w) =~= seq![st2.vertical] + repeat_char(
            ' ',
            (w - l.len()) as nat,
        ) + l + seq![st2.vertical]);
    }
}

/// A border of the key/value table is one line-feed-free line of length
/// `kw + vw + 3`.
pub proof fn lemma_kv_border_props(left: char, h: char, mid: char, right: char, kw: nat, vw: nat)
    requires
        left != '\n',
        h != '\n',
        mid != '\n',
        right != '\n',
    ensures
        nl_free(kv_border(left, h, mid, right, kw, vw)),
        kv_border(left, h, mid, right, kw, vw).len() == kw + vw + 3,
{
    assert(forall|k: int| 0 <= k < kw ==> repeat_char(h, kw)[k] == h);
    assert(forall|k: int| 0 <= k < vw ==> repeat_char(h, vw)[k] == h);
}

/// A content line of one key/value entry is free of line feeds.
pub proof fn lemma_kv_content_line_nl_free(
    st: SimpleBorderStyle,
    e: (Seq<char>, Seq<char>),
    i: int,
    kw: nat,
    vw: nat,
)
    requires
        st.newline_free(),
    ensures
        nl_free(kv_content_line(st, e, i, kw, vw)),
{
    let kl = line_at(line_split(e.0), i);
    let vl = line_at(line_split(e.1), i);
    lemma_line_split_lines(e.0);
    lemma_line_split_lines(e.1);
    assert forall|k: int| 0 <= k < pad_left(kl, kw).len() implies pad_left(kl, kw)[k] != '\n' by {
        if kl.len() < kw && k < kw - kl.len() {
            assert(pad_left(kl, kw)[k] == ' ');
        }
    }
    assert forall|k: int| 0 <= k < pad_left(vl, vw).len() implies pad_left(vl, vw)[k] != '\n' by {
        if vl.len() < vw && k < vw - vl.len() {
            assert(pad_left(vl, vw)[k] == ' ');
        }
    }
}

/// When both columns are wide enough for the entry, each of its content
/// lines has length `kw + vw + 3`.
pub proof fn lemma_kv_content_line_len(
    st: SimpleBorderStyle,
    e: (Seq<char>, Seq<char>),
    i: int,
    kw: nat,
    vw: nat,
)
    requires
        cell_width(e.0) <= kw,
        cell_width(e.1) <= vw,
    ensures
        kv_content_line(st, e, i, kw, vw).len() == kw + vw + 3,
{
    let kl = line_at(line_split(e.0), i);
    let vl = line_at(line_split(e.1), i);
    lemma_lines_max_len(line_split(e.0));
    lemma_lines_max_len(line_split(e.1));
    assert(kl.len() <= kw);
    assert(vl.len() <= vw);
    lemma_pad_left_len(kl, kw);
    lemma_pad_left_len(vl, vw);
}

/// The physical lines of one entry followed by any text: the entry's
/// content lines, then the lines of the rest.
pub proof fn lemma_kv_entry_lines_split(
    st: SimpleBorderStyle,
    e: (Seq<char>, Seq<char>),
    kw: nat,
    vw: nat,
    upto: nat,
    rest: Seq<char>,
)
    requires
        st.newline_free(),
    ensures
        line_split(kv_entry_lines(st, e, kw, vw, upto) + rest) == Seq::new(
            upto,
            |i: int| kv_content_line(st, e, i, kw, vw),
        ) + line_split(rest),
    decreases upto,
{
    if upto == 0 {
        assert(kv_entry_lines(st, e, kw, vw, upto) + rest =~= rest);
        assert(Seq::new(0nat, |i: int| kv_content_line(st, e, i, kw, vw))
            =~= Seq::<Seq<char>>::empty());
    } else {
        let prev = (upto - 1) as nat;
        let line = kv_content_line(st, e, upto - 1, kw, vw);
        let rest2 = line + seq!['\n'] + rest;
        assert(kv_entry_lines(st, e, kw, vw, upto) + rest =~= kv_entry_lines(st, e, kw, vw, prev)
            + rest2);
        lemma_kv_entry_lines_split(st, e, kw, vw, prev, rest2);
        lemma_kv_content_line_nl_free(st, e, upto - 1, kw, vw);
        lemma_line_split_prepend(line, rest);
        assert(Seq::new(upto, |i: int| kv_content_line(st, e, i, kw, vw)) =~= Seq::new(
            prev,
            |i: int| kv_content_line(st, e, i, kw, vw),
        ) + seq![line]);
        assert(Seq::new(prev, |i: int| kv_content_line(st, e, i, kw, vw)) + seq![line]
            + line_split(rest) =~= Seq::new(prev, |i: int| kv_content_line(st, e, i, kw, vw)) + (
        seq![line] + line_split(rest)));
    }
}

/// All content lines of one entry, as a sequence of lines.
pub open spec fn kv_entry_line_seq(
    st: SimpleBorderStyle,
    e: (Seq<char>, Seq<char>),
    kw: nat,
    vw: nat,
) -> Seq<Seq<char>> {
    Seq::new(entry_height(e) as nat, |i: int| kv_content_line(st, e, i, kw, vw))
}

/// All physical lines of the rendered entries: each entry's content
/// lines, with one divider line between consecutive entries.
pub open spec fn kv_rows_lines(
    st: SimpleBorderStyle,
    rows: Seq<(Seq<char>, Seq<char>)>,
    kw: nat,
    vw: nat,
) -> Seq<Seq<char>>
    decreases rows.len(),
{
    if rows.len() == 0 {
        Seq::empty()
    } else if rows.len() == 1 {
        kv_entry_line_seq(st, rows[0], kw, vw)
    } else {
        kv_rows_lines(st, rows.drop_last(), kw, vw) + seq![kv_divider_line(st, kw, vw)]
            + kv_entry_line_seq(st, rows.last(), kw, vw)
    }
}

/// The physical lines of the rendered entries followed by any text.
pub proof fn lemma_kv_rows_split(
    st: SimpleBorderStyle,
    rows: Seq<(Seq<char>, Seq<char>)>,
    kw: nat,
    vw: nat,
    rest: Seq<char>,
)
    requires
        st.newline_free(),
    ensures
        line_split(kv_rows(st, rows, kw, vw) + rest) == kv_rows_lines(st, rows, kw, vw)
            + line_split(rest),
    decreases rows.len(),
{
    if rows.len() == 0 {
        assert(kv_rows(st, rows, kw, vw) + rest =~= rest);
    } else if rows.len() == 1 {
        assert(kv_rows(st, rows, kw, vw) == kv_entry(st, rows[0], kw, vw));
        lemma_kv_entry_lines_split(st, rows[0], kw, vw, entry_height(rows[0]) as nat, rest);
    } else {
        let div = kv_divider_line(st, kw, vw);
        let last = rows.last();
        let rest2 = div + seq!['\n'] + (kv_entry(st, last, kw, vw) + rest);
        assert(kv_rows(st, rows, kw, vw) + rest =~= kv_rows(st, rows.drop_last(), kw, vw) + rest2);
        lemma_kv_rows_split(st, rows.drop_last(), kw, vw, rest2);
        lemma_kv_border_props(st.vertical_right, st.horizontal, st.cross, st.vertical_left, kw, vw);
        lemma_line_split_prepend(div, kv_entry(st, last, kw, vw) + rest);
        lemma_kv_entry_lines_split(st, last, kw, vw, entry_height(last) as nat, rest);
        assert(line_split(rest2) == seq![div] + (kv_entry_line_seq(st, last, kw, vw) + line_split(
            rest,
        )));
        assert(kv_rows_lines(st, rows.drop_last(), kw, vw) + (seq![div] + (kv_entry_line_seq(
            st,
            last,
            kw,
            vw,
        ) + line_split(rest))) =~= kv_rows_lines(st, rows, kw, vw) + line_split(rest));
    }
}

/// The physical lines of the key/value table: the top border, the
/// entries' lines with dividers between entries, the bottom border.
pub proof fn lemma_kv_line_structure(
    st: SimpleBorderStyle,
    entries: Seq<(Seq<char>, Seq<char>)>,
    kh: Seq<char>,
    vh: Seq<char>,
)
    requires
        st.newline_free(),
    ensures
        ({
            let kw = crate::render::key_col_width(entries, kh) as nat;
            let vw = crate::render::val_col_width(entries, vh) as nat;
            line_split(spec_format_kv(st, entries, kh, vh)) == seq![kv_top_line(st, kw, vw)]
                + kv_rows_lines(st, kv_row_seq(entries, kh, vh), kw, vw) + seq![
                kv_bottom_line(st, kw, vw),
            ]
        }),
{
    let kw = crate::render::key_col_width(entries, kh) as nat;
    let vw = crate::render::val_col_width(entries, vh) as nat;
    let rows = kv_row_seq(entries, kh, vh);
    let top = kv_top_line(st, kw, vw);
    let bottom = kv_bottom_line(st, kw, vw);
    let body = kv_rows(st, rows, kw, vw);
    lemma_kv_border_props(st.top_left, st.horizontal, st.horizontal_down, st.top_right, kw, vw);
    lemma_kv_border_props(st.bottom_left, st.horizontal, st.horizontal_up, st.bottom_right, kw,
        vw);
    assert(spec_format_kv(st, entries, kh, vh) =~= top + seq!['\n'] + (body + bottom));
    lemma_line_split_prepend(top, body + bottom);
    lemma_kv_rows_split(st, rows, kw, vw, bottom);
    lemma_line_split_no_nl(bottom);
    assert(bottom.len() > 0);
    assert(seq![top] + (kv_rows_lines(st, rows, kw, vw) + seq![bottom]) =~= seq![top]
        + kv_rows_lines(st, rows, kw, vw) + seq![bottom]);
}

/// Number of divider and content lines of the rendered entries.
pub open spec fn kv_rows_line_count(rows: Seq<(Seq<char>, Seq<char>)>) -> int
    decreases rows.len(),
{
    if rows.len() == 0 {
        0
    } else if rows.len() == 1 {
        entry_height(rows[0])
    } else {
        kv_rows_line_count(rows.drop_last()) + 1 + entry_height(rows.last())
    }
}

/// `kv_rows_lines` holds exactly `kv_rows_line_count` lines.
pub proof fn lemma_kv_rows_lines_count(
    st: SimpleBorderStyle,
    rows: Seq<(Seq<char>, Seq<char>)>,
    kw: nat,
    vw: nat,
)
    ensures
        kv_rows_lines(st, rows, kw, vw).len() == kv_rows_line_count(rows),
    decreases rows.len(),
{
    if rows.len() > 1 {
        lemma_kv_rows_lines_count(st, rows.drop_last(), kw, vw);
    }
}

/// Prepending one entry adds its height, plus one divider when any other
/// entry follows.
pub proof fn lemma_kv_rows_count_cons(e: (Seq<char>, Seq<char>), rows: Seq<(Seq<char>, Seq<char>)>)
    ensures
        kv_rows_line_count(seq![e] + rows) == entry_height(e) + if rows.len() == 0 {
            0int
        } else {
            1 + kv_rows_line_count(rows)
        },
    decreases rows.len(),
{
    let s = seq![e] + rows;
    if rows.len() == 0 {
        assert(s =~= seq![e]);
        assert(s[0] == e);
    } else {
        assert(s.drop_last() =~= seq![e] + rows.drop_last());
        assert(s.last() == rows.last());
        lemma_kv_rows_count_cons(e, rows.drop_last());
        if rows.len() == 1 {
            assert(rows[0] == rows.last());
        }
    }
}

/// Header suppression: with both header texts empty, no header row is
/// rendered, and the output holds exactly the header row's lines and one
/// divider line fewer than the same data rendered under headers (the
/// divider only when there is at least one data entry).
pub proof fn lemma_header_suppression(
    st: SimpleBorderStyle,
    entries: Seq<(Seq<char>, Seq<char>)>,
    kh: Seq<char>,
    vh: Seq<char>,
)
    requires
        st.newline_free(),
        kh.len() > 0 || vh.len() > 0,
    ensures
        kv_row_seq(entries, Seq::<char>::empty(), Seq::<char>::empty()) == entries,
        line_split(spec_format_kv(st, entries, kh, vh)).len() == line_split(
            spec_format_kv(st, entries, Seq::<char>::empty(), Seq::<char>::empty()),
        ).len() + entry_height((kh, vh)) + if entries.len() == 0 {
            0int
        } else {
            1int
        },
{
    let kwh = crate::render::key_col_width(entries, kh) as nat;
    let vwh = crate::render::val_col_width(entries, vh) as nat;
    let kwp = crate::render::key_col_width(entries, Seq::<char>::empty()) as nat;
    let vwp = crate::render::val_col_width(entries, Seq::<char>::empty()) as nat;
    lemma_kv_line_structure(st, entries, kh, vh);
    lemma_kv_line_structure(st, entries, Seq::<char>::empty(), Seq::<char>::empty());
    lemma_kv_rows_lines_count(st, kv_row_seq(entries, kh, vh), kwh, vwh);
    lemma_kv_rows_lines_count(st, entries, kwp, vwp);
    assert(kv_row_seq(entries, kh, vh) == seq![(kh, vh)] + entries);
    lemma_kv_rows_count_cons((kh, vh), entries);
}

/// Border symmetry of the key/value table: every line — top border,
/// every content line, every divider, bottom border — has the same
/// length, the two column widths plus the three vertical glyphs.
pub proof fn lemma_kv_border_symmetry(
    st: SimpleBorderStyle,
    entries: Seq<(Seq<char>, Seq<char>)>,
    kh: Seq<char>,
    vh: Seq<char>,
)
    requires
        st.newline_free(),
    ensures
        ({
            let out_lines = line_split(spec_format_kv(st, entries, kh, vh));
            forall|i: int|
                0 <= i < out_lines.len() ==> (#[trigger] out_lines[i]).len()
                    == crate::render::key_col_width(entries, kh) + crate::render::val_col_width(
                    entries,
                    vh,
                ) + 3
        }),
{
    let kw = crate::render::key_col_width(entries, kh) as nat;
    let vw = crate::render::val_col_width(entries, vh) as nat;
    let rows = kv_row_seq(entries, kh, vh);
    lemma_kv_line_structure(st, entries, kh, vh);
    lemma_kv_border_props(st.top_left, st.horizontal, st.horizontal_down, st.top_right, kw, vw);
    lemma_kv_border_props(st.bottom_left, st.horizontal, st.horizontal_up, st.bottom_right, kw,
        vw);
    assert forall|r: int| 0 <= r < rows.len() implies cell_width((#[trigger] rows[r]).0) <= kw
        && cell_width(rows[r].1) <= vw by {
        lemma_row_width_bounds(entries, kh, vh, r);
    }
    lemma_kv_rows_lines_len_all(st, rows, kw, vw);
    let out_lines = line_split(spec_format_kv(st, entries, kh, vh));
    let mid = kv_rows_lines(st, rows, kw, vw);
    assert forall|i: int| 0 <= i < out_lines.len() implies (#[trigger] out_lines[i]).len() == kw
        + vw + 3 by {
        if 1 <= i < out_lines.len() - 1 {
            assert(out_lines[i] == mid[i - 1]);
        }
    }
}

/// Every row of the rendered sequence fits its column: header lines are
/// never longer than the header text, and entry cells never wider than
/// the widest cell.
proof fn lemma_row_width_bounds(
    entries: Seq<(Seq<char>, Seq<char>)>,
    kh: Seq<char>,
    vh: Seq<char>,
    r: int,
)
    requires
        0 <= r < kv_row_seq(entries, kh, vh).len(),
    ensures
        cell_width(kv_row_seq(entries, kh, vh)[r].0) <= crate::render::key_col_width(entries, kh),
        cell_width(kv_row_seq(entries, kh, vh)[r].1) <= crate::render::val_col_width(entries, vh),
{
    let rows = kv_row_seq(entries, kh, vh);
    let keys = crate::render::entry_keys(entries);
    let vals = crate::render::entry_vals(entries);
    lemma_cells_max_width(keys);
    lemma_cells_max_width(vals);
    let headered = !(kh.len() == 0 && vh.len() == 0);
    let off: int = if headered {
        1
    } else {
        0
    };
    if headered && r == 0 {
        assert(rows[0] == (kh, vh));
        lemma_cell_width_le_len(kh);
        lemma_cell_width_le_len(vh);
    } else {
        assert(rows[r] == entries[r - off]);
        assert(keys[r - off] == entries[r - off].0);
        assert(vals[r - off] == entries[r - off].1);
        assert(cell_width(entries[r - off].0) <= cells_max_width(keys));
        assert(cell_width(entries[r - off].1) <= cells_max_width(vals));
    }
}

/// No physical line of a text is longer than the text itself.
pub proof fn lemma_cell_width_le_len(c: Seq<char>)
    ensures
        cell_width(c) <= c.len(),
{
    lemma_line_split_lines(c);
    lemma_lines_max_len(line_split(c));
    if line_split(c).len() > 0 {
        let i = choose|i: int|
            0 <= i < line_split(c).len() && (#[trigger] line_split(c)[i]).len() == lines_max_len(
                line_split(c),
            );
        assert(line_split(c)[i].len() <= c.len());
    }
}

/// Every line among the rendered entries' lines has length `kw + vw + 3`.
proof fn lemma_kv_rows_lines_len_all(
    st: SimpleBorderStyle,
    rows: Seq<(Seq<char>, Seq<char>)>,
    kw: nat,
    vw: nat,
)
    requires
        st.newline_free(),
        forall|r: int|
            0 <= r < rows.len() ==> cell_width((#[trigger] rows[r]).0) <= kw && cell_width(
                rows[r].1,
            ) <= vw,
    ensures
        forall|i: int|
            0 <= i < kv_rows_lines(st, rows, kw, vw).len()
                ==> (#[trigger] kv_rows_lines(st, rows, kw, vw)[i]).len() == kw + vw + 3,
    decreases rows.len(),
{
    if rows.len() == 0 {
    } else if rows.len() == 1 {
        assert forall|i: int| 0 <= i < kv_rows_lines(st, rows, kw, vw).len()
            implies (#[trigger] kv_rows_lines(st, rows, kw, vw)[i]).len() == kw + vw + 3 by {
            lemma_kv_content_line_len(st, rows[0], i, kw, vw);
        }
    } else {
        lemma_kv_rows_lines_len_all(st, rows.drop_last(), kw, vw);
        lemma_kv_border_props(st.vertical_right, st.horizontal, st.cross, st.vertical_left, kw,
            vw);
        let front = kv_rows_lines(st, rows.drop_last(), kw, vw);
        assert forall|i: int| 0 <= i < kv_rows_lines(st, rows, kw, vw).len()
            implies (#[trigger] kv_rows_lines(st, rows, kw, vw)[i]).len() == kw + vw + 3 by {
            if i < front.len() {
                assert(kv_rows_lines(st, rows, kw, vw)[i] == front[i]);
            } else if i == front.len() {
                assert(kv_rows_lines(st, rows, kw, vw)[i] == kv_divider_line(st, kw, vw));
            } else {
                assert(kv_rows_lines(st, rows, kw, vw)[i] == kv_entry_line_seq(
                    st,
                    rows.last(),
                    kw,
                    vw,
                )[i - front.len() - 1]);
                lemma_kv_content_line_len(st, rows.last(), i - front.len() - 1, kw, vw);
            }
        }
    }
}

/// `b` stands in style `t` where `a` stands in style `s`: either the two
/// characters are the same content character, or `a` is one of `s`'s
/// glyphs and `b` is the corresponding glyph of `t`.
pub open spec fn glyphs_correspond(s: SimpleBorderStyle, t: SimpleBorderStyle, a: char, b: char) -> bool {
    ||| a == b
    ||| (a == s.vertical && b == t.vertical)
    ||| (a == s.horizontal && b == t.horizontal)
    ||| (a == s.horizontal_up && b == t.horizontal_up)
    ||| (a == s.horizontal_down && b == t.horizontal_down)
    ||| (a == s.vertical_right && b == t.vertical_right)
    ||| (a == s.vertical_left && b == t.vertical_left)
    ||| (a == s.top_left && b == t.top_left)
    ||| (a == s.top_right && b == t.top_right)
    ||| (a == s.bottom_left && b == t.bottom_left)
    ||| (a == s.bottom_right && b == t.bottom_right)
    ||| (a == s.cross && b == t.cross)
}

/// `y` is `x` with every glyph of `s` replaced by the corresponding
/// glyph of `t`, position by position.
pub open spec fn texts_correspond(
    s: SimpleBorderStyle,
    t: SimpleBorderStyle,
    x: Seq<char>,
    y: Seq<char>,
) -> bool {
    &&& x.len() == y.len()
    &&& forall|p: int| 0 <= p < x.len() ==> glyphs_correspond(s, t, x[p], y[p])
}

proof fn lemma_correspond_concat(
    s: SimpleBorderStyle,
    t: SimpleBorderStyle,
    x1: Seq<char>,
    y1: Seq<char>,
    x2: Seq<char>,
    y2: Seq<char>,
)
    requires
        texts_correspond(s, t, x1, y1),
        texts_correspond(s, t, x2, y2),
    ensures
        texts_correspond(s, t, x1 + x2, y1 + y2),
{
    assert forall|p: int| 0 <= p < (x1 + x2).len() implies glyphs_correspond(
        s,
        t,
        (x1 + x2)[p],
        (y1 + y2)[p],
    ) by {
        if p < x1.len() {
            assert((x1 + x2)[p] == x1[p]);
            assert((y1 + y2)[p] == y1[p]);
        } else {
            assert((x1 + x2)[p] == x2[p - x1.len()]);
            assert((y1 + y2)[p] == y2[p - x1.len()]);
        }
    }
}

proof fn lemma_correspond_join(
    s: SimpleBorderStyle,
    t: SimpleBorderStyle,
    xs: Seq<Seq<char>>,
    ys: Seq<Seq<char>>,
    sa: char,
    sb: char,
)
    requires
        xs.len() == ys.len(),
        forall|j: int| 0 <= j < xs.len() ==> texts_correspond(s, t, #[trigger] xs[j], ys[j]),
        glyphs_correspond(s, t, sa, sb),
    ensures
        texts_correspond(s, t, join_with(xs, sa), join_with(ys, sb)),
    decreases xs.len(),
{
    if xs.len() == 0 {
    } else if xs.len() == 1 {
        assert(texts_correspond(s, t, xs[0], ys[0]));
    } else {
        assert(forall|j: int|
            0 <= j < xs.len() - 1 ==> #[trigger] xs.drop_last()[j] == xs[j] && ys.drop_last()[j]
                == ys[j]);
        lemma_correspond_join(s, t, xs.drop_last(), ys.drop_last(), sa, sb);
        assert(texts_correspond(s, t, seq![sa], seq![sb]));
        lemma_correspond_concat(s, t, join_with(xs.drop_last(), sa), join_with(ys.drop_last(), sb),
            seq![sa], seq![sb]);
        lemma_correspond_concat(s, t, join_with(xs.drop_last(), sa) + seq![sa], join_with(
            ys.drop_last(),
            sb,
        ) + seq![sb], xs.last(), ys.last());
    }
}

proof fn lemma_correspond_border(
    s: SimpleBorderStyle,
    t: SimpleBorderStyle,
    la: char,
    lb: char,
    ja: char,
    jb: char,
    ra: char,
    rb: char,
    cols: nat,
    w: nat,
)
    requires
        glyphs_correspond(s, t, la, lb),
        glyphs_correspond(s, t, s.horizontal, t.horizontal),
        glyphs_correspond(s, t, ja, jb),
        glyphs_correspond(s, t, ra, rb),
    ensures
        texts_correspond(s, t, border_line(la, s.horizontal, ja, ra, cols, w), border_line(lb,
            t.horizontal, jb, rb, cols, w)),
{
    let xs = Seq::new(cols, |i: int| repeat_char(s.horizontal, w));
    let ys = Seq::new(cols, |i: int| repeat_char(t.horizontal, w));
    assert forall|j: int| 0 <= j < xs.len() implies texts_correspond(s, t, #[trigger] xs[j],
        ys[j]) by {
        assert(forall|k: int| 0 <= k < w ==> repeat_char(s.horizontal, w)[k] == s.horizontal);
        assert(forall|k: int| 0 <= k < w ==> repeat_char(t.horizontal, w)[k] == t.horizontal);
    }
    lemma_correspond_join(s, t, xs, ys, ja, jb);
    assert(texts_correspond(s, t, seq![la], seq![lb]));
    assert(texts_correspond(s, t, seq![ra], seq![rb]));
    lemma_correspond_concat(s, t, seq![la], seq![lb], join_with(xs, ja), join_with(ys, jb));
    lemma_correspond_concat(s, t, seq![la] + join_with(xs, ja), seq![lb] + join_with(ys, jb),
        seq![ra], seq![rb]);
}

proof fn lemma_correspond_content_line(
    s: SimpleBorderStyle,
    t: SimpleBorderStyle,
    cells: Seq<Seq<char>>,
    i: int,
    w: nat,
)
    ensures
        texts_correspond(s, t, slice_content_line(s, cells, i, w), slice_content_line(t, cells, i,
            w)),
{
    let parts = Seq::new(cells.len(), |j: int| pad_left(line_at(line_split(cells[j]), i), w));
    assert forall|j: int| 0 <= j < parts.len() implies texts_correspond(s, t, #[trigger] parts[j],
        parts[j]) by {
    }
    lemma_correspond_join(s, t, parts, parts, s.vertical, t.vertical);
    assert(texts_correspond(s, t, seq![s.vertical], seq![t.vertical]));
    lemma_correspond_concat(s, t, seq![s.vertical], seq![t.vertical], join_with(parts, s.vertical),
        join_with(parts, t.vertical));
    lemma_correspond_concat(s, t, seq![s.vertical] + join_with(parts, s.vertical),
        seq![t.vertical] + join_with(parts, t.vertical), seq![s.vertical], seq![t.vertical]);
}

proof fn lemma_correspond_body(
    s: SimpleBorderStyle,
    t: SimpleBorderStyle,
    cells: Seq<Seq<char>>,
    w: nat,
    upto: nat,
)
    ensures
        texts_correspond(s, t, slice_body(s, cells, w, upto), slice_body(t, cells, w, upto)),
    decreases upto,
{
    if upto > 0 {
        lemma_correspond_body(s, t, cells, w, (upto - 1) as nat);
        lemma_correspond_content_line(s, t, cells, upto - 1, w);
        lemma_correspond_concat(s, t, slice_body(s, cells, w, (upto - 1) as nat), slice_body(t,
            cells, w, (upto - 1) as nat), slice_content_line(s, cells, upto - 1, w),
            slice_content_line(t, cells, upto - 1, w));
        assert(texts_correspond(s, t, seq!['\n'], seq!['\n']));
        lemma_correspond_concat(s, t, slice_body(s, cells, w, (upto - 1) as nat)
            + slice_content_line(s, cells, upto - 1, w), slice_body(t, cells, w, (upto - 1) as nat)
            + slice_content_line(t, cells, upto - 1, w), seq!['\n'], seq!['\n']);
    }
}

/// Style substitutability, character by character: two styles render the
/// same cells into texts of the same length that differ only by glyph
/// substitution — at every position, either the same content character
/// stands in both, or the two styles' corresponding glyphs do.
pub proof fn lemma_style_substitutability(
    s: SimpleBorderStyle,
    t: SimpleBorderStyle,
    cells: Seq<Seq<char>>,
)
    ensures
        spec_format_slice(s, cells).len() == spec_format_slice(t, cells).len(),
        forall|p: int|
            0 <= p < spec_format_slice(s, cells).len() ==> glyphs_correspond(
                s,
                t,
                #[trigger] spec_format_slice(s, cells)[p],
                spec_format_slice(t, cells)[p],
            ),
{
    let w = table_width(cells) as nat;
    let h = table_height(cells) as nat;
    lemma_correspond_border(s, t, s.top_left, t.top_left, s.horizontal_down, t.horizontal_down,
        s.top_right, t.top_right, cells.len(), w);
    lemma_correspond_border(s, t, s.bottom_left, t.bottom_left, s.horizontal_up, t.horizontal_up,
        s.bottom_right, t.bottom_right, cells.len(), w);
    lemma_correspond_body(s, t, cells, w, h);
    assert(texts_correspond(s, t, seq!['\n'], seq!['\n']));
    let tops = slice_top_line(s, cells.len(), w);
    let topt = slice_top_line(t, cells.len(), w);
    lemma_correspond_concat(s, t, tops, topt, seq!['\n'], seq!['\n']);
    lemma_correspond_concat(s, t, tops + seq!['\n'], topt + seq!['\n'], slice_body(s, cells, w, h),
        slice_body(t, cells, w, h));
    lemma_correspond_concat(s, t, tops + seq!['\n'] + slice_body(s, cells, w, h), topt
        + seq!['\n'] + slice_body(t, cells, w, h), slice_bottom_line(s, cells.len(), w),
        slice_bottom_line(t, cells.len(), w));
}

/// Style substitutability, layout: two line-feed-free styles render the
/// same cells into the same number of physical lines, every line of the
/// same length in both.
pub proof fn lemma_style_layout_invariance(
    s: SimpleBorderStyle,
    t: SimpleBorderStyle,
    cells: Seq<Seq<char>>,
)
    requires
        s.newline_free(),
        t.newline_free(),
    ensures
        line_split(spec_format_slice(s, cells)).len() == line_split(spec_format_slice(t,
            cells)).len(),
        forall|i: int|
            0 <= i < line_split(spec_format_slice(s, cells)).len()
                ==> (#[trigger] line_split(spec_format_slice(s, cells))[i]).len() == line_split(
                spec_format_slice(t, cells),
            )[i].len(),
{
    lemma_border_symmetry(s, cells);
    lemma_border_symmetry(t, cells);
}

proof fn lemma_correspond_kv_border(
    s: SimpleBorderStyle,
    t: SimpleBorderStyle,
    la: char,
    lb: char,
    ma: char,
    mb: char,
    ra: char,
    rb: char,
    kw: nat,
    vw: nat,
)
    requires
        glyphs_correspond(s, t, la, lb),
        glyphs_correspond(s, t, s.horizontal, t.horizontal),
        glyphs_correspond(s, t, ma, mb),
        glyphs_correspond(s, t, ra, rb),
    ensures
        texts_correspond(s, t, kv_border(la, s.horizontal, ma, ra, kw, vw), kv_border(lb,
            t.horizontal, mb, rb, kw, vw)),
{
    assert(forall|k: int| 0 <= k < kw ==> repeat_char(s.horizontal, kw)[k] == s.horizontal);
    assert(forall|k: int| 0 <= k < kw ==> repeat_char(t.horizontal, kw)[k] == t.horizontal);
    assert(forall|k: int| 0 <= k < vw ==> repeat_char(s.horizontal, vw)[k] == s.horizontal);
    assert(forall|k: int| 0 <= k < vw ==> repeat_char(t.horizontal, vw)[k] == t.horizontal);
    lemma_correspond_concat(s, t, seq![la], seq![lb], repeat_char(s.horizontal, kw), repeat_char(
        t.horizontal,
        kw,
    ));
    lemma_correspond_concat(s, t, seq![la] + repeat_char(s.horizontal, kw), seq![lb] + repeat_char(
        t.horizontal,
        kw,
    ), seq![ma], seq![mb]);
    lemma_correspond_concat(s, t, seq![la] + repeat_char(s.horizontal, kw) + seq![ma], seq![lb]
        + repeat_char(t.horizontal, kw) + seq![mb], repeat_char(s.horizontal, vw), repeat_char(
        t.horizontal,
        vw,
    ));
    lemma_correspond_concat(s, t, seq![la] + repeat_char(s.horizontal, kw) + seq![ma] + repeat_char(
        s.horizontal,
        vw,
    ), seq![lb] + repeat_char(t.horizontal, kw) + seq![mb] + repeat_char(t.horizontal, vw),
        seq![ra], seq![rb]);
}

proof fn lemma_correspond_kv_content_line(
    s: SimpleBorderStyle,
    t: SimpleBorderStyle,
    e: (Seq<char>, Seq<char>),
    i: int,
    kw: nat,
    vw: nat,
)
    ensures
        texts_correspond(s, t, kv_content_line(s, e, i, kw, vw), kv_content_line(t, e, i, kw, vw)),
{
    let kl = pad_left(line_at(line_split(e.0), i), kw);
    let vl = pad_left(line_at(line_split(e.1), i), vw);
    lemma_correspond_concat(s, t, seq![s.vertical], seq![t.vertical], kl, kl);
    lemma_correspond_concat(s, t, seq![s.vertical] + kl, seq![t.vertical] + kl, seq![s.vertical],
        seq![t.vertical]);
    lemma_correspond_concat(s, t, seq![s.vertical] + kl + seq![s.vertical], seq![t.vertical] + kl
        + seq![t.vertical], vl, vl);
    lemma_correspond_concat(s, t, seq![s.vertical] + kl + seq![s.vertical] + vl, seq![t.vertical]
        + kl + seq![t.vertical] + vl, seq![s.vertical], seq![t.vertical]);
}

proof fn lemma_correspond_kv_entry_lines(
    s: SimpleBorderStyle,
    t: SimpleBorderStyle,
    e: (Seq<char>, Seq<char>),
    kw: nat,
    vw: nat,
    upto: nat,
)
    ensures
        texts_correspond(s, t, kv_entry_lines(s, e, kw, vw, upto), kv_entry_lines(t, e, kw, vw,
            upto)),
    decreases upto,
{
    if upto > 0 {
        lemma_correspond_kv_entry_lines(s, t, e, kw, vw, (upto - 1) as nat);
        lemma_correspond_kv_content_line(s, t, e, upto - 1, kw, vw);
        lemma_correspond_concat(s, t, kv_entry_lines(s, e, kw, vw, (upto - 1) as nat),
            kv_entry_lines(t, e, kw, vw, (upto - 1) as nat), kv_content_line(s, e, upto - 1, kw,
            vw), kv_content_line(t, e, upto - 1, kw, vw));
        lemma_correspond_concat(s, t, kv_entry_lines(s, e, kw, vw, (upto - 1) as nat)
            + kv_content_line(s, e, upto - 1, kw, vw), kv_entry_lines(t, e, kw, vw, (upto
            - 1) as nat) + kv_content_line(t, e, upto - 1, kw, vw), seq!['\n'], seq!['\n']);
    }
}

proof fn lemma_correspond_kv_rows(
    s: SimpleBorderStyle,
    t: SimpleBorderStyle,
    rows: Seq<(Seq<char>, Seq<char>)>,
    kw: nat,
    vw: nat,
)
    ensures
        texts_correspond(s, t, kv_rows(s, rows, kw, vw), kv_rows(t, rows, kw, vw)),
    decreases rows.len(),
{
    if rows.len() == 0 {
    } else if rows.len() == 1 {
        lemma_correspond_kv_entry_lines(s, t, rows[0], kw, vw, entry_height(rows[0]) as nat);
    } else {
        lemma_correspond_kv_rows(s, t, rows.drop_last(), kw, vw);
        lemma_correspond_kv_border(s, t, s.vertical_right, t.vertical_right, s.cross, t.cross,
            s.vertical_left, t.vertical_left, kw, vw);
        lemma_correspond_kv_entry_lines(s, t, rows.last(), kw, vw, entry_height(
            rows.last(),
        ) as nat);
        lemma_correspond_concat(s, t, kv_rows(s, rows.drop_last(), kw, vw), kv_rows(t,
            rows.drop_last(), kw, vw), kv_divider_line(s, kw, vw), kv_divider_line(t, kw, vw));
        lemma_correspond_concat(s, t, kv_rows(s, rows.drop_last(), kw, vw) + kv_divider_line(s, kw,
            vw), kv_rows(t, rows.drop_last(), kw, vw) + kv_divider_line(t, kw, vw), seq!['\n'],
            seq!['\n']);
        lemma_correspond_concat(s, t, kv_rows(s, rows.drop_last(), kw, vw) + kv_divider_line(s, kw,
            vw) + seq!['\n'], kv_rows(t, rows.drop_last(), kw, vw) + kv_divider_line(t, kw, vw)
            + seq!['\n'], kv_entry(s, rows.last(), kw, vw), kv_entry(t, rows.last(), kw, vw));
    }
}

/// Style substitutability of the key/value table, character by
/// character: two styles render the same entries and headers into texts
/// of the same length that differ only by glyph substitution.
pub proof fn lemma_kv_style_substitutability(
    s: SimpleBorderStyle,
    t: SimpleBorderStyle,
    entries: Seq<(Seq<char>, Seq<char>)>,
    kh: Seq<char>,
    vh: Seq<char>,
)
    ensures
        spec_format_kv(s, entries, kh, vh).len() == spec_format_kv(t, entries, kh, vh).len(),
        forall|p: int|
            0 <= p < spec_format_kv(s, entries, kh, vh).len() ==> glyphs_correspond(
                s,
                t,
                #[trigger] spec_format_kv(s, entries, kh, vh)[p],
                spec_format_kv(t, entries, kh, vh)[p],
            ),
{
    let kw = crate::render::key_col_width(entries, kh) as nat;
    let vw = crate::render::val_col_width(entries, vh) as nat;
    let rows = kv_row_seq(entries, kh, vh);
    lemma_correspond_kv_border(s, t, s.top_left, t.top_left, s.horizontal_down, t.horizontal_down,
        s.top_right, t.top_right, kw, vw);
    lemma_correspond_kv_border(s, t, s.bottom_left, t.bottom_left, s.horizontal_up,
        t.horizontal_up, s.bottom_right, t.bottom_right, kw, vw);
    lemma_correspond_kv_rows(s, t, rows, kw, vw);
    lemma_correspond_concat(s, t, kv_top_line(s, kw, vw), kv_top_line(t, kw, vw), seq!['\n'],
        seq!['\n']);
    lemma_correspond_concat(s, t, kv_top_line(s, kw, vw) + seq!['\n'], kv_top_line(t, kw, vw)
        + seq!['\n'], kv_rows(s, rows, kw, vw), kv_rows(t, rows, kw, vw));
    lemma_correspond_concat(s, t, kv_top_line(s, kw, vw) + seq!['\n'] + kv_rows(s, rows, kw, vw),
        kv_top_line(t, kw, vw) + seq!['\n'] + kv_rows(t, rows, kw, vw), kv_bottom_line(s, kw, vw),
        kv_bottom_line(t, kw, vw));
}

/// Style substitutability of the key/value table, layout: two
/// line-feed-free styles render the same entries into the same number of
/// physical lines, every line of the same length in both.
pub proof fn lemma_kv_style_layout_invariance(
    s: SimpleBorderStyle,
    t: SimpleBorderStyle,
    entries: Seq<(Seq<char>, Seq<char>)>,
    kh: Seq<char>,
    vh: Seq<char>,
)
    requires
        s.newline_free(),
        t.newline_free(),
    ensures
        line_split(spec_format_kv(s, entries, kh, vh)).len() == line_split(spec_format_kv(t,
            entries, kh, vh)).len(),
        forall|i: int|
            0 <= i < line_split(spec_format_kv(s, entries, kh, vh)).len()
                ==> (#[trigger] line_split(spec_format_kv(s, entries, kh, vh))[i]).len()
                == line_split(spec_format_kv(t, entries, kh, vh))[i].len(),
{
    let kw = crate::render::key_col_width(entries, kh) as nat;
    let vw = crate::render::val_col_width(entries, vh) as nat;
    let rows = kv_row_seq(entries, kh, vh);
    lemma_kv_line_structure(s, entries, kh, vh);
    lemma_kv_line_structure(t, entries, kh, vh);
    lemma_kv_rows_lines_count(s, rows, kw, vw);
    lemma_kv_rows_lines_count(t, rows, kw, vw);
    lemma_kv_border_symmetry(s, entries, kh, vh);
    lemma_kv_border_symmetry(t, entries, kh, vh);
}

/// Row-height correctness: as soon as any cell has a physical line, the
/// row height of the single-row table is the greatest physical-line
/// count over all cells; it never falls below any cell's line count, and
/// never below 1.
pub proof fn lemma_height_correctness(cells: Seq<Seq<char>>)
    ensures
        table_height(cells) >= 1,
        forall|k: int|
            0 <= k < cells.len() ==> line_split(#[trigger] cells[k]).len()
                <= table_height(cells),
        cells_max_height(cells) >= 1 ==> table_height(cells) == cells_max_height(cells),
        cells_max_height(cells) >= 1 ==> exists|k: int|
            0 <= k < cells.len() && line_split(#[trigger] cells[k]).len() == table_height(cells),
{
    lemma_cells_max_height(cells);
    if cells_max_height(cells) >= 1 {
        let k = choose|k: int|
            0 <= k < cells.len() && cell_height(#[trigger] cells[k]) == cells_max_height(cells);
        assert(line_split(cells[k]).len() == table_height(cells));
    }
}

} // verus!
