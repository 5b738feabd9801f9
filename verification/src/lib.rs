//! Box-drawn table rendering for plain text.
//!
//! A [`SimpleBorderStyle`] is an immutable set of eleven glyphs (line,
//! corner and junction characters).  The [`BorderFormatter`] operations
//! take text cells and emit a bordered table as a single string: a
//! single-row, multi-column table for sequences of cells, and a
//! two-column key/value table for sequences of entries.
//!
//! Cell text may contain line feeds; each cell is split into physical
//! lines, columns are sized to the widest physical line (counted in
//! Unicode scalar values), and every line is right-aligned within its
//! column.  Callers convert their values to text (display or debug form)
//! before handing them to the formatter.
use vstd::prelude::*;
use vstd::string::StrSliceExecFns;
use vstd::string::StringExecFns;

pub mod laws;
pub mod lines;
pub mod measure;
pub mod render;
pub mod styles;
pub mod text;

use crate::lines::{line_split, split_lines};
use crate::measure::{height_of_split, split_all, width_of_split};
use crate::render::{
    border_line, entry_height, kv_border, kv_entry, kv_entry_lines, kv_row_seq, kv_rows,
    kv_top_line, lemma_kv_rows_push, line_at, slice_body, slice_bottom_line, slice_content_line,
    slice_top_line, spec_format_kv, spec_format_slice,
};
use crate::text::{
    join_with, lemma_join_with_push, pad_left, push_char, push_padded, push_repeat, quoted,
    repeat_char,
};

verus! {

/// A border style where all lines use the same glyph set.
///
/// Every field holds the single character drawn at the corresponding
/// position of the table frame.  No field needs to be distinct from the
/// others; degenerate styles are legal and render mechanically.
#[derive(Clone, Copy, PartialEq, Eq, Structural)]
pub struct SimpleBorderStyle {
    /// Used as a vertical separator
    pub vertical: char,
    /// Used as the horizontal separator
    pub horizontal: char,
    /// Used when there is a line connecting up, left, and right
    pub horizontal_up: char,
    /// Used when there is a line connecting down, left, and right
    pub horizontal_down: char,
    /// Used when there is a line connecting up, down, and right
    pub vertical_right: char,
    /// Used when there is a line connecting up, down, and left
    pub vertical_left: char,
    /// Used when there is a line connecting down and right (top-left corner)
    pub top_left: char,
    /// Used when there is a line connecting down and left (top-right corner)
    pub top_right: char,
    /// Used when there is a line connecting up and right (bottom-left corner)
    pub bottom_left: char,
    /// Used when there is a line connecting up and left (bottom-right corner)
    pub bottom_right: char,
    /// Used where there is a line connecting in every direction
    pub cross: char,
}

impl SimpleBorderStyle {
    /// No glyph is a line feed, so every rendered line of a table is one
    /// physical line of the output.
    pub open spec fn newline_free(&self) -> bool {
        &&& self.vertical != '\n'
        &&& self.horizontal != '\n'
        &&& self.horizontal_up != '\n'
        &&& self.horizontal_down != '\n'
        &&& self.vertical_right != '\n'
        &&& self.vertical_left != '\n'
        &&& self.top_left != '\n'
        &&& self.top_right != '\n'
        &&& self.bottom_left != '\n'
        &&& self.bottom_right != '\n'
        &&& self.cross != '\n'
    }
}

/// Builds one horizontal border of the single-row table.
fn uniform_border(left: char, h: char, j: char, right: char, cols: usize, w: usize) -> (r: String)
    ensures
        r@ == border_line(left, h, j, right, cols as nat, w as nat),
{
    let mut out = String::new();
    push_char(&mut out, left);
    let mut k: usize = 0;
    proof {
        assert(out@ =~= seq![left] + join_with(
            Seq::new(0nat, |i: int| repeat_char(h, w as nat)),
            j,
        ));
    }
    while k < cols
        invariant
            k <= cols,
            out@ == seq![left] + join_with(Seq::new(k as nat, |i: int| repeat_char(h, w as nat)), j),
        decreases cols - k,
    {
        if k > 0 {
            push_char(&mut out, j);
        }
        push_repeat(&mut out, h, w);
        proof {
            let parts_k = Seq::new(k as nat, |i: int| repeat_char(h, w as nat));
            let parts_k1 = Seq::new((k + 1) as nat, |i: int| repeat_char(h, w as nat));
            assert(parts_k1 =~= parts_k.push(repeat_char(h, w as nat)));
            lemma_join_with_push(parts_k, repeat_char(h, w as nat), j);
            assert(out@ =~= seq![left] + join_with(parts_k1, j));
        }
        k += 1;
    }
    push_char(&mut out, right);
    proof {
        assert(out@ =~= border_line(left, h, j, right, cols as nat, w as nat));
    }
    out
}

/// Builds one horizontal border of the key/value table.
fn two_col_border(left: char, h: char, mid: char, right: char, kw: usize, vw: usize) -> (r: String)
    ensures
        r@ == kv_border(left, h, mid, right, kw as nat, vw as nat),
{
    let mut out = String::new();
    push_char(&mut out, left);
    push_repeat(&mut out, h, kw);
    push_char(&mut out, mid);
    push_repeat(&mut out, h, vw);
    push_char(&mut out, right);
    proof {
        assert(out@ =~= kv_border(left, h, mid, right, kw as nat, vw as nat));
    }
    out
}

impl SimpleBorderStyle {
    /// The top line for a horizontal table with a consistent width.
    pub fn get_top_line(&self, len: usize, width: usize) -> (r: String)
        ensures
            r@ == slice_top_line(*self, len as nat, width as nat),
    {
        uniform_border(self.top_left, self.horizontal, self.horizontal_down, self.top_right, len, width)
    }

    /// The bottom line for a horizontal table with a consistent width.
    pub fn get_bottom_line(&self, len: usize, width: usize) -> (r: String)
        ensures
            r@ == slice_bottom_line(*self, len as nat, width as nat),
    {
        uniform_border(self.bottom_left, self.horizontal, self.horizontal_up, self.bottom_right, len, width)
    }

    /// Appends one content line of the single-row table, with its line feed.
    fn push_slice_row(
        &self,
        out: &mut String,
        lns: &Vec<Vec<String>>,
        i: usize,
        w: usize,
        Ghost(cs): Ghost<Seq<Seq<char>>>,
    )
        requires
            lns.deep_view() == cs.map_values(|c: Seq<char>| line_split(c)),
        ensures
            final(out)@ == old(out)@ + slice_content_line(*self, cs, i as int, w as nat)
                + seq!['\n'],
    {
        let ghost parts = Seq::new(
            cs.len(),
            |j: int| pad_left(line_at(line_split(cs[j]), i as int), w as nat),
        );
        push_char(out, self.vertical);
        proof {
            assert(parts.take(0) =~= Seq::<Seq<char>>::empty());
            assert(out@ =~= old(out)@ + seq![self.vertical] + join_with(
                parts.take(0),
                self.vertical,
            ));
        }
        let mut j: usize = 0;
        while j < lns.len()
            invariant
                j <= lns.len(),
                lns.deep_view() == cs.map_values(|c: Seq<char>| line_split(c)),
                parts == Seq::new(
                    cs.len(),
                    |j: int| pad_left(line_at(line_split(cs[j]), i as int), w as nat),
                ),
                out@ == old(out)@ + seq![self.vertical] + join_with(
                    parts.take(j as int),
                    self.vertical,
                ),
            decreases lns.len() - j,
        {
            if j > 0 {
                push_char(out, self.vertical);
            }
            proof {
                assert(lns.deep_view().len() == lns@.len());
                assert(cs.map_values(|c: Seq<char>| line_split(c)).len() == cs.len());
                assert(j < cs.len());
                assert(lns.deep_view()[j as int] == lns[j as int].deep_view());
                assert(lns.deep_view()[j as int] == line_split(cs[j as int]));
            }
            let cell = &lns[j];
            if i < cell.len() {
                proof {
                    assert(cell.deep_view()[i as int] == cell@[i as int]@);
                    assert(line_at(line_split(cs[j as int]), i as int) == cell@[i as int]@);
                }
                push_padded(out, cell[i].as_str(), w);
            } else {
                proof {
                    reveal_strlit("");
                    assert(""@ =~= Seq::<char>::empty());
                    assert(line_at(line_split(cs[j as int]), i as int) =~= Seq::<char>::empty());
                }
                push_padded(out, "", w);
            }
            proof {
                lemma_join_with_push(parts.take(j as int), parts[j as int], self.vertical);
                assert(parts.take(j as int + 1) =~= parts.take(j as int).push(parts[j as int]));
                assert(out@ =~= old(out)@ + seq![self.vertical] + join_with(
                    parts.take(j as int + 1),
                    self.vertical,
                ));
            }
            j += 1;
        }
        push_char(out, self.vertical);
        push_char(out, '\n');
        proof {
            assert(lns.deep_view().len() == lns@.len());
            assert(cs.map_values(|c: Seq<char>| line_split(c)).len() == cs.len());
            assert(parts.take(cs.len() as int) =~= parts);
            assert(out@ =~= old(out)@ + slice_content_line(*self, cs, i as int, w as nat)
                + seq!['\n']);
        }
    }

    /// Appends all content lines of one key/value entry, each with its
    /// line feed.
    fn push_kv_entry(
        &self,
        out: &mut String,
        kl: &Vec<String>,
        vl: &Vec<String>,
        kw: usize,
        vw: usize,
        Ghost(e): Ghost<(Seq<char>, Seq<char>)>,
    )
        requires
            kl.deep_view() == line_split(e.0),
            vl.deep_view() == line_split(e.1),
        ensures
            final(out)@ == old(out)@ + kv_entry(*self, e, kw as nat, vw as nat),
    {
        let hgt = if kl.len() >= vl.len() {
            kl.len()
        } else {
            vl.len()
        };
        proof {
            assert(kl.deep_view().len() == kl@.len());
            assert(vl.deep_view().len() == vl@.len());
            assert(hgt as int == entry_height(e));
        }
        let mut l: usize = 0;
        while l < hgt
            invariant
                l <= hgt,
                kl.deep_view() == line_split(e.0),
                vl.deep_view() == line_split(e.1),
                out@ == old(out)@ + kv_entry_lines(*self, e, kw as nat, vw as nat, l as nat),
            decreases hgt - l,
        {
            push_char(out, self.vertical);
            proof {
                assert(kl.deep_view().len() == kl@.len());
                assert(vl.deep_view().len() == vl@.len());
                reveal_strlit("");
                assert(""@ =~= Seq::<char>::empty());
            }
            if l < kl.len() {
                proof {
                    assert(kl.deep_view()[l as int] == kl@[l as int]@);
                    assert(line_at(line_split(e.0), l as int) == kl@[l as int]@);
                }
                push_padded(out, kl[l].as_str(), kw);
            } else {
                proof {
                    assert(line_at(line_split(e.0), l as int) =~= Seq::<char>::empty());
                }
                push_padded(out, "", kw);
            }
            push_char(out, self.vertical);
            if l < vl.len() {
                proof {
                    assert(vl.deep_view()[l as int] == vl@[l as int]@);
                    assert(line_at(line_split(e.1), l as int) == vl@[l as int]@);
                }
                push_padded(out, vl[l].as_str(), vw);
            } else {
                proof {
                    assert(line_at(line_split(e.1), l as int) =~= Seq::<char>::empty());
                }
                push_padded(out, "", vw);
            }
            push_char(out, self.vertical);
            push_char(out, '\n');
            proof {
                assert(out@ =~= old(out)@ + kv_entry_lines(
                    *self,
                    e,
                    kw as nat,
                    vw as nat,
                    (l + 1) as nat,
                ));
            }
            l += 1;
        }
    }
}

/// Formats cells and entries into bordered tables drawn with the
/// receiver's glyph set.
pub trait BorderFormatter {
    /// The glyph set that the formatting operations draw with.
    spec fn border_style(&self) -> SimpleBorderStyle;

    /// Formats a sequence of cells into a horizontal, single-row table:
    /// one column per cell, all columns sharing one width.
    fn format_slice(&self, cells: &Vec<String>) -> (r: String)
        ensures
            r@ == spec_format_slice(self.border_style(), cells.deep_view()),
    ;

    /// Formats materialized iterator items, in iteration order, exactly
    /// as [`BorderFormatter::format_slice`] formats them.
    fn format_iter(&self, cells: Vec<String>) -> (r: String)
        ensures
            r@ == spec_format_slice(self.border_style(), cells.deep_view()),
    ;

    /// Formats key/value entries as a two-column table with `Key` and
    /// `Value` as the header row.
    fn format_hash_map(&self, entries: &Vec<(String, String)>) -> (r: String)
        ensures
            r@ == spec_format_kv(self.border_style(), entries.deep_view(), "Key"@, "Value"@),
    ;

    /// Formats key/value entries as a two-column table.  The key header
    /// is always the left column's header and keys always fill the left
    /// column.  When both header texts are empty, no header row is
    /// rendered.
    fn format_hash_map_headers(
        &self,
        entries: &Vec<(String, String)>,
        key_header: &str,
        value_header: &str,
    ) -> (r: String)
        ensures
            r@ == spec_format_kv(self.border_style(), entries.deep_view(), key_header@,
                value_header@),
    ;

    /// Adds a border around one displayable text.
    fn format_display(&self, text: &str) -> (r: String)
        ensures
            r@ == spec_format_slice(self.border_style(), seq![text@]),
    ;

    /// Adds a border around the debug form of one text value: the text
    /// wrapped in quotation marks.
    fn format_debug(&self, text: &str) -> (r: String)
        ensures
            r@ == spec_format_slice(self.border_style(), seq![quoted(text@)]),
    ;
}

impl BorderFormatter for SimpleBorderStyle {
    open spec fn border_style(&self) -> SimpleBorderStyle {
        *self
    }

    fn format_slice(&self, cells: &Vec<String>) -> (r: String) {
        let ghost cs = cells.deep_view();
        proof {
            assert(cs.len() == cells@.len());
        }
        let lns = split_all(cells);
        let w = width_of_split(&lns, Ghost(cs));
        let hgt = height_of_split(&lns, Ghost(cs));
        let mut out = self.get_top_line(cells.len(), w);
        push_char(&mut out, '\n');
        proof {
            assert(out@ =~= slice_top_line(*self, cs.len(), w as nat) + seq!['\n'] + slice_body(
                *self,
                cs,
                w as nat,
                0nat,
            ));
        }
        let mut i: usize = 0;
        while i < hgt
            invariant
                i <= hgt,
                cs == cells.deep_view(),
                cs.len() == cells@.len(),
                lns.deep_view() == cs.map_values(|c: Seq<char>| line_split(c)),
                w as int == crate::measure::table_width(cs),
                hgt as int == crate::measure::table_height(cs),
                out@ == slice_top_line(*self, cs.len(), w as nat) + seq!['\n'] + slice_body(
                    *self,
                    cs,
                    w as nat,
                    i as nat,
                ),
            decreases hgt - i,
        {
            self.push_slice_row(&mut out, &lns, i, w, Ghost(cs));
            i += 1;
        }
        let bottom = self.get_bottom_line(cells.len(), w);
        out.append(bottom.as_str());
        proof {
            assert(out@ =~= spec_format_slice(*self, cs));
        }
        out
    }

    fn format_iter(&self, cells: Vec<String>) -> (r: String) {
        self.format_slice(&cells)
    }

    fn format_hash_map(&self, entries: &Vec<(String, String)>) -> (r: String) {
        self.format_hash_map_headers(entries, "Key", "Value")
    }

    fn format_hash_map_headers(
        &self,
        entries: &Vec<(String, String)>,
        key_header: &str,
        value_header: &str,
    ) -> (r: String) {
        let ghost es = entries.deep_view();
        let ghost keys = crate::render::entry_keys(es);
        let ghost vals = crate::render::entry_vals(es);
        proof {
            assert(es.len() == entries@.len());
        }
        // Copy the key and value texts into columns of their own.
        let mut keys_v: Vec<String> = Vec::new();
        let mut vals_v: Vec<String> = Vec::new();
        let mut i: usize = 0;
        while i < entries.len()
            invariant
                i <= entries.len(),
                es == entries.deep_view(),
                es.len() == entries@.len(),
                keys == crate::render::entry_keys(es),
                vals == crate::render::entry_vals(es),
                keys_v.len() == i,
                vals_v.len() == i,
                keys_v.deep_view() =~= keys.take(i as int),
                vals_v.deep_view() =~= vals.take(i as int),
            decreases entries.len() - i,
        {
            let ghost kprev = keys_v.deep_view();
            let ghost vprev = vals_v.deep_view();
            proof {
                assert(es[i as int] == entries@[i as int].deep_view());
                assert(es[i as int].0 == entries@[i as int].0@);
                assert(es[i as int].1 == entries@[i as int].1@);
            }
            keys_v.push(entries[i].0.clone());
            vals_v.push(entries[i].1.clone());
            proof {
                assert(keys_v.deep_view() =~= kprev.push(es[i as int].0));
                assert(vals_v.deep_view() =~= vprev.push(es[i as int].1));
                assert(keys.take(i as int + 1) =~= keys.take(i as int).push(keys[i as int]));
                assert(vals.take(i as int + 1) =~= vals.take(i as int).push(vals[i as int]));
            }
            i += 1;
        }
        proof {
            assert(keys.take(es.len() as int) =~= keys);
            assert(vals.take(es.len() as int) =~= vals);
        }
        // Split every key and every value into its physical lines, and
        // size each column to its widest line or its header.
        let klines = split_all(&keys_v);
        let vlines = split_all(&vals_v);
        let ktw = width_of_split(&klines, Ghost(keys));
        let khl = key_header.unicode_len();
        let kw = if khl > ktw {
            khl
        } else {
            ktw
        };
        let vtw = width_of_split(&vlines, Ghost(vals));
        let vhl = value_header.unicode_len();
        let vw = if vhl > vtw {
            vhl
        } else {
            vtw
        };
        proof {
            assert(kw as int == crate::render::key_col_width(es, key_header@));
            assert(vw as int == crate::render::val_col_width(es, value_header@));
        }
        // Render: top border, entries with dividers, bottom border.
        let ghost rows = kv_row_seq(es, key_header@, value_header@);
        let headered = !(key_header.is_empty() && value_header.is_empty());
        let ghost off: int = if headered {
            1
        } else {
            0
        };
        let mut out = two_col_border(
            self.top_left,
            self.horizontal,
            self.horizontal_down,
            self.top_right,
            kw,
            vw,
        );
        push_char(&mut out, '\n');
        proof {
            assert(rows.take(0) =~= Seq::<(Seq<char>, Seq<char>)>::empty());
            assert(out@ =~= kv_top_line(*self, kw as nat, vw as nat) + seq!['\n'] + kv_rows(
                *self,
                rows.take(0),
                kw as nat,
                vw as nat,
            ));
        }
        if headered {
            let hk = split_lines(key_header);
            let hv = split_lines(value_header);
            self.push_kv_entry(&mut out, &hk, &hv, kw, vw, Ghost((key_header@, value_header@)));
            proof {
                assert(rows[0] == (key_header@, value_header@));
                assert(rows.take(1) =~= seq![rows[0]]);
                assert(out@ =~= kv_top_line(*self, kw as nat, vw as nat) + seq!['\n'] + kv_rows(
                    *self,
                    rows.take(1),
                    kw as nat,
                    vw as nat,
                ));
            }
        }
        let mut i: usize = 0;
        while i < entries.len()
            invariant
                i <= entries.len(),
                es == entries.deep_view(),
                es.len() == entries@.len(),
                klines.len() == es.len(),
                vlines.len() == es.len(),
                keys == crate::render::entry_keys(es),
                vals == crate::render::entry_vals(es),
                klines.deep_view() == keys.map_values(|c: Seq<char>| line_split(c)),
                vlines.deep_view() == vals.map_values(|c: Seq<char>| line_split(c)),
                kw as int == crate::render::key_col_width(es, key_header@),
                vw as int == crate::render::val_col_width(es, value_header@),
                rows == kv_row_seq(es, key_header@, value_header@),
                off == if headered { 1int } else { 0int },
                rows.len() == es.len() + off,
                forall|k: int| 0 <= k < es.len() ==> rows[k + off] == es[k],
                out@ == kv_top_line(*self, kw as nat, vw as nat) + seq!['\n'] + kv_rows(
                    *self,
                    rows.take(off + i),
                    kw as nat,
                    vw as nat,
                ),
            decreases entries.len() - i,
        {
            if headered || i > 0 {
                let div = two_col_border(
                    self.vertical_right,
                    self.horizontal,
                    self.cross,
                    self.vertical_left,
                    kw,
                    vw,
                );
                out.append(div.as_str());
                push_char(&mut out, '\n');
            }
            proof {
                assert(klines.deep_view().len() == klines@.len());
                assert(vlines.deep_view().len() == vlines@.len());
                assert(klines.deep_view()[i as int] == klines[i as int].deep_view());
                assert(vlines.deep_view()[i as int] == vlines[i as int].deep_view());
                assert(klines.deep_view()[i as int] == line_split(keys[i as int]));
                assert(vlines.deep_view()[i as int] == line_split(vals[i as int]));
                assert(keys[i as int] == es[i as int].0);
                assert(vals[i as int] == es[i as int].1);
            }
            self.push_kv_entry(&mut out, &klines[i], &vlines[i], kw, vw, Ghost(es[i as int]));
            proof {
                let taken = rows.take(off + i);
                assert(rows.take(off + i + 1) =~= taken.push(rows[off + i as int]));
                assert(rows[off + i as int] == es[i as int]);
                lemma_kv_rows_push(*self, taken, es[i as int], kw as nat, vw as nat);
                assert(out@ =~= kv_top_line(*self, kw as nat, vw as nat) + seq!['\n'] + kv_rows(
                    *self,
                    rows.take(off + i + 1),
                    kw as nat,
                    vw as nat,
                ));
            }
            i += 1;
        }
        let bottom = two_col_border(
            self.bottom_left,
            self.horizontal,
            self.horizontal_up,
            self.bottom_right,
            kw,
            vw,
        );
        out.append(bottom.as_str());
        proof {
            assert(rows.take(off + es.len() as int) =~= rows);
            assert(out@ =~= spec_format_kv(*self, es, key_header@, value_header@));
        }
        out
    }

    fn format_display(&self, text: &str) -> (r: String) {
        let mut cells: Vec<String> = Vec::new();
        cells.push(String::from_str(text));
        proof {
            assert(cells.deep_view() =~= seq![text@]);
        }
        self.format_slice(&cells)
    }

    fn format_debug(&self, text: &str) -> (r: String) {
        let mut q = String::new();
        push_char(&mut q, '"');
        q.append(text);
        push_char(&mut q, '"');
        let mut cells: Vec<String> = Vec::new();
        cells.push(q);
        proof {
            assert(cells.deep_view() =~= seq![quoted(text@)]);
        }
        self.format_slice(&cells)
    }
}

} // verus!
