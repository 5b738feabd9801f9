//! The built-in glyph sets.
use vstd::prelude::*;
use crate::SimpleBorderStyle;

verus! {

/// A single thin box-drawing line.
///
/// ```text
/// ┌───┬───┐
/// │   │   │
/// ├───┼───┤
/// │   │   │
/// └───┴───┘
/// ```
pub fn thin() -> (st: SimpleBorderStyle)
    ensures
        st == (SimpleBorderStyle {
            vertical: '│',
            horizontal: '─',
            horizontal_up: '┴',
            horizontal_down: '┬',
            vertical_right: '├',
            vertical_left: '┤',
            top_left: '┌',
            top_right: '┐',
            bottom_left: '└',
            bottom_right: '┘',
            cross: '┼',
        }),
        st.newline_free(),
{
    SimpleBorderStyle {
        vertical: '│',
        horizontal: '─',
        horizontal_up: '┴',
        horizontal_down: '┬',
        vertical_right: '├',
        vertical_left: '┤',
        top_left: '┌',
        top_right: '┐',
        bottom_left: '└',
        bottom_right: '┘',
        cross: '┼',
    }
}

/// A double box-drawing line.
///
/// ```text
/// ╔═══╦═══╗
/// ║   ║   ║
/// ╠═══╬═══╣
/// ║   ║   ║
/// ╚═══╩═══╝
/// ```
pub fn double() -> (st: SimpleBorderStyle)
    ensures
        st == (SimpleBorderStyle {
            vertical: '║',
            horizontal: '═',
            horizontal_up: '╩',
            horizontal_down: '╦',
            vertical_right: '╠',
            vertical_left: '╣',
            top_left: '╔',
            top_right: '╗',
            bottom_left: '╚',
            bottom_right: '╝',
            cross: '╬',
        }),
        st.newline_free(),
{
    SimpleBorderStyle {
        vertical: '║',
        horizontal: '═',
        horizontal_up: '╩',
        horizontal_down: '╦',
        vertical_right: '╠',
        vertical_left: '╣',
        top_left: '╔',
        top_right: '╗',
        bottom_left: '╚',
        bottom_right: '╝',
        cross: '╬',
    }
}

/// Lines drawn with ASCII characters only (`+`, `-`, `|`).
///
/// ```text
/// +---+---+
/// |   |   |
/// +---+---+
/// |   |   |
/// +---+---+
/// ```
pub fn ascii() -> (st: SimpleBorderStyle)
    ensures
        st == (SimpleBorderStyle {
            vertical: '|',
            horizontal: '-',
            horizontal_up: '+',
            horizontal_down: '+',
            vertical_right: '+',
            vertical_left: '+',
            top_left: '+',
            top_right: '+',
            bottom_left: '+',
            bottom_right: '+',
            cross: '+',
        }),
        st.newline_free(),
{
    SimpleBorderStyle {
        vertical: '|',
        horizontal: '-',
        horizontal_up: '+',
        horizontal_down: '+',
        vertical_right: '+',
        vertical_left: '+',
        top_left: '+',
        top_right: '+',
        bottom_left: '+',
        bottom_right: '+',
        cross: '+',
    }
}

} // verus!
