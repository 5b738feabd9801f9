use borders::BorderFormatter;
use borders::styles::ascii;
use borders::styles::double;
use borders::styles::thin;

#[test]
fn slice_two_cells() {
    let cells = vec!["hello".to_string(), "world".to_string()];
    let out = thin().format_slice(&cells);
    assert_eq!(out, "┌─────┬─────┐\n│hello│world│\n└─────┴─────┘");
}

#[test]
fn slice_multiline_right_aligned() {
    let cells = vec!["hello\nworld".to_string(), "goodbye\nworld".to_string()];
    let out = thin().format_slice(&cells);
    assert_eq!(
        out,
        "┌───────┬───────┐\n│  hello│goodbye│\n│  world│  world│\n└───────┴───────┘"
    );
}

#[test]
fn slice_empty_sequence() {
    let cells: Vec<String> = Vec::new();
    let out = thin().format_slice(&cells);
    assert_eq!(out, "┌┐\n││\n└┘");
}

#[test]
fn slice_empty_cell_min_width() {
    let cells = vec![String::new()];
    let out = thin().format_slice(&cells);
    assert_eq!(out, "┌─┐\n│ │\n└─┘");
}

#[test]
fn slice_ascii_style() {
    let cells = vec!["hi".to_string()];
    let out = ascii().format_slice(&cells);
    assert_eq!(out, "+--+\n|hi|\n+--+");
}

#[test]
fn slice_numbers_right_aligned() {
    let cells = vec!["0".to_string(), "10".to_string(), "200".to_string()];
    let out = thin().format_slice(&cells);
    assert_eq!(out, "┌───┬───┬───┐\n│  0│ 10│200│\n└───┴───┴───┘");
}

#[test]
fn iter_matches_slice() {
    let style = thin();
    let cells = vec!["a".to_string(), "bb".to_string()];
    let from_iter = style.format_iter(cells.clone());
    let from_slice = style.format_slice(&cells);
    assert_eq!(from_iter, from_slice);
}

#[test]
fn display_single_value() {
    let out = thin().format_display("hello");
    assert_eq!(out, "┌─────┐\n│hello│\n└─────┘");
}

#[test]
fn display_double_style() {
    let out = double().format_display(" Hello World! ");
    assert_eq!(out, "╔══════════════╗\n║ Hello World! ║\n╚══════════════╝");
}

#[test]
fn debug_quotes_text() {
    let out = thin().format_debug("hello");
    assert_eq!(out, "┌───────┐\n│\"hello\"│\n└───────┘");
}

#[test]
fn width_counts_unicode_scalars_not_bytes() {
    let out = thin().format_display("héllo");
    assert_eq!(out, "┌─────┐\n│héllo│\n└─────┘");
}

#[test]
fn top_and_bottom_lines() {
    let style = thin();
    assert_eq!(style.get_top_line(2, 3), "┌───┬───┐");
    assert_eq!(style.get_bottom_line(2, 3), "└───┴───┘");
    assert_eq!(style.get_top_line(0, 5), "┌┐");
    assert_eq!(style.get_bottom_line(0, 5), "└┘");
}

#[test]
fn trailing_line_feed_opens_no_line() {
    let cells = vec!["ab\n".to_string()];
    let out = thin().format_slice(&cells);
    assert_eq!(out, "┌──┐\n│ab│\n└──┘");
}
