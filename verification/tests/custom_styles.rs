use borders::BorderFormatter;
use borders::SimpleBorderStyle;
use borders::styles::double;

fn starry() -> SimpleBorderStyle {
    SimpleBorderStyle {
        vertical: '*',
        horizontal: '*',
        horizontal_up: '*',
        horizontal_down: '*',
        vertical_right: '*',
        vertical_left: '*',
        top_left: '*',
        top_right: '*',
        bottom_left: '*',
        bottom_right: '*',
        cross: '*',
    }
}

fn blank() -> SimpleBorderStyle {
    SimpleBorderStyle {
        vertical: ' ',
        horizontal: ' ',
        horizontal_up: ' ',
        horizontal_down: ' ',
        vertical_right: ' ',
        vertical_left: ' ',
        top_left: ' ',
        top_right: ' ',
        bottom_left: ' ',
        bottom_right: ' ',
        cross: ' ',
    }
}

#[test]
fn user_supplied_glyphs() {
    let out = starry().format_display("ok");
    assert_eq!(out, "****\n*ok*\n****");
}

#[test]
fn degenerate_blank_style_renders_mechanically() {
    let out = blank().format_display("ok");
    assert_eq!(out, "    \n ok \n    ");
}

#[test]
fn double_style_hash_map() {
    let entries = vec![("a".to_string(), "1".to_string())];
    let out = double().format_hash_map(&entries);
    assert_eq!(
        out,
        "╔═══╦═════╗\n║Key║Value║\n╠═══╬═════╣\n║  a║    1║\n╚═══╩═════╝"
    );
}

#[test]
fn debug_empty_text_is_bare_quotes() {
    let out = borders::styles::thin().format_debug("");
    assert_eq!(out, "┌──┐\n│\"\"│\n└──┘");
}

#[test]
fn multiline_value_taller_than_key() {
    let entries = vec![("k".to_string(), "x\nyy\nzzz".to_string())];
    let out = borders::styles::thin().format_hash_map_headers(&entries, "", "");
    assert_eq!(out, "┌─┬───┐\n│k│  x│\n│ │ yy│\n│ │zzz│\n└─┴───┘");
}
