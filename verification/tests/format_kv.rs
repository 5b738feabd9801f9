use borders::BorderFormatter;
use borders::styles::thin;

fn sample_entries() -> Vec<(String, String)> {
    vec![
        ("Jon".to_string(), "38".to_string()),
        ("Jake".to_string(), "25".to_string()),
        ("Josh".to_string(), "17".to_string()),
    ]
}

#[test]
fn hash_map_default_headers() {
    let out = thin().format_hash_map(&sample_entries());
    let expected = "┌────┬─────┐\n\
                    │ Key│Value│\n\
                    ├────┼─────┤\n\
                    │ Jon│   38│\n\
                    ├────┼─────┤\n\
                    │Jake│   25│\n\
                    ├────┼─────┤\n\
                    │Josh│   17│\n\
                    └────┴─────┘";
    assert_eq!(out, expected);
}

#[test]
fn hash_map_four_entries_three_dividers() {
    let out = thin().format_hash_map(&sample_entries());
    let lines: Vec<&str> = out.lines().collect();
    // 1 header row + 3 data rows, 3 dividers, 2 borders.
    assert_eq!(lines.len(), 9);
    let dividers = lines.iter().filter(|l| l.starts_with('├')).count();
    assert_eq!(dividers, 3);
    // Key column sized by "Jake"/"Josh" (4), value column by "Value" (5).
    assert_eq!(lines[0].chars().count(), 4 + 5 + 3);
}

#[test]
fn hash_map_named_headers() {
    let out = thin().format_hash_map_headers(&sample_entries(), "Name", "Score");
    let expected = "┌────┬─────┐\n\
                    │Name│Score│\n\
                    ├────┼─────┤\n\
                    │ Jon│   38│\n\
                    ├────┼─────┤\n\
                    │Jake│   25│\n\
                    ├────┼─────┤\n\
                    │Josh│   17│\n\
                    └────┴─────┘";
    assert_eq!(out, expected);
}

#[test]
fn empty_map_empty_headers() {
    let entries: Vec<(String, String)> = Vec::new();
    let out = thin().format_hash_map_headers(&entries, "", "");
    assert_eq!(out, "┌─┬─┐\n└─┴─┘");
}

#[test]
fn both_empty_headers_suppress_header_row() {
    let with_headers = thin().format_hash_map(&sample_entries());
    let without = thin().format_hash_map_headers(&sample_entries(), "", "");
    // One header row and one divider fewer.
    assert_eq!(
        without.lines().count() + 2,
        with_headers.lines().count()
    );
    assert_eq!(
        without,
        "┌────┬──┐\n\
         │ Jon│38│\n\
         ├────┼──┤\n\
         │Jake│25│\n\
         ├────┼──┤\n\
         │Josh│17│\n\
         └────┴──┘"
    );
}

#[test]
fn one_empty_header_still_renders_header_row() {
    let entries = vec![("k".to_string(), "v".to_string())];
    let out = thin().format_hash_map_headers(&entries, "", "H");
    assert_eq!(out, "┌─┬─┐\n│ │H│\n├─┼─┤\n│k│v│\n└─┴─┘");
}

#[test]
fn multiline_entry_pads_missing_lines() {
    let entries = vec![("a\nbb".to_string(), "x".to_string())];
    let out = thin().format_hash_map_headers(&entries, "", "");
    assert_eq!(out, "┌──┬─┐\n│ a│x│\n│bb│ │\n└──┴─┘");
}

#[test]
fn header_widens_columns() {
    let entries = vec![("k".to_string(), "v".to_string())];
    let out = thin().format_hash_map_headers(&entries, "Wide", "v");
    assert_eq!(out, "┌────┬─┐\n│Wide│v│\n├────┼─┤\n│   k│v│\n└────┴─┘");
}
