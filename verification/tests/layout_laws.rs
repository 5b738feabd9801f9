use borders::BorderFormatter;
use borders::styles::ascii;
use borders::styles::double;
use borders::styles::thin;

#[test]
fn width_is_longest_line() {
    let cells = vec!["ab".to_string(), "cdef\ng".to_string(), "hi".to_string()];
    let out = thin().format_slice(&cells);
    // Longest physical line is "cdef" (4): every column is 4 wide.
    assert_eq!(out.lines().next().unwrap(), "┌────┬────┬────┐");
}

#[test]
fn height_is_longest_cell() {
    let cells = vec!["a".to_string(), "b\nc\nd".to_string()];
    let out = thin().format_slice(&cells);
    // 3 content lines between the two borders.
    assert_eq!(out.lines().count(), 5);
}

#[test]
fn border_symmetry_slice() {
    let cells = vec!["one".to_string(), "two\nlines".to_string(), String::new()];
    let out = thin().format_slice(&cells);
    let lines: Vec<&str> = out.lines().collect();
    let first = lines[0].chars().count();
    for line in &lines {
        assert_eq!(line.chars().count(), first);
    }
}

#[test]
fn border_symmetry_kv() {
    let entries = vec![
        ("key\nwith lines".to_string(), "v".to_string()),
        ("k".to_string(), "a much longer value".to_string()),
    ];
    let out = thin().format_hash_map(&entries);
    let lines: Vec<&str> = out.lines().collect();
    let first = lines[0].chars().count();
    for line in &lines {
        assert_eq!(line.chars().count(), first);
    }
}

#[test]
fn styles_differ_only_in_glyphs() {
    let cells = vec!["same".to_string(), "content\nhere".to_string()];
    let a = thin().format_slice(&cells);
    let b = ascii().format_slice(&cells);
    let c = double().format_slice(&cells);
    assert_eq!(a.lines().count(), b.lines().count());
    assert_eq!(a.lines().count(), c.lines().count());
    for (la, lb) in a.lines().zip(b.lines()) {
        assert_eq!(la.chars().count(), lb.chars().count());
    }
    for (la, lc) in a.lines().zip(c.lines()) {
        assert_eq!(la.chars().count(), lc.chars().count());
    }
    // Content characters stay in place.
    assert!(b.contains("same"));
    assert!(b.contains("content"));
    assert!(c.contains("   here"));
}

#[test]
fn glyph_mapping_idempotent_on_content() {
    let cells = vec!["hi".to_string(), "ho".to_string()];
    let inner = thin().format_slice(&cells);
    let outer = ascii().format_display(&inner);
    // Every line of the inner table reappears unchanged between the
    // outer style's vertical glyphs.
    let outer_lines: Vec<&str> = outer.lines().collect();
    for (i, inner_line) in inner.lines().enumerate() {
        let wrapped = outer_lines[i + 1];
        let stripped: Vec<char> = wrapped.chars().collect();
        let body: String = stripped[1..stripped.len() - 1].iter().collect();
        assert_eq!(body.trim_start_matches(' '), inner_line);
    }
}
