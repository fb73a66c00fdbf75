use textutils::text::{right_justify, trimmed_line_end};
use textutils::uniq::{collapse, format_run, render, Collapser};

fn lines(v: &[&str]) -> Vec<String> {
    v.iter().map(|s| s.to_string()).collect()
}

#[test]
fn collapse_adjacent_repeats() {
    let runs = collapse(&lines(&["a", "a", "b", "a"]));
    let expected = vec![(2, "a".to_string()), (1, "b".to_string()), (1, "a".to_string())];
    assert_eq!(runs, expected);
    assert_eq!(render(&runs, false), "aba");
}

#[test]
fn collapse_count_mode_output() {
    let runs = collapse(&lines(&["a\n", "a\n", "b\n", "a\n"]));
    assert_eq!(render(&runs, false), "a\nb\na\n");
    assert_eq!(render(&runs, true), "   2 a\n   1 b\n   1 a\n");
}

#[test]
fn collapse_ignores_line_terminators() {
    let runs = collapse(&lines(&["a\n", "a\r\n", "a"]));
    assert_eq!(runs, vec![(3, "a\n".to_string())]);
}

#[test]
fn collapse_empty_input() {
    assert!(collapse(&vec![]).is_empty());
}

#[test]
fn collapse_twice_changes_nothing() {
    let first = collapse(&lines(&["x\n", "x\n", "y\n", "y\n", "x\n", "z"]));
    let texts: Vec<String> = first.iter().map(|r| r.1.clone()).collect();
    let second = collapse(&texts);
    let expected: Vec<(u64, String)> = texts.iter().map(|t| (1, t.clone())).collect();
    assert_eq!(second, expected);
}

#[test]
fn format_run_pads_count_to_four() {
    assert_eq!(format_run(12345, "w\n", true), "12345 w\n");
    assert_eq!(format_run(7, "w\n", true), "   7 w\n");
    assert_eq!(format_run(7, "w\n", false), "w\n");
}

#[test]
fn trimmed_line_end_removes_terminators_only() {
    assert_eq!(trimmed_line_end("  a b \t\r\n"), "  a b \t");
    assert_eq!(trimmed_line_end("a\n\n\r"), "a");
    assert_eq!(trimmed_line_end(""), "");
    assert_eq!(trimmed_line_end("x\u{3000}"), "x\u{3000}");
}

#[test]
fn right_justify_widths() {
    assert_eq!(right_justify(42, 5), "   42");
    assert_eq!(right_justify(42, 1), "42");
    assert_eq!(right_justify(u64::MAX, 0), "18446744073709551615");
}

#[test]
fn collapser_hands_out_each_closed_run() {
    let mut c = Collapser::new();
    assert_eq!(c.push_line("a\n".to_string()), None);
    assert_eq!(c.push_line("a\r\n".to_string()), None);
    assert_eq!(c.push_line("a \n".to_string()), Some((2, "a\n".to_string())));
    assert_eq!(c.push_line("b\n".to_string()), Some((1, "a \n".to_string())));
    assert_eq!(c.push_line("a".to_string()), Some((1, "b\n".to_string())));
    assert_eq!(c.finish(), Some((1, "a".to_string())));
    assert_eq!(Collapser::new().finish(), None);
}

#[test]
fn collapse_keeps_lines_differing_in_trailing_spaces_apart() {
    let runs = collapse(&lines(&["a \n", "a\n", "a\t\n"]));
    assert_eq!(
        runs,
        vec![(1, "a \n".to_string()), (1, "a\n".to_string()), (1, "a\t\n".to_string())]
    );
}
