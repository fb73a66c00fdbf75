use textutils::wc::{count, format_counts, format_field, total, total_line, Fields, FileInfo};

#[test]
fn test_count() {
    let text = "I don't want the word.\nI just want your half.\r\n";
    let info = count(text);
    let expected = FileInfo {
        num_lines: 2,
        num_words: 10,
        num_chars: 47,
        num_bytes: 47,
    };
    assert_eq!(info, expected);
}

#[test]
fn count_empty_text_is_all_zero() {
    let info = count("");
    assert_eq!(
        info,
        FileInfo { num_lines: 0, num_words: 0, num_bytes: 0, num_chars: 0 }
    );
}

#[test]
fn count_last_line_without_newline() {
    let info = count("one two\nthree");
    assert_eq!(info.num_lines, 2);
    assert_eq!(info.num_words, 3);
    assert_eq!(info.num_bytes, 13);
    assert_eq!(info.num_chars, 13);
}

#[test]
fn count_multibyte_characters() {
    let info = count("héllo wörld\n");
    assert_eq!(info.num_lines, 1);
    assert_eq!(info.num_words, 2);
    assert_eq!(info.num_bytes, 14);
    assert_eq!(info.num_chars, 12);
}

#[test]
fn count_unicode_whitespace_separates_words() {
    let info = count("a\u{3000}b\u{a0}c\t\td  ");
    assert_eq!(info.num_words, 4);
    assert_eq!(info.num_lines, 1);
}

#[test]
fn format_field_right_justifies_in_eight() {
    assert_eq!(format_field(1, true), "       1");
    assert_eq!(format_field(123456789, true), "123456789");
    assert_eq!(format_field(0, true), "       0");
    assert_eq!(format_field(3, false), "");
}

#[test]
fn fields_default_to_lines_words_bytes() {
    let f = Fields::new(false, false, false, false);
    assert_eq!(f, Fields { lines: true, words: true, bytes: true, chars: false });
    let g = Fields::new(false, false, false, true);
    assert_eq!(g, Fields { lines: false, words: false, bytes: false, chars: true });
}

#[test]
fn format_counts_names_file_but_not_stdin() {
    let info = FileInfo { num_lines: 2, num_words: 10, num_bytes: 47, num_chars: 47 };
    let f = Fields::new(false, false, false, false);
    assert_eq!(format_counts(&info, f, "a.txt"), "       2      10      47 a.txt");
    assert_eq!(format_counts(&info, f, "-"), "       2      10      47");
    let chars = Fields::new(true, false, false, true);
    assert_eq!(format_counts(&info, chars, "-"), "       2      47");
}

#[test]
fn total_is_field_wise_sum() {
    let c1 = count("a b\nc\n");
    let c2 = count("dé f\n");
    let t = total(&vec![c1, c2]).unwrap();
    assert_eq!(
        t,
        FileInfo { num_lines: 3, num_words: 5, num_bytes: 12, num_chars: 11 }
    );
    assert_eq!(total(&vec![]).unwrap(), FileInfo { num_lines: 0, num_words: 0, num_bytes: 0, num_chars: 0 });
}

#[test]
fn total_overflow_is_none() {
    let big = FileInfo { num_lines: usize::MAX, num_words: 0, num_bytes: 0, num_chars: 0 };
    let one = FileInfo { num_lines: 1, num_words: 0, num_bytes: 0, num_chars: 0 };
    assert!(total(&vec![big, one]).is_none());
}

#[test]
fn total_line_only_for_several_sources() {
    let t = FileInfo { num_lines: 3, num_words: 5, num_bytes: 12, num_chars: 11 };
    let f = Fields::new(false, false, false, false);
    assert_eq!(total_line(&t, f, 2).unwrap(), "       3       5      12 total");
    assert!(total_line(&t, f, 1).is_none());
    assert!(total_line(&t, f, 0).is_none());
}
