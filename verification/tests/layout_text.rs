use aiocr::layout::{
    char_display_width, csv_escape, direction_from_shape, direction_label, display_width, is_vertical_dominant,
    render_table_csv, render_table_monospace, TableGrid, TextDirection,
};
use aiocr::metrics::levenshtein_chars;
use aiocr::numbering::{
    detect_line_numbering_start, extract_leading_number_candidate, join_numbered_lines,
    needs_space_between, push_right_aligned_number, strip_matching_line_number_prefix,
};

fn grid(rows: &[&[&str]]) -> TableGrid {
    TableGrid {
        rows: rows
            .iter()
            .map(|row| row.iter().map(|c| c.to_string()).collect())
            .collect(),
    }
}

#[test]
fn test_detect_line_numbering_start_ignores_outlier_candidate() {
    let candidates = vec![Some(1), None, Some(3), Some(4), Some(241)];
    assert_eq!(detect_line_numbering_start(&candidates, 4), Some(1));
}

#[test]
fn numbering_needs_three_numbered_lines() {
    assert_eq!(detect_line_numbering_start(&[Some(5), Some(6), None], 2), None);
}

#[test]
fn small_numbers_without_blank_rows_are_content() {
    // Numbers no larger than the line count + 2 on a page without inserted
    // blank rows can be ordinary content.
    assert_eq!(detect_line_numbering_start(&[Some(1), Some(2), Some(3)], 3), None);
    assert_eq!(detect_line_numbering_start(&[Some(10), Some(11), Some(12)], 3), Some(10));
}

#[test]
fn monospace_table_aligns_columns() {
    let table = grid(&[&["姓名", "金额"], &["张三", "100"], &["李四", "2000"]]);
    assert_eq!(render_table_monospace(&table), "姓名  金额\n张三  100\n李四  2000");
}

#[test]
fn csv_table_emits_rows() {
    let table = grid(&[&["姓名", "金额"], &["张三", "100"], &["李四", "2000"]]);
    assert_eq!(render_table_csv(&table), "姓名,金额\n张三,100\n李四,2000");
}

#[test]
fn monospace_table_skips_empty_cells_and_trailing_space() {
    let table = grid(&[&["a", "", "c"], &["long", "b"], &[]]);
    assert_eq!(render_table_monospace(&table), format!("a{}c\nlong  b\n", " ".repeat(8)));
    assert_eq!(render_table_monospace(&grid(&[])), "");
}

#[test]
fn csv_quotes_special_fields() {
    assert_eq!(csv_escape("plain"), "plain");
    assert_eq!(csv_escape("a,b"), "\"a,b\"");
    assert_eq!(csv_escape("say \"hi\""), "\"say \"\"hi\"\"\"");
    assert_eq!(csv_escape("two\nlines"), "\"two\nlines\"");
    let table = grid(&[&["x,y", "z"]]);
    assert_eq!(render_table_csv(&table), "\"x,y\",z");
}

#[test]
fn display_width_counts_wide_characters_twice() {
    assert_eq!(char_display_width('a'), 1);
    assert_eq!(char_display_width('中'), 2);
    assert_eq!(char_display_width('Ａ'), 2);
    assert_eq!(char_display_width('😀'), 2);
    assert_eq!(display_width("ab中文"), 6);
    assert_eq!(display_width(""), 0);
}

#[test]
fn vertical_dominance_needs_a_strict_majority() {
    let (h, v) = (TextDirection::Horizontal, TextDirection::Vertical);
    assert!(!is_vertical_dominant(&[v]));
    assert!(!is_vertical_dominant(&[v, h]));
    assert!(is_vertical_dominant(&[v, v, h]));
    assert_eq!(direction_label(h), "横排");
    assert_eq!(direction_label(v), "竖排");
}

#[test]
fn leading_numbers_are_read_and_stripped() {
    assert_eq!(extract_leading_number_candidate("12 abc"), Some(12));
    assert_eq!(extract_leading_number_candidate("abc 12"), None);
    assert_eq!(extract_leading_number_candidate("99999999999 x"), None);
    assert_eq!(strip_matching_line_number_prefix("12   abc", 12), "abc");
    assert_eq!(strip_matching_line_number_prefix("12abc", 12), "abc");
    assert_eq!(strip_matching_line_number_prefix("13 abc", 12), "13 abc");
}

#[test]
fn printed_number_reads_back() {
    let mut line = String::new();
    push_right_aligned_number(&mut line, 42, 5);
    assert_eq!(line, "   42");
    line.push_str(" text");
    assert_eq!(extract_leading_number_candidate(line.trim_start()), Some(42));
    assert_eq!(strip_matching_line_number_prefix(line.trim_start(), 42), "text");
    let mut narrow = String::from("x");
    push_right_aligned_number(&mut narrow, 1234, 2);
    assert_eq!(narrow, "x1234");
}

#[test]
fn numbered_lines_are_joined_with_a_number_column() {
    let texts: Vec<String> = vec!["9 first".into(), "".into(), "11 third  ".into()];
    assert_eq!(join_numbered_lines(&texts, Some(9)), " 9  first\n10\n11  third");
    assert_eq!(join_numbered_lines(&texts, None), "9 first\n\n11 third");
}

#[test]
fn space_between_alphanumeric_fragments() {
    assert!(needs_space_between("abc", "def"));
    assert!(!needs_space_between("中", "def"));
    assert!(!needs_space_between("abc", ""));
    assert!(!needs_space_between("abc,", "d"));
}

#[test]
fn levenshtein_distance_examples() {
    assert_eq!(levenshtein_chars("kitten", "sitting"), 3);
    assert_eq!(levenshtein_chars("", "abc"), 3);
    assert_eq!(levenshtein_chars("识别", "识别"), 0);
    assert_eq!(levenshtein_chars("abc", "cba"), levenshtein_chars("cba", "abc"));
}

#[test]
fn samples_are_scored_after_trimming() {
    let same = aiocr::metrics::score_sample("  你好 ", "你好");
    assert!(same.exact);
    assert_eq!(same.edit_distance, 0);
    assert_eq!(same.target_chars, 2);
    let off = aiocr::metrics::score_sample("kitten", " sitting ");
    assert!(!off.exact);
    assert_eq!(off.edit_distance, 3);
    assert_eq!(off.target_chars, 7);
}

#[test]
fn tall_crops_read_vertically() {
    assert_eq!(direction_from_shape(40, 51), TextDirection::Vertical);
    assert_eq!(direction_from_shape(40, 50), TextDirection::Horizontal);
    assert_eq!(direction_from_shape(100, 20), TextDirection::Horizontal);
    assert_eq!(direction_from_shape(0, 1), TextDirection::Vertical);
    assert_eq!(direction_from_shape(0, 0), TextDirection::Horizontal);
    // Five times the width saturates at u32::MAX before the division.
    assert_eq!(direction_from_shape(u32::MAX, u32::MAX), TextDirection::Vertical);
    assert_eq!(direction_from_shape(u32::MAX, u32::MAX / 4), TextDirection::Horizontal);
}
