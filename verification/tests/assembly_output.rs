use aiocr::assembly::{is_kept_region_text, join_line_texts, join_vertical_columns, spatial_line, table_row_cells};
use aiocr::imaging::neighbors;
use aiocr::rec_output::{
    extract_spatial_dims, format_shape, normalize_rec_output, split_batched_rec_output,
    transpose_ct_to_tc,
};

fn strings(items: &[&str]) -> Vec<String> {
    items.iter().map(|s| s.to_string()).collect()
}

#[test]
fn line_fragments_are_joined() {
    assert_eq!(join_line_texts(&strings(&["abc", "def", "g"]), &[false, true, false]), "abc defg");
    assert_eq!(join_line_texts(&strings(&["ab ", "cd"]), &[false, true]), "abcd");
    assert_eq!(join_line_texts(&strings(&[" 中文 ", "x"]), &[false, true]), "中文x");
    assert_eq!(join_line_texts(&[], &[]), "");
}

#[test]
fn spatial_lines_pad_to_columns() {
    let line = spatial_line(&[0, 10, 3], &strings(&["ab", "cd", " ef "]));
    assert_eq!(line, format!("ab{}cd ef", " ".repeat(8)));
    assert_eq!(spatial_line(&[4], &strings(&["  "])), "");
}

#[test]
fn vertical_columns_become_lines() {
    let columns = vec![strings(&["上", " 下 "]), strings(&["左"])];
    assert_eq!(join_vertical_columns(&columns), "上下\n左");
    assert_eq!(join_vertical_columns(&[]), "");
}

#[test]
fn grid_neighbours() {
    assert_eq!(neighbors(0, 0, 3, 2), vec![(1, 0), (0, 1)]);
    assert_eq!(neighbors(1, 1, 3, 2), vec![(0, 1), (2, 1), (1, 0)]);
    assert_eq!(neighbors(0, 0, 1, 1), vec![]);
}

#[test]
fn spatial_dims_of_output_maps() {
    assert_eq!(extract_spatial_dims(&[1, 1, 32, 64], 5, 6), (32, 64));
    assert_eq!(extract_spatial_dims(&[1, 32, 64], 5, 6), (32, 64));
    assert_eq!(extract_spatial_dims(&[32, 64], 5, 6), (32, 64));
    assert_eq!(extract_spatial_dims(&[7], 5, 6), (5, 6));
}

#[test]
fn class_major_outputs_are_transposed() {
    assert_eq!(transpose_ct_to_tc(&[1, 2, 3, 4, 5, 6], 2, 3, 0), vec![1, 4, 2, 5, 3, 6]);
    let flat: Vec<f32> = vec![1.0, 2.0, 3.0, 4.0, 5.0, 6.0];
    let (data, classes) = normalize_rec_output(flat.clone(), &[1, 2, 3], 10, 0.0).unwrap();
    assert_eq!((data, classes), (flat.clone(), 3));
    let (data, classes) = normalize_rec_output(flat.clone(), &[1, 3, 2], 10, 0.0).unwrap();
    assert_eq!(classes, 3);
    assert_eq!(data, vec![1.0, 3.0, 5.0, 2.0, 4.0, 6.0]);
    let (data, classes) = normalize_rec_output(flat.clone(), &[3, 2], 2, 0.0).unwrap();
    assert_eq!((data, classes), (flat.clone(), 2));
    assert_eq!(
        normalize_rec_output(flat, &[2, 3, 4], 10, 0.0).unwrap_err(),
        "识别模型输出形状不支持: [2, 3, 4]"
    );
}

#[test]
fn longer_buffers_keep_their_length() {
    assert_eq!(transpose_ct_to_tc(&[1, 2, 3, 4, 5, 6, 7, 8], 2, 3, 0), vec![1, 4, 2, 5, 3, 6, 0, 0]);
    let flat: Vec<f32> = vec![1.0, 2.0, 3.0, 4.0, 5.0, 6.0, 7.0];
    let (data, classes) = normalize_rec_output(flat.clone(), &[1, 3, 2], 10, 0.0).unwrap();
    assert_eq!(classes, 3);
    assert_eq!(data, vec![1.0, 3.0, 5.0, 2.0, 4.0, 6.0, 0.0]);
    let (data, classes) = normalize_rec_output(flat.clone(), &[2, 3], 10, 0.0).unwrap();
    assert_eq!((data, classes), (flat.clone(), 3));
    let short: Vec<f32> = vec![1.0, 2.0];
    let (data, classes) = normalize_rec_output(short.clone(), &[1, 4, 5], 10, 0.0).unwrap();
    assert_eq!((data, classes), (short, 5));
}

#[test]
fn batched_outputs_are_split() {
    let flat: Vec<u16> = (0..12).collect();
    let samples = split_batched_rec_output(&flat, &[2, 3, 2], 2, 10).unwrap();
    assert_eq!(samples, vec![(vec![0, 2, 4, 1, 3, 5], 3), (vec![6, 8, 10, 7, 9, 11], 3)]);
    let plain = split_batched_rec_output(&flat[..6], &[3, 2], 1, 2).unwrap();
    assert_eq!(plain, vec![(vec![0, 1, 2, 3, 4, 5], 2)]);
    assert_eq!(
        split_batched_rec_output(&flat, &[3, 3, 2], 2, 10).unwrap_err(),
        "识别模型批量输出形状不支持: [3, 3, 2], batch=2"
    );
    assert_eq!(
        split_batched_rec_output(&flat[..5], &[1, 3, 2], 1, 10).unwrap_err(),
        "识别模型批量输出数据不足: len=5, required=6, shape=[1, 3, 2]"
    );
    assert_eq!(format_shape(&[]), "[]");
    assert_eq!(format_shape(&[7]), "[7]");
}

#[test]
fn table_rows_collect_fragments_per_column() {
    let cells = table_row_cells(&[0, 2, 0, 2], &strings(&[" 张三 ", "100", "先生", ""]), 3);
    assert_eq!(cells, strings(&["张三 先生", "", "100 "]));
    let empty = table_row_cells(&[], &[], 2);
    assert_eq!(empty, strings(&["", ""]));
}

#[test]
fn blank_recognitions_are_dropped() {
    assert!(is_kept_region_text("你好"));
    assert!(is_kept_region_text("  a "));
    assert!(!is_kept_region_text(""));
    assert!(!is_kept_region_text(" \t\n\u{3000}"));
}
