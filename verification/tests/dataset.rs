use aiocr::training::{build_model_name, check_trainable_model, TrainError};
use aiocr::dataset::{
    allowed_chars, build_char_map, encode_label, label_line, parse_labels_raw, sample_file_name,
    split_dataset, OcrDataset,
};
use aiocr::decode::CtcDecoder;

#[test]
fn test_build_char_map_preserves_ascii_space_entry() {
    let char_map = build_char_map("a\n \nb");
    assert_eq!(char_map.get(&('a' as u32)), Some(&1));
    assert_eq!(char_map.get(&(' ' as u32)), Some(&2));
    assert_eq!(char_map.get(&('b' as u32)), Some(&3));
}

#[test]
fn test_build_char_map_normalizes_ideographic_space_to_ascii_space() {
    let char_map = build_char_map("\u{3000}\na\nb");
    assert_eq!(char_map.get(&(' ' as u32)), Some(&1));
    assert_eq!(char_map.get(&('a' as u32)), Some(&2));
    assert_eq!(char_map.get(&('b' as u32)), Some(&3));
}

#[test]
fn char_map_later_entry_wins_and_agrees_with_decoder() {
    let content = "ab\nc\na";
    let map = build_char_map(content);
    assert_eq!(map.len(), 2);
    assert_eq!(map.get(&('a' as u32)), Some(&3));
    assert_eq!(map.get(&('c' as u32)), Some(&2));
    let decoder = CtcDecoder::from_dict_content(content);
    for (key, class) in map.iter() {
        let entry = &decoder.classes()[*class];
        assert_eq!(entry.chars().next().map(|c| c as u32), Some(*key));
    }
    let allowed = allowed_chars(content);
    assert_eq!(allowed.len(), 2);
    assert!(allowed.contains(&('a' as u32)) && allowed.contains(&('c' as u32)));
}

#[test]
fn encode_label_skips_unknown_characters() {
    let map = build_char_map("x\ny\nz");
    assert_eq!(encode_label("zyx?z", &map), vec![3, 2, 1, 3]);
    assert!(encode_label("???", &map).is_empty());
}

#[test]
fn labels_file_parsing_keeps_encodable_lines() {
    let map = build_char_map("a\nb\nc");
    let content = "0001.jpg\tabc\n\n  bad line  \n0002.jpg\t???\r\n0003.jpg\tc\tb\n  0004.jpg\tba  \n";
    let dataset = OcrDataset::from_labels(content, &map);
    let items = dataset.items();
    assert_eq!(dataset.len(), 3);
    assert_eq!(items[0].image_path, "0001.jpg");
    assert_eq!(items[0].label_text, "abc");
    assert_eq!(items[0].label_indices, vec![1, 2, 3]);
    assert_eq!(items[1].image_path, "0003.jpg");
    assert_eq!(items[1].label_text, "c\tb");
    assert_eq!(items[1].label_indices, vec![3, 2]);
    assert_eq!(items[2].image_path, "0004.jpg");
    assert_eq!(items[2].label_text, "ba");
    assert_eq!(items[2].label_indices, vec![2, 1]);
}

#[test]
fn raw_labels_keep_any_non_blank_label() {
    let content = "a.png\t???\nb.png\t   \nc.png\tx y\nno tab here\n";
    let dataset = OcrDataset::from_labels_raw(content);
    let items = dataset.items();
    assert_eq!(items.len(), 2);
    assert_eq!(items[0].image_path, "a.png");
    assert_eq!(items[0].label_text, "???");
    assert!(items[0].label_indices.is_empty());
    assert_eq!(items[1].image_path, "c.png");
    assert_eq!(items[1].label_text, "x y");
}

#[test]
fn split_holds_out_every_fifth_sample() {
    let (train, validation) = split_dataset(12);
    assert_eq!(validation, vec![0, 5, 10]);
    assert_eq!(train, vec![1, 2, 3, 4, 6, 7, 8, 9, 11]);
}

#[test]
fn split_of_one_sample_uses_it_on_both_sides() {
    assert_eq!(split_dataset(1), (vec![0], vec![0]));
    assert_eq!(split_dataset(0), (vec![], vec![]));
    let (train, validation) = split_dataset(2);
    assert_eq!(train, vec![1]);
    assert_eq!(validation, vec![0]);
}

#[test]
fn training_errors_read_as_their_kind() {
    assert_eq!(TrainError::Dataset("x".to_string()).message(), "数据集错误: x");
    assert_eq!(TrainError::Model("m".to_string()).message(), "模型错误: m");
    assert_eq!(TrainError::Training("t".to_string()).message(), "训练错误: t");
    assert_eq!(TrainError::Export("e".to_string()).message(), "导出错误: e");
    assert_eq!(TrainError::Io("io".to_string()).message(), "IO 错误: io");
}

#[test]
fn training_needs_compiled_model_code() {
    match check_trainable_model() {
        Err(TrainError::Training(msg)) => {
            assert_eq!(msg, "当前环境没有可训练的识别 AI 模型，请先确认 models/rec.onnx 已存在并重新构建。")
        }
        other => panic!("unexpected {other:?}"),
    }
}

#[test]
fn finetuned_models_are_named_after_base_and_dataset() {
    assert_eq!(build_model_name("PP-OCRv5", Some("receipts")), "PP-OCRv5-receipts-finetuned");
    assert_eq!(build_model_name("base", None), "base-dataset-finetuned");
}

#[test]
fn sample_file_names_follow_split_row_and_region() {
    assert_eq!(sample_file_name("train", 17, None), "train_17.jpg");
    assert_eq!(sample_file_name("validation", 0, Some(3)), "validation_0_3.jpg");
    assert_eq!(sample_file_name("test", 1205, Some(12)), "test_1205_12.jpg");
}

#[test]
fn written_label_lines_read_back() {
    assert_eq!(label_line("train_0.jpg", "你好 世界"), "train_0.jpg\t你好 世界\n");
    let mut content = label_line("train_0.jpg", "你好 世界");
    content.push_str(&label_line("train_1_2.jpg", "abc"));
    let records = parse_labels_raw(&content);
    assert_eq!(records.len(), 2);
    assert_eq!(records[0].image_path, "train_0.jpg");
    assert_eq!(records[0].label_text, "你好 世界");
    assert_eq!(records[1].image_path, "train_1_2.jpg");
    assert_eq!(records[1].label_text, "abc");
}

#[test]
fn dataset_get_agrees_with_items_and_len() {
    let map = build_char_map("a\nb\nc");
    let content = "0001.jpg\tabc\n0002.jpg\t???\n0003.jpg\tcb\n";
    let dataset = OcrDataset::from_labels(content, &map);
    assert_eq!(dataset.len(), 2);
    for i in 0..dataset.len() {
        let item = dataset.get(i).unwrap();
        assert_eq!(item.image_path, dataset.items()[i].image_path);
        assert_eq!(item.label_text, dataset.items()[i].label_text);
        assert_eq!(item.label_indices, dataset.items()[i].label_indices);
    }
    let second = dataset.get(1).unwrap();
    assert_eq!(second.image_path, "0003.jpg");
    assert_eq!(second.label_indices, vec![3, 2]);
    assert!(dataset.get(dataset.len()).is_none());
    assert!(dataset.get(usize::MAX).is_none());
}
