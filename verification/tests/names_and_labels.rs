use aiocr::labels::{
    cjk_score, cp1252_byte, cp1252_mojibake_to_utf8, encode_dataset, normalize_label,
    repair_mojibake,
};
use aiocr::naming::{model_dir_name, newest_first, sanitize_name, u64_decimal};
use std::collections::HashSet;

#[test]
fn sanitize_replaces_and_trims() {
    assert_eq!(sanitize_name("My Model v1.0!", "ai-recognizer"), "My-Model-v1-0");
    assert_eq!(sanitize_name("---", "ai-recognizer"), "ai-recognizer");
    assert_eq!(sanitize_name("", "template-model"), "template-model");
    assert_eq!(sanitize_name("模型_α", "template-model"), "_");
    assert_eq!(sanitize_name("ok-name_1", "x"), "ok-name_1");
}

#[test]
fn sanitize_is_idempotent() {
    for name in ["My Model v1.0!", "---", "模型_α", "  a  b  "] {
        let once = sanitize_name(name, "ai-recognizer");
        assert_eq!(sanitize_name(&once, "ai-recognizer"), once);
    }
}

#[test]
fn model_directory_names() {
    assert_eq!(model_dir_name(1700000000, "abc def", "ai-recognizer"), "1700000000-abc-def");
    assert_eq!(model_dir_name(0, "!!", "template-model"), "0-template-model");
    let digits: String = u64_decimal(u64::MAX).into_iter().collect();
    assert_eq!(digits, u64::MAX.to_string());
}

#[test]
fn models_are_listed_newest_first() {
    assert_eq!(newest_first(&[5, 9, 5, 1, 9]), vec![1, 4, 0, 2, 3]);
    assert!(newest_first(&[]).is_empty());
    assert_eq!(newest_first(&[3, 3, 3]), vec![0, 1, 2]);
}

#[test]
fn windows_1252_bytes() {
    assert_eq!(cp1252_byte('A'), Some(65));
    assert_eq!(cp1252_byte('\u{ff}'), Some(0xff));
    assert_eq!(cp1252_byte('€'), Some(0x80));
    assert_eq!(cp1252_byte('\u{2021}'), Some(0x87));
    assert_eq!(cp1252_byte('中'), None);
}

#[test]
fn cjk_ideographs_are_counted() {
    assert_eq!(cjk_score("ab中文한"), 2);
    assert_eq!(cjk_score(""), 0);
    assert_eq!(cjk_score("\u{3400}\u{f900}"), 2);
}

#[test]
fn mojibake_is_repaired() {
    let garbled = "\u{e4}\u{b8}\u{ad}\u{e6}\u{2013}\u{2021}";
    assert_eq!(cp1252_mojibake_to_utf8(garbled).as_deref(), Some("中文"));
    assert_eq!(repair_mojibake(garbled), "中文");
    assert_eq!(repair_mojibake("abc"), "abc");
    assert_eq!(repair_mojibake("中x"), "中x");
    assert_eq!(cp1252_mojibake_to_utf8("中x"), None);
    // 0xFF is never valid UTF-8.
    assert_eq!(cp1252_mojibake_to_utf8("\u{ff}"), None);
}

#[test]
fn labels_keep_dictionary_characters() {
    let allowed: HashSet<u32> = ['中' as u32, 'a' as u32].into_iter().collect();
    let garbled = "\u{e4}\u{b8}\u{ad}\u{e6}\u{2013}\u{2021}";
    assert_eq!(normalize_label(garbled, &allowed, 1), Some("中".to_string()));
    assert_eq!(normalize_label(garbled, &allowed, 2), None);
    assert_eq!(normalize_label("a-b-a", &allowed, 2), Some("aa".to_string()));
    assert_eq!(normalize_label("xyz", &allowed, 0), Some(String::new()));
}

#[test]
fn dataset_names_are_escaped() {
    assert_eq!(encode_dataset("owner/name"), "owner%2Fname");
    assert_eq!(encode_dataset("a/b/c"), "a%2Fb%2Fc");
    assert_eq!(encode_dataset("plain"), "plain");
}
