use aiocr::decode::CtcDecoder;

fn abc_decoder() -> CtcDecoder {
    CtcDecoder::from_classes(vec![
        "<blank>".to_string(),
        "a".to_string(),
        "b".to_string(),
        "c".to_string(),
    ])
}

/// Index of the largest value of each time step.
fn best_path(values: &[f32], num_classes: usize) -> Vec<usize> {
    values
        .chunks(num_classes)
        .map(|step| {
            let mut best = 0;
            for (i, v) in step.iter().enumerate() {
                if *v > step[best] {
                    best = i;
                }
            }
            best
        })
        .collect()
}

#[test]
fn test_ctc_decode_removes_blanks_and_duplicates() {
    let decoder = abc_decoder();
    let logits: Vec<f32> = vec![
        10.0, 0.0, 0.0, 0.0, // blank
        0.0, 10.0, 0.0, 0.0, // a
        0.0, 10.0, 0.0, 0.0, // a (repeat, skipped)
        0.0, 0.0, 10.0, 0.0, // b
        10.0, 0.0, 0.0, 0.0, // blank
        0.0, 0.0, 0.0, 10.0, // c
    ];
    let best = best_path(&logits, 4);
    let (text, _steps) = decoder.decode_best_path(&best);
    assert_eq!(text, "abc");
}

#[test]
fn test_dict_loader_preserves_space_token_without_duplicate_append() {
    let decoder = CtcDecoder::from_dict_content("a\n \nb");
    assert_eq!(decoder.num_classes(), 4);
}

#[test]
fn test_dict_loader_normalizes_ideographic_space_to_ascii_space() {
    let decoder = CtcDecoder::from_dict_content("\u{3000}\na\nb");
    let (text, _steps) = decoder.decode_best_path(&best_path(&[0.0, 1.0, 0.0, 0.0], 4));
    assert_eq!(decoder.num_classes(), 4);
    assert_eq!(text, " ");
}

#[test]
fn decode_reports_emitting_steps() {
    let decoder = abc_decoder();
    let (text, steps) = decoder.decode_best_path(&[0, 1, 1, 2, 0, 3, 3, 9, 1]);
    assert_eq!(text, "abca");
    assert_eq!(steps, vec![1, 3, 5, 8]);
}

#[test]
fn decode_repeats_a_class_after_a_blank() {
    let decoder = abc_decoder();
    let (text, steps) = decoder.decode_best_path(&[1, 0, 1, 1]);
    assert_eq!(text, "aa");
    assert_eq!(steps, vec![0, 2]);
}

#[test]
fn decode_skips_classes_outside_the_dictionary() {
    let decoder = abc_decoder();
    let (text, steps) = decoder.decode_best_path(&[4, 7, 2]);
    assert_eq!(text, "b");
    assert_eq!(steps, vec![2]);
    let (empty, none) = decoder.decode_best_path(&[]);
    assert_eq!(empty, "");
    assert!(none.is_empty());
}

#[test]
fn dict_keeps_ideographic_space_when_an_ascii_space_exists() {
    let decoder = CtcDecoder::from_dict_content(" \n\u{3000}\nx\r\n\n");
    let classes = decoder.classes();
    assert_eq!(classes.len(), 4);
    assert_eq!(classes[0], "<blank>");
    assert_eq!(classes[1], " ");
    assert_eq!(classes[2], "\u{3000}");
    assert_eq!(classes[3], "x");
}

#[test]
fn dict_drops_empty_lines_and_carriage_returns() {
    let decoder = CtcDecoder::from_dict_content("a\r\n\r\nb\n\nc\r");
    let classes: Vec<&str> = decoder.classes().iter().map(|s| s.as_str()).collect();
    assert_eq!(classes, vec!["<blank>", "a", "b", "c"]);
}

#[test]
fn builtin_alphabet_has_ninety_classes() {
    let decoder = CtcDecoder::builtin_ascii();
    assert_eq!(decoder.num_classes(), 90);
    let classes = decoder.classes();
    assert_eq!(classes[1], "0");
    assert_eq!(classes[11], "a");
    assert_eq!(classes[37], "A");
    assert_eq!(classes[89], " ");
    let (text, _) = decoder.decode_best_path(&[18, 15, 22, 22, 0, 22, 25]);
    assert_eq!(text, "hello");
}

#[test]
fn dict_or_builtin_falls_back_without_a_dictionary() {
    assert_eq!(CtcDecoder::from_dict_or_builtin(None).num_classes(), 90);
    assert_eq!(CtcDecoder::from_dict_or_builtin(Some("x\ny")).num_classes(), 3);
}
