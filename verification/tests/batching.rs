use aiocr::batching::{plan_inference_batches, InferenceBatch, MAX_INFERENCE_BATCH};
use aiocr::rec_output::split_batched_probabilities;

fn summary(batches: &[InferenceBatch]) -> Vec<(usize, Vec<usize>)> {
    batches.iter().map(|b| (b.width, b.indices.clone())).collect()
}

#[test]
fn crops_are_grouped_by_width_then_chunked() {
    let batches = plan_inference_batches(&[64, 32, 64, 32, 32], 2);
    assert_eq!(
        summary(&batches),
        vec![(32, vec![1, 3]), (32, vec![4]), (64, vec![0, 2])]
    );
}

#[test]
fn no_crops_give_no_batches() {
    assert!(plan_inference_batches(&[], MAX_INFERENCE_BATCH).is_empty());
}

#[test]
fn batches_hold_at_most_the_limit() {
    assert_eq!(MAX_INFERENCE_BATCH, 32);
    let widths = vec![96usize; 40];
    let batches = plan_inference_batches(&widths, MAX_INFERENCE_BATCH);
    assert_eq!(batches.len(), 2);
    assert_eq!(batches[0].indices, (0..32).collect::<Vec<usize>>());
    assert_eq!(batches[1].indices, (32..40).collect::<Vec<usize>>());
    assert!(batches.iter().all(|b| b.width == 96));
}

#[test]
fn time_major_batch_is_cut_per_crop() {
    // [2, 2, 3]: two crops, two steps, three classes.
    let probs: Vec<i32> = (0..12).collect();
    let samples = split_batched_probabilities(&probs, [2, 2, 3], 2, 3).unwrap();
    assert_eq!(samples, vec![(vec![0, 1, 2, 3, 4, 5], 3), (vec![6, 7, 8, 9, 10, 11], 3)]);
}

#[test]
fn class_major_batch_is_transposed() {
    // [1, 3, 2]: three classes by two steps.
    let probs: Vec<i32> = vec![10, 11, 20, 21, 30, 31];
    let samples = split_batched_probabilities(&probs, [1, 3, 2], 1, 3).unwrap();
    assert_eq!(samples, vec![(vec![10, 20, 30, 11, 21, 31], 3)]);
}

#[test]
fn batched_output_errors() {
    let probs: Vec<i32> = vec![0; 6];
    assert_eq!(
        split_batched_probabilities(&probs, [2, 2, 3], 1, 3).unwrap_err(),
        "识别模型批量输出 batch 维异常: expected 1, got [2, 2, 3]"
    );
    assert_eq!(
        split_batched_probabilities(&probs, [1, 2, 3], 1, 5).unwrap_err(),
        "识别模型输出类别数少于字典大小: output=[1, 2, 3], dict_classes=5"
    );
    assert_eq!(
        split_batched_probabilities(&probs, [2, 2, 3], 2, 3).unwrap_err(),
        "识别模型输出数据不足: len=6, required=12, shape=[2, 2, 3]"
    );
}
