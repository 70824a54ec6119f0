//! Training errors, the training entry point of a build without trainable
//! model code, and the naming of fine-tuned models.
use vstd::prelude::*;

use crate::text::push_char;

verus! {

broadcast use vstd::string::group_string_axioms;

/// Errors of dataset handling and training. An I/O error is carried by its
/// text.
#[derive(Debug)]
pub enum TrainError {
    Dataset(String),
    Model(String),
    Training(String),
    Export(String),
    Io(String),
}

/// The text of an error: a label for its kind, then its detail.
pub open spec fn train_error_text(e: TrainError) -> Seq<char> {
    match e {
        TrainError::Dataset(s) => "数据集错误: "@ + s@,
        TrainError::Model(s) => "模型错误: "@ + s@,
        TrainError::Training(s) => "训练错误: "@ + s@,
        TrainError::Export(s) => "导出错误: "@ + s@,
        TrainError::Io(s) => "IO 错误: "@ + s@,
    }
}

fn concat(a: &str, b: &str) -> (s: String)
    ensures
        s@ == a@ + b@,
{
    let mut s = String::from_str(a);
    s.append(b);
    s
}

impl TrainError {
    /// The error's text.
    pub fn message(&self) -> (s: String)
        ensures
            s@ == train_error_text(*self),
    {
        match self {
            TrainError::Dataset(d) => concat("数据集错误: ", d.as_str()),
            TrainError::Model(d) => concat("模型错误: ", d.as_str()),
            TrainError::Training(d) => concat("训练错误: ", d.as_str()),
            TrainError::Export(d) => concat("导出错误: ", d.as_str()),
            TrainError::Io(d) => concat("IO 错误: ", d.as_str()),
        }
    }
}

/// What training reports when no trainable recognizer is compiled in.
pub open spec fn no_trainable_model_text() -> Seq<char> {
    "当前环境没有可训练的识别 AI 模型，请先确认 models/rec.onnx 已存在并重新构建。"@
}

/// Whether training can run: only with recognizer model code compiled in,
/// which this build does not carry.
pub fn check_trainable_model() -> (r: Result<(), TrainError>)
    ensures
        r matches Err(TrainError::Training(msg)) && msg@ == no_trainable_model_text(),
{
    if crate::models::has_generated_recognizer() {
        Ok(())
    } else {
        Err(TrainError::Training(String::from_str("当前环境没有可训练的识别 AI 模型，请先确认 models/rec.onnx 已存在并重新构建。")))
    }
}

/// The name of a model fine-tuned from `base_name` on the dataset whose
/// directory is named `dataset_name` (`dataset` when it has no name).
pub open spec fn finetuned_name(base_name: Seq<char>, dataset_name: Option<Seq<char>>) -> Seq<char> {
    base_name + "-"@ + match dataset_name {
        Some(n) => n,
        None => "dataset"@,
    } + "-finetuned"@
}

/// Names a fine-tuned model after its base model and its dataset.
pub fn build_model_name(base_name: &str, dataset_name: Option<&str>) -> (s: String)
    ensures
        s@ == finetuned_name(
            base_name@,
            match dataset_name {
                Some(n) => Some(n@),
                None => None,
            },
        ),
{
    let mut s = String::from_str(base_name);
    push_char(&mut s, '-');
    match dataset_name {
        Some(n) => s.append(n),
        None => s.append("dataset"),
    }
    s.append("-finetuned");
    proof {
        reveal_strlit("-");
        assert(base_name@.push('-') =~= base_name@ + "-"@);
    }
    s
}

} // verus!
