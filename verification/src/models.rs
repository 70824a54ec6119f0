//! Availability of compiled-in model code and the recognizer's bookkeeping.
use vstd::prelude::*;

use crate::decode::CtcDecoder;

verus! {

/// Whether detector code generated from an ONNX model is compiled in; this
/// build carries none.
pub fn has_generated_detector() -> (b: bool)
    ensures
        !b,
{
    false
}

/// Whether direction-classifier code generated from an ONNX model is
/// compiled in; this build carries none.
pub fn has_generated_classifier() -> (b: bool)
    ensures
        !b,
{
    false
}

/// Whether recognizer code generated from an ONNX model is compiled in;
/// this build carries none.
pub fn has_generated_recognizer() -> (b: bool)
    ensures
        !b,
{
    false
}

/// Where a recognizer's weights come from.
pub enum RecognizerWeights {
    /// Weights compiled into the generated model.
    Embedded,
    /// A burnpack file on disk.
    BurnpackFile(String),
}

/// Text recognizer: a CTC decoder, the source of its weights and its name.
pub struct TextRecognizer {
    decoder: CtcDecoder,
    weights: RecognizerWeights,
    model_name: String,
}

impl TextRecognizer {
    /// The dictionary that the recognizer decodes with.
    pub closed spec fn classes(&self) -> Seq<Seq<char>> {
        self.decoder@
    }

    /// The recognizer's model name.
    pub closed spec fn name_view(&self) -> Seq<char> {
        self.model_name@
    }

    /// The weights file, if the weights are not embedded.
    pub closed spec fn weights_file(&self) -> Option<Seq<char>> {
        match self.weights {
            RecognizerWeights::Embedded => None,
            RecognizerWeights::BurnpackFile(p) => Some(p@),
        }
    }

    /// A recognizer with embedded weights.
    pub fn new(decoder: CtcDecoder) -> (r: Self)
        ensures
            r.classes() == decoder@,
            r.weights_file() is None,
            r.name_view() == "pp-ocrv5-rec"@,
    {
        Self::from_embedded(decoder)
    }

    /// A recognizer with embedded weights, named after the bundled model.
    pub fn from_embedded(decoder: CtcDecoder) -> (r: Self)
        ensures
            r.classes() == decoder@,
            r.weights_file() is None,
            r.name_view() == "pp-ocrv5-rec"@,
    {
        TextRecognizer {
            decoder,
            weights: RecognizerWeights::Embedded,
            model_name: String::from_str("pp-ocrv5-rec"),
        }
    }

    /// A recognizer whose weights are read from a burnpack file.
    pub fn from_burnpack_file(decoder: CtcDecoder, weights_path: String, model_name: String) -> (r:
        Self)
        ensures
            r.classes() == decoder@,
            r.weights_file() == Some(weights_path@),
            r.name_view() == model_name@,
    {
        TextRecognizer { decoder, weights: RecognizerWeights::BurnpackFile(weights_path), model_name }
    }

    /// Whether generated recognizer code is compiled in.
    pub fn generated_model_available() -> (b: bool)
        ensures
            !b,
    {
        has_generated_recognizer()
    }

    /// Whether the recognizer can run: never without generated model code.
    pub fn is_model_available(&self) -> (b: bool)
        ensures
            !b,
    {
        if !Self::generated_model_available() {
            return false;
        }
        match &self.weights {
            RecognizerWeights::Embedded => true,
            RecognizerWeights::BurnpackFile(_) => false,
        }
    }

    /// Dictionary size, blank included.
    pub fn num_classes(&self) -> (n: usize)
        ensures
            n == self.classes().len(),
    {
        self.decoder.num_classes()
    }

    /// The recognizer's model name.
    pub fn name(&self) -> (name: &str)
        ensures
            name@ == self.name_view(),
    {
        self.model_name.as_str()
    }
}

/// The detector an engine is built with.
#[derive(Debug, PartialEq, Eq, Structural)]
pub enum DetectorChoice {
    /// The detection model file that was found.
    OnnxFile,
    /// The detector compiled into the library.
    Builtin,
}

/// The recognizer an engine is built with.
#[derive(Debug, PartialEq, Eq, Structural)]
pub enum RecognizerChoice {
    /// The recognition model file that was found.
    OnnxFile,
    /// The recognizer with embedded weights.
    Embedded,
}

/// The parts of an engine, given whether a detection and a recognition
/// model file are at hand: a file is used when there is one, except that
/// compiled-in recognizer code goes first.
pub fn engine_parts(det_file: bool, rec_file: bool) -> (parts: (DetectorChoice, RecognizerChoice))
    ensures
        parts.0 == (if det_file {
            DetectorChoice::OnnxFile
        } else {
            DetectorChoice::Builtin
        }),
        parts.1 == (if rec_file {
            RecognizerChoice::OnnxFile
        } else {
            RecognizerChoice::Embedded
        }),
{
    let det = if det_file {
        DetectorChoice::OnnxFile
    } else {
        DetectorChoice::Builtin
    };
    let rec = if TextRecognizer::generated_model_available() {
        RecognizerChoice::Embedded
    } else if rec_file {
        RecognizerChoice::OnnxFile
    } else {
        RecognizerChoice::Embedded
    };
    (det, rec)
}

} // verus!
