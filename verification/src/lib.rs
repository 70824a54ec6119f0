//! Verified core of an OCR toolkit: dictionary handling and CTC decoding,
//! connected-component labelling of detection masks, text-layout helpers,
//! integer image operations used for augmentation, and dataset utilities.

pub mod config;

pub mod components;
pub mod text;
pub mod decode;
pub mod layout;
pub mod numbering;
pub mod metrics;
pub mod ui_state;
pub mod dataset;
pub mod imaging;
pub mod models;
pub mod naming;
pub mod labels;
pub mod session;
pub mod frontend;
pub mod rec_output;
pub mod assembly;
pub mod batching;
pub mod onnx_shapes;
pub mod training;
