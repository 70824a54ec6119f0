use aiocr::config::{default_det_long_side, DetectionBoxMode, DetectionResize, QualityPreset};
use aiocr::decode::CtcDecoder;
use aiocr::models::{
    has_generated_classifier, has_generated_detector, has_generated_recognizer, TextRecognizer,
};
use aiocr::ui_state::{preset_hint, DownloadStatus, EngineBackend, TaskStatus, ThemeMode};

#[test]
fn presets_and_their_parameters() {
    assert_eq!(QualityPreset::default_preset(), QualityPreset::High);
    assert_eq!(QualityPreset::Fast.display_name(), "快速");
    assert_eq!(QualityPreset::Balanced.display_name(), "均衡");
    assert_eq!(QualityPreset::High.display_name(), "高精度");
    assert_eq!(QualityPreset::Fast.det_long_side(), 960);
    assert_eq!(QualityPreset::Balanced.det_long_side(), 1280);
    assert_eq!(QualityPreset::High.det_long_side(), 1600);
    assert!(!QualityPreset::Fast.rotated_boxes());
    assert!(QualityPreset::High.rotated_boxes());
    assert_eq!(default_det_long_side(), 1600);
    assert_eq!(preset_hint(QualityPreset::Balanced), "兼顾速度与精度");
}

#[test]
fn detection_resize_constructors() {
    let square = DetectionResize::square(512);
    assert_eq!(square, DetectionResize { target_long_side: 512, square_pad: true, allow_upscale: true });
    let limited = DetectionResize::limit_side(1280, false);
    assert_eq!(limited.target_long_side, 1280);
    assert!(!limited.square_pad);
    assert!(!limited.allow_upscale);
    assert_eq!(DetectionBoxMode::for_rotated(true), DetectionBoxMode::MinAreaRect);
    assert_eq!(DetectionBoxMode::for_rotated(false), DetectionBoxMode::AxisAligned);
}

#[test]
fn no_generated_models_in_this_build() {
    assert!(!has_generated_detector());
    assert!(!has_generated_classifier());
    assert!(!has_generated_recognizer());
    let recognizer = TextRecognizer::new(CtcDecoder::from_dict_content("a\nb"));
    assert_eq!(recognizer.num_classes(), 3);
    assert_eq!(recognizer.name(), "pp-ocrv5-rec");
    assert!(!recognizer.is_model_available());
    assert!(!TextRecognizer::generated_model_available());
    let custom = TextRecognizer::from_burnpack_file(
        CtcDecoder::builtin_ascii(),
        "models/rec.bpk".to_string(),
        "custom".to_string(),
    );
    assert_eq!(custom.name(), "custom");
    assert_eq!(custom.num_classes(), 90);
    assert!(!custom.is_model_available());
}

#[test]
fn theme_cycles_through_three_modes() {
    let start = ThemeMode::default_mode();
    assert_eq!(start, ThemeMode::System);
    assert_eq!(start.next(), ThemeMode::Light);
    assert_eq!(start.next().next(), ThemeMode::Dark);
    assert_eq!(start.next().next().next(), start);
    assert_eq!(ThemeMode::Light.icon(), "☀");
    assert_eq!(ThemeMode::Dark.label(), "深色");
}

#[test]
fn busy_states() {
    assert!(TaskStatus::Loading.is_busy());
    assert!(TaskStatus::Recognizing.is_busy());
    assert!(TaskStatus::Training.is_busy());
    assert!(!TaskStatus::Idle.is_busy());
    assert!(!TaskStatus::Error("x".to_string()).is_busy());
    assert!(DownloadStatus::Downloading { component: "c".to_string(), downloaded: 1, total: 2 }.is_busy());
    assert!(!DownloadStatus::Complete.is_busy());
    assert_eq!(EngineBackend::default_backend(), EngineBackend::BurnDefault);
    assert_eq!(EngineBackend::Onnx.display_name(), "外部 ONNX 模型");
}
