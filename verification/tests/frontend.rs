use aiocr::config::QualityPreset;
use aiocr::frontend::{AppState, WorkerMessage, WorkerRequest};
use aiocr::session::{
    contains_text, download_plan, same_text, EngineSpec, FileProbe, ModelDirProbe, ModelHubState,
    ModelSelection, OnnxModelConfig, OnnxState,
};
use aiocr::ui_state::{
    ControlAction, DirectoryKind, DownloadStatus, EngineBackend, HubAction, TaskStatus, ThemeMode,
    ToolbarAction, TrainingAction,
};

fn probe(dir: &str, present: &[&str]) -> ModelDirProbe {
    let file = |name: &str| FileProbe {
        path: format!("{dir}/{name}"),
        file_name: name.to_string(),
        exists: present.contains(&name),
    };
    ModelDirProbe {
        det: file("det.onnx"),
        rec: file("rec.onnx"),
        cls: file("cls.onnx"),
        keys: file("ppocr_keys_v1.txt"),
        dict: file("dict.txt"),
    }
}

#[test]
fn text_helpers() {
    assert!(same_text("abc", "abc"));
    assert!(!same_text("abc", "abd"));
    assert!(contains_text("错误: 训练已取消", "训练已取消"));
    assert!(!contains_text("训练", "训练已取消"));
    assert!(contains_text("anything", ""));
}

#[test]
fn onnx_config_from_a_directory() {
    let config = OnnxModelConfig::from_dir(&probe("m", &["det.onnx", "rec.onnx", "dict.txt"]));
    assert_eq!(config.det_path.as_deref(), Some("m/det.onnx"));
    assert_eq!(config.rec_path.as_deref(), Some("m/rec.onnx"));
    assert_eq!(config.cls_path, None);
    assert_eq!(config.dict_path.as_deref(), Some("m/dict.txt"));
    assert!(config.is_usable(true, true));
    assert!(!config.is_usable(true, false));
    let both = OnnxModelConfig::from_dir(&probe("m", &["ppocr_keys_v1.txt", "dict.txt"]));
    assert_eq!(both.dict_path.as_deref(), Some("m/ppocr_keys_v1.txt"));
    assert!(!both.is_usable(true, true));
}

#[test]
fn onnx_state_status() {
    let mut state = OnnxState::default();
    assert_eq!(state.status(false, "", ""), "未配置 ONNX 模型（需要 det.onnx + rec.onnx）");
    state.load_from_dir("m".to_string(), &probe("m", &["det.onnx", "rec.onnx"]));
    assert_eq!(state.model_dir.as_deref(), Some("m"));
    assert!(state.is_usable(true, true));
    assert_eq!(state.status(true, "det.onnx", "rec.onnx"), "已配置: det=det.onnx, rec=rec.onnx");
}

#[test]
fn engine_names_and_download_plan() {
    assert_eq!(EngineSpec::Default.display_name(), "默认 PP-OCRv5 Server");
    assert_eq!(EngineSpec::LocalAi("artifacts/m1".to_string()).display_name(), "AI 模型 artifacts/m1");
    let onnx = EngineSpec::Onnx { det_path: Some("d.onnx".to_string()), rec_path: None, dict_path: None };
    assert_eq!(onnx.display_name(), "ONNX [det=d.onnx, rec=]");
    let plan = download_plan("u1", "u2", Some("u3"));
    assert_eq!(plan.len(), 3);
    assert_eq!(plan[2].file_name, "ppocr_keys_v1.txt");
    assert_eq!(plan[0].component, "检测模型 (det.onnx)");
    assert_eq!(download_plan("u1", "u2", Some("")).len(), 2);
    assert_eq!(download_plan("u1", "u2", None).len(), 2);
    let hub = ModelHubState::default();
    assert!(hub.det_url.ends_with("det.onnx"));
    assert_eq!(hub.save_dir, "models");
}

#[test]
fn model_selection_follows_the_list() {
    let mut sel = ModelSelection {
        available_model_dirs: vec![],
        selected_model_dir: Some("gone".to_string()),
        active_model_dir: Some("b".to_string()),
    };
    sel.set_available_models(vec!["a".to_string(), "b".to_string()]);
    assert_eq!(sel.selected_model_dir.as_deref(), Some("a"));
    assert_eq!(sel.active_model_dir.as_deref(), Some("b"));
    assert_eq!(sel.selected_model(), Some(0));
    assert_eq!(sel.active_model(), Some(1));
    sel.set_available_models(vec!["c".to_string()]);
    assert_eq!(sel.selected_model_dir.as_deref(), Some("c"));
    assert_eq!(sel.active_model_dir, None);
    assert_eq!(sel.active_model(), None);
    sel.set_available_models(vec![]);
    assert_eq!(sel.selected_model_dir, None);
}

#[test]
fn recognition_starts_only_when_idle_with_an_image() {
    let mut app = AppState::default();
    assert_eq!(app.status_message, "就绪，可拖拽图片或按 Ctrl+V / Cmd+V 粘贴截图");
    assert!(app.start_ocr().is_none());
    app.process_message(WorkerMessage::ImageLoaded("a.png".to_string()));
    assert_eq!(app.status_message, "图片加载完成");
    assert!(app.has_image);
    match app.start_ocr() {
        Some(WorkerRequest::RunOcr { spec: EngineSpec::Default, preset }) => {
            assert_eq!(preset, QualityPreset::High)
        }
        _ => panic!("expected a recognition request"),
    }
    assert_eq!(app.task_status, TaskStatus::Recognizing);
    assert!(app.start_ocr().is_none());
    app.process_message(WorkerMessage::OcrComplete { regions: 12, elapsed_ms: 345 });
    assert_eq!(app.status_message, "识别完成: 12 个区域, 345ms");
    assert_eq!(app.task_status, TaskStatus::Idle);
    assert!(app.has_result);
}

#[test]
fn errors_are_told_apart() {
    let mut app = AppState::default();
    app.task_status = TaskStatus::Training;
    app.process_message(WorkerMessage::Error("训练失败: 训练已取消".to_string()));
    assert_eq!(app.task_status, TaskStatus::Idle);
    assert_eq!(app.status_message, "训练已取消");
    app.process_message(WorkerMessage::Error("模型下载失败: 404".to_string()));
    assert!(matches!(app.model_hub.download_status, DownloadStatus::Error(ref e) if e == "模型下载失败: 404"));
    assert_eq!(app.task_status, TaskStatus::Idle);
    app.process_message(WorkerMessage::Error("boom".to_string()));
    assert_eq!(app.task_status, TaskStatus::Error("boom".to_string()));
    assert_eq!(app.status_message, "boom");
}

#[test]
fn training_flow() {
    let mut app = AppState::default();
    let req = app.handle_training_action(TrainingAction::StartTraining, None);
    match req {
        Some(WorkerRequest::Train { dataset_path, artifact_dir, base_model_dir }) => {
            assert_eq!(dataset_path, "dataset");
            assert_eq!(artifact_dir, "artifacts");
            assert_eq!(base_model_dir, None);
        }
        _ => panic!("expected a training request"),
    }
    assert_eq!(app.task_status, TaskStatus::Training);
    app.process_message(WorkerMessage::TrainingProgress("Epoch 1/50".to_string()));
    assert_eq!(app.status_message, "训练中: Epoch 1/50");
    assert!(app.training_in_progress);
    let req = app.process_message(WorkerMessage::TrainingComplete {
        model_dir: "artifacts/1-m".to_string(),
        model_name: "m (90%)".to_string(),
    });
    assert!(matches!(req, Some(WorkerRequest::RefreshModels(ref d)) if d == "artifacts"));
    assert_eq!(app.status_message, "训练完成，已切换到模型: m (90%)");
    assert_eq!(app.models.active_model_dir.as_deref(), Some("artifacts/1-m"));
    app.process_message(WorkerMessage::ModelsLoaded(vec!["artifacts/1-m".to_string()]));
    assert_eq!(app.models.selected_model(), Some(0));
    app.handle_training_action(TrainingAction::UseSelectedModel, Some("m (90%)"));
    assert_eq!(app.active_backend, EngineBackend::LocalAi);
    assert_eq!(app.status_message, "已切换识别模型: m (90%)");
    assert!(matches!(app.current_engine_spec(), EngineSpec::LocalAi(ref d) if d == "artifacts/1-m"));
}

#[test]
fn directories_and_downloads() {
    let mut app = AppState::default();
    let req = app.process_message(WorkerMessage::DirectorySelected {
        kind: DirectoryKind::Artifact,
        path: "out".to_string(),
        probe: probe("out", &[]),
    });
    assert!(matches!(req, Some(WorkerRequest::RefreshModels(ref d)) if d == "out"));
    assert_eq!(app.status_message, "产物目录已更新: out");
    let req = app.process_message(WorkerMessage::DirectorySelected {
        kind: DirectoryKind::OnnxModel,
        path: "m".to_string(),
        probe: probe("m", &["det.onnx", "rec.onnx"]),
    });
    assert!(matches!(req, Some(WorkerRequest::InvalidateOnnxCache)));
    assert_eq!(app.active_backend, EngineBackend::Onnx);
    assert_eq!(app.status_message, "已切换到外部 ONNX 模型: 已配置: det=det.onnx, rec=rec.onnx");
    let req = app.handle_hub_action(HubAction::StartDownload);
    assert!(matches!(req, Some(WorkerRequest::DownloadModels { dict_url: Some(_), .. })));
    assert!(app.model_hub.download_status.is_busy());
    app.process_message(WorkerMessage::DownloadProgress {
        component: "rec.onnx".to_string(),
        downloaded: 10,
        total: 20,
        megabytes: "1.5".to_string(),
    });
    assert_eq!(app.status_message, "下载中: rec.onnx (1.5 MB)");
    app.process_message(WorkerMessage::DownloadComplete { save_dir: "models".to_string(), probe: probe("models", &[]) });
    assert!(matches!(app.model_hub.download_status, DownloadStatus::Complete));
    assert_eq!(app.active_backend, EngineBackend::Onnx);
    assert_eq!(app.status_message, "模型下载完成，已切换到外部 ONNX 推理引擎");
}

#[test]
fn toolbar_and_controls() {
    let mut app = AppState::default();
    assert!(matches!(app.handle_toolbar_action(ToolbarAction::OpenImage), Some(WorkerRequest::OpenImage)));
    assert_eq!(app.task_status, TaskStatus::Loading);
    assert!(app.handle_toolbar_action(ToolbarAction::PasteImage).is_none());
    app.task_status = TaskStatus::Idle;
    assert!(matches!(
        app.handle_toolbar_action(ToolbarAction::PasteImage),
        Some(WorkerRequest::ReadClipboard { auto_recognize: true })
    ));
    let req = app.clipboard_image_loaded(Ok(()), true);
    assert!(matches!(req, Some(WorkerRequest::RunOcr { .. })));
    assert_eq!(app.task_status, TaskStatus::Recognizing);
    app.clipboard_image_loaded(Err("无剪贴板图片".to_string()), true);
    assert_eq!(app.task_status, TaskStatus::Error("无剪贴板图片".to_string()));
    assert!(matches!(
        app.handle_toolbar_action(ToolbarAction::ToggleTheme),
        Some(WorkerRequest::InstallTheme(ThemeMode::Light))
    ));
    app.handle_control_action(ControlAction::SetPreset(QualityPreset::Fast));
    assert_eq!(app.status_message, "识别质量已设为：快速，重新识别后生效");
    assert_eq!(app.quality_preset, QualityPreset::Fast);
    app.handle_control_action(ControlAction::SwitchBackend(EngineBackend::Onnx));
    assert!(matches!(app.current_engine_spec(), EngineSpec::Onnx { det_path: None, .. }));
    let req = app.process_dropped_file("x.png".to_string());
    assert!(matches!(req, WorkerRequest::LoadImagePath(ref p) if p == "x.png"));
    assert_eq!(app.status_message, "加载拖拽图片: x.png");
    assert!(app.process_shortcuts(true).is_none());
}
