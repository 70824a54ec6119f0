//! State of the desktop front end and how worker messages and panel actions
//! change it. Each handler returns what the front end must ask of its
//! background worker or platform, which performs it and reports back with a
//! `WorkerMessage`.
use vstd::prelude::*;

use crate::config::{preset_name, QualityPreset};
use crate::session::{
    contains_text, dict_found, dirs_view, found, has_substring, kept_choice, opt_view, EngineSpec, ModelDirProbe,
    ModelHubState, ModelSelection, OnnxState, onnx_status_text,
};
use crate::text::{chars_of, decimal, string_from_chars, trim, trim_chars};
use crate::naming::u64_decimal;
use crate::ui_state::{
    ControlAction, DirectoryKind, DownloadStatus, EngineBackend, HubAction, TaskStatus, ThemeMode,
    ToolbarAction, TrainingAction, busy, next_mode,
};

verus! {

broadcast use vstd::string::group_string_axioms;

/// What the front end asks of its worker or platform.
pub enum WorkerRequest {
    /// Show a file dialog and load the chosen image.
    OpenImage,
    /// Load the image at a path (a dropped file).
    LoadImagePath(String),
    /// Read an image from the clipboard, then report it with `clipboard_image_loaded`.
    ReadClipboard { auto_recognize: bool },
    /// Recognize the current image.
    RunOcr { spec: EngineSpec, preset: QualityPreset },
    /// Show a directory dialog.
    PickDirectory { kind: DirectoryKind, start: Option<String> },
    /// Fine-tune a recognition model.
    Train { dataset_path: String, artifact_dir: String, base_model_dir: Option<String> },
    /// Cancel the training run.
    CancelTraining,
    /// List the models under a directory.
    RefreshModels(String),
    /// Drop the cached external ONNX engines.
    InvalidateOnnxCache,
    /// Download model files.
    DownloadModels { det_url: String, rec_url: String, dict_url: Option<String>, save_dir: String },
    /// Apply a theme.
    InstallTheme(ThemeMode),
}

/// What the worker reports.
pub enum WorkerMessage {
    /// An image was loaded from this path.
    ImageLoaded(String),
    /// Recognition finished.
    OcrComplete { regions: usize, elapsed_ms: u64 },
    /// Training progressed; the text describes epoch, batch, loss and accuracy.
    TrainingProgress(String),
    /// Training finished with a model saved in `model_dir`.
    TrainingComplete { model_dir: String, model_name: String },
    /// The models found, newest first, by directory.
    ModelsLoaded(Vec<String>),
    /// A directory was chosen, with the model files found in it.
    DirectorySelected { kind: DirectoryKind, path: String, probe: ModelDirProbe },
    /// A download progressed; `megabytes` is the amount downloaded as text.
    DownloadProgress { component: String, downloaded: u64, total: u64, megabytes: String },
    /// A download finished into `save_dir`, with the model files found there.
    DownloadComplete { save_dir: String, probe: ModelDirProbe },
    /// Something failed.
    Error(String),
}

/// What the desktop front end shows and remembers.
pub struct AppState {
    /// Path of the current image, when it came from a file.
    pub image_path: Option<String>,
    /// Whether an image is loaded.
    pub has_image: bool,
    /// Whether a recognition result for the image is shown.
    pub has_result: bool,
    /// State of the foreground task.
    pub task_status: TaskStatus,
    /// Status line.
    pub status_message: String,
    /// Whether detection boxes are drawn.
    pub show_bboxes: bool,
    /// Dataset directory for training.
    pub dataset_path: String,
    /// Directory that trained models go to.
    pub artifact_dir: String,
    /// Whether training progress is shown.
    pub training_in_progress: bool,
    /// Local models and the choice among them.
    pub models: ModelSelection,
    /// Engine back end in use.
    pub active_backend: EngineBackend,
    /// External ONNX model files.
    pub onnx: OnnxState,
    /// Model download panel.
    pub model_hub: ModelHubState,
    /// Recognition quality preset.
    pub quality_preset: QualityPreset,
    /// Theme.
    pub theme_mode: ThemeMode,
}

/// The status line a fresh application shows.
pub open spec fn ready_message() -> Seq<char> {
    "就绪，可拖拽图片或按 Ctrl+V / Cmd+V 粘贴截图"@
}

impl Default for AppState {
    fn default() -> (s: Self)
        ensures
            s.image_path is None && !s.has_image && !s.has_result,
            s.task_status is Idle,
            s.status_message@ == ready_message(),
            s.show_bboxes,
            s.dataset_path@ == "dataset"@ && s.artifact_dir@ == "artifacts"@,
            !s.training_in_progress,
            s.models.available_model_dirs@.len() == 0,
            s.models.selected_model_dir is None && s.models.active_model_dir is None,
            s.active_backend == EngineBackend::BurnDefault,
            s.onnx.det_path is None && s.onnx.rec_path is None && s.onnx.dict_path is None
                && s.onnx.model_dir is None,
            s.model_hub.save_dir@ == "models"@ && s.model_hub.download_status is Idle,
            s.quality_preset == QualityPreset::High,
            s.theme_mode == ThemeMode::System,
    {
        AppState {
            image_path: None,
            has_image: false,
            has_result: false,
            task_status: TaskStatus::Idle,
            status_message: String::from_str("就绪，可拖拽图片或按 Ctrl+V / Cmd+V 粘贴截图"),
            show_bboxes: true,
            dataset_path: String::from_str("dataset"),
            artifact_dir: String::from_str("artifacts"),
            training_in_progress: false,
            models: ModelSelection {
                available_model_dirs: Vec::new(),
                selected_model_dir: None,
                active_model_dir: None,
            },
            active_backend: EngineBackend::BurnDefault,
            onnx: OnnxState::default(),
            model_hub: ModelHubState::default(),
            quality_preset: QualityPreset::High,
            theme_mode: ThemeMode::System,
        }
    }
}

// ---------------------------------------------------------------------------
// Frames: the parts of the state that a step leaves alone
// ---------------------------------------------------------------------------

/// Same image and result.
pub open spec fn same_image(a: AppState, b: AppState) -> bool {
    a.image_path == b.image_path && a.has_image == b.has_image && a.has_result == b.has_result
}

/// Same training settings, progress and models.
pub open spec fn same_training(a: AppState, b: AppState) -> bool {
    &&& a.dataset_path == b.dataset_path
    &&& a.artifact_dir == b.artifact_dir
    &&& a.training_in_progress == b.training_in_progress
    &&& a.models == b.models
}

/// Same engine choice.
pub open spec fn same_engine(a: AppState, b: AppState) -> bool {
    a.active_backend == b.active_backend && a.onnx == b.onnx
}

/// Same display preferences.
pub open spec fn same_prefs(a: AppState, b: AppState) -> bool {
    a.show_bboxes == b.show_bboxes && a.quality_preset == b.quality_preset && a.theme_mode
        == b.theme_mode
}

/// The state apart from task status and status line.
pub open spec fn same_rest(a: AppState, b: AppState) -> bool {
    same_image(a, b) && same_training(a, b) && same_engine(a, b) && same_prefs(a, b) && a.model_hub
        == b.model_hub
}

// ---------------------------------------------------------------------------
// Text building
// ---------------------------------------------------------------------------

/// `a` followed by `b`.
fn cat(a: &str, b: &str) -> (s: String)
    ensures
        s@ == a@ + b@,
{
    let mut s = String::from_str(a);
    s.append(b);
    s
}

/// Decimal text of a count.
fn count_text(n: u64) -> (s: String)
    ensures
        s@ == decimal(n as nat),
{
    let v = u64_decimal(n);
    string_from_chars(v.as_slice())
}

// ---------------------------------------------------------------------------
// Effects of the worker's messages
// ---------------------------------------------------------------------------

/// A new image replaces the old one and its result; the task ends.
pub open spec fn image_set(a: AppState, b: AppState, path: Option<Seq<char>>, status: Seq<char>) -> bool {
    &&& opt_view(b.image_path) == path
    &&& b.has_image
    &&& !b.has_result
    &&& b.task_status is Idle
    &&& b.status_message@ == status
    &&& same_training(a, b) && same_engine(a, b) && same_prefs(a, b) && a.model_hub == b.model_hub
}

/// Status line after a recognition run.
pub open spec fn ocr_done_text(regions: usize, elapsed_ms: u64) -> Seq<char> {
    "识别完成: "@ + decimal(regions as nat) + " 个区域, "@ + decimal(elapsed_ms as nat) + "ms"@
}

/// Status line after training.
pub open spec fn training_done_text(model_name: Seq<char>) -> Seq<char> {
    "训练完成，已切换到模型: "@ + model_name
}

/// Status line while downloading.
pub open spec fn downloading_text(component: Seq<char>, megabytes: Seq<char>) -> Seq<char> {
    "下载中: "@ + component + " ("@ + megabytes + " MB)"@
}

/// How an error message is told apart: a cancelled training run, a failed
/// download, or anything else.
pub open spec fn error_effect(a: AppState, b: AppState, msg: Seq<char>) -> bool {
    if has_substring(msg, "训练已取消"@) {
        &&& b.task_status is Idle
        &&& !b.training_in_progress
        &&& b.status_message@ == "训练已取消"@
        &&& same_image(a, b) && same_engine(a, b) && same_prefs(a, b) && a.model_hub == b.model_hub
        &&& a.dataset_path == b.dataset_path && a.artifact_dir == b.artifact_dir && a.models
            == b.models
    } else if has_substring(msg, "模型下载失败"@) {
        &&& b.model_hub.download_status matches DownloadStatus::Error(e) && e@ == msg
        &&& b.status_message@ == msg
        &&& b.task_status == a.task_status
        &&& same_image(a, b) && same_training(a, b) && same_engine(a, b) && same_prefs(a, b)
        &&& b.model_hub.det_url == a.model_hub.det_url && b.model_hub.rec_url
            == a.model_hub.rec_url && b.model_hub.dict_url == a.model_hub.dict_url
            && b.model_hub.save_dir == a.model_hub.save_dir
    } else {
        &&& b.task_status matches TaskStatus::Error(e) && e@ == msg
        &&& b.status_message@ == msg
        &&& same_rest(a, b)
    }
}

/// A model directory's files are taken over; when detection and
/// recognition files were found the external ONNX engine becomes active.
pub open spec fn onnx_loaded(a: AppState, b: AppState, dir: Seq<char>, probe: ModelDirProbe) -> bool {
    &&& opt_view(b.onnx.det_path) == found(probe.det)
    &&& opt_view(b.onnx.rec_path) == found(probe.rec)
    &&& opt_view(b.onnx.dict_path) == dict_found(probe)
    &&& opt_view(b.onnx.model_dir) == Some(dir)
    &&& b.active_backend == (if probe.det.exists && probe.rec.exists {
        EngineBackend::Onnx
    } else {
        a.active_backend
    })
}

/// The engine a recognition run uses: the active back end, falling back to
/// the default chain when no local model is active.
pub open spec fn engine_spec_of(a: AppState) -> EngineSpec {
    match a.active_backend {
        EngineBackend::BurnDefault => EngineSpec::Default,
        EngineBackend::LocalAi => match a.models.active_model_dir {
            Some(d) => EngineSpec::LocalAi(d),
            None => EngineSpec::Default,
        },
        EngineBackend::Onnx => EngineSpec::Onnx {
            det_path: a.onnx.det_path,
            rec_path: a.onnx.rec_path,
            dict_path: a.onnx.dict_path,
        },
    }
}

/// Starting recognition: refused while busy or without an image; otherwise
/// the task becomes recognition with the current engine and preset.
pub open spec fn ocr_start_effect(a: AppState, b: AppState, req: Option<WorkerRequest>) -> bool {
    if busy(a.task_status) || !a.has_image {
        req is None && b == a
    } else {
        &&& b.task_status is Recognizing
        &&& b.status_message@ == "识别中..."@
        &&& same_rest(a, b)
        &&& req == Some(WorkerRequest::RunOcr { spec: engine_spec_of(a), preset: a.quality_preset })
    }
}

impl AppState {
    /// The engine a recognition run uses: the active back end, falling back
    /// to the default chain when no local model is active.
    pub fn current_engine_spec(&self) -> (spec: EngineSpec)
        ensures
            spec == engine_spec_of(*self),
    {
        match self.active_backend {
            EngineBackend::BurnDefault => EngineSpec::Default,
            EngineBackend::LocalAi => match &self.models.active_model_dir {
                Some(d) => EngineSpec::LocalAi(d.clone()),
                None => EngineSpec::Default,
            },
            EngineBackend::Onnx => EngineSpec::Onnx {
                det_path: clone_opt(&self.onnx.det_path),
                rec_path: clone_opt(&self.onnx.rec_path),
                dict_path: clone_opt(&self.onnx.dict_path),
            },
        }
    }

    /// Shows a new image: the old result goes and the task ends.
    pub fn set_image(&mut self, path: Option<String>, status: &str)
        ensures
            image_set(*old(self), *final(self), opt_view(path), status@),
    {
        self.image_path = path;
        self.has_image = true;
        self.has_result = false;
        self.task_status = TaskStatus::Idle;
        self.status_message = String::from_str(status);
    }

    /// Starts recognizing the current image, unless the application is busy
    /// or has no image.
    pub fn start_ocr(&mut self) -> (req: Option<WorkerRequest>)
        ensures
            ocr_start_effect(*old(self), *final(self), req),
    {
        if self.task_status.is_busy() {
            return None;
        }
        if !self.has_image {
            return None;
        }
        let spec = self.current_engine_spec();
        self.task_status = TaskStatus::Recognizing;
        self.status_message = String::from_str("识别中...");
        Some(WorkerRequest::RunOcr { spec, preset: self.quality_preset })
    }

    /// Asks for the clipboard's image, unless the application is busy.
    pub fn paste_image_from_clipboard(&self, auto_recognize: bool) -> (req: Option<WorkerRequest>)
        ensures
            busy(self.task_status) ==> req is None,
            !busy(self.task_status) ==> req == Some(
                WorkerRequest::ReadClipboard { auto_recognize },
            ),
    {
        if self.task_status.is_busy() {
            None
        } else {
            Some(WorkerRequest::ReadClipboard { auto_recognize })
        }
    }

    /// Takes the outcome of reading the clipboard: a pasted image is shown
    /// (and recognized when asked), a failure is shown as an error.
    pub fn clipboard_image_loaded(&mut self, outcome: Result<(), String>, auto_recognize: bool) -> (req:
        Option<WorkerRequest>)
        ensures
            outcome is Err ==> req is None && same_rest(*old(self), *final(self)) && match outcome {
                Err(e) => final(self).task_status == TaskStatus::Error(e) && final(self).status_message == e,
                Ok(_) => true,
            },
            outcome is Ok ==> final(self).has_image && final(self).image_path is None
                && !final(self).has_result,
            outcome is Ok && !auto_recognize ==> req is None && image_set(
                *old(self),
                *final(self),
                None,
                "已从剪贴板载入截图"@,
            ),
            outcome is Ok && auto_recognize ==> {
                &&& final(self).task_status is Recognizing
                &&& final(self).status_message@ == "识别中..."@
                &&& same_training(*old(self), *final(self)) && same_engine(*old(self), *final(self))
                &&& same_prefs(*old(self), *final(self)) && final(self).model_hub == old(self).model_hub
                &&& req == Some(
                    WorkerRequest::RunOcr {
                        spec: engine_spec_of(*old(self)),
                        preset: old(self).quality_preset,
                    },
                )
            },
    {
        match outcome {
            Ok(()) => {
                self.set_image(None, "已从剪贴板载入截图");
                if auto_recognize {
                    self.start_ocr()
                } else {
                    None
                }
            },
            Err(e) => {
                self.task_status = TaskStatus::Error(e.clone());
                self.status_message = e;
                None
            },
        }
    }

    /// A file was dropped on the window: it is loaded.
    pub fn process_dropped_file(&mut self, path: String) -> (req: WorkerRequest)
        ensures
            final(self).task_status is Loading,
            final(self).status_message@ == "加载拖拽图片: "@ + path@,
            same_rest(*old(self), *final(self)),
            req == WorkerRequest::LoadImagePath(path),
    {
        self.task_status = TaskStatus::Loading;
        self.status_message = cat("加载拖拽图片: ", path.as_str());
        WorkerRequest::LoadImagePath(path)
    }

    /// The paste shortcut was pressed (or not): paste and recognize, unless busy.
    pub fn process_shortcuts(&self, pressed: bool) -> (req: Option<WorkerRequest>)
        ensures
            (busy(self.task_status) || !pressed) ==> req is None,
            (!busy(self.task_status) && pressed) ==> req == Some(
                WorkerRequest::ReadClipboard { auto_recognize: true },
            ),
    {
        if self.task_status.is_busy() {
            return None;
        }
        if pressed {
            self.paste_image_from_clipboard(true)
        } else {
            None
        }
    }

    /// What a toolbar button does.
    pub fn handle_toolbar_action(&mut self, action: ToolbarAction) -> (req: Option<WorkerRequest>)
        ensures
            action is NoAction ==> req is None && *final(self) == *old(self),
            action is OpenImage ==> req == Some(WorkerRequest::OpenImage) && final(self).task_status is Loading
                && final(self).status_message@ == "选择图片..."@ && same_rest(
                *old(self),
                *final(self),
            ),
            action is PasteImage ==> *final(self) == *old(self) && (busy(old(self).task_status) ==> req is None) && (!busy(old(self).task_status)
                ==> req == Some(WorkerRequest::ReadClipboard { auto_recognize: true })),
            action is StartOcr ==> ocr_start_effect(*old(self), *final(self), req),
            action is ToggleTheme ==> final(self).theme_mode == next_mode(old(self).theme_mode)
                && req == Some(WorkerRequest::InstallTheme(next_mode(old(self).theme_mode)))
                && final(self).task_status == old(self).task_status && final(self).status_message
                == old(self).status_message && same_image(*old(self), *final(self))
                && same_training(*old(self), *final(self)) && same_engine(*old(self), *final(self))
                && final(self).show_bboxes == old(self).show_bboxes && final(self).quality_preset
                == old(self).quality_preset && final(self).model_hub == old(self).model_hub,
    {
        match action {
            ToolbarAction::OpenImage => {
                self.task_status = TaskStatus::Loading;
                self.status_message = String::from_str("选择图片...");
                Some(WorkerRequest::OpenImage)
            },
            ToolbarAction::PasteImage => self.paste_image_from_clipboard(true),
            ToolbarAction::StartOcr => self.start_ocr(),
            ToolbarAction::ToggleTheme => {
                self.theme_mode = self.theme_mode.next();
                Some(WorkerRequest::InstallTheme(self.theme_mode))
            },
            ToolbarAction::NoAction => None,
        }
    }

    /// What a training panel button does; `selected_name` is the display
    /// name of the selected model, when it is listed.
    pub fn handle_training_action(&mut self, action: TrainingAction, selected_name: Option<&str>) -> (req:
        Option<WorkerRequest>)
        ensures
            action is NoAction ==> req is None && *final(self) == *old(self),
            action is PickDataset ==> *final(self) == *old(self) && req == Some(
                WorkerRequest::PickDirectory {
                    kind: DirectoryKind::Dataset,
                    start: Some(old(self).dataset_path),
                },
            ),
            action is PickArtifactDir ==> *final(self) == *old(self) && req == Some(
                WorkerRequest::PickDirectory {
                    kind: DirectoryKind::Artifact,
                    start: Some(old(self).artifact_dir),
                },
            ),
            action is StartTraining ==> {
                &&& final(self).task_status is Training
                &&& !final(self).training_in_progress
                &&& final(self).status_message@ == "训练中..."@
                &&& same_image(*old(self), *final(self)) && same_engine(*old(self), *final(self))
                &&& same_prefs(*old(self), *final(self)) && final(self).model_hub == old(self).model_hub
                &&& final(self).models == old(self).models && final(self).dataset_path == old(self).dataset_path && final(self).artifact_dir == old(self).artifact_dir
                &&& req == Some(
                    WorkerRequest::Train {
                        dataset_path: old(self).dataset_path,
                        artifact_dir: old(self).artifact_dir,
                        base_model_dir: old(self).models.active_model_dir,
                    },
                )
            },
            action is CancelTraining ==> *final(self) == *old(self) && req == Some(
                WorkerRequest::CancelTraining,
            ),
            action is RefreshModels ==> *final(self) == *old(self) && req == Some(
                WorkerRequest::RefreshModels(old(self).artifact_dir),
            ),
            action is UseSelectedModel ==> req is None && match old(self).models.selected_model_dir {
                None => *final(self) == *old(self),
                Some(dir) => {
                    &&& final(self).models.active_model_dir == Some(dir)
                    &&& final(self).models.selected_model_dir == Some(dir)
                    &&& final(self).models.available_model_dirs == old(self).models.available_model_dirs
                    &&& final(self).active_backend == EngineBackend::LocalAi
                    &&& final(self).status_message@ == "已切换识别模型: "@ + match selected_name {
                        Some(n) => n@,
                        None => dir@,
                    }
                    &&& !final(self).has_result
                    &&& final(self).task_status == old(self).task_status
                    &&& final(self).image_path == old(self).image_path
                    &&& final(self).has_image == old(self).has_image
                    &&& final(self).dataset_path == old(self).dataset_path
                    &&& final(self).artifact_dir == old(self).artifact_dir
                    &&& final(self).training_in_progress == old(self).training_in_progress
                    &&& final(self).onnx == old(self).onnx
                    &&& same_prefs(*old(self), *final(self))
                    &&& final(self).model_hub == old(self).model_hub
                },
            },
    {
        match action {
            TrainingAction::NoAction => None,
            TrainingAction::PickDataset => Some(
                WorkerRequest::PickDirectory {
                    kind: DirectoryKind::Dataset,
                    start: Some(self.dataset_path.clone()),
                },
            ),
            TrainingAction::PickArtifactDir => Some(
                WorkerRequest::PickDirectory {
                    kind: DirectoryKind::Artifact,
                    start: Some(self.artifact_dir.clone()),
                },
            ),
            TrainingAction::StartTraining => {
                self.task_status = TaskStatus::Training;
                self.training_in_progress = false;
                self.status_message = String::from_str("训练中...");
                Some(
                    WorkerRequest::Train {
                        dataset_path: self.dataset_path.clone(),
                        artifact_dir: self.artifact_dir.clone(),
                        base_model_dir: clone_opt(&self.models.active_model_dir),
                    },
                )
            },
            TrainingAction::CancelTraining => Some(WorkerRequest::CancelTraining),
            TrainingAction::RefreshModels => Some(
                WorkerRequest::RefreshModels(self.artifact_dir.clone()),
            ),
            TrainingAction::UseSelectedModel => {
                match &self.models.selected_model_dir {
                    Some(dir) => {
                        let dir = dir.clone();
                        let name = match selected_name {
                            Some(n) => String::from_str(n),
                            None => dir.clone(),
                        };
                        self.models.active_model_dir = Some(dir);
                        self.active_backend = EngineBackend::LocalAi;
                        self.status_message = cat("已切换识别模型: ", name.as_str());
                        self.has_result = false;
                    },
                    None => {},
                }
                None
            },
        }
    }

    /// What a recognition-settings control does.
    pub fn handle_control_action(&mut self, action: ControlAction) -> (req: Option<WorkerRequest>)
        ensures
            action is NoAction ==> req is None && *final(self) == *old(self),
            action matches ControlAction::SwitchBackend(b) ==> req is None && final(self).active_backend
                == b && final(self).onnx == old(self).onnx && final(self).status_message == old(self).status_message && final(self).task_status == old(self).task_status && same_image(
                *old(self),
                *final(self),
            ) && same_training(*old(self), *final(self)) && same_prefs(*old(self), *final(self))
                && final(self).model_hub == old(self).model_hub,
            action is PickOnnxDir ==> *final(self) == *old(self) && req == Some(
                WorkerRequest::PickDirectory {
                    kind: DirectoryKind::OnnxModel,
                    start: old(self).onnx.model_dir,
                },
            ),
            action matches ControlAction::SetPreset(p) ==> req is None && final(self).quality_preset
                == p && final(self).status_message@ == "识别质量已设为："@ + preset_name(p)
                + "，重新识别后生效"@ && final(self).task_status == old(self).task_status
                && same_image(*old(self), *final(self)) && same_training(*old(self), *final(self))
                && same_engine(*old(self), *final(self)) && final(self).show_bboxes
                == old(self).show_bboxes && final(self).theme_mode == old(self).theme_mode
                && final(self).model_hub == old(self).model_hub,
    {
        match action {
            ControlAction::NoAction => None,
            ControlAction::SwitchBackend(backend) => {
                self.active_backend = backend;
                None
            },
            ControlAction::PickOnnxDir => Some(
                WorkerRequest::PickDirectory {
                    kind: DirectoryKind::OnnxModel,
                    start: clone_opt(&self.onnx.model_dir),
                },
            ),
            ControlAction::SetPreset(preset) => {
                self.quality_preset = preset;
                let s = cat("识别质量已设为：", preset.display_name());
                self.status_message = cat(s.as_str(), "，重新识别后生效");
                None
            },
        }
    }

    /// What a model download panel button does.
    pub fn handle_hub_action(&mut self, action: HubAction) -> (req: Option<WorkerRequest>)
        ensures
            action is NoAction ==> req is None && *final(self) == *old(self),
            action is PickSaveDir ==> *final(self) == *old(self) && req == Some(
                WorkerRequest::PickDirectory {
                    kind: DirectoryKind::ModelHubSave,
                    start: Some(old(self).model_hub.save_dir),
                },
            ),
            action is StartDownload ==> {
                &&& final(self).status_message@ == "开始下载模型文件..."@
                &&& final(self).model_hub.download_status matches DownloadStatus::Downloading {
                    component,
                    downloaded,
                    total,
                } && component@ == "初始化..."@ && downloaded == 0 && total == 0
                &&& final(self).model_hub.det_url == old(self).model_hub.det_url
                &&& final(self).model_hub.rec_url == old(self).model_hub.rec_url
                &&& final(self).model_hub.dict_url == old(self).model_hub.dict_url
                &&& final(self).model_hub.save_dir == old(self).model_hub.save_dir
                &&& final(self).task_status == old(self).task_status
                &&& same_image(*old(self), *final(self)) && same_training(*old(self), *final(self))
                &&& same_engine(*old(self), *final(self)) && same_prefs(*old(self), *final(self))
                &&& req matches Some(
                    WorkerRequest::DownloadModels { det_url, rec_url, dict_url, save_dir },
                ) && det_url == old(self).model_hub.det_url && rec_url == old(self).model_hub.rec_url
                    && save_dir == old(self).model_hub.save_dir && (if trim(
                    old(self).model_hub.dict_url@,
                ).len() == 0 {
                    dict_url is None
                } else {
                    dict_url == Some(old(self).model_hub.dict_url)
                })
            },
    {
        match action {
            HubAction::NoAction => None,
            HubAction::PickSaveDir => Some(
                WorkerRequest::PickDirectory {
                    kind: DirectoryKind::ModelHubSave,
                    start: Some(self.model_hub.save_dir.clone()),
                },
            ),
            HubAction::StartDownload => {
                let url_chars = chars_of(self.model_hub.dict_url.as_str());
                let trimmed = trim_chars(url_chars.as_slice());
                let dict_url = if trimmed.len() == 0 {
                    None
                } else {
                    Some(self.model_hub.dict_url.clone())
                };
                self.status_message = String::from_str("开始下载模型文件...");
                let req = WorkerRequest::DownloadModels {
                    det_url: self.model_hub.det_url.clone(),
                    rec_url: self.model_hub.rec_url.clone(),
                    dict_url,
                    save_dir: self.model_hub.save_dir.clone(),
                };
                self.model_hub.download_status = DownloadStatus::Downloading {
                    component: String::from_str("初始化..."),
                    downloaded: 0,
                    total: 0,
                };
                Some(req)
            },
        }
    }
}

/// Status line after an ONNX model directory was chosen.
pub open spec fn onnx_dir_text(path: Seq<char>, probe: ModelDirProbe) -> Seq<char> {
    if probe.det.exists && probe.rec.exists {
        "已切换到外部 ONNX 模型: "@ + onnx_status_text(true, probe.det.file_name@, probe.rec.file_name@)
    } else {
        "ONNX 模型目录已设置: "@ + path
    }
}

/// What choosing a directory does to the state, and what it asks for.
pub open spec fn directory_effect(
    a: AppState,
    b: AppState,
    kind: DirectoryKind,
    path: String,
    probe: ModelDirProbe,
    req: Option<WorkerRequest>,
) -> bool {
    match kind {
        DirectoryKind::Dataset => {
            &&& b.dataset_path == path
            &&& b.status_message@ == "数据集目录已更新: "@ + path@
            &&& req is None
            &&& b.artifact_dir == a.artifact_dir && b.models == a.models
                && b.training_in_progress == a.training_in_progress
            &&& b.task_status == a.task_status && same_image(a, b) && same_engine(a, b)
                && same_prefs(a, b) && b.model_hub == a.model_hub
        },
        DirectoryKind::Artifact => {
            &&& b.artifact_dir == path
            &&& b.status_message@ == "产物目录已更新: "@ + path@
            &&& req == Some(WorkerRequest::RefreshModels(path))
            &&& b.dataset_path == a.dataset_path && b.models == a.models
                && b.training_in_progress == a.training_in_progress
            &&& b.task_status == a.task_status && same_image(a, b) && same_engine(a, b)
                && same_prefs(a, b) && b.model_hub == a.model_hub
        },
        DirectoryKind::OnnxModel => {
            &&& onnx_loaded(a, b, path@, probe)
            &&& b.status_message@ == onnx_dir_text(path@, probe)
            &&& req == Some(WorkerRequest::InvalidateOnnxCache)
            &&& b.task_status == a.task_status && same_image(a, b) && same_training(a, b)
                && same_prefs(a, b) && b.model_hub == a.model_hub
        },
        DirectoryKind::ModelHubSave => {
            &&& b.model_hub.save_dir == path
            &&& b.model_hub.det_url == a.model_hub.det_url && b.model_hub.rec_url
                == a.model_hub.rec_url && b.model_hub.dict_url == a.model_hub.dict_url
                && b.model_hub.download_status == a.model_hub.download_status
            &&& req is None
            &&& b.status_message == a.status_message && b.task_status == a.task_status
            &&& same_image(a, b) && same_training(a, b) && same_engine(a, b) && same_prefs(a, b)
        },
    }
}

/// What a worker message does to the state, and what it asks for.
pub open spec fn message_effect(a: AppState, b: AppState, msg: WorkerMessage, req: Option<
    WorkerRequest,
>) -> bool {
    match msg {
        WorkerMessage::ImageLoaded(path) => req is None && image_set(
            a,
            b,
            Some(path@),
            "图片加载完成"@,
        ),
        WorkerMessage::OcrComplete { regions, elapsed_ms } => {
            &&& req is None
            &&& b.has_result
            &&& b.task_status is Idle
            &&& b.status_message@ == ocr_done_text(regions, elapsed_ms)
            &&& b.image_path == a.image_path && b.has_image == a.has_image
            &&& same_training(a, b) && same_engine(a, b) && same_prefs(a, b) && b.model_hub
                == a.model_hub
        },
        WorkerMessage::TrainingProgress(progress) => {
            &&& req is None
            &&& b.task_status is Training
            &&& b.training_in_progress
            &&& b.status_message@ == "训练中: "@ + progress@
            &&& same_image(a, b) && same_engine(a, b) && same_prefs(a, b) && b.model_hub
                == a.model_hub
            &&& b.dataset_path == a.dataset_path && b.artifact_dir == a.artifact_dir && b.models
                == a.models
        },
        WorkerMessage::TrainingComplete { model_dir, model_name } => {
            &&& req == Some(WorkerRequest::RefreshModels(a.artifact_dir))
            &&& b.task_status is Idle
            &&& !b.training_in_progress
            &&& b.models.selected_model_dir == Some(model_dir)
            &&& b.models.active_model_dir == Some(model_dir)
            &&& b.models.available_model_dirs == a.models.available_model_dirs
            &&& b.status_message@ == training_done_text(model_name@)
            &&& b.dataset_path == a.dataset_path && b.artifact_dir == a.artifact_dir
            &&& same_image(a, b) && same_engine(a, b) && same_prefs(a, b) && b.model_hub
                == a.model_hub
        },
        WorkerMessage::ModelsLoaded(dirs) => {
            &&& req is None
            &&& b.models.available_model_dirs == dirs
            &&& opt_view(b.models.active_model_dir) == kept_choice(
                opt_view(a.models.active_model_dir),
                dirs_view(dirs@),
            )
            &&& opt_view(b.models.selected_model_dir) == (if kept_choice(
                opt_view(a.models.selected_model_dir),
                dirs_view(dirs@),
            ) is None && dirs@.len() > 0 {
                Some(dirs@[0]@)
            } else {
                kept_choice(opt_view(a.models.selected_model_dir), dirs_view(dirs@))
            })
            &&& b.status_message == a.status_message && b.task_status == a.task_status
            &&& b.dataset_path == a.dataset_path && b.artifact_dir == a.artifact_dir
                && b.training_in_progress == a.training_in_progress
            &&& same_image(a, b) && same_engine(a, b) && same_prefs(a, b) && b.model_hub
                == a.model_hub
        },
        WorkerMessage::DirectorySelected { kind, path, probe } => directory_effect(
            a,
            b,
            kind,
            path,
            probe,
            req,
        ),
        WorkerMessage::DownloadProgress { component, downloaded, total, megabytes } => {
            &&& req is None
            &&& b.status_message@ == downloading_text(component@, megabytes@)
            &&& b.model_hub.download_status == (DownloadStatus::Downloading {
                component,
                downloaded,
                total,
            })
            &&& b.model_hub.det_url == a.model_hub.det_url && b.model_hub.rec_url
                == a.model_hub.rec_url && b.model_hub.dict_url == a.model_hub.dict_url
                && b.model_hub.save_dir == a.model_hub.save_dir
            &&& b.task_status == a.task_status && same_image(a, b) && same_training(a, b)
                && same_engine(a, b) && same_prefs(a, b)
        },
        WorkerMessage::DownloadComplete { save_dir, probe } => {
            &&& req == Some(WorkerRequest::InvalidateOnnxCache)
            &&& b.model_hub.download_status is Complete
            &&& b.model_hub.det_url == a.model_hub.det_url && b.model_hub.rec_url
                == a.model_hub.rec_url && b.model_hub.dict_url == a.model_hub.dict_url
                && b.model_hub.save_dir == a.model_hub.save_dir
            &&& onnx_loaded(a, b, save_dir@, probe)
            &&& b.status_message@ == "模型下载完成，已切换到外部 ONNX 推理引擎"@
            &&& b.task_status == a.task_status && same_image(a, b) && same_training(a, b)
                && same_prefs(a, b)
        },
        WorkerMessage::Error(msg) => req is None && error_effect(a, b, msg@),
    }
}

impl AppState {
    /// Takes over a chosen directory.
    pub fn handle_directory_selected(&mut self, kind: DirectoryKind, path: String, probe: ModelDirProbe) -> (req:
        Option<WorkerRequest>)
        ensures
            directory_effect(*old(self), *final(self), kind, path, probe, req),
    {
        match kind {
            DirectoryKind::Dataset => {
                self.status_message = cat("数据集目录已更新: ", path.as_str());
                self.dataset_path = path;
                None
            },
            DirectoryKind::Artifact => {
                self.status_message = cat("产物目录已更新: ", path.as_str());
                self.artifact_dir = path.clone();
                Some(WorkerRequest::RefreshModels(path))
            },
            DirectoryKind::OnnxModel => {
                self.status_message = cat("ONNX 模型目录已设置: ", path.as_str());
                self.onnx.load_from_dir(path, &probe);
                if self.onnx.is_usable(probe.det.exists, probe.rec.exists) {
                    self.active_backend = EngineBackend::Onnx;
                    let status = self.onnx.status(
                        true,
                        probe.det.file_name.as_str(),
                        probe.rec.file_name.as_str(),
                    );
                    self.status_message = cat("已切换到外部 ONNX 模型: ", status.as_str());
                }
                Some(WorkerRequest::InvalidateOnnxCache)
            },
            DirectoryKind::ModelHubSave => {
                self.model_hub.save_dir = path;
                None
            },
        }
    }

    /// Takes a message of the worker.
    pub fn process_message(&mut self, msg: WorkerMessage) -> (req: Option<WorkerRequest>)
        ensures
            message_effect(*old(self), *final(self), msg, req),
    {
        match msg {
            WorkerMessage::ImageLoaded(path) => {
                self.set_image(Some(path), "图片加载完成");
                None
            },
            WorkerMessage::OcrComplete { regions, elapsed_ms } => {
                let s = cat("识别完成: ", count_text(regions as u64).as_str());
                let s = cat(s.as_str(), " 个区域, ");
                let s = cat(s.as_str(), count_text(elapsed_ms).as_str());
                self.status_message = cat(s.as_str(), "ms");
                self.has_result = true;
                self.task_status = TaskStatus::Idle;
                None
            },
            WorkerMessage::TrainingProgress(progress) => {
                self.task_status = TaskStatus::Training;
                self.status_message = cat("训练中: ", progress.as_str());
                self.training_in_progress = true;
                None
            },
            WorkerMessage::TrainingComplete { model_dir, model_name } => {
                self.task_status = TaskStatus::Idle;
                self.training_in_progress = false;
                self.models.selected_model_dir = Some(model_dir.clone());
                self.models.active_model_dir = Some(model_dir);
                self.status_message = cat("训练完成，已切换到模型: ", model_name.as_str());
                Some(WorkerRequest::RefreshModels(self.artifact_dir.clone()))
            },
            WorkerMessage::ModelsLoaded(dirs) => {
                self.models.set_available_models(dirs);
                None
            },
            WorkerMessage::DirectorySelected { kind, path, probe } => {
                self.handle_directory_selected(kind, path, probe)
            },
            WorkerMessage::DownloadProgress { component, downloaded, total, megabytes } => {
                let s = cat("下载中: ", component.as_str());
                let s = cat(s.as_str(), " (");
                let s = cat(s.as_str(), megabytes.as_str());
                self.status_message = cat(s.as_str(), " MB)");
                self.model_hub.download_status = DownloadStatus::Downloading {
                    component,
                    downloaded,
                    total,
                };
                None
            },
            WorkerMessage::DownloadComplete { save_dir, probe } => {
                self.model_hub.download_status = DownloadStatus::Complete;
                self.onnx.load_from_dir(save_dir, &probe);
                if self.onnx.is_usable(probe.det.exists, probe.rec.exists) {
                    self.active_backend = EngineBackend::Onnx;
                }
                self.status_message = String::from_str("模型下载完成，已切换到外部 ONNX 推理引擎");
                Some(WorkerRequest::InvalidateOnnxCache)
            },
            WorkerMessage::Error(msg) => {
                if contains_text(msg.as_str(), "训练已取消") {
                    self.task_status = TaskStatus::Idle;
                    self.training_in_progress = false;
                    self.status_message = String::from_str("训练已取消");
                } else if contains_text(msg.as_str(), "模型下载失败") {
                    self.model_hub.download_status = DownloadStatus::Error(msg.clone());
                    self.status_message = msg;
                } else {
                    self.task_status = TaskStatus::Error(msg.clone());
                    self.status_message = msg;
                }
                None
            },
        }
    }
}

/// Copies an optional text.
fn clone_opt(o: &Option<String>) -> (c: Option<String>)
    ensures
        c == *o,
{
    match o {
        Some(s) => Some(s.clone()),
        None => None,
    }
}

} // verus!
