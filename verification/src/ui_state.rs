use vstd::prelude::*;

use crate::config::QualityPreset;

verus! {

// ---------------------------------------------------------------------------
// Theme
// ---------------------------------------------------------------------------

/// Theme mode: follow the system, light, or dark.
#[derive(Debug, Clone, Copy, PartialEq, Eq, Structural)]
pub enum ThemeMode {
    System,
    Light,
    Dark,
}

/// The mode that the toggle switches to: system → light → dark → system.
pub open spec fn next_mode(m: ThemeMode) -> ThemeMode {
    match m {
        ThemeMode::System => ThemeMode::Light,
        ThemeMode::Light => ThemeMode::Dark,
        ThemeMode::Dark => ThemeMode::System,
    }
}

impl ThemeMode {
    /// The mode a fresh application starts in.
    pub fn default_mode() -> (m: ThemeMode)
        ensures
            m == ThemeMode::System,
    {
        ThemeMode::System
    }

    /// Icon of the title-bar toggle (BMP symbols for wide font coverage).
    pub fn icon(self) -> (s: &'static str)
        ensures
            self == ThemeMode::System ==> s@ == "◐"@,
            self == ThemeMode::Light ==> s@ == "☀"@,
            self == ThemeMode::Dark ==> s@ == "☾"@,
    {
        match self {
            ThemeMode::System => "◐",
            ThemeMode::Light => "☀",
            ThemeMode::Dark => "☾",
        }
    }

    /// Chinese label of the mode.
    pub fn label(self) -> (s: &'static str)
        ensures
            self == ThemeMode::System ==> s@ == "跟随系统"@,
            self == ThemeMode::Light ==> s@ == "浅色"@,
            self == ThemeMode::Dark ==> s@ == "深色"@,
    {
        match self {
            ThemeMode::System => "跟随系统",
            ThemeMode::Light => "浅色",
            ThemeMode::Dark => "深色",
        }
    }

    /// Cycles system → light → dark → system.
    pub fn next(self) -> (m: ThemeMode)
        ensures
            m == next_mode(self),
    {
        match self {
            ThemeMode::System => ThemeMode::Light,
            ThemeMode::Light => ThemeMode::Dark,
            ThemeMode::Dark => ThemeMode::System,
        }
    }
}

/// Pressing the theme toggle three times returns to the starting mode, and
/// every press changes the mode.
pub proof fn lemma_theme_cycle(m: ThemeMode)
    ensures
        next_mode(next_mode(next_mode(m))) == m,
        next_mode(m) != m,
{
}

// ---------------------------------------------------------------------------
// Task and download state
// ---------------------------------------------------------------------------

/// State of the current foreground task.
#[derive(Debug, Clone, PartialEq, Eq)]
pub enum TaskStatus {
    Idle,
    Loading,
    Recognizing,
    Training,
    Error(String),
}

/// Loading, recognizing and training keep the application busy.
pub open spec fn busy(s: TaskStatus) -> bool {
    s is Loading || s is Recognizing || s is Training
}

impl TaskStatus {
    /// Loading, recognizing and training keep the application busy.
    pub fn is_busy(&self) -> (b: bool)
        ensures
            b == busy(*self),
    {
        match self {
            TaskStatus::Loading | TaskStatus::Recognizing | TaskStatus::Training => true,
            _ => false,
        }
    }
}

/// Progress of a model download.
pub enum DownloadStatus {
    Idle,
    Downloading { component: String, downloaded: u64, total: u64 },
    Complete,
    Error(String),
}

impl DownloadStatus {
    /// Busy exactly while a download runs.
    pub fn is_busy(&self) -> (b: bool)
        ensures
            b == (self is Downloading),
    {
        match self {
            DownloadStatus::Downloading { .. } => true,
            _ => false,
        }
    }
}

/// The OCR engine back end that is active.
#[derive(Debug, Clone, PartialEq, Eq, Structural)]
pub enum EngineBackend {
    /// Default chain: ONNX detection with Burn recognition.
    BurnDefault,
    /// A locally fine-tuned recognition model.
    LocalAi,
    /// External ONNX model files run by tract.
    Onnx,
}

impl EngineBackend {
    /// The back end a fresh application uses.
    pub fn default_backend() -> (b: EngineBackend)
        ensures
            b == EngineBackend::BurnDefault,
    {
        EngineBackend::BurnDefault
    }

    /// Chinese display name of the back end.
    pub fn display_name(&self) -> (s: &'static str)
        ensures
            *self == EngineBackend::BurnDefault ==> s@ == "默认 PP-OCRv5 Server（ONNX det + Burn rec）"@,
            *self == EngineBackend::LocalAi ==> s@ == "本地训练 AI 模型"@,
            *self == EngineBackend::Onnx ==> s@ == "外部 ONNX 模型"@,
    {
        match self {
            EngineBackend::BurnDefault => "默认 PP-OCRv5 Server（ONNX det + Burn rec）",
            EngineBackend::LocalAi => "本地训练 AI 模型",
            EngineBackend::Onnx => "外部 ONNX 模型",
        }
    }
}

/// One-line description of what a quality preset trades.
pub fn preset_hint(preset: QualityPreset) -> (s: &'static str)
    ensures
        preset == QualityPreset::Fast ==> s@ == "较低检测分辨率，优先速度"@,
        preset == QualityPreset::Balanced ==> s@ == "兼顾速度与精度"@,
        preset == QualityPreset::High ==> s@ == "较高检测分辨率，优先识别效果（较慢）"@,
{
    match preset {
        QualityPreset::Fast => "较低检测分辨率，优先速度",
        QualityPreset::Balanced => "兼顾速度与精度",
        QualityPreset::High => "较高检测分辨率，优先识别效果（较慢）",
    }
}

// ---------------------------------------------------------------------------
// Panel actions
// ---------------------------------------------------------------------------

/// What the recognition settings panel asks for.
pub enum ControlAction {
    /// Nothing was asked for.
    NoAction,
    /// Switch the engine back end.
    SwitchBackend(EngineBackend),
    /// Choose the directory of external ONNX models.
    PickOnnxDir,
    /// Switch the quality preset.
    SetPreset(QualityPreset),
}

/// What the model download panel asks for.
pub enum HubAction {
    /// Nothing was asked for.
    NoAction,
    PickSaveDir,
    StartDownload,
}

/// What the toolbar asks for.
pub enum ToolbarAction {
    /// Nothing was asked for.
    NoAction,
    OpenImage,
    PasteImage,
    StartOcr,
    ToggleTheme,
}

/// What the training panel asks for.
pub enum TrainingAction {
    /// Nothing was asked for.
    NoAction,
    PickDataset,
    PickArtifactDir,
    StartTraining,
    CancelTraining,
    RefreshModels,
    UseSelectedModel,
}

/// Which directory a directory picker was opened for.
#[derive(Debug, Clone, Copy, PartialEq, Eq, Structural)]
pub enum DirectoryKind {
    Dataset,
    Artifact,
    OnnxModel,
    /// Save directory of the model download panel.
    ModelHubSave,
}

} // verus!
