//! Decision logic of the desktop front end: external model files, model
//! selection, and the application state that worker messages and panel
//! actions update. The front end performs the requests that this logic
//! returns (dialogs, file probes, background work) and hands back results.
use vstd::prelude::*;

use crate::config::QualityPreset;
use crate::naming::u64_decimal;
use crate::text::{chars_of, decimal, string_from_chars};
use crate::ui_state::{
    ControlAction, DirectoryKind, DownloadStatus, EngineBackend, HubAction, TaskStatus, ThemeMode,
    ToolbarAction, TrainingAction,
};

verus! {

broadcast use vstd::string::group_string_axioms;

// ---------------------------------------------------------------------------
// Text helpers
// ---------------------------------------------------------------------------

/// Whether two texts are equal, character by character.
pub fn same_text(a: &str, b: &str) -> (eq: bool)
    ensures
        eq == (a@ == b@),
{
    let x = chars_of(a);
    let y = chars_of(b);
    if x.len() != y.len() {
        return false;
    }
    let mut i: usize = 0;
    while i < x.len()
        invariant
            i <= x@.len(),
            x@.len() == y@.len(),
            x@ == a@,
            y@ == b@,
            forall|j: int| 0 <= j < i ==> x@[j] == y@[j],
        decreases x@.len() - i,
    {
        if x[i] != y[i] {
            return false;
        }
        i = i + 1;
    }
    assert(x@ =~= y@);
    true
}

/// Whether `needle` occurs in `hay`.
pub open spec fn has_substring(hay: Seq<char>, needle: Seq<char>) -> bool {
    exists|i: int|
        0 <= i && i + needle.len() <= hay.len() && #[trigger] hay.subrange(i, i + needle.len())
            == needle
}

/// Whether `needle` occurs at position `i` of `hay`.
fn occurs_at(hay: &Vec<char>, needle: &Vec<char>, i: usize) -> (b: bool)
    requires
        i + needle@.len() <= hay@.len(),
    ensures
        b == (hay@.subrange(i as int, i + needle@.len()) == needle@),
{
    let hl = hay.len();
    let mut k: usize = 0;
    while k < needle.len()
        invariant
            k <= needle@.len(),
            hl == hay@.len(),
            i + needle@.len() <= hay@.len(),
            forall|j: int| 0 <= j < k ==> hay@[i + j] == needle@[j],
        decreases needle@.len() - k,
    {
        if hay[i + k] != needle[k] {
            assert(hay@.subrange(i as int, i + needle@.len())[k as int] != needle@[k as int]);
            return false;
        }
        k = k + 1;
    }
    assert(hay@.subrange(i as int, i + needle@.len()) =~= needle@);
    true
}

/// Whether a text contains another.
pub fn contains_text(hay: &str, needle: &str) -> (b: bool)
    ensures
        b == has_substring(hay@, needle@),
{
    let h = chars_of(hay);
    let n = chars_of(needle);
    if n.len() > h.len() {
        return false;
    }
    let last = h.len() - n.len();
    let mut i: usize = 0;
    loop
        invariant
            n@.len() <= h@.len(),
            last == h@.len() - n@.len(),
            h@ == hay@,
            n@ == needle@,
            i <= last,
            forall|j: int| 0 <= j < i ==> #[trigger] h@.subrange(j, j + n@.len()) != n@,
        decreases last - i,
    {
        if occurs_at(&h, &n, i) {
            return true;
        }
        if i == last {
            return false;
        }
        i = i + 1;
    }
}

/// `a` followed by `b`.
fn cat(a: &str, b: &str) -> (s: String)
    ensures
        s@ == a@ + b@,
{
    let mut s = String::from_str(a);
    s.append(b);
    s
}

/// Decimal notation of a count.
fn count_text(n: u64) -> (s: String)
    ensures
        s@ == decimal(n as nat),
{
    let v = u64_decimal(n);
    string_from_chars(v.as_slice())
}

/// The characters of an optional text.
pub open spec fn opt_view(o: Option<String>) -> Option<Seq<char>> {
    match o {
        Some(s) => Some(s@),
        None => None,
    }
}

// ---------------------------------------------------------------------------
// External model files
// ---------------------------------------------------------------------------

/// A file looked for in a model directory: its full path, its file name,
/// and whether it exists.
pub struct FileProbe {
    pub path: String,
    pub file_name: String,
    pub exists: bool,
}

/// The files looked for in a model directory.
pub struct ModelDirProbe {
    /// `det.onnx`
    pub det: FileProbe,
    /// `rec.onnx`
    pub rec: FileProbe,
    /// `cls.onnx`
    pub cls: FileProbe,
    /// `ppocr_keys_v1.txt`
    pub keys: FileProbe,
    /// `dict.txt`
    pub dict: FileProbe,
}

/// The path of a probed file, if it exists.
pub open spec fn found(p: FileProbe) -> Option<Seq<char>> {
    if p.exists {
        Some(p.path@)
    } else {
        None
    }
}

/// The dictionary of a model directory: `ppocr_keys_v1.txt`, else `dict.txt`.
pub open spec fn dict_found(p: ModelDirProbe) -> Option<Seq<char>> {
    if p.keys.exists {
        Some(p.keys.path@)
    } else if p.dict.exists {
        Some(p.dict.path@)
    } else {
        None
    }
}

fn found_path(p: &FileProbe) -> (o: Option<String>)
    ensures
        opt_view(o) == found(*p),
{
    if p.exists {
        Some(p.path.clone())
    } else {
        None
    }
}

fn found_dict(p: &ModelDirProbe) -> (o: Option<String>)
    ensures
        opt_view(o) == dict_found(*p),
{
    if p.keys.exists {
        Some(p.keys.path.clone())
    } else if p.dict.exists {
        Some(p.dict.path.clone())
    } else {
        None
    }
}

/// Paths of external ONNX model files.
pub struct OnnxModelConfig {
    /// Detection model (`det.onnx`).
    pub det_path: Option<String>,
    /// Recognition model (`rec.onnx`).
    pub rec_path: Option<String>,
    /// Direction classifier (`cls.onnx`), optional.
    pub cls_path: Option<String>,
    /// Character dictionary.
    pub dict_path: Option<String>,
}

impl OnnxModelConfig {
    /// Usable when the detection and recognition files are set and exist;
    /// `det_exists` and `rec_exists` tell whether the files at those paths
    /// exist.
    pub fn is_usable(&self, det_exists: bool, rec_exists: bool) -> (b: bool)
        ensures
            b == (self.det_path is Some && det_exists && self.rec_path is Some && rec_exists),
    {
        self.det_path.is_some() && det_exists && self.rec_path.is_some() && rec_exists
    }

    /// The files of a model directory that exist, by their usual names.
    pub fn from_dir(probe: &ModelDirProbe) -> (c: Self)
        ensures
            opt_view(c.det_path) == found(probe.det),
            opt_view(c.rec_path) == found(probe.rec),
            opt_view(c.cls_path) == found(probe.cls),
            opt_view(c.dict_path) == dict_found(*probe),
    {
        OnnxModelConfig {
            det_path: found_path(&probe.det),
            rec_path: found_path(&probe.rec),
            cls_path: found_path(&probe.cls),
            dict_path: found_dict(probe),
        }
    }
}

/// External ONNX model paths chosen in the front end.
pub struct OnnxState {
    /// Detection model (`det.onnx`).
    pub det_path: Option<String>,
    /// Recognition model (`rec.onnx`).
    pub rec_path: Option<String>,
    /// Character dictionary.
    pub dict_path: Option<String>,
    /// Directory the models were loaded from.
    pub model_dir: Option<String>,
}

impl Default for OnnxState {
    fn default() -> (s: Self)
        ensures
            s.det_path is None && s.rec_path is None && s.dict_path is None && s.model_dir is None,
    {
        OnnxState { det_path: None, rec_path: None, dict_path: None, model_dir: None }
    }
}

/// Status line of a usable ONNX configuration.
pub open spec fn onnx_status_text(usable: bool, det_name: Seq<char>, rec_name: Seq<char>) -> Seq<
    char,
> {
    if usable {
        "已配置: det="@ + det_name + ", rec="@ + rec_name
    } else {
        "未配置 ONNX 模型（需要 det.onnx + rec.onnx）"@
    }
}

impl OnnxState {
    /// Usable when the detection and recognition files are set and exist;
    /// `det_exists` and `rec_exists` tell whether the files at those paths
    /// exist.
    pub fn is_usable(&self, det_exists: bool, rec_exists: bool) -> (b: bool)
        ensures
            b == (self.det_path is Some && det_exists && self.rec_path is Some && rec_exists),
    {
        self.det_path.is_some() && det_exists && self.rec_path.is_some() && rec_exists
    }

    /// Takes the model files of a directory: each file that exists there.
    pub fn load_from_dir(&mut self, dir: String, probe: &ModelDirProbe)
        ensures
            opt_view(final(self).det_path) == found(probe.det),
            opt_view(final(self).rec_path) == found(probe.rec),
            opt_view(final(self).dict_path) == dict_found(*probe),
            final(self).model_dir == Some(dir),
    {
        self.det_path = found_path(&probe.det);
        self.rec_path = found_path(&probe.rec);
        self.dict_path = found_dict(probe);
        self.model_dir = Some(dir);
    }

    /// Status line: the file names of the models when usable, what is
    /// missing otherwise.
    pub fn status(&self, usable: bool, det_name: &str, rec_name: &str) -> (s: String)
        ensures
            s@ == onnx_status_text(usable, det_name@, rec_name@),
    {
        if usable {
            let s = cat("已配置: det=", det_name);
            let s = cat(s.as_str(), ", rec=");
            cat(s.as_str(), rec_name)
        } else {
            String::from_str("未配置 ONNX 模型（需要 det.onnx + rec.onnx）")
        }
    }
}

/// Default download address of the detection model.
pub open spec fn default_det_url() -> Seq<char> {
    "https://huggingface.co/monkt/paddleocr-onnx/resolve/main/detection/v5/det.onnx"@
}

/// Default download address of the recognition model.
pub open spec fn default_rec_url() -> Seq<char> {
    "https://huggingface.co/monkt/paddleocr-onnx/resolve/main/languages/chinese/rec.onnx"@
}

/// Default download address of the dictionary.
pub open spec fn default_dict_url() -> Seq<char> {
    "https://huggingface.co/monkt/paddleocr-onnx/resolve/main/languages/chinese/dict.txt"@
}

/// State of the model download panel.
pub struct ModelHubState {
    /// Address of the detection model.
    pub det_url: String,
    /// Address of the recognition model.
    pub rec_url: String,
    /// Address of the dictionary (may be left blank).
    pub dict_url: String,
    /// Directory the models are saved in.
    pub save_dir: String,
    /// Progress of the current download.
    pub download_status: DownloadStatus,
}

impl Default for ModelHubState {
    fn default() -> (s: Self)
        ensures
            s.det_url@ == default_det_url(),
            s.rec_url@ == default_rec_url(),
            s.dict_url@ == default_dict_url(),
            s.save_dir@ == "models"@,
            s.download_status is Idle,
    {
        ModelHubState {
            det_url: String::from_str(
                "https://huggingface.co/monkt/paddleocr-onnx/resolve/main/detection/v5/det.onnx",
            ),
            rec_url: String::from_str(
                "https://huggingface.co/monkt/paddleocr-onnx/resolve/main/languages/chinese/rec.onnx",
            ),
            dict_url: String::from_str(
                "https://huggingface.co/monkt/paddleocr-onnx/resolve/main/languages/chinese/dict.txt",
            ),
            save_dir: String::from_str("models"),
            download_status: DownloadStatus::Idle,
        }
    }
}

/// Which OCR engine a recognition run uses.
pub enum EngineSpec {
    /// The default chain under `models/`.
    Default,
    /// A locally fine-tuned model, by directory.
    LocalAi(String),
    /// External ONNX model files.
    Onnx { det_path: Option<String>, rec_path: Option<String>, dict_path: Option<String> },
}

/// The text of an optional path, empty when there is none.
pub open spec fn path_or_empty(o: Option<String>) -> Seq<char> {
    match o {
        Some(p) => p@,
        None => Seq::empty(),
    }
}

/// How an engine choice is named in messages.
pub open spec fn engine_name(e: EngineSpec) -> Seq<char> {
    match e {
        EngineSpec::Default => "默认 PP-OCRv5 Server"@,
        EngineSpec::LocalAi(path) => "AI 模型 "@ + path@,
        EngineSpec::Onnx { det_path, rec_path, dict_path } => "ONNX [det="@ + path_or_empty(
            det_path,
        ) + ", rec="@ + path_or_empty(rec_path) + "]"@,
    }
}

fn text_or_empty(o: &Option<String>) -> (s: String)
    ensures
        s@ == path_or_empty(*o),
{
    match o {
        Some(p) => p.clone(),
        None => String::new(),
    }
}

impl EngineSpec {
    /// Name of the engine choice, for messages.
    pub fn display_name(&self) -> (name: String)
        ensures
            name@ == engine_name(*self),
    {
        match self {
            EngineSpec::Default => String::from_str("默认 PP-OCRv5 Server"),
            EngineSpec::LocalAi(path) => cat("AI 模型 ", path.as_str()),
            EngineSpec::Onnx { det_path, rec_path, .. } => {
                let s = cat("ONNX [det=", text_or_empty(det_path).as_str());
                let s = cat(s.as_str(), ", rec=");
                let s = cat(s.as_str(), text_or_empty(rec_path).as_str());
                cat(s.as_str(), "]")
            },
        }
    }
}

/// One file of a model download: where it comes from, the name it is saved
/// under, and how progress names it.
pub struct DownloadItem {
    pub url: String,
    pub file_name: String,
    pub component: String,
}

/// The files of a model download, in order: the detection model, the
/// recognition model, and the dictionary when an address for it is given.
pub open spec fn download_plan_spec(det_url: Seq<char>, rec_url: Seq<char>, dict_url: Option<Seq<char>>) -> Seq<
    (Seq<char>, Seq<char>, Seq<char>),
> {
    let base = seq![
        (det_url, "det.onnx"@, "检测模型 (det.onnx)"@),
        (rec_url, "rec.onnx"@, "识别模型 (rec.onnx)"@),
    ];
    match dict_url {
        Some(u) => if u.len() > 0 {
            base.push((u, "ppocr_keys_v1.txt"@, "字典文件"@))
        } else {
            base
        },
        None => base,
    }
}

/// What a model download fetches.
pub fn download_plan(det_url: &str, rec_url: &str, dict_url: Option<&str>) -> (plan: Vec<DownloadItem>)
    ensures
        plan@.map_values(|d: DownloadItem| (d.url@, d.file_name@, d.component@)) == download_plan_spec(
            det_url@,
            rec_url@,
            match dict_url {
                Some(u) => Some(u@),
                None => None,
            },
        ),
{
    let mut plan: Vec<DownloadItem> = Vec::new();
    plan.push(
        DownloadItem {
            url: String::from_str(det_url),
            file_name: String::from_str("det.onnx"),
            component: String::from_str("检测模型 (det.onnx)"),
        },
    );
    plan.push(
        DownloadItem {
            url: String::from_str(rec_url),
            file_name: String::from_str("rec.onnx"),
            component: String::from_str("识别模型 (rec.onnx)"),
        },
    );
    match dict_url {
        Some(u) => {
            if chars_of(u).len() > 0 {
                plan.push(
                    DownloadItem {
                        url: String::from_str(u),
                        file_name: String::from_str("ppocr_keys_v1.txt"),
                        component: String::from_str("字典文件"),
                    },
                );
            }
        },
        None => {},
    }
    let ghost v = plan@.map_values(|d: DownloadItem| (d.url@, d.file_name@, d.component@));
    assert(v =~= download_plan_spec(
        det_url@,
        rec_url@,
        match dict_url {
            Some(u) => Some(u@),
            None => None,
        },
    ));
    plan
}

// ---------------------------------------------------------------------------
// Model selection
// ---------------------------------------------------------------------------

/// Directories of the local models found, and which one is selected in the
/// list and which one recognizes.
pub struct ModelSelection {
    /// Directories of the available models, newest first.
    pub available_model_dirs: Vec<String>,
    /// Directory selected in the list.
    pub selected_model_dir: Option<String>,
    /// Directory of the model in use.
    pub active_model_dir: Option<String>,
}

/// The directories of the available models as text.
pub open spec fn dirs_view(dirs: Seq<String>) -> Seq<Seq<char>> {
    dirs.map_values(|d: String| d@)
}

/// A kept choice: still one of the models, else dropped.
pub open spec fn kept_choice(choice: Option<Seq<char>>, dirs: Seq<Seq<char>>) -> Option<Seq<char>> {
    match choice {
        Some(d) => if dirs.contains(d) {
            Some(d)
        } else {
            None
        },
        None => None,
    }
}

/// Index of the first model in a directory, if any.
pub open spec fn first_match(dirs: Seq<Seq<char>>, d: Seq<char>) -> Option<int> {
    if dirs.contains(d) {
        Some(choose|i: int| 0 <= i < dirs.len() && dirs[i] == d && forall|j: int| 0 <= j < i ==> dirs[j] != d)
    } else {
        None
    }
}

/// Index of the first directory in `dirs` equal to `d`.
fn position_of(dirs: &Vec<String>, d: &String) -> (r: Option<usize>)
    ensures
        match r {
            Some(i) => i < dirs@.len() && dirs@[i as int]@ == d@ && forall|j: int|
                0 <= j < i ==> dirs@[j]@ != d@,
            None => !dirs_view(dirs@).contains(d@),
        },
{
    let mut i: usize = 0;
    while i < dirs.len()
        invariant
            i <= dirs@.len(),
            forall|j: int| 0 <= j < i ==> dirs@[j]@ != d@,
        decreases dirs@.len() - i,
    {
        if same_text(dirs[i].as_str(), d.as_str()) {
            return Some(i);
        }
        i = i + 1;
    }
    proof {
        if dirs_view(dirs@).contains(d@) {
            let k = choose|k: int| 0 <= k < dirs_view(dirs@).len() && dirs_view(dirs@)[k] == d@;
            assert(dirs@[k]@ == d@);
        }
    }
    None
}

/// First index of `d` in `dirs`, as the lookup by directory finds it.
proof fn lemma_position_is_first_match(dirs: Seq<String>, d: Seq<char>, i: int)
    requires
        0 <= i < dirs.len(),
        dirs[i]@ == d,
        forall|j: int| 0 <= j < i ==> dirs[j]@ != d,
    ensures
        first_match(dirs_view(dirs), d) == Some(i),
{
    let v = dirs_view(dirs);
    assert(v[i] == d);
    let c = choose|k: int| 0 <= k < v.len() && v[k] == d && forall|j: int| 0 <= j < k ==> v[j] != d;
    assert(v.len() == dirs.len());
    if c < i {
        assert(dirs[c]@ == v[c]);
    } else if c > i {
        assert(v[i] != d);
    }
}

impl ModelSelection {
    /// Index of the model selected in the list, if it is available.
    pub fn selected_model(&self) -> (r: Option<usize>)
        ensures
            r matches Some(i) ==> self.selected_model_dir is Some,
            match self.selected_model_dir {
                Some(d) => match r {
                    Some(i) => first_match(dirs_view(self.available_model_dirs@), d@) == Some(
                        i as int,
                    ),
                    None => first_match(dirs_view(self.available_model_dirs@), d@) is None,
                },
                None => r is None,
            },
    {
        match &self.selected_model_dir {
            Some(d) => {
                let r = position_of(&self.available_model_dirs, d);
                proof {
                    if let Some(i) = r {
                        lemma_position_is_first_match(self.available_model_dirs@, d@, i as int);
                    }
                }
                r
            },
            None => None,
        }
    }

    /// Index of the model in use, if it is available.
    pub fn active_model(&self) -> (r: Option<usize>)
        ensures
            r matches Some(i) ==> self.active_model_dir is Some,
            match self.active_model_dir {
                Some(d) => match r {
                    Some(i) => first_match(dirs_view(self.available_model_dirs@), d@) == Some(
                        i as int,
                    ),
                    None => first_match(dirs_view(self.available_model_dirs@), d@) is None,
                },
                None => r is None,
            },
    {
        match &self.active_model_dir {
            Some(d) => {
                let r = position_of(&self.available_model_dirs, d);
                proof {
                    if let Some(i) = r {
                        lemma_position_is_first_match(self.available_model_dirs@, d@, i as int);
                    }
                }
                r
            },
            None => None,
        }
    }

    /// Replaces the list of models: a selection or an active model that is
    /// no longer listed is dropped, and with nothing selected the first
    /// model is selected.
    pub fn set_available_models(&mut self, models: Vec<String>)
        ensures
            final(self).available_model_dirs == models,
            opt_view(final(self).active_model_dir) == kept_choice(
                opt_view(old(self).active_model_dir),
                dirs_view(models@),
            ),
            opt_view(final(self).selected_model_dir) == (if kept_choice(
                opt_view(old(self).selected_model_dir),
                dirs_view(models@),
            ) is None && models@.len() > 0 {
                Some(models@[0]@)
            } else {
                kept_choice(opt_view(old(self).selected_model_dir), dirs_view(models@))
            }),
    {
        self.available_model_dirs = models;
        let selected = match &self.selected_model_dir {
            Some(d) => {
                match position_of(&self.available_model_dirs, d) {
                    Some(i) => {
                        proof {
                            assert(dirs_view(self.available_model_dirs@)[i as int] == d@);
                        }
                        Some(d.clone())
                    },
                    None => None,
                }
            },
            None => None,
        };
        let active = match &self.active_model_dir {
            Some(d) => {
                match position_of(&self.available_model_dirs, d) {
                    Some(i) => {
                        proof {
                            assert(dirs_view(self.available_model_dirs@)[i as int] == d@);
                        }
                        Some(d.clone())
                    },
                    None => None,
                }
            },
            None => None,
        };
        self.active_model_dir = active;
        if selected.is_none() && self.available_model_dirs.len() > 0 {
            self.selected_model_dir = Some(self.available_model_dirs[0].clone());
        } else {
            self.selected_model_dir = selected;
        }
    }
}

} // verus!
