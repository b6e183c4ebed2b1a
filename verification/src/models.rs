//! Request, response and bookkeeping types shared by the HTTP layer and the
//! library.
use vstd::prelude::*;

verus! {

/// The kinds of progress events that a job reports.
#[derive(Debug, Clone, Copy, PartialEq, Eq, Structural)]
pub enum Phase {
    ImportStart,
    ImportCopying,
    ImportComplete,
    ImportError,
    CreateStart,
    CreateDownloading,
    CreateCopying,
    CreateComplete,
    CreateError,
    DownloadStart,
    DownloadProgress,
    DownloadComplete,
    DownloadError,
    Cancelled,
    Cancel,
}

/// The wire name of each phase.
pub open spec fn phase_name(p: Phase) -> Seq<char> {
    match p {
        Phase::ImportStart => "import:start"@,
        Phase::ImportCopying => "import:copying"@,
        Phase::ImportComplete => "import:complete"@,
        Phase::ImportError => "import:error"@,
        Phase::CreateStart => "create:start"@,
        Phase::CreateDownloading => "create:downloading"@,
        Phase::CreateCopying => "create:copying"@,
        Phase::CreateComplete => "create:complete"@,
        Phase::CreateError => "create:error"@,
        Phase::DownloadStart => "download:start"@,
        Phase::DownloadProgress => "download:progress"@,
        Phase::DownloadComplete => "download:complete"@,
        Phase::DownloadError => "download:error"@,
        Phase::Cancelled => "cancelled"@,
        Phase::Cancel => "cancel"@,
    }
}

impl Phase {
    /// Returns the string representation for the phase.
    pub fn as_str(&self) -> (r: &'static str)
        ensures
            r@ == phase_name(*self),
    {
        match self {
            Phase::ImportStart => "import:start",
            Phase::ImportCopying => "import:copying",
            Phase::ImportComplete => "import:complete",
            Phase::ImportError => "import:error",
            Phase::CreateStart => "create:start",
            Phase::CreateDownloading => "create:downloading",
            Phase::CreateCopying => "create:copying",
            Phase::CreateComplete => "create:complete",
            Phase::CreateError => "create:error",
            Phase::DownloadStart => "download:start",
            Phase::DownloadProgress => "download:progress",
            Phase::DownloadComplete => "download:complete",
            Phase::DownloadError => "download:error",
            Phase::Cancelled => "cancelled",
            Phase::Cancel => "cancel",
        }
    }
}

/// Reply to a request to open a project in the editor.
pub struct OpenProjectResponse {
    pub launched: bool,
    pub engine_name: Option<String>,
    pub engine_version: Option<String>,
    pub editor_path: Option<String>,
    pub project: String,
    pub message: String,
}

/// Reply to a request to launch an engine's editor.
pub struct OpenEngineResponse {
    pub launched: bool,
    pub engine_name: Option<String>,
    pub engine_version: Option<String>,
    pub editor_path: Option<String>,
    pub message: String,
}

/// Request payload for importing a downloaded asset into a project.
pub struct ImportAssetRequest {
    /// Asset folder name as stored under the downloads directory.
    pub asset_name: String,
    /// Optional Fab identifiers that trigger a download before the import.
    pub namespace: Option<String>,
    pub asset_id: Option<String>,
    pub artifact_id: Option<String>,
    /// Optional engine major.minor version subfolder (e.g. "5.4").
    pub ue: Option<String>,
    /// Project identifier: name, project directory, or path to a .uproject.
    pub project: String,
    /// Optional subfolder inside the project's Content to copy into.
    pub target_subdir: Option<String>,
    /// Overwrite existing files when true; skip them when false.
    pub overwrite: Option<bool>,
    /// Optional job id to stream progress over the WebSocket.
    pub job_id: Option<String>,
}

/// Reply to an import request.
pub struct ImportAssetResponse {
    pub ok: bool,
    pub message: String,
    pub files_copied: usize,
    pub files_skipped: usize,
    pub source: String,
    pub destination: String,
    pub elapsed_ms: u128,
}

/// Request payload for creating a project from a template or sample.
pub struct CreateUnrealProjectRequest {
    pub engine_path: Option<String>,
    /// Path to a template .uproject or a directory holding one.
    pub template_project: Option<String>,
    /// Name of a downloaded asset to take the template from.
    pub asset_name: Option<String>,
    pub namespace: Option<String>,
    pub asset_id: Option<String>,
    pub artifact_id: Option<String>,
    /// Optional engine major.minor version (e.g. "5.6").
    pub ue: Option<String>,
    pub output_dir: String,
    pub project_name: String,
    /// "bp" or "cpp".
    pub project_type: Option<String>,
    /// Launch the editor on the new project when true.
    pub open_after_create: Option<bool>,
    pub dry_run: Option<bool>,
    pub job_id: Option<String>,
}

/// Reply to a create request.
pub struct CreateUnrealProjectResponse {
    pub ok: bool,
    pub message: String,
    pub command: String,
    pub project_path: Option<String>,
}

/// The configured directories and the ones in effect.
pub struct PathsStatus {
    pub configured: PathsConfig,
    pub effective_projects_dir: String,
    pub effective_engines_dir: String,
    pub effective_cache_dir: String,
    pub effective_downloads_dir: String,
}

/// A change to the configured directories.
pub struct PathsUpdate {
    pub projects_dir: Option<String>,
    pub engines_dir: Option<String>,
    pub cache_dir: Option<String>,
    pub downloads_dir: Option<String>,
}

/// The configured directories; `None` means the default.
pub struct PathsConfig {
    pub projects_dir: Option<String>,
    pub engines_dir: Option<String>,
    pub cache_dir: Option<String>,
    pub downloads_dir: Option<String>,
}

impl PathsConfig {
    /// No directory configured.
    pub fn empty() -> (r: PathsConfig)
        ensures
            r.projects_dir is None,
            r.engines_dir is None,
            r.cache_dir is None,
            r.downloads_dir is None,
    {
        PathsConfig { projects_dir: None, engines_dir: None, cache_dir: None, downloads_dir: None }
    }
}

/// A project found under the projects directory.
pub struct UnrealProjectInfo {
    pub name: String,
    pub path: String,
    pub uproject_file: String,
    pub engine_version: String,
}

/// The projects found under a directory.
pub struct UnrealProjectsResponse {
    pub base_directory: String,
    pub projects: Vec<UnrealProjectInfo>,
}

/// An engine installation found under the engines directory.
pub struct UnrealEngineInfo {
    pub name: String,
    pub version: String,
    pub path: String,
    pub editor_path: Option<String>,
}

/// The engines found under a directory.
pub struct UnrealEnginesResponse {
    pub base_directory: String,
    pub engines: Vec<UnrealEngineInfo>,
}

/// What became of the files of a download.
pub struct Totals {
    pub downloaded: usize,
    pub skipped_zero: usize,
    pub up_to_date: usize,
    /// Files assembled whose SHA-1 did not match the manifest's hash.
    pub rejected: usize,
}

/// Request to set the engine a project is associated with.
pub struct SetProjectEngineRequest {
    /// Project directory or .uproject path.
    pub project: String,
    /// e.g. "5.6", "5.6.1" or "UE_5.6".
    pub version: String,
}

/// A plain success flag with a message.
pub struct SimpleResponse {
    pub ok: bool,
    pub message: String,
}

/// The authorization code pasted by the user.
pub struct AuthCompleteRequest {
    pub code: String,
}

/// The HTTP status of a refused request.
#[derive(Debug, Clone, Copy, PartialEq, Eq, Structural)]
pub enum Status {
    BadRequest,
    NotFound,
    InternalServerError,
}

/// A refused request: its status and the body sent back.
pub struct ApiError {
    pub status: Status,
    pub message: String,
}

/// A refusal with a literal message.
pub fn refuse(status: Status, message: &str) -> (r: ApiError)
    ensures
        r.status == status,
        r.message@ == message@,
{
    ApiError { status, message: message.to_string() }
}

} // verus!
