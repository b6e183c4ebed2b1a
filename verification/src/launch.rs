//! Opening a project or an engine in the editor: which version is wanted,
//! which engine and editor binary serve it, and the replies.
use vstd::prelude::*;
use crate::json::{get_str, member, opt_str, Json};
use crate::models::{refuse, ApiError, OpenEngineResponse, OpenProjectResponse, Status, UnrealEngineInfo};
use crate::paths::push_str_chars;
use crate::text::{chars_of, string_from, trim_whitespace, trim_ws};
use crate::versions::{association_to_mm, picked_engine, pick_engine_index, resolve_engine_association_to_mm, InstalledBuild};

verus! {

/// The project named in an open request; refused when missing.
pub fn project_param(raw: &Option<String>) -> (r: Result<String, ApiError>)
    ensures
        match raw {
            Some(p) => r matches Ok(q) && q@ == p@,
            None => r matches Err(e) && e.status == Status::BadRequest
                && e.message@ == "Missing required query parameter: project (name, path to .uproject, or project dir)"@,
        },
{
    match raw {
        Some(p) => Ok(p.clone()),
        None => Err(refuse(Status::BadRequest, "Missing required query parameter: project (name, path to .uproject, or project dir)")),
    }
}

/// The engine version named in an open-engine request; refused when
/// missing.
pub fn engine_version_param(raw: &Option<String>) -> (r: Result<String, ApiError>)
    ensures
        match raw {
            Some(v) => r matches Ok(q) && q@ == v@,
            None => r matches Err(e) && e.status == Status::BadRequest
                && e.message@ == "Missing required query parameter: version (e.g., 5.3.2 or 5.3)"@,
        },
{
    match raw {
        Some(v) => Ok(v.clone()),
        None => Err(refuse(Status::BadRequest, "Missing required query parameter: version (e.g., 5.3.2 or 5.3)")),
    }
}

/// The refusal when the project named in an open request cannot be found.
pub fn project_not_found() -> (r: ApiError)
    ensures
        r.status == Status::BadRequest,
        r.message@ == "Project not found by path or name, or no .uproject in directory"@,
{
    refuse(Status::BadRequest, "Project not found by path or name, or no .uproject in directory")
}

/// The JSON reply to a refused open-project request: nothing launched, no
/// engine, and the refusal's message.
pub fn project_refusal_reply(e: &ApiError, project: &str) -> (r: OpenProjectResponse)
    ensures
        !r.launched,
        r.engine_name is None,
        r.engine_version is None,
        r.editor_path is None,
        r.project@ == project@,
        r.message@ == e.message@,
{
    OpenProjectResponse {
        launched: false,
        engine_name: None,
        engine_version: None,
        editor_path: None,
        project: project.to_string(),
        message: e.message.clone(),
    }
}

/// The JSON reply to a refused open-engine request: nothing launched, no
/// engine, and the refusal's message.
pub fn engine_refusal_reply(e: &ApiError) -> (r: OpenEngineResponse)
    ensures
        !r.launched,
        r.engine_name is None,
        r.engine_version is None,
        r.editor_path is None,
        r.message@ == e.message@,
{
    OpenEngineResponse {
        launched: false,
        engine_name: None,
        engine_version: None,
        editor_path: None,
        message: e.message.clone(),
    }
}

/// A version parameter counts when it is not blank; it is used trimmed.
pub open spec fn version_given(v: Option<String>) -> Option<Seq<char>> {
    match v {
        Some(s) => if trim_ws(s@).len() > 0 { Some(trim_ws(s@)) } else { None },
        None => None,
    }
}

/// The trimmed version parameter, when it is not blank.
pub fn version_param(v: &Option<String>) -> (r: Option<String>)
    ensures
        crate::fab_cache::opt_view(r) == version_given(*v),
{
    match v {
        Some(s) => {
            let t = trim_whitespace(&chars_of(s.as_str()));
            if t.len() > 0 {
                Some(string_from(t.as_slice()))
            } else {
                None
            }
        },
        None => None,
    }
}

/// What could be read of a project's `.uproject` file.
pub enum ProjectFile {
    /// The file could not be read.
    Unreadable,
    /// The file was read; the document, when it parsed as JSON.
    Read(Option<Json>),
}

/// The engine version to open a project with: the version asked for; else
/// the project's `EngineAssociation`, resolved to `major.minor`.
pub open spec fn open_version(given: Option<Seq<char>>, file: ProjectFile, installed: Seq<InstalledBuild>) -> Result<Seq<char>, (Status, Seq<char>)> {
    match given {
        Some(v) => Ok(v),
        None => match file {
            ProjectFile::Unreadable => Err((Status::BadRequest, "Failed to read project .uproject file to determine engine version"@)),
            ProjectFile::Read(doc) => {
                let assoc = match doc {
                    Some(d) => opt_str(member(d@, "EngineAssociation"@)),
                    None => None,
                };
                match assoc {
                    None => Err((Status::BadRequest, "Project .uproject missing EngineAssociation and no version provided"@)),
                    Some(a) => match association_to_mm(a, installed) {
                        Some(mm) => Ok(mm),
                        None => Err((Status::NotFound, "Could not resolve EngineAssociation from project to a version"@)),
                    },
                }
            },
        },
    }
}

/// The view of a result with a refusal.
pub open spec fn result_view(r: Result<String, ApiError>) -> Result<Seq<char>, (Status, Seq<char>)> {
    match r {
        Ok(s) => Ok(s@),
        Err(e) => Err((e.status, e.message@)),
    }
}

/// A version asked for wins: when the version parameter is not blank, the
/// project is opened with that parameter, trimmed, whatever the project
/// file holds and whatever engines are installed; the project file is
/// consulted only when no version is asked for.
pub proof fn lemma_requested_version_wins(version: Option<String>, file: ProjectFile, installed: Seq<InstalledBuild>)
    ensures
        (version matches Some(s) && trim_ws(s@).len() > 0) ==> open_version(version_given(version), file, installed)
            == Ok::<Seq<char>, (Status, Seq<char>)>(trim_ws(version->0@)),
        !(version matches Some(s) && trim_ws(s@).len() > 0) ==> open_version(version_given(version), file, installed)
            == open_version(None, file, installed),
{
}

/// Decides the engine version to open a project with.
pub fn requested_open_version(version: &Option<String>, file: &ProjectFile, installed: &[InstalledBuild]) -> (r: Result<String, ApiError>)
    ensures
        result_view(r) == open_version(version_given(*version), *file, installed@),
{
    if let Some(v) = version_param(version) {
        return Ok(v);
    }
    match file {
        ProjectFile::Unreadable => Err(refuse(Status::BadRequest, "Failed to read project .uproject file to determine engine version")),
        ProjectFile::Read(doc) => {
            let assoc = match doc {
                Some(d) => get_str(d, "EngineAssociation"),
                None => None,
            };
            match assoc {
                None => Err(refuse(Status::BadRequest, "Project .uproject missing EngineAssociation and no version provided")),
                Some(a) => match resolve_engine_association_to_mm(a.as_str(), installed) {
                    Some(mm) => Ok(mm),
                    None => Err(refuse(Status::NotFound, "Could not resolve EngineAssociation from project to a version")),
                },
            }
        },
    }
}

/// The message when no discovered engine has the requested version; the
/// project endpoint names the version, the engine endpoint does not.
pub open spec fn version_missing_message(requested: Seq<char>, name_version: bool) -> Seq<char> {
    if name_version {
        "Requested version '"@ + requested + "' not found among discovered engines"@
    } else {
        "Requested version not found among discovered engines"@
    }
}

/// The engine and editor binary to launch for a version: refused when no
/// engine was discovered, when none has the version, or when the chosen
/// one has no editor binary.
pub open spec fn launch_choice(es: Seq<UnrealEngineInfo>, requested: Seq<char>, name_version: bool) -> Result<(int, Seq<char>), (Status, Seq<char>)> {
    if es.len() == 0 {
        Err((Status::NotFound, "No Unreal Engine installations found in engine_base"@))
    } else {
        match picked_engine(es, requested) {
            None => Err((Status::NotFound, version_missing_message(requested, name_version))),
            Some(i) => match es[i].editor_path {
                Some(p) => Ok((i, p@)),
                None => Err((Status::NotFound, "Engine found but Editor binary not located"@)),
            },
        }
    }
}

/// Chooses the engine and editor binary to launch.
pub fn choose_editor(engines: &[UnrealEngineInfo], requested: &str, name_version: bool) -> (r: Result<(usize, String), ApiError>)
    ensures
        match r {
            Ok((i, p)) => launch_choice(engines@, requested@, name_version) == Ok::<(int, Seq<char>), (Status, Seq<char>)>((i as int, p@)),
            Err(e) => launch_choice(engines@, requested@, name_version) == Err::<(int, Seq<char>), (Status, Seq<char>)>((e.status, e.message@)),
        },
{
    if engines.len() == 0 {
        return Err(refuse(Status::NotFound, "No Unreal Engine installations found in engine_base"));
    }
    let idx = pick_engine_index(engines, requested);
    match idx {
        None => {
            if name_version {
                let mut m: Vec<char> = Vec::new();
                crate::paths::push_text(&mut m, "Requested version '");
                crate::paths::push_text(&mut m, requested);
                crate::paths::push_text(&mut m, "' not found among discovered engines");
                Err(ApiError { status: Status::NotFound, message: string_from(m.as_slice()) })
            } else {
                Err(refuse(Status::NotFound, "Requested version not found among discovered engines"))
            }
        },
        Some(i) => match &engines[i].editor_path {
            Some(p) => Ok((i, p.clone())),
            None => Err(refuse(Status::NotFound, "Engine found but Editor binary not located")),
        },
    }
}

/// The message of a launch: success, or the error of the failed start.
pub open spec fn launch_message(spawn_error: Option<String>) -> Seq<char> {
    match spawn_error {
        None => "Launched Unreal Editor"@,
        Some(e) => "Failed to launch editor: "@ + e@,
    }
}

/// Builds [`launch_message`].
fn launch_text(spawn_error: &Option<String>) -> (r: String)
    ensures
        r@ == launch_message(*spawn_error),
{
    match spawn_error {
        None => "Launched Unreal Editor".to_string(),
        Some(e) => {
            let mut m: Vec<char> = Vec::new();
            crate::paths::push_text(&mut m, "Failed to launch editor: ");
            crate::paths::push_text(&mut m, e.as_str());
            string_from(m.as_slice())
        },
    }
}

/// The reply to opening a project (status 200 when launched, else 500).
pub fn open_project_reply(engine: &UnrealEngineInfo, editor: &str, project: &str, spawn_error: &Option<String>) -> (r: OpenProjectResponse)
    ensures
        r.launched == spawn_error.is_none(),
        crate::fab_cache::opt_view(r.engine_name) == Some(engine.name@),
        crate::fab_cache::opt_view(r.engine_version) == Some(engine.version@),
        crate::fab_cache::opt_view(r.editor_path) == Some(editor@),
        r.project@ == project@,
        r.message@ == launch_message(*spawn_error),
{
    OpenProjectResponse {
        launched: spawn_error.is_none(),
        engine_name: Some(engine.name.clone()),
        engine_version: Some(engine.version.clone()),
        editor_path: Some(editor.to_string()),
        project: project.to_string(),
        message: launch_text(spawn_error),
    }
}

/// The reply to opening an engine (status 200 when launched, else 500).
pub fn open_engine_reply(engine: &UnrealEngineInfo, editor: &str, spawn_error: &Option<String>) -> (r: OpenEngineResponse)
    ensures
        r.launched == spawn_error.is_none(),
        crate::fab_cache::opt_view(r.engine_name) == Some(engine.name@),
        crate::fab_cache::opt_view(r.engine_version) == Some(engine.version@),
        crate::fab_cache::opt_view(r.editor_path) == Some(editor@),
        r.message@ == launch_message(*spawn_error),
{
    OpenEngineResponse {
        launched: spawn_error.is_none(),
        engine_name: Some(engine.name.clone()),
        engine_version: Some(engine.version.clone()),
        editor_path: Some(editor.to_string()),
        message: launch_text(spawn_error),
    }
}

} // verus!
