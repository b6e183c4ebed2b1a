//! Creating a project from a template: checking the request, choosing the
//! engine, deciding what to copy, rewriting the new `.uproject`, and the
//! command and replies around it.
use vstd::prelude::*;
use crate::json::{with_member, Json, JsonV};
use crate::models::{refuse, ApiError, CreateUnrealProjectRequest, CreateUnrealProjectResponse, Status, UnrealEngineInfo};
use crate::paths::{join_path, joined, push_str_chars};
use crate::text::{
    chars_of, contains_chars, contains_seq, eq_ignore_ascii_case, eq_ignore_case, lowercased, same_chars, split_at_first,
    split_first, split_whitespace, string_from, to_lowercase, trim_whitespace, trim_ws, words,
};
use crate::versions::{decimal, picked_engine, pick_engine_for_version, push_decimal};

verus! {

/// An optional field that is missing or only whitespace.
pub open spec fn blank(o: Option<String>) -> bool {
    match o {
        Some(s) => trim_ws(s@).len() == 0,
        None => true,
    }
}

/// Executable form of [`blank`].
pub fn is_blank(o: &Option<String>) -> (r: bool)
    ensures
        r == blank(*o),
{
    match o {
        Some(s) => trim_whitespace(&chars_of(s.as_str())).len() == 0,
        None => true,
    }
}

/// The project type asked for, `bp` when none is given.
pub open spec fn project_type_of(o: Option<String>) -> Seq<char> {
    match o {
        Some(s) => s@,
        None => "bp"@,
    }
}

/// The first reason a create request is refused, if any: no template
/// source, no output directory, no project name, or a project type other
/// than `bp` or `cpp` (compared after lower-casing).
pub open spec fn request_problem(req: CreateUnrealProjectRequest) -> Option<Seq<char>> {
    if blank(req.template_project) && blank(req.asset_name) {
        Some("Provide either template_project (path/dir) or asset_name (under downloads/)"@)
    } else if trim_ws(req.output_dir@).len() == 0 {
        Some("output_dir is required"@)
    } else if trim_ws(req.project_name@).len() == 0 {
        Some("project_name is required"@)
    } else if lowercased(project_type_of(req.project_type)) != "bp"@ && lowercased(project_type_of(req.project_type)) != "cpp"@ {
        Some("project_type must be 'bp' or 'cpp'"@)
    } else {
        None
    }
}

/// Checks a create request; a refusal is a bad request naming the problem.
pub fn validate_request(req: &CreateUnrealProjectRequest) -> (r: Result<(), ApiError>)
    ensures
        match request_problem(*req) {
            Some(m) => r matches Err(e) && e.status == Status::BadRequest && e.message@ == m,
            None => r is Ok,
        },
{
    if is_blank(&req.template_project) && is_blank(&req.asset_name) {
        return Err(refuse(Status::BadRequest, "Provide either template_project (path/dir) or asset_name (under downloads/)"));
    }
    if trim_whitespace(&chars_of(req.output_dir.as_str())).len() == 0 {
        return Err(refuse(Status::BadRequest, "output_dir is required"));
    }
    if trim_whitespace(&chars_of(req.project_name.as_str())).len() == 0 {
        return Err(refuse(Status::BadRequest, "project_name is required"));
    }
    let pt = match &req.project_type {
        Some(s) => to_lowercase(s.as_str()),
        None => to_lowercase("bp"),
    };
    let pc = chars_of(pt.as_str());
    let bp = chars_of("bp");
    let cpp = chars_of("cpp");
    if !same_chars(&pc, &bp) && !same_chars(&pc, &cpp) {
        return Err(refuse(Status::BadRequest, "project_type must be 'bp' or 'cpp'"));
    }
    Ok(())
}

/// The flag that opens a Blueprint project without compiling.
pub open spec fn no_compile_flag(project_type: Option<String>) -> Seq<char> {
    if project_type_of(project_type) == "bp"@ {
        " -NoCompile"@
    } else {
        Seq::empty()
    }
}

/// The editor command line that opens a project.
pub open spec fn editor_command_text(editor: Seq<char>, uproject: Seq<char>, project_type: Option<String>) -> Seq<char> {
    editor + seq![' '] + uproject + no_compile_flag(project_type)
}

/// Builds the command that opens a project in the editor.
pub fn build_editor_command(editor_path: &str, uproject_path: &str, project_type: &Option<String>) -> (r: String)
    ensures
        r@ == editor_command_text(editor_path@, uproject_path@, *project_type),
{
    let mut out: Vec<char> = Vec::new();
    crate::paths::push_text(&mut out, editor_path);
    out.push(' ');
    crate::paths::push_text(&mut out, uproject_path);
    let is_bp = match project_type {
        Some(s) => same_chars(&chars_of(s.as_str()), &chars_of("bp")),
        None => true,
    };
    if is_bp {
        crate::paths::push_text(&mut out, " -NoCompile");
    }
    assert(out@ =~= editor_command_text(editor_path@, uproject_path@, *project_type));
    string_from(out.as_slice())
}

/// Top-level folders of a template that are never copied.
pub open spec fn excluded_names() -> Seq<Seq<char>> {
    seq!["Binaries"@, "DerivedDataCache"@, "Intermediate"@, "Saved"@, ".git"@, ".svn"@, ".vs"@]
}

/// The excluded folder names, in order.
pub fn exclude_names() -> (r: Vec<String>)
    ensures
        r@.map_values(|s: String| s@) == excluded_names(),
{
    let mut r: Vec<String> = Vec::new();
    r.push("Binaries".to_string());
    r.push("DerivedDataCache".to_string());
    r.push("Intermediate".to_string());
    r.push("Saved".to_string());
    r.push(".git".to_string());
    r.push(".svn".to_string());
    r.push(".vs".to_string());
    assert(r@.map_values(|s: String| s@) =~= excluded_names());
    r
}

/// The excluded names as `{:?}` prints the list.
pub open spec fn excluded_debug() -> Seq<char> {
    "[\"Binaries\", \"DerivedDataCache\", \"Intermediate\", \"Saved\", \".git\", \".svn\", \".vs\"]"@
}

/// The reply to a dry run: what would be copied and how the project would
/// be opened.
pub open spec fn dry_run_reply(req: CreateUnrealProjectRequest, template_dir: Seq<char>, project_dir: Seq<char>, editor: Seq<char>, uproject: Seq<char>) -> (Seq<char>, Seq<char>) {
    let copy = "Copy '"@ + template_dir + "' -> '"@ + project_dir + "' (excluding "@ + excluded_debug() + seq![')'];
    let open = "Open with: "@ + editor_command_text(editor, uproject, req.project_type);
    let message = "Dry run: would copy project files, then open project"@
        + if req.open_after_create == Some(true) { " (open_after_create=true)"@ } else { Seq::empty() };
    (message, copy + " | "@ + open)
}

/// The reply to a create request with `dry_run` set.
pub fn handle_dry_run(req: &CreateUnrealProjectRequest, template_dir: &str, new_project_dir: &str, editor_path: &str, target_uproject: &str) -> (r: CreateUnrealProjectResponse)
    ensures
        r.ok,
        (r.message@, r.command@) == dry_run_reply(*req, template_dir@, new_project_dir@, editor_path@, target_uproject@),
        r.project_path matches Some(p) && p@ == new_project_dir@,
{
    let mut c: Vec<char> = Vec::new();
    crate::paths::push_text(&mut c, "Copy '");
    crate::paths::push_text(&mut c, template_dir);
    crate::paths::push_text(&mut c, "' -> '");
    crate::paths::push_text(&mut c, new_project_dir);
    crate::paths::push_text(&mut c, "' (excluding ");
    crate::paths::push_text(&mut c, "[\"Binaries\", \"DerivedDataCache\", \"Intermediate\", \"Saved\", \".git\", \".svn\", \".vs\"]");
    c.push(')');
    crate::paths::push_text(&mut c, " | ");
    crate::paths::push_text(&mut c, "Open with: ");
    let cmd = build_editor_command(editor_path, target_uproject, &req.project_type);
    crate::paths::push_text(&mut c, cmd.as_str());
    let mut m: Vec<char> = Vec::new();
    crate::paths::push_text(&mut m, "Dry run: would copy project files, then open project");
    let open_after = match req.open_after_create {
        Some(b) => b,
        None => false,
    };
    if open_after {
        crate::paths::push_text(&mut m, " (open_after_create=true)");
    }
    let ghost rep = dry_run_reply(*req, template_dir@, new_project_dir@, editor_path@, target_uproject@);
    assert(c@ =~= rep.1);
    assert(m@ =~= rep.0);
    CreateUnrealProjectResponse {
        ok: true,
        message: string_from(m.as_slice()),
        command: string_from(c.as_slice()),
        project_path: Some(new_project_dir.to_string()),
    }
}

} // verus!

verus! {

// ---------------------------------------------------------------------------
// What to copy

/// The first component of a relative path when it is an ordinary name:
/// `None` for an empty path, a path from the root, or one that starts with
/// `.` or `..`.
pub open spec fn first_name(rel: Seq<char>) -> Option<Seq<char>> {
    let s = split_first(rel, '/').0;
    if s.len() == 0 || s == "."@ || s == ".."@ {
        None
    } else {
        Some(s)
    }
}

/// `name` is one of `names`, ignoring ASCII case.
pub open spec fn listed(name: Seq<char>, names: Seq<Seq<char>>) -> bool {
    exists|i: int| 0 <= i < names.len() && eq_ignore_case(name, #[trigger] names[i])
}

/// A path is excluded when its first component is one of the excluded
/// names.
pub open spec fn excluded(rel: Seq<char>, names: Seq<Seq<char>>) -> bool {
    match first_name(rel) {
        Some(n) => listed(n, names),
        None => false,
    }
}

/// Whether a path relative to the template lies in an excluded folder.
pub fn should_exclude(rel_path: &str, exclude_names: &Vec<String>) -> (r: bool)
    ensures
        r == excluded(rel_path@, exclude_names@.map_values(|s: String| s@)),
{
    let ghost names = exclude_names@.map_values(|s: String| s@);
    let (first, _) = split_at_first(&chars_of(rel_path), '/');
    let dot = chars_of(".");
    let dotdot = chars_of("..");
    if first.len() == 0 || same_chars(&first, &dot) || same_chars(&first, &dotdot) {
        return false;
    }
    let mut i: usize = 0;
    while i < exclude_names.len()
        invariant
            i <= exclude_names.len(),
            names == exclude_names@.map_values(|s: String| s@),
            first_name(rel_path@) == Some(first@),
            forall|k: int| 0 <= k < i ==> !eq_ignore_case(first@, #[trigger] names[k]),
        decreases exclude_names.len() - i,
    {
        if eq_ignore_ascii_case(&first, &chars_of(exclude_names[i].as_str())) {
            assert(eq_ignore_case(first@, names[i as int]));
            return true;
        }
        i += 1;
    }
    false
}

/// A template path is left out of the copy exactly when its first
/// component (an ordinary name, not `.` or `..`) is, ignoring ASCII case,
/// one of `Binaries`, `DerivedDataCache`, `Intermediate`, `Saved`, `.git`,
/// `.svn` or `.vs`; everything else the template holds, `Config` and
/// `Content` among it, is copied.
pub proof fn lemma_template_exclusions(rel: Seq<char>)
    ensures
        excluded(rel, excluded_names()) <==> (first_name(rel) matches Some(n) && (
            eq_ignore_case(n, "Binaries"@)
            || eq_ignore_case(n, "DerivedDataCache"@)
            || eq_ignore_case(n, "Intermediate"@)
            || eq_ignore_case(n, "Saved"@)
            || eq_ignore_case(n, ".git"@)
            || eq_ignore_case(n, ".svn"@)
            || eq_ignore_case(n, ".vs"@))),
{
    let names = excluded_names();
    if let Some(n) = first_name(rel) {
        assert(names[0] == "Binaries"@);
        assert(names[1] == "DerivedDataCache"@);
        assert(names[2] == "Intermediate"@);
        assert(names[3] == "Saved"@);
        assert(names[4] == ".git"@);
        assert(names[5] == ".svn"@);
        assert(names[6] == ".vs"@);
        if listed(n, names) {
            let i = choose|i: int| 0 <= i < names.len() && eq_ignore_case(n, #[trigger] names[i]);
            assert(0 <= i < 7);
        }
        if eq_ignore_case(n, "Binaries"@) { assert(eq_ignore_case(n, names[0])); }
        if eq_ignore_case(n, "DerivedDataCache"@) { assert(eq_ignore_case(n, names[1])); }
        if eq_ignore_case(n, "Intermediate"@) { assert(eq_ignore_case(n, names[2])); }
        if eq_ignore_case(n, "Saved"@) { assert(eq_ignore_case(n, names[3])); }
        if eq_ignore_case(n, ".git"@) { assert(eq_ignore_case(n, names[4])); }
        if eq_ignore_case(n, ".svn"@) { assert(eq_ignore_case(n, names[5])); }
        if eq_ignore_case(n, ".vs"@) { assert(eq_ignore_case(n, names[6])); }
    }
}

/// The kind of an entry met while walking a template.
#[derive(Debug, Clone, Copy, PartialEq, Eq, Structural)]
pub enum EntryKind {
    Dir,
    File,
    Symlink,
    Other,
}

/// What to do with one entry of the template.
pub enum CopyStep {
    /// The template folder itself.
    Ignore,
    /// An excluded entry or a symbolic link: counted as skipped.
    Skip,
    /// Create this directory.
    MakeDir(String),
    /// Copy the file to this path.
    CopyFile(String),
    /// Anything else is left alone.
    Leave,
}

/// The last component of a relative path as the walk yields it.
pub open spec fn last_name(rel: Seq<char>) -> Seq<char>
    decreases rel.len(),
{
    match split_first(rel, '/').1 {
        Some(rest) => if rest.len() < rel.len() { last_name(rest) } else { rel },
        None => rel,
    }
}

/// The name has the extension `uproject` (`Path::extension`: a name that
/// is only `.uproject` has none).
pub open spec fn is_uproject_name(name: Seq<char>) -> bool {
    name.len() > 9 && ".uproject"@.is_suffix_of(name)
}

/// What the copy does with the entry at `rel` of kind `kind`: the
/// template's `.uproject` files are copied to `<project_name>.uproject`
/// at the top of the new project.
pub open spec fn copy_step_of(project_dir: Seq<char>, project_name: Seq<char>, rel: Seq<char>, kind: EntryKind, names: Seq<Seq<char>>) -> (int, Seq<char>) {
    if rel.len() == 0 {
        (0, Seq::empty())
    } else if excluded(rel, names) {
        (1, Seq::empty())
    } else if kind == EntryKind::Dir {
        (2, joined(project_dir, rel))
    } else if kind == EntryKind::File {
        if is_uproject_name(last_name(rel)) {
            (3, joined(project_dir, project_name + ".uproject"@))
        } else {
            (3, joined(project_dir, rel))
        }
    } else if kind == EntryKind::Symlink {
        (1, Seq::empty())
    } else {
        (4, Seq::empty())
    }
}

/// The step as a tag and its path, for [`copy_step_of`].
pub open spec fn step_view(s: CopyStep) -> (int, Seq<char>) {
    match s {
        CopyStep::Ignore => (0, Seq::empty()),
        CopyStep::Skip => (1, Seq::empty()),
        CopyStep::MakeDir(p) => (2, p@),
        CopyStep::CopyFile(p) => (3, p@),
        CopyStep::Leave => (4, Seq::empty()),
    }
}

/// Whether the name ends in `.uproject` with something before it.
fn uproject_name(name: &Vec<char>) -> (r: bool)
    ensures
        r == is_uproject_name(name@),
{
    if name.len() <= 9 {
        return false;
    }
    let suffix = chars_of(".uproject");
    let n = name.len();
    let mut i: usize = 0;
    while i < 9
        invariant
            i <= 9,
            n == name.len(),
            n > 9,
            suffix@ == ".uproject"@,
            forall|k: int| 0 <= k < i ==> name@[n - 9 + k] == suffix@[k],
        decreases 9 - i,
    {
        proof { reveal_strlit(".uproject"); }
        if name[n - 9 + i] != suffix[i] {
            assert(!".uproject"@.is_suffix_of(name@)) by {
                reveal_strlit(".uproject");
                assert(name@.subrange(n - 9, n as int)[i as int] != ".uproject"@[i as int]);
            }
            return false;
        }
        i += 1;
    }
    proof {
        reveal_strlit(".uproject");
        assert(name@.subrange(n - 9, n as int) =~= ".uproject"@);
    }
    true
}

/// Whether a file name carries the `uproject` extension.
pub fn uproject_file_name(name: &str) -> (r: bool)
    ensures
        r == is_uproject_name(name@),
{
    uproject_name(&chars_of(name))
}

/// The last component of a relative path.
fn last_component(rel: &Vec<char>) -> (r: Vec<char>)
    ensures
        r@ == last_name(rel@),
    decreases rel.len(),
{
    let (_, rest) = split_at_first(rel, '/');
    match rest {
        Some(t) => {
            proof { lemma_split_rest_shorter(rel@, '/'); }
            if t.len() < rel.len() {
                last_component(&t)
            } else {
                rel.clone()
            }
        },
        None => rel.clone(),
    }
}

/// What follows the first `c` is shorter than the whole.
pub proof fn lemma_split_rest_shorter(s: Seq<char>, c: char)
    ensures
        split_first(s, c).1 matches Some(t) ==> t.len() < s.len(),
    decreases s.len(),
{
    if s.len() > 0 && s[0] != c {
        lemma_split_rest_shorter(s.drop_first(), c);
    }
}

/// Decides what the copy does with one entry of the template.
pub fn copy_step(new_project_dir: &str, project_name: &str, rel: &str, kind: EntryKind, exclude_names: &Vec<String>) -> (r: CopyStep)
    ensures
        step_view(r) == copy_step_of(new_project_dir@, project_name@, rel@, kind, exclude_names@.map_values(|s: String| s@)),
{
    if rel.is_empty() {
        return CopyStep::Ignore;
    }
    if should_exclude(rel, exclude_names) {
        return CopyStep::Skip;
    }
    match kind {
        EntryKind::Dir => CopyStep::MakeDir(join_path(new_project_dir, rel)),
        EntryKind::File => {
            let last = last_component(&chars_of(rel));
            if uproject_name(&last) {
                let mut n: Vec<char> = Vec::new();
                crate::paths::push_text(&mut n, project_name);
                crate::paths::push_text(&mut n, ".uproject");
                let name = string_from(n.as_slice());
                CopyStep::CopyFile(join_path(new_project_dir, name.as_str()))
            } else {
                CopyStep::CopyFile(join_path(new_project_dir, rel))
            }
        },
        EntryKind::Symlink => CopyStep::Skip,
        EntryKind::Other => CopyStep::Leave,
    }
}

/// An entry counts toward the number of files to copy when it is a file
/// that is neither the template folder nor excluded.
pub fn counts_toward_total(rel: &str, kind: EntryKind, exclude_names: &Vec<String>) -> (r: bool)
    ensures
        r == (rel@.len() > 0 && !excluded(rel@, exclude_names@.map_values(|s: String| s@)) && kind == EntryKind::File),
{
    !rel.is_empty() && !should_exclude(rel, exclude_names) && kind == EntryKind::File
}

/// Files copied and entries skipped so far.
pub struct CopyTally {
    pub copied: usize,
    pub skipped: usize,
}

impl CopyTally {
    /// Nothing copied or skipped yet.
    pub fn new() -> (r: CopyTally)
        ensures
            r.copied == 0,
            r.skipped == 0,
    {
        CopyTally { copied: 0, skipped: 0 }
    }

    /// Accounts for a step once it has been carried out: a copied file or
    /// a skipped entry adds one to its count.
    pub fn record(&mut self, step: &CopyStep)
        requires
            old(self).copied < usize::MAX,
            old(self).skipped < usize::MAX,
        ensures
            final(self).copied == old(self).copied + (if step_view(*step).0 == 3 { 1int } else { 0int }),
            final(self).skipped == old(self).skipped + (if step_view(*step).0 == 1 { 1int } else { 0int }),
    {
        match step {
            CopyStep::CopyFile(_) => self.copied = self.copied + 1,
            CopyStep::Skip => self.skipped = self.skipped + 1,
            _ => {},
        }
    }
}

} // verus!

verus! {

// ---------------------------------------------------------------------------
// Engine and editor

/// The engine a create request runs on: the given `engine_path`; else,
/// with a requested version, the engine [`picked_engine`] finds among the
/// discovered ones; else the latest engine folder.
pub fn resolve_engine_path(
    req: &CreateUnrealProjectRequest,
    base: &str,
    discovered: &[UnrealEngineInfo],
    engine_folders: &Vec<String>,
) -> (r: Result<String, ApiError>)
    ensures
        req.engine_path matches Some(p) ==> (r matches Ok(q) && q@ == p@),
        req.engine_path is None ==> (req.ue matches Some(ue) ==> match picked_engine(discovered@, ue@) {
            Some(i) => r matches Ok(q) && q@ == discovered@[i].path@,
            None => r matches Err(e) && e.status == Status::NotFound
                && e.message@ == "Requested UE version not found among discovered engines"@,
        }),
        req.engine_path is None && req.ue is None ==> match r {
            Ok(q) => engine_folders.len() > 0 && exists|i: int| crate::versions::is_latest(engine_folders@, i)
                && q@ == joined(base@, #[trigger] engine_folders@[i]@),
            Err(e) => engine_folders.len() == 0 && e.status == Status::BadRequest
                && e.message@ == crate::versions::no_engine_message(),
        },
{
    if let Some(p) = &req.engine_path {
        return Ok(p.clone());
    }
    if let Some(ue) = &req.ue {
        return match pick_engine_for_version(discovered, ue.as_str()) {
            Some(info) => Ok(info.path.clone()),
            None => Err(refuse(Status::NotFound, "Requested UE version not found among discovered engines")),
        };
    }
    crate::versions::select_latest_engine(base, engine_folders)
}

/// The places an engine keeps its editor binary, in the order they are
/// tried.
pub open spec fn editor_candidates(engine_dir: Seq<char>) -> Seq<Seq<char>> {
    seq![
        joined(engine_dir, "Engine/Binaries/Linux/UnrealEditor"@),
        joined(engine_dir, "Engine/Binaries/Linux/UE4Editor"@),
        joined(engine_dir, "Engine/Binaries/Linux/UnrealEditor.app/Contents/MacOS/UnrealEditor"@),
    ]
}

/// The candidate editor binaries of an engine.
pub fn editor_binary_candidates(engine_dir: &str) -> (r: Vec<String>)
    ensures
        r@.map_values(|s: String| s@) == editor_candidates(engine_dir@),
{
    let mut r: Vec<String> = Vec::new();
    r.push(join_path(engine_dir, "Engine/Binaries/Linux/UnrealEditor"));
    r.push(join_path(engine_dir, "Engine/Binaries/Linux/UE4Editor"));
    r.push(join_path(engine_dir, "Engine/Binaries/Linux/UnrealEditor.app/Contents/MacOS/UnrealEditor"));
    assert(r@.map_values(|s: String| s@) =~= editor_candidates(engine_dir@));
    r
}

/// The editor binary: the first candidate that is a file (`is_file[i]`
/// says whether `candidates[i]` is one).
pub fn find_editor_binary(candidates: &Vec<String>, is_file: &Vec<bool>) -> (r: Option<String>)
    requires
        candidates.len() == is_file.len(),
    ensures
        match r {
            Some(p) => exists|i: int| 0 <= i < candidates.len() && is_file@[i] && p@ == candidates@[i]@
                && forall|k: int| 0 <= k < i ==> !is_file@[k],
            None => forall|k: int| 0 <= k < is_file.len() ==> !is_file@[k],
        },
{
    let mut i: usize = 0;
    while i < candidates.len()
        invariant
            i <= candidates.len(),
            candidates.len() == is_file.len(),
            forall|k: int| 0 <= k < i ==> !is_file@[k],
        decreases candidates.len() - i,
    {
        if is_file[i] {
            return Some(candidates[i].clone());
        }
        i += 1;
    }
    None
}

// ---------------------------------------------------------------------------
// Template sources

/// What the filesystem says of a folder.
#[derive(Debug, Clone, Copy, PartialEq, Eq, Structural)]
pub struct DirState {
    pub exists: bool,
    /// The folder holds the marker that a finished download leaves.
    pub complete: bool,
}

/// The marker a finished download leaves in its folder.
pub fn download_marker(root: &str) -> (r: String)
    ensures
        r@ == joined(root@, ".download_complete"@),
{
    join_path(root, ".download_complete")
}

/// The folder of the requested engine version inside an asset folder: the
/// trimmed version joined on, when it is not blank.
pub open spec fn version_dir_of(asset_dir: Seq<char>, ue: Option<String>) -> Option<Seq<char>> {
    match ue {
        Some(v) => if trim_ws(v@).len() > 0 { Some(joined(asset_dir, trim_ws(v@))) } else { None },
        None => None,
    }
}

/// Computes [`version_dir_of`].
pub fn version_subdir(asset_dir: &str, ue: &Option<String>) -> (r: Option<String>)
    ensures
        match r {
            Some(p) => version_dir_of(asset_dir@, *ue) == Some(p@),
            None => version_dir_of(asset_dir@, *ue) is None,
        },
{
    match ue {
        Some(v) => {
            let t = trim_whitespace(&chars_of(v.as_str()));
            if t.len() > 0 {
                let ts = string_from(t.as_slice());
                Some(join_path(asset_dir, ts.as_str()))
            } else {
                None
            }
        },
        None => None,
    }
}

/// An asset must be downloaded when its folder is missing or unfinished,
/// or when the requested version's folder is.
pub fn needs_download(asset: DirState, version_dir: Option<DirState>) -> (r: bool)
    ensures
        r == (!asset.exists || !asset.complete || (version_dir matches Some(v) && (!v.exists || !v.complete))),
{
    if !asset.exists || !asset.complete {
        return true;
    }
    match version_dir {
        Some(v) => !v.exists || !v.complete,
        None => false,
    }
}

/// Where to look for the template: the version folder when there is one
/// and it exists, else the asset folder.
pub fn determine_search_dir(asset_dir: &str, version_dir: &Option<String>, version_dir_exists: bool) -> (r: String)
    ensures
        r@ == match version_dir {
            Some(v) => if version_dir_exists { v@ } else { asset_dir@ },
            None => asset_dir@,
        },
{
    match version_dir {
        Some(v) => if version_dir_exists { v.clone() } else { asset_dir.to_string() },
        None => asset_dir.to_string(),
    }
}

/// The path named by `template_project`, trimmed, unquoted and with the
/// home directory expanded; `None` when it is blank.
pub fn resolve_from_template_project(tp: &str, home: &Option<String>) -> (r: Option<String>)
    requires
        !(crate::paths::quoted(trim_ws(tp@)) && trim_ws(tp@).len() == 1),
    ensures
        trim_ws(tp@).len() == 0 ==> r is None,
        trim_ws(tp@).len() > 0 ==> (r matches Some(p)
            && p@ == crate::paths::expanded_path(tp@, match home { Some(h) => Some(h@), None => None })),
{
    if trim_whitespace(&chars_of(tp)).len() == 0 {
        return None;
    }
    Some(crate::paths::trim_quotes_and_expand_home(tp, home))
}

} // verus!

verus! {

// ---------------------------------------------------------------------------
// The new .uproject

/// `"DisplayName":"` and `"FriendlyName":"` in a project file get the new
/// project's name written after them, when the text looks like a project
/// file (it mentions `"FileVersion"` or `"EngineAssociation"`). `None`
/// when nothing changes.
pub open spec fn renamed_text(text: Seq<char>, name: Seq<char>) -> Option<Seq<char>> {
    if contains_seq(text, "\"FileVersion\""@) || contains_seq(text, "\"EngineAssociation\""@) {
        let u = crate::paths::replaced(
            crate::paths::replaced(text, "\"DisplayName\":\""@, "\"DisplayName\":\""@ + name),
            "\"FriendlyName\":\""@,
            "\"FriendlyName\":\""@ + name,
        );
        if u != text { Some(u) } else { None }
    } else {
        None
    }
}

/// Writes the project name into the display and friendly names of a
/// project file's text; `None` when the text stays as it is.
pub fn update_project_metadata(text: &str, project_name: &str) -> (r: Option<String>)
    ensures
        match r {
            Some(u) => renamed_text(text@, project_name@) == Some(u@),
            None => renamed_text(text@, project_name@) is None,
        },
{
    let t = chars_of(text);
    let fv = chars_of("\"FileVersion\"");
    let ea = chars_of("\"EngineAssociation\"");
    if !contains_chars(&t, &fv) && !contains_chars(&t, &ea) {
        return None;
    }
    let dn = chars_of("\"DisplayName\":\"");
    let fnm = chars_of("\"FriendlyName\":\"");
    proof {
        reveal_strlit("\"DisplayName\":\"");
        reveal_strlit("\"FriendlyName\":\"");
    }
    let mut dn_rep = dn.clone();
    assert(dn_rep@ == dn@);
    crate::paths::push_text(&mut dn_rep, project_name);
    let mut fn_rep = fnm.clone();
    assert(fn_rep@ == fnm@);
    crate::paths::push_text(&mut fn_rep, project_name);
    let u1 = crate::paths::replace_all(&t, &dn, &dn_rep);
    let u2 = crate::paths::replace_all(&u1, &fnm, &fn_rep);
    if same_chars(&u2, &t) {
        None
    } else {
        Some(string_from(u2.as_slice()))
    }
}

/// `s` trimmed and without a leading `UE_`.
pub open spec fn bare_version(s: Seq<char>) -> Seq<char> {
    crate::versions::strip_ue(trim_ws(s))
}

/// The `EngineAssociation` written for a requested engine version: the
/// trimmed texts before the first dot and between the first and second
/// dot, joined by a dot; `None` when there is no dot.
pub open spec fn association_text(ue: Seq<char>) -> Option<Seq<char>> {
    let u = bare_version(ue);
    match split_first(u, '.').1 {
        Some(rest) => Some(trim_ws(split_first(u, '.').0) + seq!['.'] + trim_ws(split_first(rest, '.').0)),
        None => None,
    }
}

/// The parts of a requested version, as [`association_text`] reads them.
fn version_parts(ue: &str) -> (r: Option<(Vec<char>, Vec<char>)>)
    ensures
        match r {
            Some((a, b)) => split_first(bare_version(ue@), '.').1 is Some
                && a@ == trim_ws(split_first(bare_version(ue@), '.').0)
                && b@ == trim_ws(split_first(split_first(bare_version(ue@), '.').1->0, '.').0),
            None => split_first(bare_version(ue@), '.').1 is None,
        },
{
    let t = trim_whitespace(&chars_of(ue));
    let p = chars_of("UE_");
    proof { reveal_strlit("UE_"); }
    assert(p@ =~= crate::versions::ue_prefix());
    let u = if crate::text::starts_with_chars(&t, &p) {
        let mut w: Vec<char> = Vec::new();
        let mut i: usize = 3;
        while i < t.len()
            invariant
                3 <= i <= t.len(),
                w@ == t@.subrange(3, i as int),
            decreases t.len() - i,
        {
            w.push(t[i]);
            assert(t@.subrange(3, i + 1) =~= t@.subrange(3, i as int).push(t@[i as int]));
            i += 1;
        }
        assert(t@.subrange(3, t.len() as int) =~= t@.skip(3));
        w
    } else {
        t
    };
    let (major, rest) = split_at_first(&u, '.');
    match rest {
        Some(r) => {
            let (minor, _) = split_at_first(&r, '.');
            Some((trim_whitespace(&major), trim_whitespace(&minor)))
        },
        None => None,
    }
}

/// The `EngineAssociation` value for a requested engine version.
pub fn engine_association_for(ue: &str) -> (r: Option<String>)
    ensures
        match r {
            Some(m) => association_text(ue@) == Some(m@),
            None => association_text(ue@) is None,
        },
{
    match version_parts(ue) {
        Some((a, b)) => {
            let mut out = a;
            out.push('.');
            push_str_chars(&mut out, &b);
            Some(string_from(out.as_slice()))
        },
        None => None,
    }
}

/// A project file's JSON with `EngineAssociation` set; `None` when the
/// document is not an object.
pub fn with_engine_association(doc: Json, mm: &str) -> (r: Option<Json>)
    ensures
        match r {
            Some(d) => doc@ is Object && d@ == with_member(doc@, "EngineAssociation"@, JsonV::Str(mm@)),
            None => !(doc@ is Object),
        },
{
    match doc {
        Json::Object(_) => {
            let d = crate::json::set_member(doc, "EngineAssociation".to_string(), Json::Str(mm.to_string()));
            Some(d)
        },
        other => {
            proof { assert(other@ == other.view_of()); }
            None
        },
    }
}

/// The message when a requested project version is malformed.
pub open spec fn bad_version_message() -> Seq<char> {
    "version must be like 5.6 or UE_5.6 (patch allowed)"@
}

/// The `major.minor` a request to set a project's engine asks for: both
/// parts present, not empty and all digits after trimming.
pub open spec fn requested_project_version(version: Seq<char>) -> Option<Seq<char>> {
    let u = bare_version(version);
    match split_first(u, '.').1 {
        Some(rest) => {
            let major = trim_ws(split_first(u, '.').0);
            let minor = trim_ws(split_first(rest, '.').0);
            if major.len() > 0 && minor.len() > 0 && crate::text::all_digits(major) && crate::text::all_digits(minor) {
                Some(major + seq!['.'] + minor)
            } else {
                None
            }
        },
        None => None,
    }
}

/// Reads the version of a request to set a project's engine.
pub fn parse_project_version(version: &str) -> (r: Result<String, ApiError>)
    ensures
        match requested_project_version(version@) {
            Some(m) => r matches Ok(s) && s@ == m,
            None => r matches Err(e) && e.status == Status::BadRequest && e.message@ == bad_version_message(),
        },
{
    match version_parts(version) {
        Some((a, b)) => {
            if a.len() == 0 || b.len() == 0 || !crate::text::all_digits_exec(&a) || !crate::text::all_digits_exec(&b) {
                return Err(refuse(Status::BadRequest, "version must be like 5.6 or UE_5.6 (patch allowed)"));
            }
            let mut out = a;
            out.push('.');
            push_str_chars(&mut out, &b);
            Ok(string_from(out.as_slice()))
        },
        None => Err(refuse(Status::BadRequest, "version must be like 5.6 or UE_5.6 (patch allowed)")),
    }
}

/// Sets the engine of a parsed project file, refusing a document that is
/// not an object.
pub fn set_project_engine(doc: Json, mm: &str) -> (r: Result<Json, ApiError>)
    ensures
        doc@ is Object ==> (r matches Ok(d) && d@ == with_member(doc@, "EngineAssociation"@, JsonV::Str(mm@))),
        !(doc@ is Object) ==> (r matches Err(e) && e.status == Status::BadRequest && e.message@ == ".uproject JSON is not an object"@),
{
    match with_engine_association(doc, mm) {
        Some(d) => Ok(d),
        None => Err(refuse(Status::BadRequest, ".uproject JSON is not an object")),
    }
}

/// The reply once a project's engine was set.
pub fn engine_set_reply(mm: &str) -> (r: crate::models::SimpleResponse)
    ensures
        r.ok,
        r.message@ == "Set EngineAssociation to "@ + mm@,
{
    let mut m: Vec<char> = Vec::new();
    crate::paths::push_text(&mut m, "Set EngineAssociation to ");
    crate::paths::push_text(&mut m, mm);
    crate::models::SimpleResponse { ok: true, message: string_from(m.as_slice()) }
}

/// The path of the new project's `.uproject`.
pub fn new_uproject_path(new_project_dir: &str, project_name: &str) -> (r: String)
    ensures
        r@ == joined(new_project_dir@, project_name@ + ".uproject"@),
{
    let mut n: Vec<char> = Vec::new();
    crate::paths::push_text(&mut n, project_name);
    crate::paths::push_text(&mut n, ".uproject");
    let name = string_from(n.as_slice());
    join_path(new_project_dir, name.as_str())
}

} // verus!

verus! {

// ---------------------------------------------------------------------------
// Opening the new project

/// `Project created (<copied> files, <skipped> skipped).` followed by how
/// the opening went.
pub open spec fn created_message(copied: nat, skipped: nat, tail: Seq<char>) -> Seq<char> {
    "Project created ("@ + decimal(copied) + " files, "@ + decimal(skipped) + " skipped). "@ + tail
}

/// Builds [`created_message`].
fn created_text(copied: usize, skipped: usize, tail: &str) -> (r: String)
    ensures
        r@ == created_message(copied as nat, skipped as nat, tail@),
{
    let mut m: Vec<char> = Vec::new();
    crate::paths::push_text(&mut m, "Project created (");
    push_decimal(&mut m, copied as u64);
    crate::paths::push_text(&mut m, " files, ");
    push_decimal(&mut m, skipped as u64);
    crate::paths::push_text(&mut m, " skipped). ");
    crate::paths::push_text(&mut m, tail);
    assert(m@ =~= created_message(copied as nat, skipped as nat, tail@));
    string_from(m.as_slice())
}

/// What happens after the copy of a new project.
pub enum OpenAfterCreate {
    /// Done; send this reply.
    Reply(CreateUnrealProjectResponse),
    /// Run `program` with `args`, then reply with [`launch_reply`].
    Launch(String, Vec<String>),
    /// The command is empty.
    Refuse(ApiError),
}

/// Decides whether and how to open the new project: not at all unless
/// `open_after_create` is set; else the command's first word is run with
/// the others as arguments.
pub fn execute_project_open(req: &CreateUnrealProjectRequest, copied: usize, skipped: usize, command: String, project_dir: &str) -> (r: OpenAfterCreate)
    ensures
        req.open_after_create != Some(true) ==> (r matches OpenAfterCreate::Reply(resp) && resp.ok
            && resp.message@ == created_message(copied as nat, skipped as nat, "Not opening (open_after_create=false)."@)
            && resp.command@ == command@ && crate::fab_cache::opt_view(resp.project_path) == Some(project_dir@)),
        req.open_after_create == Some(true) && words(command@).len() == 0 ==> (r matches OpenAfterCreate::Refuse(e)
            && e.status == Status::InternalServerError && e.message@ == "Invalid command"@),
        req.open_after_create == Some(true) && words(command@).len() > 0 ==> (r matches OpenAfterCreate::Launch(p, args)
            && p@ == words(command@)[0] && args@.map_values(|a: String| a@) == words(command@).drop_first()),
{
    let open_after = match req.open_after_create {
        Some(b) => b,
        None => false,
    };
    if !open_after {
        let message = created_text(copied, skipped, "Not opening (open_after_create=false).");
        return OpenAfterCreate::Reply(CreateUnrealProjectResponse {
            ok: true,
            message,
            command,
            project_path: Some(project_dir.to_string()),
        });
    }
    let mut parts = split_whitespace(command.as_str());
    if parts.len() == 0 {
        return OpenAfterCreate::Refuse(refuse(Status::InternalServerError, "Invalid command"));
    }
    let ghost ws = parts@.map_values(|a: String| a@);
    let program = parts.remove(0);
    assert(parts@.map_values(|a: String| a@) =~= ws.drop_first());
    OpenAfterCreate::Launch(program, parts)
}

/// The reply once the editor was started (`launch_error` is `None`) or
/// failed to start.
pub fn launch_reply(copied: usize, skipped: usize, command: String, project_dir: &str, launch_error: &Option<String>) -> (r: CreateUnrealProjectResponse)
    ensures
        r.ok,
        r.command@ == command@,
        crate::fab_cache::opt_view(r.project_path) == Some(project_dir@),
        r.message@ == match launch_error {
            None => created_message(copied as nat, skipped as nat, "Unreal Editor is launching..."@),
            Some(e) => created_message(copied as nat, skipped as nat, "Failed to launch UnrealEditor: "@ + e@),
        },
{
    let message = match launch_error {
        None => created_text(copied, skipped, "Unreal Editor is launching..."),
        Some(e) => {
            let mut t: Vec<char> = Vec::new();
            crate::paths::push_text(&mut t, "Failed to launch UnrealEditor: ");
            crate::paths::push_text(&mut t, e.as_str());
            let ts = string_from(t.as_slice());
            created_text(copied, skipped, ts.as_str())
        },
    };
    CreateUnrealProjectResponse { ok: true, message, command, project_path: Some(project_dir.to_string()) }
}

} // verus!
