//! Downloaded assets: where an asset's files go, finding them again, the
//! Fab library lookups that name them, and importing them into a project.
use vstd::prelude::*;
use crate::models::{refuse, ApiError, ImportAssetResponse, Status};
use crate::naming::{get_friendly_folder_name, sanitized_title};
use crate::paths::{join_path, joined, push_str_chars};
use crate::search::{first_index, lemma_first_index_at, lemma_first_index_none};
use crate::text::{
    chars_of, eq_ignore_ascii_case, eq_ignore_case, same_chars, string_from, trim_by, trim_whitespace, trim_ws,
};

verus! {

/// The folder name used when an asset has no usable title:
/// `<namespace>-<asset id>-<artifact id>`.
pub open spec fn fallback_folder(ns: Seq<char>, id: Seq<char>, artifact: Seq<char>) -> Seq<char> {
    ns + seq!['-'] + id + seq!['-'] + artifact
}

/// The folder an asset is downloaded into: its friendly name when it has
/// one, else the identifier-based fallback.
pub fn asset_folder_name(friendly: &Option<String>, namespace: &str, asset_id: &str, artifact_id: &str) -> (r: String)
    ensures
        r@ == match friendly {
            Some(f) => f@,
            None => fallback_folder(namespace@, asset_id@, artifact_id@),
        },
{
    match friendly {
        Some(f) => f.clone(),
        None => {
            let mut m: Vec<char> = Vec::new();
            crate::paths::push_text(&mut m, namespace);
            m.push('-');
            crate::paths::push_text(&mut m, asset_id);
            m.push('-');
            crate::paths::push_text(&mut m, artifact_id);
            assert(m@ =~= fallback_folder(namespace@, asset_id@, artifact_id@));
            string_from(m.as_slice())
        },
    }
}

/// The download folder of an asset: the folder under the downloads root,
/// and under it the trimmed engine version when one is given.
pub fn asset_download_dir(downloads_root: &str, folder: &str, ue: &Option<String>) -> (r: String)
    ensures
        r@ == match crate::create::version_dir_of(joined(downloads_root@, folder@), *ue) {
            Some(v) => v,
            None => joined(downloads_root@, folder@),
        },
{
    let dir = join_path(downloads_root, folder);
    match crate::create::version_subdir(dir.as_str(), ue) {
        Some(v) => v,
        None => dir,
    }
}

/// [`eq_ignore_case`] with a fixed name, as a predicate.
pub open spec fn same_name_as(name: Seq<char>) -> spec_fn(String) -> bool {
    |d: String| eq_ignore_case(d@, name)
}

/// The folder of an asset under the downloads directory: `base/name` when
/// it exists, else the first listed folder whose name matches ignoring
/// ASCII case, else `base/name` anyway.
pub fn find_asset_directory(downloads_base: &str, name: &str, exact_exists: bool, dir_names: &Vec<String>) -> (r: String)
    ensures
        r@ == if exact_exists {
            joined(downloads_base@, name@)
        } else {
            match first_index(dir_names@, same_name_as(name@)) {
                Some(i) => joined(downloads_base@, dir_names@[i]@),
                None => joined(downloads_base@, name@),
            }
        },
{
    if exact_exists {
        return join_path(downloads_base, name);
    }
    let n = chars_of(name);
    let ghost p = same_name_as(name@);
    let mut i: usize = 0;
    while i < dir_names.len()
        invariant
            i <= dir_names.len(),
            n@ == name@,
            !exact_exists,
            p == same_name_as(name@),
            forall|k: int| 0 <= k < i ==> !p(#[trigger] dir_names@[k]),
        decreases dir_names.len() - i,
    {
        if eq_ignore_ascii_case(&chars_of(dir_names[i].as_str()), &n) {
            proof { lemma_first_index_at(dir_names@, p, i as int); }
            return join_path(downloads_base, dir_names[i].as_str());
        }
        i += 1;
    }
    proof { lemma_first_index_none(dir_names@, p); }
    join_path(downloads_base, name)
}

/// The query forwarded to the download handler: the job id, and the
/// trimmed engine version when it is not blank.
pub fn download_query(job_id: &Option<String>, ue: &Option<String>) -> (r: Vec<(String, String)>)
    ensures
        r@.map_values(|kv: (String, String)| (kv.0@, kv.1@)) == (match job_id {
            Some(j) => seq![("jobId"@, j@)],
            None => Seq::empty(),
        }) + (match ue {
            Some(u) => if trim_ws(u@).len() > 0 { seq![("ue"@, trim_ws(u@))] } else { Seq::empty() },
            None => Seq::empty(),
        }),
{
    let mut q: Vec<(String, String)> = Vec::new();
    if let Some(j) = job_id {
        q.push(("jobId".to_string(), j.clone()));
    }
    let ghost first = q@.map_values(|kv: (String, String)| (kv.0@, kv.1@));
    if let Some(u) = ue {
        let t = trim_whitespace(&chars_of(u.as_str()));
        if t.len() > 0 {
            q.push(("ue".to_string(), string_from(t.as_slice())));
        }
    }
    assert(q@.map_values(|kv: (String, String)| (kv.0@, kv.1@)) =~= (match job_id {
        Some(j) => seq![("jobId"@, j@)],
        None => Seq::empty(),
    }) + (match ue {
        Some(u) => if trim_ws(u@).len() > 0 { seq![("ue"@, trim_ws(u@))] } else { Seq::empty() },
        None => Seq::empty(),
    }));
    q
}

// ---------------------------------------------------------------------------
// The Fab library

/// What the library logic reads of a Fab library entry.
pub struct LibraryAsset {
    pub namespace: String,
    pub asset_id: String,
    pub title: String,
    /// The artifact ids of its project versions, in order.
    pub artifact_ids: Vec<String>,
}

/// The entry with the given namespace and asset id.
pub open spec fn is_entry(ns: Seq<char>, id: Seq<char>) -> spec_fn(LibraryAsset) -> bool {
    |a: LibraryAsset| a.namespace@ == ns && a.asset_id@ == id
}

/// The title of an asset in the user's library: the trimmed title of the
/// first entry with its namespace and id, when that entry lists the
/// artifact and the title is not blank.
pub open spec fn known_title(lib: Option<Seq<LibraryAsset>>, ns: Seq<char>, id: Seq<char>, artifact: Seq<char>) -> Option<Seq<char>> {
    match lib {
        Some(l) => match first_index(l, is_entry(ns, id)) {
            Some(i) => if l[i].artifact_ids@.map_values(|s: String| s@).contains(artifact) && trim_ws(l[i].title@).len() > 0 {
                Some(trim_ws(l[i].title@))
            } else {
                None
            },
            None => None,
        },
        None => None,
    }
}

/// The view of an optional library.
pub open spec fn library_view(library: Option<Vec<LibraryAsset>>) -> Option<Seq<LibraryAsset>> {
    match library {
        Some(l) => Some(l@),
        None => None,
    }
}

/// The name shown for an asset: its title in the library when it has one,
/// else `<namespace>/<asset id>/<artifact id>`.
pub open spec fn display_name(lib: Option<Seq<LibraryAsset>>, ns: Seq<char>, id: Seq<char>, artifact: Seq<char>) -> Seq<char> {
    match known_title(lib, ns, id, artifact) {
        Some(t) => t,
        None => ns + seq!['/'] + id + seq!['/'] + artifact,
    }
}

/// The folder an asset is downloaded into: its sanitized title when the
/// library knows a title that sanitizes to something, else
/// `<namespace>-<asset id>-<artifact id>`.
pub open spec fn download_folder(lib: Option<Seq<LibraryAsset>>, ns: Seq<char>, id: Seq<char>, artifact: Seq<char>) -> Seq<char> {
    match known_title(lib, ns, id, artifact) {
        Some(t) => if sanitized_title(t).len() > 0 { sanitized_title(t) } else { fallback_folder(ns, id, artifact) },
        None => fallback_folder(ns, id, artifact),
    }
}

/// Whether one of `ids` is `id`.
fn lists_id(ids: &Vec<String>, id: &str) -> (r: bool)
    ensures
        r == ids@.map_values(|s: String| s@).contains(id@),
{
    let target = chars_of(id);
    let ghost v = ids@.map_values(|s: String| s@);
    let mut i: usize = 0;
    while i < ids.len()
        invariant
            i <= ids.len(),
            target@ == id@,
            v == ids@.map_values(|s: String| s@),
            forall|k: int| 0 <= k < i ==> v[k] != id@,
        decreases ids.len() - i,
    {
        if same_chars(&chars_of(ids[i].as_str()), &target) {
            assert(v[i as int] == id@);
            return true;
        }
        i += 1;
    }
    false
}

/// The title of an asset in the user's library, when it could be fetched
/// and knows one.
pub fn asset_title(library: &Option<Vec<LibraryAsset>>, namespace: &str, asset_id: &str, artifact_id: &str) -> (r: Option<String>)
    ensures
        match r {
            Some(t) => known_title(library_view(*library), namespace@, asset_id@, artifact_id@) == Some(t@),
            None => known_title(library_view(*library), namespace@, asset_id@, artifact_id@) is None,
        },
{
    let lib = match library {
        Some(l) => l,
        None => return None,
    };
    let ns = chars_of(namespace);
    let id = chars_of(asset_id);
    let ghost p = is_entry(namespace@, asset_id@);
    let mut i: usize = 0;
    while i < lib.len()
        invariant
            i <= lib.len(),
            ns@ == namespace@,
            id@ == asset_id@,
            *library == Some(*lib),
            p == is_entry(namespace@, asset_id@),
            forall|k: int| 0 <= k < i ==> !p(#[trigger] lib@[k]),
        decreases lib.len() - i,
    {
        let a = &lib[i];
        if same_chars(&chars_of(a.namespace.as_str()), &ns) && same_chars(&chars_of(a.asset_id.as_str()), &id) {
            proof { lemma_first_index_at(lib@, p, i as int); }
            if lists_id(&a.artifact_ids, artifact_id) {
                let t = trim_whitespace(&chars_of(a.title.as_str()));
                if t.len() > 0 {
                    return Some(string_from(t.as_slice()));
                }
            }
            return None;
        }
        i += 1;
    }
    proof { lemma_first_index_none(lib@, p); }
    None
}

/// The human-friendly name of an asset, from the user's library when it
/// could be fetched.
pub fn get_friendly_asset_name(library: &Option<Vec<LibraryAsset>>, namespace: &str, asset_id: &str, artifact_id: &str) -> (r: String)
    ensures
        r@ == display_name(library_view(*library), namespace@, asset_id@, artifact_id@),
{
    match asset_title(library, namespace, asset_id, artifact_id) {
        Some(t) => t,
        None => {
            let mut d: Vec<char> = Vec::new();
            crate::paths::push_text(&mut d, namespace);
            d.push('/');
            crate::paths::push_text(&mut d, asset_id);
            d.push('/');
            crate::paths::push_text(&mut d, artifact_id);
            assert(d@ =~= namespace@ + seq!['/'] + asset_id@ + seq!['/'] + artifact_id@);
            string_from(d.as_slice())
        },
    }
}

/// The folder under the downloads directory that an asset is downloaded
/// into, from the user's library when it could be fetched.
pub fn asset_download_folder(library: &Option<Vec<LibraryAsset>>, namespace: &str, asset_id: &str, artifact_id: &str) -> (r: String)
    ensures
        r@ == download_folder(library_view(*library), namespace@, asset_id@, artifact_id@),
{
    let friendly = match asset_title(library, namespace, asset_id, artifact_id) {
        Some(t) => get_friendly_folder_name(t),
        None => None,
    };
    asset_folder_name(&friendly, namespace, asset_id, artifact_id)
}

/// The library entry titled `title`, ignoring ASCII case.
pub open spec fn titled(title: Seq<char>) -> spec_fn(LibraryAsset) -> bool {
    |a: LibraryAsset| eq_ignore_case(a.title@, title)
}

/// What to download for an asset asked for by title.
pub struct TitleDownload {
    pub namespace: String,
    pub asset_id: String,
    pub artifact_id: String,
    /// The folder under the downloads directory.
    pub folder: String,
}

/// The message when no library entry has the title.
pub open spec fn not_in_library_message(title: Seq<char>) -> Seq<char> {
    "Asset '"@ + title + "' not found in your Fab library"@
}

/// Chooses what to download for a title: the first library entry with
/// that title (ignoring ASCII case), its last project version, and the
/// folder named after the sanitized title (or the identifiers when
/// nothing is left of the title).
pub fn pick_asset_by_title(library: &Vec<LibraryAsset>, title: &str) -> (r: Result<TitleDownload, String>)
    ensures
        match first_index(library@, titled(title@)) {
            None => r matches Err(m) && m@ == not_in_library_message(title@),
            Some(i) => {
                let a = library@[i];
                if a.artifact_ids.len() == 0 {
                    r matches Err(m) && m@ == "Selected asset has no project versions to download"@
                } else {
                    r matches Ok(d) && d.namespace@ == a.namespace@ && d.asset_id@ == a.asset_id@
                        && d.artifact_id@ == a.artifact_ids@.last()@
                        && d.folder@ == (if sanitized_title(a.title@).len() > 0 {
                            sanitized_title(a.title@)
                        } else {
                            fallback_folder(a.namespace@, a.asset_id@, a.artifact_ids@.last()@)
                        })
                }
            },
        },
{
    let t = chars_of(title);
    let ghost p = titled(title@);
    let mut i: usize = 0;
    while i < library.len()
        invariant
            i <= library.len(),
            t@ == title@,
            p == titled(title@),
            forall|k: int| 0 <= k < i ==> !p(#[trigger] library@[k]),
        decreases library.len() - i,
    {
        let a = &library[i];
        if eq_ignore_ascii_case(&chars_of(a.title.as_str()), &t) {
            proof { lemma_first_index_at(library@, p, i as int); }
            if a.artifact_ids.len() == 0 {
                return Err("Selected asset has no project versions to download".to_string());
            }
            let artifact = a.artifact_ids[a.artifact_ids.len() - 1].clone();
            let friendly = get_friendly_folder_name(a.title.clone());
            let folder = asset_folder_name(&friendly, a.namespace.as_str(), a.asset_id.as_str(), artifact.as_str());
            return Ok(TitleDownload {
                namespace: a.namespace.clone(),
                asset_id: a.asset_id.clone(),
                artifact_id: artifact,
                folder,
            });
        }
        i += 1;
    }
    proof { lemma_first_index_none(library@, p); }
    let mut m: Vec<char> = Vec::new();
    crate::paths::push_text(&mut m, "Asset '");
    crate::paths::push_text(&mut m, title);
    crate::paths::push_text(&mut m, "' not found in your Fab library");
    Err(string_from(m.as_slice()))
}

// ---------------------------------------------------------------------------
// Authorization codes

/// A pasted authorization code: trimmed, with every double quote removed.
pub open spec fn cleaned_code(s: Seq<char>) -> Seq<char> {
    trim_ws(s).filter(|c: char| c != '"')
}

/// Cleans the authorization code read from the terminal.
pub fn clean_auth_code(s: &str) -> (r: String)
    ensures
        r@ == cleaned_code(s@),
{
    let t = trim_whitespace(&chars_of(s));
    let mut out: Vec<char> = Vec::new();
    for i in 0..t.len()
        invariant
            out@ == t@.take(i as int).filter(|c: char| c != '"'),
    {
        assert(t@.take(i + 1).drop_last() =~= t@.take(i as int));
        proof {
            t@.take(i as int).lemma_filter_push(t@[i as int], |c: char| c != '"');
            assert(t@.take(i + 1) =~= t@.take(i as int).push(t@[i as int]));
        }
        if t[i] != '"' {
            out.push(t[i]);
        }
    }
    assert(t@.take(t.len() as int) =~= t@);
    string_from(out.as_slice())
}

/// The code posted to complete a login: trimmed, then without surrounding
/// double quotes; `None` when nothing is left.
pub open spec fn posted_code(s: Seq<char>) -> Seq<char> {
    crate::text::trim_char(trim_ws(s), '"')
}

/// Cleans a posted authorization code.
pub fn clean_posted_code(s: &str) -> (r: Option<String>)
    ensures
        match r {
            Some(c) => c@ == posted_code(s@) && c@.len() > 0,
            None => posted_code(s@).len() == 0,
        },
{
    let t = trim_whitespace(&chars_of(s));
    let u = crate::text::trim_matching(&t, '"');
    if u.len() == 0 {
        None
    } else {
        Some(string_from(u.as_slice()))
    }
}

} // verus!

verus! {

// ---------------------------------------------------------------------------
// Importing into a project

/// The asset named in an import request, trimmed; refused when blank.
pub fn import_asset_name(asset_name: &str) -> (r: Result<String, ApiError>)
    ensures
        trim_ws(asset_name@).len() > 0 ==> (r matches Ok(n) && n@ == trim_ws(asset_name@)),
        trim_ws(asset_name@).len() == 0 ==> (r matches Err(e) && e.status == Status::BadRequest
            && e.message@ == "asset_name is required"@),
{
    let t = trim_whitespace(&chars_of(asset_name));
    if t.len() == 0 {
        return Err(refuse(Status::BadRequest, "asset_name is required"));
    }
    Ok(string_from(t.as_slice()))
}

/// Refusal when the asset's folder does not exist.
pub fn asset_folder_missing(downloads_base: &str) -> (r: ApiError)
    ensures
        r.status == Status::NotFound,
        r.message@ == "Asset folder not found under downloads (looked in "@ + downloads_base@ + seq![')'],
{
    let mut m: Vec<char> = Vec::new();
    crate::paths::push_text(&mut m, "Asset folder not found under downloads (looked in ");
    crate::paths::push_text(&mut m, downloads_base);
    m.push(')');
    ApiError { status: Status::NotFound, message: string_from(m.as_slice()) }
}

/// Refusal when the asset's download did not finish.
pub fn asset_incomplete() -> (r: ApiError)
    ensures
        r.status == Status::NotFound,
        r.message@ == "Asset is not fully downloaded. Please download it first via /download-asset."@,
{
    refuse(Status::NotFound, "Asset is not fully downloaded. Please download it first via /download-asset.")
}

/// Refusal when no `Content` folder was found in the asset.
pub fn content_missing(data_dir: &str) -> (r: ApiError)
    ensures
        r.status == Status::NotFound,
        r.message@ == "Source Content folder not found under "@ + data_dir@,
{
    let mut m: Vec<char> = Vec::new();
    crate::paths::push_text(&mut m, "Source Content folder not found under ");
    crate::paths::push_text(&mut m, data_dir);
    ApiError { status: Status::NotFound, message: string_from(m.as_slice()) }
}

/// Refusal when the project cannot be found.
pub fn project_unresolved() -> (r: ApiError)
    ensures
        r.status == Status::BadRequest,
        r.message@ == "Project could not be resolved to a valid Unreal project"@,
{
    refuse(Status::BadRequest, "Project could not be resolved to a valid Unreal project")
}

/// The places an asset's `Content` folder is looked for first: its `data`
/// folder, then `data/Content` and `data/content`.
pub fn content_candidates(asset_dir: &str) -> (r: (String, String, String))
    ensures
        r.0@ == joined(asset_dir@, "data"@),
        r.1@ == joined(joined(asset_dir@, "data"@), "Content"@),
        r.2@ == joined(joined(asset_dir@, "data"@), "content"@),
{
    let data = join_path(asset_dir, "data");
    let upper = join_path(data.as_str(), "Content");
    let lower = join_path(data.as_str(), "content");
    (data, upper, lower)
}

/// `/` or `\`.
pub open spec fn is_slash(c: char) -> bool {
    c == '/' || c == '\\'
}

/// A target subfolder without slashes or backslashes at either end.
pub open spec fn trimmed_subdir(s: Seq<char>) -> Seq<char> {
    trim_by(s, |c: char| is_slash(c))
}

/// Removes slashes and backslashes at both ends.
fn trim_slashes(v: &Vec<char>) -> (r: Vec<char>)
    ensures
        r@ == trimmed_subdir(v@),
{
    let mut lo: usize = 0;
    while lo < v.len() && (v[lo] == '/' || v[lo] == '\\')
        invariant
            lo <= v.len(),
            forall|k: int| 0 <= k < lo ==> is_slash(#[trigger] v@[k]),
        decreases v.len() - lo,
    {
        lo += 1;
    }
    proof { crate::text::lemma_trim_start_skip(v@, |c: char| is_slash(c), lo as int); }
    let ghost t = v@.skip(lo as int);
    let mut hi: usize = v.len();
    while hi > lo && (v[hi - 1] == '/' || v[hi - 1] == '\\')
        invariant
            lo <= hi <= v.len(),
            t == v@.skip(lo as int),
            forall|k: int| hi - lo <= k < t.len() ==> is_slash(#[trigger] t[k]),
        decreases hi,
    {
        hi -= 1;
    }
    proof {
        crate::text::lemma_trim_end_take(t, |c: char| is_slash(c), hi - lo);
        assert(t.take(hi - lo) =~= v@.subrange(lo as int, hi as int));
    }
    crate::text::sub_chars(v, lo, hi)
}

/// Where an import copies to: the project's `Content`, the target
/// subfolder when one is given and not only slashes, and a folder named
/// after the asset (its sanitized name, or the name as given when nothing
/// is left of it).
pub open spec fn import_target(project_dir: Seq<char>, target_subdir: Option<String>, asset_name: Seq<char>) -> Seq<char> {
    let content = joined(project_dir, "Content"@);
    let base = match target_subdir {
        Some(s) => if trimmed_subdir(s@).len() > 0 { joined(content, trimmed_subdir(s@)) } else { content },
        None => content,
    };
    let folder = if sanitized_title(asset_name).len() > 0 { sanitized_title(asset_name) } else { asset_name };
    joined(base, folder)
}

/// Computes [`import_target`].
pub fn import_destination(project_dir: &str, target_subdir: &Option<String>, asset_name: &str) -> (r: String)
    ensures
        r@ == import_target(project_dir@, *target_subdir, asset_name@),
{
    let content = join_path(project_dir, "Content");
    let base = match target_subdir {
        Some(s) => {
            let t = trim_slashes(&chars_of(s.as_str()));
            if t.len() > 0 {
                let ts = string_from(t.as_slice());
                join_path(content.as_str(), ts.as_str())
            } else {
                content
            }
        },
        None => content,
    };
    let folder = match get_friendly_folder_name(asset_name.to_string()) {
        Some(f) => f,
        None => asset_name.to_string(),
    };
    join_path(base.as_str(), folder.as_str())
}

/// A file is copied unless its target exists and overwriting is off.
pub fn should_copy_file(target_exists: bool, overwrite: bool) -> (r: bool)
    ensures
        r == (!target_exists || overwrite),
{
    !target_exists || overwrite
}

/// The reply to an import: the counts and folders on success, or the
/// error with zero counts.
pub fn import_reply(project_dir: &str, source: &str, destination: &str, elapsed_ms: u128, outcome: &Result<(usize, usize), String>) -> (r: ImportAssetResponse)
    ensures
        r.source@ == source@,
        r.destination@ == destination@,
        r.elapsed_ms == elapsed_ms,
        match outcome {
            Ok((c, s)) => r.ok && r.files_copied == c && r.files_skipped == s
                && r.message@ == "Imported into project at "@ + project_dir@,
            Err(e) => !r.ok && r.files_copied == 0 && r.files_skipped == 0 && r.message@ == "Failed to import: "@ + e@,
        },
{
    let mut m: Vec<char> = Vec::new();
    match outcome {
        Ok((c, s)) => {
            crate::paths::push_text(&mut m, "Imported into project at ");
            crate::paths::push_text(&mut m, project_dir);
            ImportAssetResponse {
                ok: true,
                message: string_from(m.as_slice()),
                files_copied: *c,
                files_skipped: *s,
                source: source.to_string(),
                destination: destination.to_string(),
                elapsed_ms,
            }
        },
        Err(e) => {
            crate::paths::push_text(&mut m, "Failed to import: ");
            crate::paths::push_text(&mut m, e.as_str());
            ImportAssetResponse {
                ok: false,
                message: string_from(m.as_slice()),
                files_copied: 0,
                files_skipped: 0,
                source: source.to_string(),
                destination: destination.to_string(),
                elapsed_ms,
            }
        },
    }
}

} // verus!
