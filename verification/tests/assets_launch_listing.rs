use egs_client::assets::{
    asset_download_dir, asset_download_folder, asset_folder_missing, asset_title, asset_folder_name, clean_auth_code, clean_posted_code, content_candidates,
    content_missing, download_query, find_asset_directory, get_friendly_asset_name, import_asset_name,
    import_destination, import_reply, pick_asset_by_title, should_copy_file, LibraryAsset,
};
use egs_client::create::EntryKind;
use egs_client::discovery::{ChildEntry, ContentSearch, UprojectSearch};
use egs_client::json::Json;
use egs_client::launch::{
    choose_editor, engine_refusal_reply, engine_version_param, open_engine_reply, open_project_reply, project_not_found,
    project_param, project_refusal_reply, requested_open_version, version_param, ProjectFile,
};
use egs_client::listing::{project_info, sort_engines, sort_projects};
use egs_client::models::{PathsConfig, PathsUpdate, Status, UnrealEngineInfo, UnrealProjectInfo};
use egs_client::settings::{
    bind_address, merge_paths_config, parse_mode, requested_mode, ui_binary_candidates, RunMode,
};
use egs_client::versions::InstalledBuild;

fn entry(path: &str, name: &str, kind: EntryKind) -> ChildEntry {
    ChildEntry { path: path.to_string(), name: name.to_string(), kind }
}

fn lib_asset(ns: &str, id: &str, title: &str, arts: &[&str]) -> LibraryAsset {
    LibraryAsset {
        namespace: ns.to_string(),
        asset_id: id.to_string(),
        title: title.to_string(),
        artifact_ids: arts.iter().map(|a| a.to_string()).collect(),
    }
}

#[test]
fn asset_folders() {
    assert_eq!(asset_folder_name(&Some("Stack O Bot".to_string()), "ns", "id", "art"), "Stack O Bot");
    assert_eq!(asset_folder_name(&None, "ns", "id", "art"), "ns-id-art");
    assert_eq!(asset_download_dir("/dl", "Stack O Bot", &Some(" 5.3 ".to_string())), "/dl/Stack O Bot/5.3");
    assert_eq!(asset_download_dir("/dl", "Stack O Bot", &None), "/dl/Stack O Bot");
    let dirs = vec!["Other".to_string(), "stack o bot".to_string()];
    assert_eq!(find_asset_directory("/dl", "Stack O Bot", false, &dirs), "/dl/stack o bot");
    assert_eq!(find_asset_directory("/dl", "Stack O Bot", true, &dirs), "/dl/Stack O Bot");
    assert_eq!(find_asset_directory("/dl", "Missing", false, &dirs), "/dl/Missing");
}

#[test]
fn forwarded_download_query() {
    let q = download_query(&Some("j1".to_string()), &Some(" 5.3 ".to_string()));
    assert_eq!(q, vec![("jobId".to_string(), "j1".to_string()), ("ue".to_string(), "5.3".to_string())]);
    assert!(download_query(&None, &Some(" ".to_string())).is_empty());
}

fn library() -> Vec<LibraryAsset> {
    vec![lib_asset("ns", "id", "  Stack O Bot ", &["a1", "a2"]), lib_asset("ns", "id", "Shadowed", &["a3"])]
}

#[test]
fn friendly_names_from_library() {
    assert_eq!(get_friendly_asset_name(&Some(library()), "ns", "id", "a2"), "Stack O Bot");
    assert_eq!(get_friendly_asset_name(&Some(library()), "ns", "id", "a3"), "ns/id/a3");
    assert_eq!(get_friendly_asset_name(&Some(library()), "nx", "id", "a1"), "nx/id/a1");
    assert_eq!(get_friendly_asset_name(&None, "ns", "id", "a1"), "ns/id/a1");
}

#[test]
fn assets_by_title() {
    let lib = vec![lib_asset("ns", "id", "Stack: O Bot", &["a1", "a2"]), lib_asset("n2", "i2", "Empty", &[])];
    let d = pick_asset_by_title(&lib, "stack: o bot").ok().unwrap();
    assert_eq!((d.namespace, d.asset_id, d.artifact_id, d.folder), ("ns".to_string(), "id".to_string(), "a2".to_string(), "Stack_ O Bot".to_string()));
    assert_eq!(pick_asset_by_title(&lib, "empty").err(), Some("Selected asset has no project versions to download".to_string()));
    assert_eq!(pick_asset_by_title(&lib, "Nope").err(), Some("Asset 'Nope' not found in your Fab library".to_string()));
    let dots = vec![lib_asset("ns", "id", "...", &["a1"])];
    assert_eq!(pick_asset_by_title(&dots, "...").ok().unwrap().folder, "ns-id-a1");
}

#[test]
fn authorization_codes() {
    assert_eq!(clean_auth_code("  \"ab\"c\"\n"), "abc");
    assert_eq!(clean_posted_code(" \"abc\" "), Some("abc".to_string()));
    assert_eq!(clean_posted_code(" \"\" "), None);
}

#[test]
fn import_paths_and_replies() {
    assert_eq!(import_asset_name("  Pack  ").ok(), Some("Pack".to_string()));
    let e = import_asset_name("  ").err().unwrap();
    assert_eq!((e.status, e.message), (Status::BadRequest, "asset_name is required".to_string()));
    let m = asset_folder_missing("downloads");
    assert_eq!((m.status, m.message), (Status::NotFound, "Asset folder not found under downloads (looked in downloads)".to_string()));
    assert_eq!(content_missing("/a/data").message, "Source Content folder not found under /a/data");
    let (d, u, l) = content_candidates("/a");
    assert_eq!((d.as_str(), u.as_str(), l.as_str()), ("/a/data", "/a/data/Content", "/a/data/content"));
    assert_eq!(import_destination("/p", &Some("//Imported/Ind\\".to_string()), "Pack: 6"), "/p/Content/Imported/Ind/Pack_ 6");
    assert_eq!(import_destination("/p", &Some("/".to_string()), "Pack"), "/p/Content/Pack");
    assert_eq!(import_destination("/p", &None, "..."), "/p/Content/...");
    assert!(should_copy_file(false, false));
    assert!(should_copy_file(true, true));
    assert!(!should_copy_file(true, false));
    let ok = import_reply("/p", "/s", "/d", 5, &Ok((3, 2)));
    assert!(ok.ok && ok.files_copied == 3 && ok.files_skipped == 2);
    assert_eq!(ok.message, "Imported into project at /p");
    let bad = import_reply("/p", "/s", "/d", 5, &Err("disk full".to_string()));
    assert!(!bad.ok && bad.files_copied == 0);
    assert_eq!(bad.message, "Failed to import: disk full");
}

#[test]
fn project_search_goes_breadth_first() {
    let mut s = UprojectSearch::new("/t", 2);
    let (d, depth) = s.next_dir().unwrap();
    assert_eq!((d.as_str(), depth), ("/t", 0));
    let found = s.visit_dir(depth, &vec![
        entry("/t/Content", "Content", EntryKind::Dir),
        entry("/t/.git", ".git", EntryKind::Dir),
        entry("/t/Sub", "Sub", EntryKind::Dir),
        entry("/t/readme.txt", "readme.txt", EntryKind::File),
    ]);
    assert_eq!(found, None);
    let (d, depth) = s.next_dir().unwrap();
    assert_eq!((d.as_str(), depth), ("/t/Sub", 1));
    assert!(s.next_dir().is_none());
    let found = s.visit_dir(depth, &vec![entry("/t/Sub/G.uproject", "G.uproject", EntryKind::File)]);
    assert_eq!(found, Some("/t/Sub/G.uproject".to_string()));
    let mut none = UprojectSearch::new("/t", 0);
    assert!(none.next_dir().is_none());
}

#[test]
fn project_search_stops_at_depth_limit() {
    let mut s = UprojectSearch::new("/t", 1);
    let (_, depth) = s.next_dir().unwrap();
    s.visit_dir(depth, &vec![entry("/t/A", "A", EntryKind::Dir)]);
    let (_, depth) = s.next_dir().unwrap();
    assert_eq!(depth, 1);
    s.visit_dir(depth, &vec![entry("/t/A/B", "B", EntryKind::Dir)]);
    assert!(s.next_dir().is_none());
}

#[test]
fn content_search_prefers_marketplace_plugins() {
    let mut s = ContentSearch::new("/a/data");
    let (d, depth) = s.next_dir().unwrap();
    assert_eq!(d, "/a/data");
    s.visit_dir(depth, &vec![entry("/a/data/Engine", "Engine", EntryKind::Dir), entry("/a/data/content", "content", EntryKind::Dir)]);
    assert_eq!(s.result(), Some("/a/data/content".to_string()));
    let (d, depth) = s.next_dir().unwrap();
    assert_eq!(d, "/a/data/Engine");
    s.visit_dir(depth, &vec![entry("/a/data/Engine/Plugins/Marketplace/X/Content", "Content", EntryKind::Dir)]);
    assert_eq!(s.result(), Some("/a/data/Engine/Plugins/Marketplace/X/Content".to_string()));
    assert!(s.next_dir().is_none());
}

fn engine(name: &str, version: &str, editor: Option<&str>) -> UnrealEngineInfo {
    UnrealEngineInfo {
        name: name.to_string(),
        version: version.to_string(),
        path: format!("/e/{}", name),
        editor_path: editor.map(|s| s.to_string()),
    }
}

#[test]
fn launching_editors() {
    assert_eq!(project_param(&Some("G".to_string())).ok(), Some("G".to_string()));
    assert_eq!(
        project_param(&None).err().map(|e| e.message),
        Some("Missing required query parameter: project (name, path to .uproject, or project dir)".to_string())
    );
    assert_eq!(version_param(&Some(" 5.3 ".to_string())), Some("5.3".to_string()));
    assert_eq!(version_param(&Some("  ".to_string())), None);
    let installed: Vec<InstalledBuild> = Vec::new();
    assert_eq!(requested_open_version(&Some("5.1".to_string()), &ProjectFile::Unreadable, &installed).ok(), Some("5.1".to_string()));
    let e = requested_open_version(&None, &ProjectFile::Unreadable, &installed).err().unwrap();
    assert_eq!((e.status, e.message), (Status::BadRequest, "Failed to read project .uproject file to determine engine version".to_string()));
    let doc = Json::Object(vec![("EngineAssociation".to_string(), Json::Str("UE_5.3".to_string()))]);
    assert_eq!(requested_open_version(&None, &ProjectFile::Read(Some(doc)), &installed).ok(), Some("5.3".to_string()));
    let e = requested_open_version(&None, &ProjectFile::Read(None), &installed).err().unwrap();
    assert_eq!(e.message, "Project .uproject missing EngineAssociation and no version provided");
    let guid = Json::Object(vec![("EngineAssociation".to_string(), Json::Str("{bad}".to_string()))]);
    let e = requested_open_version(&None, &ProjectFile::Read(Some(guid)), &installed).err().unwrap();
    assert_eq!((e.status, e.message), (Status::NotFound, "Could not resolve EngineAssociation from project to a version".to_string()));

    let engines = vec![engine("UE_5.3", "5.3.2", Some("/ed53")), engine("UE_5.1", "5.1", None)];
    assert_eq!(choose_editor(&engines, "5.3", true).ok(), Some((0, "/ed53".to_string())));
    let e = choose_editor(&engines, "5.1", true).err().unwrap();
    assert_eq!(e.message, "Engine found but Editor binary not located");
    let e = choose_editor(&engines, "4.2", true).err().unwrap();
    assert_eq!(e.message, "Requested version '4.2' not found among discovered engines");
    let e = choose_editor(&engines, "4.2", false).err().unwrap();
    assert_eq!(e.message, "Requested version not found among discovered engines");
    let e = choose_editor(&[], "5.3", false).err().unwrap();
    assert_eq!((e.status, e.message), (Status::NotFound, "No Unreal Engine installations found in engine_base".to_string()));

    let r = open_project_reply(&engines[0], "/ed53", "/p/G.uproject", &None);
    assert!(r.launched);
    assert_eq!(r.message, "Launched Unreal Editor");
    let r = open_engine_reply(&engines[0], "/ed53", &Some("denied".to_string()));
    assert!(!r.launched);
    assert_eq!(r.message, "Failed to launch editor: denied");
}

fn project(name: &str) -> UnrealProjectInfo {
    UnrealProjectInfo { name: name.to_string(), path: String::new(), uproject_file: String::new(), engine_version: String::new() }
}

#[test]
fn listings_are_sorted_stably() {
    let sorted = sort_projects(vec![project("beta"), project("Alpha"), project("alpha"), project("Gamma")]);
    let names: Vec<String> = sorted.iter().map(|p| p.name.clone()).collect();
    assert_eq!(names, vec!["Alpha", "alpha", "beta", "Gamma"]);
    let es = sort_engines(vec![engine("B", "5.3", None), engine("A", "5.3", None), engine("C", "4.27", None), engine("D", "unknown", None)]);
    let names: Vec<String> = es.iter().map(|e| e.name.clone()).collect();
    assert_eq!(names, vec!["C", "A", "B", "D"]);
}

#[test]
fn project_listing_entries() {
    let doc = Some(Json::Object(vec![("EngineAssociation".to_string(), Json::Str("5.2".to_string()))]));
    let p = project_info("G", "/p/G", "/p/G/G.uproject", &doc, &[]);
    assert_eq!(p.engine_version, "5.2");
    let p = project_info("G", "/p/G", "/p/G/G.uproject", &None, &[]);
    assert_eq!(p.engine_version, "");
}

#[test]
fn settings() {
    let cfg = PathsConfig { projects_dir: Some("/p".to_string()), engines_dir: None, cache_dir: None, downloads_dir: Some("/d".to_string()) };
    let upd = PathsUpdate { projects_dir: None, engines_dir: Some("  /e  ".to_string()), cache_dir: None, downloads_dir: Some("".to_string()) };
    let m = merge_paths_config(&cfg, &upd);
    assert_eq!(m.projects_dir, Some("/p".to_string()));
    assert_eq!(m.engines_dir, Some("/e".to_string()));
    assert_eq!(m.cache_dir, None);
    assert_eq!(m.downloads_dir, Some("".to_string()));
    let args = |v: &[&str]| v.iter().map(|s| s.to_string()).collect::<Vec<String>>();
    assert_eq!(requested_mode(&args(&["bin", "--mode=both"]), &None), Some(RunMode::Both));
    assert_eq!(requested_mode(&args(&["bin", "--mode=weird"]), &None), Some(RunMode::Backend));
    assert_eq!(requested_mode(&args(&["bin", "FRONTEND"]), &None), Some(RunMode::Frontend));
    assert_eq!(requested_mode(&args(&["bin", "other"]), &Some("both".to_string())), Some(RunMode::Both));
    assert_eq!(requested_mode(&args(&["bin"]), &None), None);
    assert_eq!(parse_mode(None, true), RunMode::Both);
    assert_eq!(parse_mode(None, false), RunMode::Backend);
    assert_eq!(parse_mode(Some(RunMode::Frontend), true), RunMode::Frontend);
    assert_eq!(bind_address(&Some("1.2.3.4:5".to_string()), &Some("9".to_string())), "1.2.3.4:5");
    assert_eq!(bind_address(&None, &Some("9000".to_string())), "0.0.0.0:9000");
    assert_eq!(bind_address(&None, &None), "127.0.0.1:8080");
    let c = ui_binary_candidates(&Some("/ui".to_string()), true);
    assert_eq!(c.len(), 6);
    assert_eq!(c[0], "/ui");
    assert_eq!(c[1], "Flutter_EGL/build/linux/x64/debug/bundle/test_app_ui");
    assert_eq!(ui_binary_candidates(&None, false)[0], "Flutter_EGL/build/linux/x64/release/bundle/test_app_ui");
}

fn run_project_search(tree: &[(&str, Vec<ChildEntry>)], start: &str, limit: usize) -> Option<String> {
    let mut s = UprojectSearch::new(start, limit);
    while let Some((dir, depth)) = s.next_dir() {
        let listing: Vec<ChildEntry> = tree
            .iter()
            .find(|(p, _)| *p == dir.as_str())
            .map(|(_, es)| es.iter().map(|e| entry(&e.path, &e.name, e.kind)).collect())
            .unwrap_or_default();
        if let Some(found) = s.visit_dir(depth, &listing) {
            return Some(found);
        }
    }
    None
}

#[test]
fn project_search_finds_shallowest() {
    let tree = vec![
        ("/t", vec![entry("/t/A", "A", EntryKind::Dir), entry("/t/B", "B", EntryKind::Dir)]),
        ("/t/A", vec![entry("/t/A/Deep", "Deep", EntryKind::Dir)]),
        ("/t/A/Deep", vec![entry("/t/A/Deep/D.uproject", "D.uproject", EntryKind::File)]),
        ("/t/B", vec![entry("/t/B/P.uproject", "P.uproject", EntryKind::File)]),
    ];
    assert_eq!(run_project_search(&tree, "/t", 3), Some("/t/B/P.uproject".to_string()));
    assert_eq!(run_project_search(&tree, "/t", 1), Some("/t/B/P.uproject".to_string()));
    let deep_only = vec![
        ("/t", vec![entry("/t/A", "A", EntryKind::Dir), entry("/t/CONTENT", "CONTENT", EntryKind::Dir)]),
        ("/t/CONTENT", vec![entry("/t/CONTENT/C.uproject", "C.uproject", EntryKind::File)]),
        ("/t/A", vec![entry("/t/A/Deep", "Deep", EntryKind::Dir)]),
        ("/t/A/Deep", vec![entry("/t/A/Deep/D.uproject", "D.uproject", EntryKind::File)]),
    ];
    assert_eq!(run_project_search(&deep_only, "/t", 1), None);
    assert_eq!(run_project_search(&deep_only, "/t", 2), Some("/t/A/Deep/D.uproject".to_string()));
}

#[test]
fn download_folders_from_library() {
    assert_eq!(asset_download_folder(&Some(library()), "ns", "id", "a2"), "Stack O Bot");
    assert_eq!(asset_download_folder(&Some(library()), "ns", "id", "a3"), "ns-id-a3");
    assert_eq!(asset_download_folder(&None, "ns", "a", "b"), "ns-a-b");
    let odd = || vec![lib_asset("ns", "id", "A/B: C?", &["a1"]), lib_asset("ns", "dots", " ... ", &["a1"])];
    assert_eq!(asset_download_folder(&Some(odd()), "ns", "id", "a1"), "A_B_ C_");
    assert_eq!(asset_download_folder(&Some(odd()), "ns", "dots", "a1"), "ns-dots-a1");
    assert_eq!(asset_title(&Some(library()), "ns", "id", "a1"), Some("Stack O Bot".to_string()));
    assert_eq!(asset_title(&Some(library()), "ns", "id", "a3"), None);
    assert_eq!(asset_title(&None, "ns", "id", "a1"), None);
}

#[test]
fn open_refusals_are_replies() {
    let e = project_param(&None).unwrap_err();
    let r = project_refusal_reply(&e, "");
    assert!(!r.launched && r.engine_name.is_none() && r.engine_version.is_none() && r.editor_path.is_none());
    assert_eq!(r.message, "Missing required query parameter: project (name, path to .uproject, or project dir)");
    let nf = project_not_found();
    assert_eq!(nf.status, Status::BadRequest);
    assert_eq!(project_refusal_reply(&nf, "MyGame").project, "MyGame");
    let v = engine_version_param(&None).unwrap_err();
    assert_eq!(v.status, Status::BadRequest);
    let r = engine_refusal_reply(&v);
    assert!(!r.launched && r.editor_path.is_none());
    assert_eq!(r.message, "Missing required query parameter: version (e.g., 5.3.2 or 5.3)");
    assert!(matches!(engine_version_param(&Some("5.3".to_string())), Ok(v) if v == "5.3"));
}
