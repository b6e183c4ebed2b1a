use egs_client::launch::{requested_open_version, ProjectFile};
use egs_client::create::{
    build_editor_command, copy_step, counts_toward_total, determine_search_dir, download_marker, editor_binary_candidates,
    engine_association_for, engine_set_reply, exclude_names, execute_project_open, find_editor_binary, handle_dry_run,
    launch_reply, needs_download, new_uproject_path, parse_project_version, resolve_engine_path,
    resolve_from_template_project, set_project_engine, should_exclude, update_project_metadata, validate_request,
    version_subdir, with_engine_association, CopyStep, CopyTally, DirState, EntryKind, OpenAfterCreate,
};
use egs_client::json::Json;
use egs_client::models::{CreateUnrealProjectRequest, Status, UnrealEngineInfo};

fn request() -> CreateUnrealProjectRequest {
    CreateUnrealProjectRequest {
        engine_path: None,
        template_project: Some("/t/Sample.uproject".to_string()),
        asset_name: None,
        namespace: None,
        asset_id: None,
        artifact_id: None,
        ue: None,
        output_dir: "/out".to_string(),
        project_name: "MyGame".to_string(),
        project_type: None,
        open_after_create: None,
        dry_run: Some(true),
        job_id: None,
    }
}

fn status_and_message(r: Result<(), egs_client::models::ApiError>) -> Option<(Status, String)> {
    r.err().map(|e| (e.status, e.message))
}

#[test]
fn create_requests_are_checked() {
    assert!(validate_request(&request()).is_ok());
    let mut r = request();
    r.template_project = Some("  ".to_string());
    assert_eq!(
        status_and_message(validate_request(&r)),
        Some((Status::BadRequest, "Provide either template_project (path/dir) or asset_name (under downloads/)".to_string()))
    );
    r.asset_name = Some("Stack O Bot".to_string());
    assert!(validate_request(&r).is_ok());
    let mut r = request();
    r.output_dir = " ".to_string();
    assert_eq!(status_and_message(validate_request(&r)), Some((Status::BadRequest, "output_dir is required".to_string())));
    let mut r = request();
    r.project_name = "".to_string();
    assert_eq!(status_and_message(validate_request(&r)), Some((Status::BadRequest, "project_name is required".to_string())));
    let mut r = request();
    r.project_type = Some("CPP".to_string());
    assert!(validate_request(&r).is_ok());
    r.project_type = Some("java".to_string());
    assert_eq!(
        status_and_message(validate_request(&r)),
        Some((Status::BadRequest, "project_type must be 'bp' or 'cpp'".to_string()))
    );
}

#[test]
fn editor_commands() {
    assert_eq!(build_editor_command("/e/UnrealEditor", "/p/G.uproject", &None), "/e/UnrealEditor /p/G.uproject -NoCompile");
    assert_eq!(build_editor_command("/e/UnrealEditor", "/p/G.uproject", &Some("cpp".to_string())), "/e/UnrealEditor /p/G.uproject");
    assert_eq!(build_editor_command("E", "P", &Some("BP".to_string())), "E P");
}

#[test]
fn dry_run_reply_describes_the_plan() {
    let mut r = request();
    r.open_after_create = Some(true);
    let resp = handle_dry_run(&r, "/t", "/out/MyGame", "/e/UnrealEditor", "/t/Sample.uproject");
    assert!(resp.ok);
    assert_eq!(resp.message, "Dry run: would copy project files, then open project (open_after_create=true)");
    assert_eq!(
        resp.command,
        "Copy '/t' -> '/out/MyGame' (excluding [\"Binaries\", \"DerivedDataCache\", \"Intermediate\", \"Saved\", \".git\", \".svn\", \".vs\"]) | Open with: /e/UnrealEditor /t/Sample.uproject -NoCompile"
    );
    assert_eq!(resp.project_path, Some("/out/MyGame".to_string()));
    let plain = handle_dry_run(&request(), "/t", "/o", "E", "U");
    assert_eq!(plain.message, "Dry run: would copy project files, then open project");
}

#[test]
fn excluded_folders() {
    let ex = exclude_names();
    assert_eq!(ex.len(), 7);
    assert!(should_exclude("Binaries/Linux/x.so", &ex));
    assert!(should_exclude("saved", &ex));
    assert!(should_exclude(".GIT/config", &ex));
    assert!(!should_exclude("Content/Binaries", &ex));
    assert!(!should_exclude("./Binaries", &ex));
    assert!(!should_exclude("", &ex));
    assert!(!should_exclude("/Binaries", &ex));
}

fn step_name(s: &CopyStep) -> String {
    match s {
        CopyStep::Ignore => "ignore".to_string(),
        CopyStep::Skip => "skip".to_string(),
        CopyStep::MakeDir(p) => format!("dir {}", p),
        CopyStep::CopyFile(p) => format!("file {}", p),
        CopyStep::Leave => "leave".to_string(),
    }
}

#[test]
fn copy_steps() {
    let ex = exclude_names();
    assert_eq!(step_name(&copy_step("/new", "MyGame", "", EntryKind::Dir, &ex)), "ignore");
    assert_eq!(step_name(&copy_step("/new", "MyGame", "Saved/a", EntryKind::File, &ex)), "skip");
    assert_eq!(step_name(&copy_step("/new", "MyGame", "Content", EntryKind::Dir, &ex)), "dir /new/Content");
    assert_eq!(step_name(&copy_step("/new", "MyGame", "Content/a.uasset", EntryKind::File, &ex)), "file /new/Content/a.uasset");
    assert_eq!(step_name(&copy_step("/new", "MyGame", "Sample.uproject", EntryKind::File, &ex)), "file /new/MyGame.uproject");
    assert_eq!(step_name(&copy_step("/new", "MyGame", "Sub/.uproject", EntryKind::File, &ex)), "file /new/Sub/.uproject");
    assert_eq!(step_name(&copy_step("/new", "MyGame", "link", EntryKind::Symlink, &ex)), "skip");
    assert_eq!(step_name(&copy_step("/new", "MyGame", "fifo", EntryKind::Other, &ex)), "leave");
    assert!(counts_toward_total("Content/a", EntryKind::File, &ex));
    assert!(!counts_toward_total("Intermediate/a", EntryKind::File, &ex));
    assert!(!counts_toward_total("Content", EntryKind::Dir, &ex));
    let mut t = CopyTally::new();
    t.record(&CopyStep::CopyFile("x".to_string()));
    t.record(&CopyStep::Skip);
    t.record(&CopyStep::MakeDir("d".to_string()));
    assert_eq!((t.copied, t.skipped), (1, 1));
}

fn engine(name: &str, version: &str) -> UnrealEngineInfo {
    UnrealEngineInfo { name: name.to_string(), version: version.to_string(), path: format!("/eng/{}", name), editor_path: None }
}

#[test]
fn engine_paths() {
    let discovered = vec![engine("UE_5.3", "5.3.2")];
    let folders = vec!["UE_5.1".to_string(), "UE_5.3".to_string()];
    let mut r = request();
    r.engine_path = Some("/given".to_string());
    assert_eq!(resolve_engine_path(&r, "/eng", &discovered, &folders).ok(), Some("/given".to_string()));
    let mut r = request();
    r.ue = Some("5.3".to_string());
    assert_eq!(resolve_engine_path(&r, "/eng", &discovered, &folders).ok(), Some("/eng/UE_5.3".to_string()));
    r.ue = Some("4.27".to_string());
    let e = resolve_engine_path(&r, "/eng", &discovered, &folders).err().unwrap();
    assert_eq!((e.status, e.message), (Status::NotFound, "Requested UE version not found among discovered engines".to_string()));
    let r = request();
    assert_eq!(resolve_engine_path(&r, "/eng", &discovered, &folders).ok(), Some("/eng/UE_5.3".to_string()));
    assert!(resolve_engine_path(&r, "/eng", &discovered, &Vec::new()).is_err());
}

#[test]
fn editor_binaries() {
    let c = editor_binary_candidates("/eng/UE_5.3");
    assert_eq!(c[0], "/eng/UE_5.3/Engine/Binaries/Linux/UnrealEditor");
    assert_eq!(c[1], "/eng/UE_5.3/Engine/Binaries/Linux/UE4Editor");
    assert_eq!(find_editor_binary(&c, &vec![false, true, true]), Some(c[1].clone()));
    assert_eq!(find_editor_binary(&c, &vec![false, false, false]), None);
}

#[test]
fn template_downloads() {
    assert_eq!(download_marker("/d/A"), "/d/A/.download_complete");
    assert_eq!(version_subdir("/d/A", &Some(" 5.3 ".to_string())), Some("/d/A/5.3".to_string()));
    assert_eq!(version_subdir("/d/A", &Some("  ".to_string())), None);
    let done = DirState { exists: true, complete: true };
    let missing = DirState { exists: false, complete: false };
    assert!(!needs_download(done, None));
    assert!(needs_download(missing, None));
    assert!(needs_download(DirState { exists: true, complete: false }, None));
    assert!(needs_download(done, Some(missing)));
    assert!(!needs_download(done, Some(done)));
    assert_eq!(determine_search_dir("/d/A", &Some("/d/A/5.3".to_string()), true), "/d/A/5.3");
    assert_eq!(determine_search_dir("/d/A", &Some("/d/A/5.3".to_string()), false), "/d/A");
    assert_eq!(determine_search_dir("/d/A", &None, true), "/d/A");
    assert_eq!(resolve_from_template_project("  ", &None), None);
    assert_eq!(resolve_from_template_project(" '~/T' ", &Some("/h".to_string())), Some("/h/T".to_string()));
}

#[test]
fn project_file_rewrites() {
    let text = "{\"FileVersion\": 3, \"Description\":\"\", \"DisplayName\":\"Old\"}";
    assert_eq!(
        update_project_metadata(text, "MyGame"),
        Some("{\"FileVersion\": 3, \"Description\":\"\", \"DisplayName\":\"MyGameOld\"}".to_string())
    );
    assert_eq!(update_project_metadata("{\"FileVersion\": 3}", "MyGame"), None);
    assert_eq!(update_project_metadata("{\"DisplayName\":\"x\"}", "MyGame"), None);
    assert_eq!(engine_association_for(" UE_5.6.1 "), Some("5.6".to_string()));
    assert_eq!(engine_association_for("5. 4 "), Some("5.4".to_string()));
    assert_eq!(engine_association_for("5"), None);
    assert_eq!(new_uproject_path("/out/MyGame", "MyGame"), "/out/MyGame/MyGame.uproject");
}

#[test]
fn engine_association_in_json() {
    let doc = Json::Object(vec![("FileVersion".to_string(), Json::Bool(true))]);
    match with_engine_association(doc, "5.6") {
        Some(Json::Object(m)) => {
            assert_eq!(m.len(), 2);
            assert_eq!(m[1].0, "EngineAssociation");
            assert!(matches!(&m[1].1, Json::Str(s) if s == "5.6"));
        },
        _ => panic!("expected an object"),
    }
    assert!(with_engine_association(Json::Null, "5.6").is_none());
    let e = set_project_engine(Json::Array(vec![]), "5.6").err().unwrap();
    assert_eq!((e.status, e.message), (Status::BadRequest, ".uproject JSON is not an object".to_string()));
}

#[test]
fn project_versions_to_set() {
    assert_eq!(parse_project_version("UE_5.6").ok(), Some("5.6".to_string()));
    assert_eq!(parse_project_version(" 5.6.1 ").ok(), Some("5.6".to_string()));
    assert_eq!(parse_project_version("5. 6").ok(), Some("5.6".to_string()));
    for bad in ["5", "5.", "x.6", "5.6b", ""] {
        let e = parse_project_version(bad).err().unwrap();
        assert_eq!(e.status, Status::BadRequest);
        assert_eq!(e.message, "version must be like 5.6 or UE_5.6 (patch allowed)");
    }
    assert_eq!(engine_set_reply("5.6").message, "Set EngineAssociation to 5.6");
}

#[test]
fn opening_after_create() {
    let r = request();
    match execute_project_open(&r, 3, 1, "E P -NoCompile".to_string(), "/out/G") {
        OpenAfterCreate::Reply(resp) => {
            assert_eq!(resp.message, "Project created (3 files, 1 skipped). Not opening (open_after_create=false).");
            assert_eq!(resp.command, "E P -NoCompile");
        },
        _ => panic!("expected a reply"),
    }
    let mut r = request();
    r.open_after_create = Some(true);
    match execute_project_open(&r, 3, 1, "  E   P -NoCompile ".to_string(), "/out/G") {
        OpenAfterCreate::Launch(p, args) => {
            assert_eq!(p, "E");
            assert_eq!(args, vec!["P".to_string(), "-NoCompile".to_string()]);
        },
        _ => panic!("expected a launch"),
    }
    match execute_project_open(&r, 0, 0, "   ".to_string(), "/out/G") {
        OpenAfterCreate::Refuse(e) => assert_eq!((e.status, e.message), (Status::InternalServerError, "Invalid command".to_string())),
        _ => panic!("expected a refusal"),
    }
    let ok = launch_reply(2, 0, "c".to_string(), "/p", &None);
    assert_eq!(ok.message, "Project created (2 files, 0 skipped). Unreal Editor is launching...");
    let failed = launch_reply(2, 0, "c".to_string(), "/p", &Some("no such file".to_string()));
    assert_eq!(failed.message, "Project created (2 files, 0 skipped). Failed to launch UnrealEditor: no such file");
    assert!(failed.ok);
}

#[test]
fn written_engine_version_is_read_back() {
    let mm = parse_project_version("UE_5.6.1").ok().unwrap();
    let doc = set_project_engine(Json::Object(vec![]), &mm).ok().unwrap();
    let read = requested_open_version(&None, &ProjectFile::Read(Some(doc)), &[]).ok();
    assert_eq!(read, Some("5.6".to_string()));
}
