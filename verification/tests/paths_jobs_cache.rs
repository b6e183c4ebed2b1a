use egs_client::fab_cache::{annotate_downloaded_flags, record_download, DownloadFolder, DownloadsIndex};
use egs_client::jobs::{JobRegistry, EVENT_BUFFER_CAPACITY};
use egs_client::json::Json;
use egs_client::paths::{
    config_file_path, configured_dir, default_cache_dir, default_unreal_engines_dir, default_unreal_projects_dir,
    get_default_downloads_dir_path, join_path, token_cache_path, trim_quotes_and_expand_home,
};

fn s(x: &str) -> Json {
    Json::Str(x.to_string())
}

fn obj(members: Vec<(&str, Json)>) -> Json {
    Json::Object(members.into_iter().map(|(k, v)| (k.to_string(), v)).collect())
}

fn get<'a>(j: &'a Json, key: &str) -> Option<&'a Json> {
    match j {
        Json::Object(m) => m.iter().find(|(k, _)| k == key).map(|(_, v)| v),
        _ => None,
    }
}

fn bool_at(j: &Json, key: &str) -> Option<bool> {
    match get(j, key) {
        Some(Json::Bool(b)) => Some(*b),
        _ => None,
    }
}

fn results(j: &Json) -> &Vec<Json> {
    match get(j, "results") {
        Some(Json::Array(a)) => a,
        _ => panic!("no results"),
    }
}

fn home() -> Option<String> {
    Some("/home/me".to_string())
}

#[test]
fn joining_paths() {
    assert_eq!(join_path("a", "b"), "a/b");
    assert_eq!(join_path("a/", "b"), "a/b");
    assert_eq!(join_path("", "b"), "b");
    assert_eq!(join_path("a", "/abs"), "/abs");
    assert_eq!(join_path("a", ""), "a/");
}

#[test]
fn default_directories() {
    assert_eq!(config_file_path(true, &None, &home()), "cache/config.json");
    assert_eq!(config_file_path(false, &None, &home()), "/home/me/.config/egs_client/config.json");
    assert_eq!(config_file_path(false, &Some("/x".to_string()), &home()), "/x/egs_client/config.json");
    assert_eq!(config_file_path(false, &Some("".to_string()), &None), ".config/egs_client/config.json");
    assert_eq!(token_cache_path(true, &None, &None), "cache/.egs_client_tokens.json");
    assert_eq!(token_cache_path(false, &None, &home()), "/home/me/.config/egs_client/tokens.json");
    assert_eq!(default_cache_dir(&None, true, &None, &home()), "cache");
    assert_eq!(default_cache_dir(&None, false, &None, &home()), "/home/me/.cache/egs_client");
    assert_eq!(get_default_downloads_dir_path(&None, true, &None, &home()), "downloads");
    assert_eq!(
        get_default_downloads_dir_path(&None, false, &None, &home()),
        "/home/me/.local/share/egs_client/downloads"
    );
    let mydl = Some("mydl".to_string());
    assert_eq!(get_default_downloads_dir_path(&mydl, true, &None, &home()), "mydl");
    assert_eq!(get_default_downloads_dir_path(&mydl, false, &None, &home()), "mydl");
    assert_eq!(get_default_downloads_dir_path(&Some("  ".to_string()), true, &None, &home()), "downloads");
    let mycache = Some("/var/c".to_string());
    assert_eq!(default_cache_dir(&mycache, true, &None, &home()), "/var/c");
    assert_eq!(default_cache_dir(&Some("".to_string()), false, &None, &home()), "/home/me/.cache/egs_client");
}

#[test]
fn project_and_engine_directories() {
    let cfg = Some("/cfg/projects".to_string());
    let env = Some("/env/projects".to_string());
    assert_eq!(default_unreal_projects_dir(&cfg, &env, &home()), "/cfg/projects");
    assert_eq!(default_unreal_projects_dir(&Some("  ".to_string()), &env, &home()), "/env/projects");
    assert_eq!(default_unreal_projects_dir(&None, &None, &home()), "/home/me/Documents/Unreal Projects");
    assert_eq!(default_unreal_projects_dir(&None, &None, &None), ".");
    assert_eq!(default_unreal_engines_dir(&None, &None, &home()), "/home/me/UnrealEngines");
    assert_eq!(default_unreal_engines_dir(&None, &Some("/e".to_string()), &home()), "/e");
}

#[test]
fn typed_paths_are_cleaned() {
    assert_eq!(trim_quotes_and_expand_home("  \"~/Games\"  ", &home()), "/home/me/Games");
    assert_eq!(trim_quotes_and_expand_home("'$HOME/a/$HOME'", &home()), "/home/me/a//home/me");
    assert_eq!(trim_quotes_and_expand_home("~/x", &None), "~/x");
    assert_eq!(trim_quotes_and_expand_home("/opt/~/x", &home()), "/opt/~/x");
    assert_eq!(trim_quotes_and_expand_home("\"\"", &home()), "");
}

#[test]
fn buffer_keeps_latest_events() {
    let mut reg = JobRegistry::new();
    for i in 0..40 {
        reg.push_buffered("job", format!("e{}", i));
    }
    let got = reg.take_buffer("job");
    assert_eq!(got.len(), EVENT_BUFFER_CAPACITY);
    assert_eq!(got[0], "e8");
    assert_eq!(got[31], "e39");
    assert!(reg.take_buffer("job").is_empty());
    assert!(reg.take_buffer("other").is_empty());
}

#[test]
fn buffers_are_per_job() {
    let mut reg = JobRegistry::new();
    reg.push_buffered("a", "1".to_string());
    reg.push_buffered("b", "2".to_string());
    reg.push_buffered("a", "3".to_string());
    assert_eq!(reg.take_buffer("a"), vec!["1".to_string(), "3".to_string()]);
    assert_eq!(reg.take_buffer("b"), vec!["2".to_string()]);
}

#[test]
fn cancel_cycle() {
    let mut reg = JobRegistry::new();
    assert!(!reg.check_if_job_is_cancelled(Some("j")));
    reg.cancel_job("j");
    assert!(reg.check_if_job_is_cancelled(Some("j")));
    assert!(!reg.check_if_job_is_cancelled(Some("k")));
    assert!(!reg.check_if_job_is_cancelled(None));
    reg.acknowledge_cancel("j");
    assert!(!reg.check_if_job_is_cancelled(Some("j")));
    reg.cancel_job("j");
    reg.cancel_this_job(Some("j"));
    assert!(!reg.check_if_job_is_cancelled(Some("j")));
}

fn library() -> Json {
    obj(vec![(
        "results",
        Json::Array(vec![
            obj(vec![
                ("title", s("Stack O Bot")),
                ("assetNamespace", s("ns1")),
                ("assetId", s("id1")),
                (
                    "projectVersions",
                    Json::Array(vec![
                        obj(vec![("artifactId", s("art1")), ("engineVersions", Json::Array(vec![s("UE_5.3")]))]),
                        obj(vec![("artifactId", s("art2")), ("engineVersions", Json::Array(vec![s(" UE_5.4 ")]))]),
                    ]),
                ),
            ]),
            obj(vec![("title", s("Other")), ("assetNamespace", s("ns2")), ("assetId", s("id2"))]),
        ]),
    )])
}

fn disk() -> DownloadsIndex {
    DownloadsIndex {
        folders: vec![DownloadFolder {
            name: "Stack O Bot".to_string(),
            complete: false,
            complete_subfolders: vec!["5.4".to_string()],
        }],
    }
}

#[test]
fn annotation_marks_downloaded_versions() {
    let mut doc = library();
    let (total, marked, changed) = annotate_downloaded_flags(&mut doc, &disk());
    assert_eq!((total, marked, changed), (2, 1, true));
    let rs = results(&doc);
    assert_eq!(bool_at(&rs[0], "downloaded"), Some(true));
    assert_eq!(bool_at(&rs[1], "downloaded"), Some(false));
    match get(&rs[0], "downloadedVersions") {
        Some(Json::Array(v)) => assert_eq!(v.len(), 1),
        _ => panic!("missing downloadedVersions"),
    }
    match get(&rs[0], "projectVersions") {
        Some(Json::Array(v)) => {
            assert_eq!(bool_at(&v[0], "downloaded"), Some(false));
            assert_eq!(bool_at(&v[1], "downloaded"), Some(true));
        },
        _ => panic!("missing projectVersions"),
    }
}

#[test]
fn annotation_twice_changes_nothing() {
    let mut doc = library();
    annotate_downloaded_flags(&mut doc, &disk());
    let (_, _, changed) = annotate_downloaded_flags(&mut doc, &disk());
    assert!(!changed);
}

#[test]
fn recording_a_download() {
    let mut doc = library();
    let r = record_download(&mut doc, &"ns1".to_string(), &"id1".to_string(), &"art1".to_string(), &Some("5.3".to_string()));
    assert!(r.changed && r.found_asset && r.found_version);
    let rs = results(&doc);
    assert_eq!(bool_at(&rs[0], "downloaded"), Some(true));
    let again = record_download(&mut doc, &"ns1".to_string(), &"id1".to_string(), &"art1".to_string(), &Some("5.3".to_string()));
    assert!(!again.changed);
    let missing = record_download(&mut doc, &"nsX".to_string(), &"idX".to_string(), &"a".to_string(), &None);
    assert!(!missing.changed && !missing.found_asset && !missing.found_version);
}

#[test]
fn take_gives_pushes_since_last_take() {
    let mut reg = JobRegistry::new();
    reg.push_buffered("job", "a".to_string());
    reg.push_buffered("job", "b".to_string());
    assert_eq!(reg.take_buffer("job"), vec!["a".to_string(), "b".to_string()]);
    reg.push_buffered("job", "c".to_string());
    reg.push_buffered("other", "x".to_string());
    assert_eq!(reg.take_buffer("job"), vec!["c".to_string()]);
    assert!(reg.take_buffer("job").is_empty());
    assert_eq!(reg.take_buffer("other"), vec!["x".to_string()]);
}

#[test]
fn configured_directory_settings() {
    assert_eq!(configured_dir(&Some("/dl".to_string())), Some("/dl".to_string()));
    assert_eq!(configured_dir(&Some(" \t".to_string())), None);
    assert_eq!(configured_dir(&None), None);
}
