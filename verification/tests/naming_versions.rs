use egs_client::models::{Phase, UnrealEngineInfo};
use egs_client::naming::{get_friendly_folder_name, sanitize_title_for_folder};
use egs_client::json::{Json, JsonNumber};
use egs_client::versions::{
    build_version_label, engine_version_label, is_guid_like, normalize_engine_association, parse_version_from_name,
    pick_engine_for_version, read_build_id, resolve_engine_association_to_mm, select_latest_engine, to_major_minor,
    InstalledBuild,
};
use egs_client::models::Status;

fn chars(s: &str) -> Vec<char> {
    s.chars().collect()
}

fn num(n: u64) -> Json {
    Json::Number(JsonNumber { unsigned: Some(n), text: n.to_string() })
}

fn obj(members: Vec<(&str, Json)>) -> Json {
    Json::Object(members.into_iter().map(|(k, v)| (k.to_string(), v)).collect())
}

fn engine(name: &str, version: &str) -> UnrealEngineInfo {
    UnrealEngineInfo {
        name: name.to_string(),
        version: version.to_string(),
        path: format!("/engines/{}", name),
        editor_path: Some(format!("/engines/{}/Engine/Binaries/Linux/UnrealEditor", name)),
    }
}

#[test]
fn sanitize_replaces_illegal_characters() {
    assert_eq!(sanitize_title_for_folder("A/B\\C:D*E?F\"G<H>I|J"), "A_B_C_D_E_F_G_H_I_J");
}

#[test]
fn sanitize_trims_whitespace_then_dots() {
    assert_eq!(sanitize_title_for_folder("  ..Stack O Bot..  "), "Stack O Bot");
    assert_eq!(sanitize_title_for_folder(". a"), " a");
    assert_eq!(sanitize_title_for_folder("Industry Props Pack 6"), "Industry Props Pack 6");
}

#[test]
fn friendly_folder_name_none_when_empty() {
    assert_eq!(get_friendly_folder_name("...".to_string()), None);
    assert_eq!(get_friendly_folder_name("   ".to_string()), None);
    assert_eq!(get_friendly_folder_name("My: Asset".to_string()), Some("My_ Asset".to_string()));
}

#[test]
fn phase_names() {
    assert_eq!(Phase::ImportStart.as_str(), "import:start");
    assert_eq!(Phase::CreateDownloading.as_str(), "create:downloading");
    assert_eq!(Phase::DownloadProgress.as_str(), "download:progress");
    assert_eq!(Phase::Cancelled.as_str(), "cancelled");
    assert_eq!(Phase::Cancel.as_str(), "cancel");
}

#[test]
fn version_from_folder_names() {
    assert_eq!(parse_version_from_name("UE_5.3"), Some("5.3".to_string()));
    assert_eq!(parse_version_from_name("Engine 5.2.1 build"), Some("5.2.1".to_string()));
    assert_eq!(parse_version_from_name(".5x"), Some("5".to_string()));
    assert_eq!(parse_version_from_name("UnrealEngine"), None);
    assert_eq!(parse_version_from_name(""), None);
}

#[test]
fn normalize_association_forms() {
    assert_eq!(normalize_engine_association(" UE_5.4.1 "), Some("5.4".to_string()));
    assert_eq!(normalize_engine_association("5"), Some("5.0".to_string()));
    assert_eq!(normalize_engine_association("5."), Some("5.".to_string()));
    assert_eq!(normalize_engine_association(""), None);
    assert_eq!(normalize_engine_association("UE_"), None);
    assert_eq!(normalize_engine_association("{A1B2}"), None);
    assert_eq!(normalize_engine_association("5.x"), None);
}

#[test]
fn major_minor_conversion() {
    assert_eq!(to_major_minor("5.6.1"), "5.6");
    assert_eq!(to_major_minor("5.6"), "5.6");
    assert_eq!(to_major_minor("5"), "5.0");
    assert_eq!(to_major_minor("abc"), "abc");
    assert_eq!(to_major_minor(&to_major_minor("4.27.2")), "4.27");
}

#[test]
fn guid_detection() {
    assert!(is_guid_like(&chars("0123abcd-ef01-2345-6789-ABCDEF012345")));
    assert!(!is_guid_like(&chars("0123abcd-ef01-2345-6789-ABCDEF01234")));
    assert!(!is_guid_like(&chars("0123abcd_ef01-2345-6789-ABCDEF012345")));
    assert!(!is_guid_like(&chars("0123abcg-ef01-2345-6789-ABCDEF012345")));
}

#[test]
fn association_resolves_through_build_ids() {
    let installed = vec![
        InstalledBuild { build_id: Some("aaaaaaaa-0000-0000-0000-000000000000".to_string()), version: None },
        InstalledBuild { build_id: Some("AAAAAAAA-0000-0000-0000-000000000000".to_string()), version: Some("5.3.2".to_string()) },
        InstalledBuild { build_id: Some("aaaaaaaa-0000-0000-0000-000000000000".to_string()), version: Some("5.1".to_string()) },
    ];
    assert_eq!(
        resolve_engine_association_to_mm("aaaaaaaa-0000-0000-0000-000000000000", &installed),
        Some("5.3".to_string())
    );
    assert_eq!(resolve_engine_association_to_mm("UE_5.2", &installed), Some("5.2".to_string()));
    assert_eq!(resolve_engine_association_to_mm("bbbbbbbb-0000-0000-0000-000000000000", &installed), None);
    assert_eq!(resolve_engine_association_to_mm("not-a-guid", &installed), None);
    assert_eq!(resolve_engine_association_to_mm("   ", &installed), None);
}

#[test]
fn build_version_file_labels() {
    let full = obj(vec![("MajorVersion", num(5)), ("MinorVersion", num(3)), ("PatchVersion", num(2))]);
    assert_eq!(build_version_label(&full), Some("5.3.2".to_string()));
    let no_patch = obj(vec![("MajorVersion", num(5)), ("MinorVersion", num(4)), ("PatchVersion", num(0))]);
    assert_eq!(build_version_label(&no_patch), Some("5.4".to_string()));
    let no_minor = obj(vec![("MajorVersion", num(4))]);
    assert_eq!(build_version_label(&no_minor), Some("4.0".to_string()));
    let no_major = obj(vec![("MinorVersion", num(4))]);
    assert_eq!(build_version_label(&no_major), None);
    let wrong_type = obj(vec![("MajorVersion", Json::Str("5".to_string()))]);
    assert_eq!(build_version_label(&wrong_type), None);
}

#[test]
fn build_id_is_trimmed() {
    let d = obj(vec![("BuildId", Json::Str("  abc  ".to_string()))]);
    assert_eq!(read_build_id(&d), Some("abc".to_string()));
    let blank = obj(vec![("BuildId", Json::Str("   ".to_string()))]);
    assert_eq!(read_build_id(&blank), None);
    assert_eq!(read_build_id(&Json::Null), None);
}

#[test]
fn engine_labels_fall_back_to_name_then_unknown() {
    assert_eq!(engine_version_label(Some("5.3.2".to_string()), "UE_5.1"), "5.3.2");
    assert_eq!(engine_version_label(None, "UE_5.1"), "5.1");
    assert_eq!(engine_version_label(None, "Custom"), "unknown");
}

#[test]
fn engine_choice_prefers_exact_then_prefix_then_name() {
    let engines = vec![engine("UE_5.3", "5.3.2"), engine("Other", "5.3"), engine("UE_5.4", "unknown")];
    assert_eq!(pick_engine_for_version(&engines, "5.3").map(|e| e.name.clone()), Some("Other".to_string()));
    assert_eq!(pick_engine_for_version(&engines, "5.3.2").map(|e| e.name.clone()), Some("UE_5.3".to_string()));
    assert_eq!(pick_engine_for_version(&engines, "5").map(|e| e.name.clone()), Some("UE_5.3".to_string()));
    assert_eq!(pick_engine_for_version(&engines, "5.4").map(|e| e.name.clone()), Some("UE_5.4".to_string()));
    assert!(pick_engine_for_version(&engines, "4.27").is_none());
}

#[test]
fn latest_engine_is_greatest_name() {
    let names = vec!["UE_5.1".to_string(), "UE_5.3".to_string(), "UE_4.27".to_string()];
    assert_eq!(select_latest_engine("/engines", &names).ok(), Some("/engines/UE_5.3".to_string()));
    let err = select_latest_engine("/engines", &Vec::new()).err().unwrap();
    assert_eq!(err.status, Status::BadRequest);
    assert_eq!(err.message, "engine_path not provided and no engines found in default location");
}

#[test]
fn folder_name_ignores_surrounding_whitespace() {
    assert_eq!(sanitize_title_for_folder("  Pack: Six  "), sanitize_title_for_folder("Pack: Six"));
    assert_eq!(sanitize_title_for_folder("\t.Pack.\n"), "Pack");
}

#[test]
fn association_padding_does_not_matter() {
    for s in ["5.3", "5", "5.4.1", "abc", "{A1B2}"] {
        let padded = format!(" UE_{} ", s);
        assert_eq!(normalize_engine_association(&padded), normalize_engine_association(s));
        match normalize_engine_association(s) {
            Some(r) => assert_eq!(to_major_minor(s), r),
            None => assert_eq!(to_major_minor(s), s),
        }
    }
    assert_eq!(normalize_engine_association(" UE_5 "), Some("5.0".to_string()));
    assert_eq!(to_major_minor("abc"), "abc");
}
