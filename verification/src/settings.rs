//! Settings: the configured directories, the run mode, the address the
//! server binds to, and where the desktop UI binary is looked for.
use vstd::prelude::*;
use crate::models::PathsConfig;
use crate::paths::push_str_chars;
use crate::text::{chars_of, lowercased, same_chars, string_from, to_lowercase, trim_whitespace, trim_ws};

verus! {

/// The view of an optional string.
pub open spec fn opt_text(o: Option<String>) -> Option<Seq<char>> {
    match o {
        Some(s) => Some(s@),
        None => None,
    }
}

/// A configured directory after an update: the trimmed new value when one
/// is given, else the old one.
pub open spec fn merged(old: Option<String>, update: Option<String>) -> Option<Seq<char>> {
    match update {
        Some(u) => Some(trim_ws(u@)),
        None => opt_text(old),
    }
}

/// Merges one field.
fn merge_field(old: &Option<String>, update: &Option<String>) -> (r: Option<String>)
    ensures
        opt_text(r) == merged(*old, *update),
{
    match update {
        Some(u) => Some(string_from(trim_whitespace(&chars_of(u.as_str())).as_slice())),
        None => old.clone(),
    }
}

/// Applies an update of the configured directories.
pub fn merge_paths_config(cfg: &PathsConfig, update: &crate::models::PathsUpdate) -> (r: PathsConfig)
    ensures
        opt_text(r.projects_dir) == merged(cfg.projects_dir, update.projects_dir),
        opt_text(r.engines_dir) == merged(cfg.engines_dir, update.engines_dir),
        opt_text(r.cache_dir) == merged(cfg.cache_dir, update.cache_dir),
        opt_text(r.downloads_dir) == merged(cfg.downloads_dir, update.downloads_dir),
{
    PathsConfig {
        projects_dir: merge_field(&cfg.projects_dir, &update.projects_dir),
        engines_dir: merge_field(&cfg.engines_dir, &update.engines_dir),
        cache_dir: merge_field(&cfg.cache_dir, &update.cache_dir),
        downloads_dir: merge_field(&cfg.downloads_dir, &update.downloads_dir),
    }
}

/// How the program runs: the HTTP backend, the desktop UI, or both.
#[derive(Debug, Clone, Copy, PartialEq, Eq, Structural)]
pub enum RunMode {
    Backend,
    Frontend,
    Both,
}

/// A mode name: `frontend` and `both` name those modes; anything else
/// means the backend.
pub open spec fn mode_named(s: Seq<char>) -> RunMode {
    if s == "frontend"@ {
        RunMode::Frontend
    } else if s == "both"@ {
        RunMode::Both
    } else {
        RunMode::Backend
    }
}

/// The text after `--mode=` in the first argument that has it.
pub open spec fn mode_flag(args: Seq<Seq<char>>) -> Option<Seq<char>>
    decreases args.len(),
{
    if args.len() == 0 {
        None
    } else if "--mode="@.is_prefix_of(args[0]) {
        Some(args[0].skip(7))
    } else {
        mode_flag(args.drop_first())
    }
}

/// The mode asked for: a `--mode=` argument; else a first argument that
/// lower-cases to a mode name; else the `EGS_MODE` environment value.
pub open spec fn requested_mode_spec(args: Seq<Seq<char>>, env_mode: Option<Seq<char>>) -> Option<RunMode> {
    match mode_flag(args) {
        Some(s) => Some(mode_named(s)),
        None => if args.len() > 1 && (lowercased(args[1]) == "backend"@ || lowercased(args[1]) == "frontend"@
            || lowercased(args[1]) == "both"@) {
            Some(mode_named(lowercased(args[1])))
        } else {
            match env_mode {
                Some(e) => Some(mode_named(e)),
                None => None,
            }
        },
    }
}

/// The run mode of a mode name.
fn mode_of(s: &Vec<char>) -> (r: RunMode)
    ensures
        r == mode_named(s@),
{
    if same_chars(s, &chars_of("frontend")) {
        RunMode::Frontend
    } else if same_chars(s, &chars_of("both")) {
        RunMode::Both
    } else {
        RunMode::Backend
    }
}

/// The mode asked for on the command line or in the environment, if any.
pub fn requested_mode(args: &Vec<String>, env_mode: &Option<String>) -> (r: Option<RunMode>)
    ensures
        r == requested_mode_spec(args@.map_values(|a: String| a@), opt_text(*env_mode)),
{
    let ghost av = args@.map_values(|a: String| a@);
    let flag = chars_of("--mode=");
    proof { reveal_strlit("--mode="); }
    let mut i: usize = 0;
    assert(av.skip(0) =~= av);
    while i < args.len()
        invariant
            i <= args.len(),
            av == args@.map_values(|a: String| a@),
            flag@ == "--mode="@,
            mode_flag(av) == mode_flag(av.skip(i as int)),
        decreases args.len() - i,
    {
        let a = chars_of(args[i].as_str());
        assert(av.skip(i as int)[0] == av[i as int]);
        if crate::text::starts_with_chars(&a, &flag) {
            let mut rest: Vec<char> = Vec::new();
            let mut j: usize = 7;
            proof { reveal_strlit("--mode="); }
            while j < a.len()
                invariant
                    7 <= j <= a.len(),
                    rest@ == a@.subrange(7, j as int),
                decreases a.len() - j,
            {
                rest.push(a[j]);
                assert(a@.subrange(7, j + 1) =~= a@.subrange(7, j as int).push(a@[j as int]));
                j += 1;
            }
            assert(a@.subrange(7, a.len() as int) =~= a@.skip(7));
            return Some(mode_of(&rest));
        }
        assert(av.skip(i as int).drop_first() =~= av.skip(i + 1));
        i += 1;
    }
    assert(av.skip(i as int).len() == 0);
    if args.len() > 1 {
        let p = chars_of(to_lowercase(args[1].as_str()).as_str());
        if same_chars(&p, &chars_of("backend")) || same_chars(&p, &chars_of("frontend")) || same_chars(&p, &chars_of("both")) {
            return Some(mode_of(&p));
        }
    }
    match env_mode {
        Some(e) => Some(mode_of(&chars_of(e.as_str()))),
        None => None,
    }
}

/// The run mode: the one asked for; else both backend and UI when the UI
/// binary was found, else the backend alone.
pub fn parse_mode(requested: Option<RunMode>, ui_found: bool) -> (r: RunMode)
    ensures
        r == match requested {
            Some(m) => m,
            None => if ui_found { RunMode::Both } else { RunMode::Backend },
        },
{
    match requested {
        Some(m) => m,
        None => if ui_found { RunMode::Both } else { RunMode::Backend },
    }
}

/// The address to bind: `BIND_ADDR`; else all interfaces on `PORT`; else
/// the loopback address on port 8080.
pub fn bind_address(bind_addr: &Option<String>, port: &Option<String>) -> (r: String)
    ensures
        r@ == match bind_addr {
            Some(a) => a@,
            None => match port {
                Some(p) => "0.0.0.0:"@ + p@,
                None => "127.0.0.1:8080"@,
            },
        },
{
    match bind_addr {
        Some(a) => a.clone(),
        None => match port {
            Some(p) => {
                let mut m = chars_of("0.0.0.0:");
                push_str_chars(&mut m, &chars_of(p.as_str()));
                string_from(m.as_slice())
            },
            None => "127.0.0.1:8080".to_string(),
        },
    }
}

/// The UI binary of a debug build.
pub open spec fn dev_ui_path() -> Seq<char> {
    "Flutter_EGL/build/linux/x64/debug/bundle/test_app_ui"@
}

/// The UI binary of a release build.
pub open spec fn prod_ui_path() -> Seq<char> {
    "Flutter_EGL/build/linux/x64/release/bundle/test_app_ui"@
}

/// Where the UI binary is looked for, in order: the `FLUTTER_APP_PATH`
/// override, the binary of the build's own mode, the other mode's, then
/// the fallbacks.
pub open spec fn ui_candidates(override_path: Option<Seq<char>>, debug: bool) -> Seq<Seq<char>> {
    let first = match override_path {
        Some(p) => seq![p],
        None => Seq::empty(),
    };
    let pref = if debug { seq![dev_ui_path(), prod_ui_path()] } else { seq![prod_ui_path(), dev_ui_path()] };
    first + pref + seq![
        prod_ui_path(),
        dev_ui_path(),
        "Flutter_EGL/build/linux/x64/release/bundle/test_app_ui/test_app_ui"@,
    ]
}

/// The candidate UI binaries; the first that exists is used.
pub fn ui_binary_candidates(override_path: &Option<String>, debug: bool) -> (r: Vec<String>)
    ensures
        r@.map_values(|s: String| s@) == ui_candidates(opt_text(*override_path), debug),
{
    let mut r: Vec<String> = Vec::new();
    if let Some(p) = override_path {
        r.push(p.clone());
    }
    if debug {
        r.push("Flutter_EGL/build/linux/x64/debug/bundle/test_app_ui".to_string());
        r.push("Flutter_EGL/build/linux/x64/release/bundle/test_app_ui".to_string());
    } else {
        r.push("Flutter_EGL/build/linux/x64/release/bundle/test_app_ui".to_string());
        r.push("Flutter_EGL/build/linux/x64/debug/bundle/test_app_ui".to_string());
    }
    r.push("Flutter_EGL/build/linux/x64/release/bundle/test_app_ui".to_string());
    r.push("Flutter_EGL/build/linux/x64/debug/bundle/test_app_ui".to_string());
    r.push("Flutter_EGL/build/linux/x64/release/bundle/test_app_ui/test_app_ui".to_string());
    assert(r@.map_values(|s: String| s@) =~= ui_candidates(opt_text(*override_path), debug));
    r
}

} // verus!
