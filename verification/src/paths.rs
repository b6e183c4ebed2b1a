//! Where things live on disk: path joining and the default directories for
//! the cache, downloads, configuration, projects and engines.
use vstd::prelude::*;
use crate::text::{chars_of, string_from, trim_whitespace, trim_ws};

verus! {

/// `Path::join` on Unix: an absolute `p` replaces `base`; otherwise `p` is
/// appended, with a `/` in between unless `base` is empty or already ends
/// with one.
pub open spec fn joined(base: Seq<char>, p: Seq<char>) -> Seq<char> {
    if p.len() > 0 && p[0] == '/' {
        p
    } else if base.len() == 0 || base.last() == '/' {
        base + p
    } else {
        base + seq!['/'] + p
    }
}

/// Appends the characters of `s` to `out`.
pub fn push_str_chars(out: &mut Vec<char>, s: &Vec<char>)
    ensures
        final(out)@ == old(out)@ + s@,
{
    let ghost base = out@;
    for i in 0..s.len()
        invariant
            out@ == base + s@.take(i as int),
    {
        out.push(s[i]);
        assert(s@.take(i + 1) =~= s@.take(i as int).push(s@[i as int]));
    }
    assert(s@.take(s.len() as int) =~= s@);
}

/// Appends the characters of a string slice to `out`.
pub fn push_text(out: &mut Vec<char>, s: &str)
    ensures
        final(out)@ == old(out)@ + s@,
{
    let v = chars_of(s);
    push_str_chars(out, &v);
}

/// Joins a path component onto a base path (`Path::join`).
pub fn join_path(base: &str, p: &str) -> (r: String)
    ensures
        r@ == joined(base@, p@),
{
    let b = chars_of(base);
    let q = chars_of(p);
    if q.len() > 0 && q[0] == '/' {
        return p.to_string();
    }
    let mut out = b.clone();
    assert(out@ == b@);
    if !(b.len() == 0 || b[b.len() - 1] == '/') {
        out.push('/');
    }
    push_str_chars(&mut out, &q);
    string_from(out.as_slice())
}

/// A set, non-empty environment value.
pub open spec fn present(v: Option<String>) -> bool {
    v matches Some(s) && s@.len() > 0
}

/// The XDG base directory: the variable when it is set and not empty,
/// else `$HOME/<fallback>`, else `<fallback>` relative to the working
/// directory.
pub open spec fn xdg_base(var: Option<String>, home: Option<String>, fallback: Seq<char>) -> Seq<char> {
    if present(var) {
        var->0@
    } else {
        match home {
            Some(h) => joined(h@, fallback),
            None => fallback,
        }
    }
}

/// Executable form of [`xdg_base`].
fn xdg_base_dir(var: &Option<String>, home: &Option<String>, fallback: &str) -> (r: String)
    ensures
        r@ == xdg_base(*var, *home, fallback@),
{
    match var {
        Some(v) => {
            if !v.as_str().is_empty() {
                return v.clone();
            }
        },
        None => {},
    }
    match home {
        Some(h) => join_path(h.as_str(), fallback),
        None => fallback.to_string(),
    }
}

/// The file that holds the configured directories: under `cache/` in a
/// debug build, else `egs_client/config.json` under the XDG config home.
pub fn config_file_path(debug: bool, xdg_config_home: &Option<String>, home: &Option<String>) -> (r: String)
    ensures
        debug ==> r@ == joined("cache"@, "config.json"@),
        !debug ==> r@ == joined(joined(xdg_base(*xdg_config_home, *home, ".config"@), "egs_client"@), "config.json"@),
{
    if debug {
        return join_path("cache", "config.json");
    }
    let base = xdg_base_dir(xdg_config_home, home, ".config");
    let dir = join_path(base.as_str(), "egs_client");
    join_path(dir.as_str(), "config.json")
}

/// The file that caches the login tokens.
pub fn token_cache_path(debug: bool, xdg_config_home: &Option<String>, home: &Option<String>) -> (r: String)
    ensures
        debug ==> r@ == "cache/.egs_client_tokens.json"@,
        !debug ==> r@ == joined(joined(xdg_base(*xdg_config_home, *home, ".config"@), "egs_client"@), "tokens.json"@),
{
    if debug {
        return "cache/.egs_client_tokens.json".to_string();
    }
    let base = xdg_base_dir(xdg_config_home, home, ".config");
    let dir = join_path(base.as_str(), "egs_client");
    join_path(dir.as_str(), "tokens.json")
}

/// The cache directory: the configured one, else `cache` in a debug build,
/// else `egs_client` under the XDG cache home.
pub fn default_cache_dir(configured: &Option<String>, debug: bool, xdg_cache_home: &Option<String>, home: &Option<String>) -> (r: String)
    ensures
        given(*configured) ==> r@ == configured->0@,
        !given(*configured) && debug ==> r@ == "cache"@,
        !given(*configured) && !debug ==> r@ == joined(xdg_base(*xdg_cache_home, *home, ".cache"@), "egs_client"@),
{
    if is_given(configured) {
        return configured.clone().unwrap();
    }
    if debug {
        return "cache".to_string();
    }
    let base = xdg_base_dir(xdg_cache_home, home, ".cache");
    join_path(base.as_str(), "egs_client")
}

/// The downloads directory: the configured one, else `downloads` in a
/// debug build, else `egs_client/downloads` under the XDG data home.
pub fn get_default_downloads_dir_path(configured: &Option<String>, debug: bool, xdg_data_home: &Option<String>, home: &Option<String>) -> (r: String)
    ensures
        given(*configured) ==> r@ == configured->0@,
        !given(*configured) && debug ==> r@ == "downloads"@,
        !given(*configured) && !debug ==> r@ == joined(joined(xdg_base(*xdg_data_home, *home, ".local/share"@), "egs_client"@), "downloads"@),
{
    if is_given(configured) {
        return configured.clone().unwrap();
    }
    if debug {
        return "downloads".to_string();
    }
    let base = xdg_base_dir(xdg_data_home, home, ".local/share");
    let dir = join_path(base.as_str(), "egs_client");
    join_path(dir.as_str(), "downloads")
}

/// A configured or environment directory counts when it is not blank.
pub open spec fn given(v: Option<String>) -> bool {
    v matches Some(s) && trim_ws(s@).len() > 0
}

/// Whether a directory setting is given (not blank).
fn is_given(v: &Option<String>) -> (r: bool)
    ensures
        r == given(*v),
{
    match v {
        Some(s) => trim_whitespace(&chars_of(s.as_str())).len() > 0,
        None => false,
    }
}

/// A directory setting, when it is given (not blank).
pub fn configured_dir(v: &Option<String>) -> (r: Option<String>)
    ensures
        given(*v) ==> (r matches Some(d) && d@ == v->0@),
        !given(*v) ==> r is None,
{
    if is_given(v) {
        v.clone()
    } else {
        None
    }
}

/// The projects directory: the configured one, else the environment's,
/// else `$HOME/Documents/Unreal Projects`, else `.`.
pub fn default_unreal_projects_dir(configured: &Option<String>, env_value: &Option<String>, home: &Option<String>) -> (r: String)
    ensures
        given(*configured) ==> r@ == configured->0@,
        !given(*configured) && given(*env_value) ==> r@ == env_value->0@,
        !given(*configured) && !given(*env_value) ==> r@ == match home {
            Some(h) => joined(joined(h@, "Documents"@), "Unreal Projects"@),
            None => "."@,
        },
{
    if is_given(configured) {
        return configured.clone().unwrap();
    }
    if is_given(env_value) {
        return env_value.clone().unwrap();
    }
    match home {
        Some(h) => {
            let d = join_path(h.as_str(), "Documents");
            join_path(d.as_str(), "Unreal Projects")
        },
        None => ".".to_string(),
    }
}

/// The engines directory: the configured one, else the environment's,
/// else `$HOME/UnrealEngines`, else `.`.
pub fn default_unreal_engines_dir(configured: &Option<String>, env_value: &Option<String>, home: &Option<String>) -> (r: String)
    ensures
        given(*configured) ==> r@ == configured->0@,
        !given(*configured) && given(*env_value) ==> r@ == env_value->0@,
        !given(*configured) && !given(*env_value) ==> r@ == match home {
            Some(h) => joined(h@, "UnrealEngines"@),
            None => "."@,
        },
{
    if is_given(configured) {
        return configured.clone().unwrap();
    }
    if is_given(env_value) {
        return env_value.clone().unwrap();
    }
    match home {
        Some(h) => join_path(h.as_str(), "UnrealEngines"),
        None => ".".to_string(),
    }
}

/// `s` with every occurrence of `pat` replaced by `rep`, scanning left to
/// right (`str::replace`); `pat` is not empty.
pub open spec fn replaced(s: Seq<char>, pat: Seq<char>, rep: Seq<char>) -> Seq<char>
    decreases s.len(),
{
    if s.len() == 0 || pat.len() == 0 {
        s
    } else if pat.is_prefix_of(s) {
        rep + replaced(s.skip(pat.len() as int), pat, rep)
    } else {
        seq![s[0]] + replaced(s.drop_first(), pat, rep)
    }
}

/// `str::replace(pat, rep)` for a non-empty pattern.
pub fn replace_all(s: &Vec<char>, pat: &Vec<char>, rep: &Vec<char>) -> (r: Vec<char>)
    requires
        pat.len() > 0,
    ensures
        r@ == replaced(s@, pat@, rep@),
{
    let mut out: Vec<char> = Vec::new();
    let mut i: usize = 0;
    assert(s@.skip(0) =~= s@);
    while i < s.len()
        invariant
            i <= s.len(),
            pat.len() > 0,
            replaced(s@, pat@, rep@) == out@ + replaced(s@.skip(i as int), pat@, rep@),
        decreases s.len() - i,
    {
        let ghost rest = s@.skip(i as int);
        let mut hit = pat.len() <= s.len() - i;
        let mut j: usize = 0;
        while hit && j < pat.len()
            invariant
                i < s.len(),
                hit ==> i + pat.len() <= s.len(),
                j <= pat.len(),
                rest == s@.skip(i as int),
                hit ==> forall|m: int| 0 <= m < j ==> rest[m] == pat@[m],
                !hit ==> !pat@.is_prefix_of(rest),
            decreases pat.len() - j + (if hit { 1int } else { 0int }),
        {
            if s[i + j] != pat[j] {
                assert(rest[j as int] != pat@[j as int]);
                hit = false;
            } else {
                j += 1;
            }
        }
        if hit {
            assert(pat@.is_prefix_of(rest));
            proof {
                assert(rest.skip(pat.len() as int) =~= s@.skip(i + pat.len()));
            }
            let ghost before = out@;
            push_str_chars(&mut out, rep);
            i = i + pat.len();
            assert(before + (rep@ + replaced(s@.skip(i as int), pat@, rep@)) =~= out@ + replaced(s@.skip(i as int), pat@, rep@));
        } else {
            proof {
                assert(rest.drop_first() =~= s@.skip(i + 1));
            }
            let ghost before = out@;
            out.push(s[i]);
            i += 1;
            assert(before + (seq![s@[i - 1]] + replaced(s@.skip(i as int), pat@, rep@)) =~= out@ + replaced(s@.skip(i as int), pat@, rep@));
        }
    }
    assert(out@ + replaced(s@.skip(i as int), pat@, rep@) =~= out@);
    out
}

/// The text is wrapped in a pair of double or single quotes.
pub open spec fn quoted(t: Seq<char>) -> bool {
    t.len() > 0 && ((t[0] == '"' && t.last() == '"') || (t[0] == '\'' && t.last() == '\''))
}

/// A path typed by a user: trimmed, without surrounding quotes, with a
/// leading `~/` and every `$HOME` standing for the home directory when
/// there is one.
pub open spec fn expanded_path(s: Seq<char>, home: Option<Seq<char>>) -> Seq<char> {
    let t0 = trim_ws(s);
    let t1 = if quoted(t0) { t0.subrange(1, t0.len() - 1) } else { t0 };
    match home {
        Some(h) => {
            let t2 = if seq!['~', '/'].is_prefix_of(t1) { h + t1.skip(1) } else { t1 };
            replaced(t2, seq!['$', 'H', 'O', 'M', 'E'], h)
        },
        None => t1,
    }
}

/// Trims a user-typed path, drops surrounding quotes and expands the home
/// directory. A lone quote character, which the quote stripping cannot
/// handle, is not accepted.
pub fn trim_quotes_and_expand_home(s: &str, home: &Option<String>) -> (r: String)
    requires
        !(quoted(trim_ws(s@)) && trim_ws(s@).len() == 1),
    ensures
        r@ == expanded_path(s@, match home { Some(h) => Some(h@), None => None }),
{
    let t0 = trim_whitespace(&chars_of(s));
    let n = t0.len();
    let q = n > 0 && ((t0[0] == '"' && t0[n - 1] == '"') || (t0[0] == '\'' && t0[n - 1] == '\''));
    let t1 = if q {
        let mut w: Vec<char> = Vec::new();
        let mut i: usize = 1;
        while i < n - 1
            invariant
                1 <= i <= n - 1,
                n == t0.len(),
                w@ == t0@.subrange(1, i as int),
            decreases n - 1 - i,
        {
            w.push(t0[i]);
            assert(t0@.subrange(1, i + 1) =~= t0@.subrange(1, i as int).push(t0@[i as int]));
            i += 1;
        }
        w
    } else {
        t0
    };
    match home {
        Some(h) => {
            let hc = chars_of(h.as_str());
            let tilde = t1.len() >= 2 && t1[0] == '~' && t1[1] == '/';
            proof {
                assert(tilde == seq!['~', '/'].is_prefix_of(t1@));
            }
            let t2 = if tilde {
                let mut w = hc.clone();
                assert(w@ == hc@);
                let mut i: usize = 1;
                let ghost base = w@;
                while i < t1.len()
                    invariant
                        1 <= i <= t1.len(),
                        w@ == base + t1@.subrange(1, i as int),
                    decreases t1.len() - i,
                {
                    w.push(t1[i]);
                    assert(t1@.subrange(1, i + 1) =~= t1@.subrange(1, i as int).push(t1@[i as int]));
                    i += 1;
                }
                assert(t1@.subrange(1, t1.len() as int) =~= t1@.skip(1));
                w
            } else {
                t1
            };
            let mut pat: Vec<char> = Vec::new();
            pat.push('$');
            pat.push('H');
            pat.push('O');
            pat.push('M');
            pat.push('E');
            assert(pat@ =~= seq!['$', 'H', 'O', 'M', 'E']);
            let t3 = replace_all(&t2, &pat, &hc);
            string_from(t3.as_slice())
        },
        None => string_from(t1.as_slice()),
    }
}

} // verus!
