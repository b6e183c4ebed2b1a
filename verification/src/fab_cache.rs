//! The locally cached Fab library: annotating assets with what has been
//! downloaded, and marking an asset after a download.
use vstd::prelude::*;
use crate::json::{member, get_member, lemma_array_view, lemma_get_set, lemma_object_view, lemma_set_same, lemma_set_twice, opt_bool, with_member, set_member, str_or_empty, take_element, take_member, Json, JsonV, elements_view};
use crate::naming::{sanitize_title_for_folder, sanitized_title};
use crate::text::{chars_of, sort_dedup, sorted_unique, string_from, trim_whitespace, trim_ws};

verus! {

/// One entry directly under the downloads folder, as found on disk.
pub struct DownloadFolder {
    /// The entry's name.
    pub name: String,
    /// Whether it holds the `.download_complete` marker.
    pub complete: bool,
    /// Names of its subfolders that hold the `.download_complete` marker.
    pub complete_subfolders: Vec<String>,
}

/// What the downloads folder holds. An entry named `""` stands for the
/// downloads folder itself (the path that an empty folder name leads to).
pub struct DownloadsIndex {
    pub folders: Vec<DownloadFolder>,
}

/// Position of the first entry called `name`, or -1.
pub open spec fn folder_pos(fs: Seq<DownloadFolder>, name: Seq<char>) -> int
    decreases fs.len(),
{
    if fs.len() == 0 {
        -1
    } else if fs[0].name@ == name {
        0
    } else {
        let r = folder_pos(fs.drop_first(), name);
        if r < 0 {
            -1
        } else {
            r + 1
        }
    }
}

/// `folder_pos` finds the first entry with the name.
pub proof fn lemma_folder_pos(fs: Seq<DownloadFolder>, name: Seq<char>, i: int)
    requires
        0 <= i <= fs.len(),
        forall|k: int| 0 <= k < i ==> (#[trigger] fs[k]).name@ != name,
        i == fs.len() || fs[i].name@ == name,
    ensures
        folder_pos(fs, name) == (if i == fs.len() { -1 } else { i }),
    decreases i,
{
    if fs.len() > 0 && i > 0 {
        let t = fs.drop_first();
        assert(fs[0].name@ != name);
        assert forall|k: int| 0 <= k < i - 1 implies (#[trigger] t[k]).name@ != name by {
            assert(t[k] == fs[k + 1]);
        }
        if i < fs.len() {
            assert(t[i - 1] == fs[i]);
        }
        lemma_folder_pos(t, name, i - 1);
    }
}

/// The engine version folder names among `subs`: each name trimmed, empty
/// ones left out.
pub open spec fn version_names(subs: Seq<String>) -> Seq<Seq<char>>
    decreases subs.len(),
{
    if subs.len() == 0 {
        Seq::empty()
    } else {
        let rest = version_names(subs.drop_last());
        let t = trim_ws(subs.last()@);
        if t.len() > 0 {
            rest.push(t)
        } else {
            rest
        }
    }
}

/// What the disk says of an asset titled `title`: whether it counts as
/// downloaded, and the engine versions it was downloaded for.
pub open spec fn local_state(fs: Seq<DownloadFolder>, title: Seq<char>) -> (bool, Seq<Seq<char>>) {
    if title.len() == 0 {
        (false, Seq::empty())
    } else {
        let p = folder_pos(fs, sanitized_title(title));
        if p < 0 {
            (false, Seq::empty())
        } else {
            let vs = version_names(fs[p].complete_subfolders@);
            (fs[p].complete || vs.len() > 0, vs)
        }
    }
}

/// The `engineVersions` entry that names engine version `mm`.
pub open spec fn ue_token(mm: Seq<char>) -> Seq<char> {
    seq!['U', 'E', '_'] + mm
}

/// An `engineVersions` entry names engine version `mm` (after trimming).
pub open spec fn names_engine(e: JsonV, mm: Seq<char>) -> bool {
    match e {
        JsonV::Str(s) => trim_ws(s) == ue_token(mm),
        _ => false,
    }
}

/// Whether a project version lists one of the engine versions `vs`.
pub open spec fn supports_any(ver: JsonV, vs: Seq<Seq<char>>) -> bool {
    match member(ver, "engineVersions"@) {
        Some(JsonV::Array(ev)) => exists|m: int, e: int|
            0 <= m < vs.len() && 0 <= e < ev.len() && #[trigger] names_engine(ev[e], vs[m]),
        _ => false,
    }
}

/// Sets the `downloaded` member of an object to `d` unless it already is
/// `d`; the flag tells whether anything changed.
pub open spec fn flag(j: JsonV, d: bool) -> (JsonV, bool) {
    if j is Object && opt_bool(member(j, "downloaded"@)) != Some(d) {
        (with_member(j, "downloaded"@, JsonV::Bool(d)), true)
    } else {
        (j, false)
    }
}

/// A project version annotated against the downloaded engine versions.
pub open spec fn annotate_version(ver: JsonV, vs: Seq<Seq<char>>) -> (JsonV, bool) {
    flag(ver, supports_any(ver, vs))
}

/// The `downloadedVersions` array for engine versions `vs`: sorted, unique.
pub open spec fn versions_value(vs: Seq<Seq<char>>) -> JsonV {
    JsonV::Array(Seq::new(sorted_unique(vs).len(), |i: int| JsonV::Str(sorted_unique(vs)[i])))
}

/// An asset with each of its project versions annotated.
pub open spec fn annotate_versions(a: JsonV, vs: Seq<Seq<char>>) -> (JsonV, bool) {
    match member(a, "projectVersions"@) {
        Some(JsonV::Array(vers)) => (
            with_member(a, "projectVersions"@, JsonV::Array(Seq::new(vers.len(), |i: int| annotate_version(vers[i], vs).0))),
            exists|i: int| 0 <= i < vers.len() && #[trigger] annotate_version(vers[i], vs).1,
        ),
        _ => (a, false),
    }
}

/// One asset annotated: the new asset, whether it counts as downloaded, and
/// whether anything changed.
pub open spec fn annotate_asset(a: JsonV, fs: Seq<DownloadFolder>) -> (JsonV, bool, bool) {
    let st = local_state(fs, str_or_empty(member(a, "title"@)));
    let a1 = annotate_versions(a, st.1);
    if a1.0 is Object {
        let a2 = flag(a1.0, st.0);
        let nv = versions_value(st.1);
        if member(a2.0, "downloadedVersions"@) != Some(nv) {
            (with_member(a2.0, "downloadedVersions"@, nv), st.0, true)
        } else {
            (a2.0, st.0, a1.1 || a2.1)
        }
    } else {
        (a1.0, st.0, a1.1)
    }
}

/// How many of the first `n` assets count as downloaded.
pub open spec fn count_downloaded(rs: Seq<JsonV>, fs: Seq<DownloadFolder>, n: int) -> nat
    decreases n,
{
    if n <= 0 {
        0
    } else {
        count_downloaded(rs, fs, n - 1) + if annotate_asset(rs[n - 1], fs).1 { 1nat } else { 0nat }
    }
}

/// The Fab library document annotated against the downloads folder: the new
/// document, the number of assets, the number marked downloaded, and whether
/// anything changed.
pub open spec fn annotated(v: JsonV, fs: Seq<DownloadFolder>) -> (JsonV, nat, nat, bool) {
    match member(v, "results"@) {
        Some(JsonV::Array(rs)) => (
            with_member(v, "results"@, JsonV::Array(Seq::new(rs.len(), |i: int| annotate_asset(rs[i], fs).0))),
            rs.len(),
            count_downloaded(rs, fs, rs.len() as int),
            exists|i: int| 0 <= i < rs.len() && #[trigger] annotate_asset(rs[i], fs).2,
        ),
        _ => (v, 0, 0, false),
    }
}

fn key(s: &str) -> (r: String)
    ensures
        r@ == s@,
{
    s.to_string()
}

/// The disk state of an asset with the given title.
fn local_state_of(downloads: &DownloadsIndex, title: &String) -> (r: (bool, Vec<Vec<char>>))
    ensures
        r.0 == local_state(downloads.folders@, title@).0,
        r.1@.map_values(|v: Vec<char>| v@) == local_state(downloads.folders@, title@).1,
{
    let mut none: Vec<Vec<char>> = Vec::new();
    if title.as_str().is_empty() {
        assert(none@.map_values(|v: Vec<char>| v@) =~= Seq::<Seq<char>>::empty());
        return (false, none);
    }
    let name = sanitize_title_for_folder(title.as_str());
    let fs = &downloads.folders;
    let mut i: usize = 0;
    while i < fs.len() && !(fs[i].name == name)
        invariant
            i <= fs.len(),
            forall|k: int| 0 <= k < i ==> (#[trigger] fs@[k]).name@ != name@,
        decreases fs.len() - i,
    {
        i += 1;
    }
    proof { lemma_folder_pos(fs@, name@, i as int); }
    if i == fs.len() {
        assert(none@.map_values(|v: Vec<char>| v@) =~= Seq::<Seq<char>>::empty());
        return (false, none);
    }
    let subs = &fs[i].complete_subfolders;
    let mut vs: Vec<Vec<char>> = Vec::new();
    let mut j: usize = 0;
    while j < subs.len()
        invariant
            j <= subs.len(),
            vs@.map_values(|v: Vec<char>| v@) == version_names(subs@.take(j as int)),
        decreases subs.len() - j,
    {
        let t = trim_whitespace(&chars_of(subs[j].as_str()));
        assert(subs@.take(j + 1).drop_last() =~= subs@.take(j as int));
        let ghost before = vs@.map_values(|v: Vec<char>| v@);
        if t.len() > 0 {
            vs.push(t);
            assert(vs@.map_values(|v: Vec<char>| v@) =~= before.push(t@));
        }
        j += 1;
    }
    assert(subs@.take(subs.len() as int) =~= subs@);
    let complete = fs[i].complete || vs.len() > 0;
    (complete, vs)
}

/// Whether an `engineVersions` entry, trimmed, is one of `tokens`.
fn supports_any_of(ver: &Json, tokens: &Vec<String>, Ghost(vs): Ghost<Seq<Seq<char>>>) -> (r: bool)
    requires
        tokens.len() == vs.len(),
        forall|m: int| 0 <= m < vs.len() ==> (#[trigger] tokens@[m])@ == ue_token(vs[m]),
    ensures
        r == supports_any(ver@, vs),
{
    let k = key("engineVersions");
    match get_member(ver, &k) {
        Some(Json::Array(ev)) => {
            proof { lemma_array_view(*ev); }
            let ghost evv = elements_view(ev@);
            let mut found = false;
            let mut e: usize = 0;
            while e < ev.len()
                invariant
                    e <= ev.len(),
                    evv == elements_view(ev@),
                    found == exists|m: int, x: int| 0 <= m < vs.len() && 0 <= x < e && #[trigger] names_engine(evv[x], vs[m]),
                    tokens.len() == vs.len(),
                    forall|m: int| 0 <= m < vs.len() ==> (#[trigger] tokens@[m])@ == ue_token(vs[m]),
                decreases ev.len() - e,
            {
                assert(evv[e as int] == ev@[e as int]@);
                let ghost before = found;
                if let Json::Str(s) = &ev[e] {
                    let t = string_from(trim_whitespace(&chars_of(s.as_str())).as_slice());
                    let mut m: usize = 0;
                    while m < tokens.len()
                        invariant
                            m <= tokens.len(),
                            e < ev.len(),
                            evv == elements_view(ev@),
                            t@ == trim_ws(s@),
                            evv[e as int] == JsonV::Str(s@),
                            tokens.len() == vs.len(),
                            forall|m: int| 0 <= m < vs.len() ==> (#[trigger] tokens@[m])@ == ue_token(vs[m]),
                            found == (before || exists|mm: int| 0 <= mm < m && #[trigger] names_engine(evv[e as int], vs[mm])),
                        decreases tokens.len() - m,
                    {
                        if t == tokens[m] {
                            assert(names_engine(evv[e as int], vs[m as int]));
                            found = true;
                        } else {
                            assert(!names_engine(evv[e as int], vs[m as int]));
                        }
                        m += 1;
                    }
                    assert(found == exists|mm: int, x: int| 0 <= mm < vs.len() && 0 <= x < e + 1 && #[trigger] names_engine(evv[x], vs[mm])) by {
                        if found && !before {
                            let mm = choose|mm: int| 0 <= mm < m && #[trigger] names_engine(evv[e as int], vs[mm]);
                            assert(names_engine(evv[e as int], vs[mm]));
                        }
                    }
                } else {
                    assert(forall|mm: int| 0 <= mm < vs.len() ==> !#[trigger] names_engine(evv[e as int], vs[mm]));
                }
                e += 1;
            }
            found
        },
        _ => false,
    }
}

/// Sets `downloaded` to `d` on an object unless it already holds `d`.
fn flag_downloaded(j: Json, d: bool) -> (r: (Json, bool))
    ensures
        (r.0@, r.1) == flag(j@, d),
{
    let k = key("downloaded");
    let is_object = match &j {
        Json::Object(o) => {
            proof { lemma_object_view(*o); }
            true
        },
        _ => false,
    };
    if !is_object {
        return (j, false);
    }
    let current = match get_member(&j, &k) {
        Some(Json::Bool(b)) => Some(*b),
        _ => None,
    };
    if current == Some(d) {
        (j, false)
    } else {
        (set_member(j, k, Json::Bool(d)), true)
    }
}

/// Whether `j` is the array of the strings `names`, in order.
fn is_string_array(j: Option<&Json>, names: &Vec<String>) -> (r: bool)
    ensures
        r == (match j {
            Some(x) => x@ == JsonV::Array(Seq::new(names@.len(), |i: int| JsonV::Str(names@[i]@))),
            None => false,
        }),
{
    let ghost want = Seq::new(names@.len(), |i: int| JsonV::Str(names@[i]@));
    match j {
        Some(x) => {
            proof { assert(x@ == x.view_of()); }
            match x {
                Json::Array(a) => {
                    proof { lemma_array_view(*a); }
                    if a.len() != names.len() {
                        assert(elements_view(a@).len() != want.len());
                        return false;
                    }
                    let mut ok = true;
                    let mut i: usize = 0;
                    while i < a.len()
                        invariant
                            i <= a.len() == names.len(),
                            want == Seq::new(names@.len(), |i: int| JsonV::Str(names@[i]@)),
                            ok == forall|k: int| 0 <= k < i ==> #[trigger] elements_view(a@)[k] == want[k],
                        decreases a.len() - i,
                    {
                        let same = match &a[i] {
                            Json::Str(s) => *s == names[i],
                            _ => false,
                        };
                        assert(same == (elements_view(a@)[i as int] == want[i as int]));
                        ok = ok && same;
                        i += 1;
                    }
                    if ok {
                        assert(elements_view(a@) =~= want);
                    } else {
                        assert(elements_view(a@) != want);
                    }
                    ok
                },
                _ => false,
            }
        },
        None => false,
    }
}

/// One asset annotated against the downloads folder.
fn annotate_one(a: Json, downloads: &DownloadsIndex) -> (r: (Json, bool, bool))
    ensures
        (r.0@, r.1, r.2) == annotate_asset(a@, downloads.folders@),
{
    let ghost fs = downloads.folders@;
    let kt = key("title");
    let title = match get_member(&a, &kt) {
        Some(Json::Str(s)) => s.clone(),
        _ => String::new(),
    };
    assert(title@ == str_or_empty(member(a@, "title"@)));
    let (dl, vs) = local_state_of(downloads, &title);
    let ghost vsv = vs@.map_values(|v: Vec<char>| v@);
    let mut tokens: Vec<String> = Vec::new();
    for m in 0..vs.len()
        invariant
            vsv == vs@.map_values(|v: Vec<char>| v@),
            tokens.len() == m,
            forall|x: int| 0 <= x < m ==> (#[trigger] tokens@[x])@ == ue_token(vsv[x]),
    {
        let mut t: Vec<char> = Vec::new();
        t.push('U');
        t.push('E');
        t.push('_');
        let mm = &vs[m];
        for c in 0..mm.len()
            invariant
                mm@ == vs@[m as int]@,
                t@ == seq!['U', 'E', '_'] + vs@[m as int]@.take(c as int),
        {
            t.push(mm[c]);
            assert(vs@[m as int]@.take(c + 1) =~= vs@[m as int]@.take(c as int).push(vs@[m as int]@[c as int]));
        }
        assert(vs@[m as int]@.take(vs@[m as int]@.len() as int) =~= vs@[m as int]@);
        tokens.push(string_from(t.as_slice()));
    }
    // project versions
    let kp = key("projectVersions");
    let (a0, pv) = take_member(a, &kp);
    let mut changed = false;
    let a1 = match pv {
        Some(Json::Array(mut vers)) => {
            proof { lemma_array_view(vers); }
            let ghost old_vers = elements_view(vers@);
            let mut i: usize = 0;
            while i < vers.len()
                invariant
                    i <= vers.len() == old_vers.len(),
                    forall|k: int| 0 <= k < i ==> #[trigger] elements_view(vers@)[k] == annotate_version(old_vers[k], vsv).0,
                    forall|k: int| i <= k < vers.len() ==> #[trigger] elements_view(vers@)[k] == old_vers[k],
                    changed == exists|k: int| 0 <= k < i && #[trigger] annotate_version(old_vers[k], vsv).1,
                    tokens.len() == vsv.len(),
                    forall|x: int| 0 <= x < vsv.len() ==> (#[trigger] tokens@[x])@ == ue_token(vsv[x]),
                decreases vers.len() - i,
            {
                assert(elements_view(vers@)[i as int] == old_vers[i as int]);
                let ghost before = vers@;
                let ver = take_element(&mut vers, i);
                assert(ver@ == old_vers[i as int]);
                let s = supports_any_of(&ver, &tokens, Ghost(vsv));
                let (nv, ch) = flag_downloaded(ver, s);
                vers.set(i, nv);
                assert(ch == annotate_version(old_vers[i as int], vsv).1);
                changed = changed || ch;
                proof {
                    assert forall|k: int| 0 <= k < vers.len() && k != i implies #[trigger] elements_view(vers@)[k] == elements_view(before)[k] by {
                        assert(vers@[k] == before[k]);
                    }
                    assert(elements_view(vers@)[i as int] == annotate_version(old_vers[i as int], vsv).0);
                }
                i += 1;
            }
            let ghost newv = elements_view(vers@);
            proof {
                lemma_array_view(vers);
                assert(newv =~= Seq::new(old_vers.len(), |k: int| annotate_version(old_vers[k], vsv).0));
                lemma_set_twice(a@, "projectVersions"@, JsonV::Null, JsonV::Array(newv));
            }
            set_member(a0, kp, Json::Array(vers))
        },
        Some(other) => {
            let ghost ov = other@;
            let r = set_member(a0, kp, other);
            proof {
                lemma_set_twice(a@, "projectVersions"@, JsonV::Null, ov);
                lemma_set_same(a@, "projectVersions"@, ov);
                match ov {
                    JsonV::Array(_) => {
                        // `other` was not an array value
                        assert(false);
                    },
                    _ => {},
                }
            }
            r
        },
        None => a0,
    };
    assert((a1@, changed) == annotate_versions(a@, vsv));
    let is_object = match &a1 {
        Json::Object(o) => {
            proof { lemma_object_view(*o); }
            true
        },
        _ => false,
    };
    if !is_object {
        return (a1, dl, changed);
    }
    let (a2, c2) = flag_downloaded(a1, dl);
    let sorted = sort_dedup(&vs);
    let mut names: Vec<String> = Vec::new();
    for i in 0..sorted.len()
        invariant
            names.len() == i,
            forall|k: int| 0 <= k < i ==> (#[trigger] names@[k])@ == sorted@[k]@,
    {
        names.push(string_from(sorted[i].as_slice()));
    }
    let kd = key("downloadedVersions");
    let same = is_string_array(get_member(&a2, &kd), &names);
    proof {
        assert(Seq::new(names@.len(), |i: int| JsonV::Str(names@[i]@)) =~= Seq::new(
            sorted_unique(vsv).len(),
            |i: int| JsonV::Str(sorted_unique(vsv)[i]),
        ));
    }
    if !same {
        let mut items: Vec<Json> = Vec::new();
        for i in 0..names.len()
            invariant
                items.len() == i,
                forall|k: int| 0 <= k < i ==> (#[trigger] items@[k])@ == JsonV::Str(names@[k]@),
        {
            items.push(Json::Str(names[i].clone()));
        }
        proof {
            lemma_array_view(items);
            assert(elements_view(items@) =~= Seq::new(names@.len(), |i: int| JsonV::Str(names@[i]@)));
        }
        (set_member(a2, kd, Json::Array(items)), dl, true)
    } else {
        (a2, dl, changed || c2)
    }
}

/// Annotate the Fab library document with `downloaded` flags (per asset and
/// per project version) and `downloadedVersions` lists, from what the
/// downloads folder holds. Returns (total_assets, marked_downloaded, changed).
pub fn annotate_downloaded_flags(value: &mut Json, downloads: &DownloadsIndex) -> (r: (usize, usize, bool))
    ensures
        final(value)@ == annotated(old(value)@, downloads.folders@).0,
        r.0 == annotated(old(value)@, downloads.folders@).1,
        r.1 == annotated(old(value)@, downloads.folders@).2,
        r.2 == annotated(old(value)@, downloads.folders@).3,
{
    let ghost fs = downloads.folders@;
    let ghost v0 = old(value)@;
    let mut v = Json::Null;
    std::mem::swap(value, &mut v);
    let kr = key("results");
    let (v1, res) = take_member(v, &kr);
    match res {
        Some(Json::Array(mut rs)) => {
            proof { lemma_array_view(rs); }
            let ghost old_rs = elements_view(rs@);
            let mut total: usize = 0;
            let mut marked: usize = 0;
            let mut changed = false;
            let mut i: usize = 0;
            while i < rs.len()
                invariant
                    i <= rs.len() == old_rs.len(),
                    total == i,
                    marked == count_downloaded(old_rs, fs, i as int),
                    marked <= i,
                    forall|k: int| 0 <= k < i ==> #[trigger] elements_view(rs@)[k] == annotate_asset(old_rs[k], fs).0,
                    forall|k: int| i <= k < rs.len() ==> #[trigger] elements_view(rs@)[k] == old_rs[k],
                    changed == exists|k: int| 0 <= k < i && #[trigger] annotate_asset(old_rs[k], fs).2,
                    fs == downloads.folders@,
                decreases rs.len() - i,
            {
                assert(elements_view(rs@)[i as int] == old_rs[i as int]);
                let ghost before = rs@;
                let asset = take_element(&mut rs, i);
                assert(asset@ == old_rs[i as int]);
                let (na, dl, ch) = annotate_one(asset, downloads);
                rs.set(i, na);
                assert(ch == annotate_asset(old_rs[i as int], fs).2);
                proof {
                    assert forall|k: int| 0 <= k < rs.len() && k != i implies #[trigger] elements_view(rs@)[k] == elements_view(before)[k] by {
                        assert(rs@[k] == before[k]);
                    }
                }
                total += 1;
                if dl {
                    marked += 1;
                }
                changed = changed || ch;
                i += 1;
            }
            let ghost newr = elements_view(rs@);
            proof {
                lemma_array_view(rs);
                assert(newr =~= Seq::new(old_rs.len(), |k: int| annotate_asset(old_rs[k], fs).0));
                lemma_set_twice(v0, "results"@, JsonV::Null, JsonV::Array(newr));
            }
            *value = set_member(v1, kr, Json::Array(rs));
            (total, marked, changed)
        },
        Some(other) => {
            let ghost ov = other@;
            *value = set_member(v1, kr, other);
            proof {
                lemma_set_twice(v0, "results"@, JsonV::Null, ov);
                lemma_set_same(v0, "results"@, ov);
                match ov {
                    JsonV::Array(_) => { assert(false); },
                    _ => {},
                }
            }
            (0, 0, false)
        },
        None => {
            *value = v1;
            (0, 0, false)
        },
    }
}


proof fn lemma_member_names_differ()
    ensures
        "title"@ != "projectVersions"@,
        "title"@ != "downloaded"@,
        "title"@ != "downloadedVersions"@,
        "projectVersions"@ != "downloaded"@,
        "projectVersions"@ != "downloadedVersions"@,
        "downloaded"@ != "downloadedVersions"@,
        "engineVersions"@ != "downloaded"@,
{
    reveal_strlit("title");
    reveal_strlit("projectVersions");
    reveal_strlit("downloaded");
    reveal_strlit("downloadedVersions");
    reveal_strlit("engineVersions");
    assert("title"@.len() == 5);
    assert("projectVersions"@.len() == 15);
    assert("downloaded"@.len() == 10);
    assert("downloadedVersions"@.len() == 18);
    assert("engineVersions"@.len() == 14);
}

/// An annotated project version is left as it is by a second annotation.
proof fn lemma_version_stable(ver: JsonV, vs: Seq<Seq<char>>)
    ensures
        annotate_version(annotate_version(ver, vs).0, vs) == (annotate_version(ver, vs).0, false),
{
    lemma_member_names_differ();
    let d = supports_any(ver, vs);
    lemma_get_set(ver, "downloaded"@, JsonV::Bool(d), "engineVersions"@);
    lemma_get_set(ver, "downloaded"@, JsonV::Bool(d), "downloaded"@);
}

/// An annotated asset is left as it is by a second annotation against the
/// same downloads folder, and counts as downloaded just as before.
proof fn lemma_asset_stable(a: JsonV, fs: Seq<DownloadFolder>)
    ensures
        annotate_asset(annotate_asset(a, fs).0, fs) == (annotate_asset(a, fs).0, annotate_asset(a, fs).1, false),
{
    lemma_member_names_differ();
    let st = local_state(fs, str_or_empty(member(a, "title"@)));
    let vs = st.1;
    let a1 = annotate_versions(a, vs);
    let r = annotate_asset(a, fs).0;
    // what the first pass wrote
    let pv = "projectVersions"@;
    let dk = "downloaded"@;
    let dvk = "downloadedVersions"@;
    let nv = versions_value(vs);
    match member(a, pv) {
        Some(JsonV::Array(vers)) => {
            let newv = Seq::new(vers.len(), |i: int| annotate_version(vers[i], vs).0);
            lemma_get_set(a, pv, JsonV::Array(newv), "title"@);
            lemma_get_set(a, pv, JsonV::Array(newv), pv);
        },
        _ => {},
    }
    if a1.0 is Object {
        let a2 = flag(a1.0, st.0);
        lemma_get_set(a1.0, dk, JsonV::Bool(st.0), "title"@);
        lemma_get_set(a1.0, dk, JsonV::Bool(st.0), pv);
        lemma_get_set(a1.0, dk, JsonV::Bool(st.0), dk);
        lemma_get_set(a1.0, dk, JsonV::Bool(st.0), dvk);
        lemma_get_set(a2.0, dvk, nv, "title"@);
        lemma_get_set(a2.0, dvk, nv, pv);
        lemma_get_set(a2.0, dvk, nv, dk);
        lemma_get_set(a2.0, dvk, nv, dvk);
        // the title is unchanged, so the disk state is the same
        assert(member(r, "title"@) == member(a, "title"@));
        // project versions: each is stable
        match member(a, pv) {
            Some(JsonV::Array(vers)) => {
                let newv = Seq::new(vers.len(), |i: int| annotate_version(vers[i], vs).0);
                assert(member(r, pv) == Some(JsonV::Array(newv)));
                assert forall|i: int| 0 <= i < newv.len() implies #[trigger] annotate_version(newv[i], vs) == (newv[i], false) by {
                    lemma_version_stable(vers[i], vs);
                }
                let again = Seq::new(newv.len(), |i: int| annotate_version(newv[i], vs).0);
                assert(again =~= newv);
                lemma_set_same(r, pv, JsonV::Array(newv));
                assert(!(exists|i: int| 0 <= i < newv.len() && #[trigger] annotate_version(newv[i], vs).1));
            },
            _ => {
                assert(member(r, pv) == member(a, pv));
            },
        }
        assert(annotate_versions(r, vs) == (r, false));
        assert(member(r, dk) == Some(JsonV::Bool(st.0)));
        assert(member(r, dvk) == Some(nv));
    } else {
        assert(annotate_versions(r, vs) == (r, false)) by {
            match member(a, pv) {
                Some(JsonV::Array(vers)) => {
                    lemma_get_set(a, pv, JsonV::Array(Seq::new(vers.len(), |i: int| annotate_version(vers[i], vs).0)), pv);
                },
                _ => {},
            }
        }
    }
}

/// Assets that annotate alike count alike.
pub proof fn lemma_count_same(rs: Seq<JsonV>, ts: Seq<JsonV>, fs: Seq<DownloadFolder>, n: int)
    requires
        0 <= n <= rs.len(),
        rs.len() == ts.len(),
        forall|i: int| 0 <= i < rs.len() ==> #[trigger] annotate_asset(ts[i], fs).1 == annotate_asset(rs[i], fs).1,
    ensures
        count_downloaded(ts, fs, n) == count_downloaded(rs, fs, n),
    decreases n,
{
    if n > 0 {
        lemma_count_same(rs, ts, fs, n - 1);
        assert(annotate_asset(ts[n - 1], fs).1 == annotate_asset(rs[n - 1], fs).1);
    }
}

/// Annotation is idempotent: annotating an annotated document against the
/// same downloads folder changes nothing, and finds the same counts.
pub proof fn lemma_annotate_idempotent(v: JsonV, fs: Seq<DownloadFolder>)
    ensures
        annotated(annotated(v, fs).0, fs).0 == annotated(v, fs).0,
        annotated(annotated(v, fs).0, fs).1 == annotated(v, fs).1,
        annotated(annotated(v, fs).0, fs).2 == annotated(v, fs).2,
        !annotated(annotated(v, fs).0, fs).3,
{
    let rk = "results"@;
    match member(v, rk) {
        Some(JsonV::Array(rs)) => {
            let newr = Seq::new(rs.len(), |i: int| annotate_asset(rs[i], fs).0);
            let v1 = with_member(v, rk, JsonV::Array(newr));
            lemma_get_set(v, rk, JsonV::Array(newr), rk);
            assert(member(v1, rk) == Some(JsonV::Array(newr)));
            assert forall|i: int| 0 <= i < newr.len() implies #[trigger] annotate_asset(newr[i], fs) == (newr[i], annotate_asset(rs[i], fs).1, false) by {
                lemma_asset_stable(rs[i], fs);
            }
            let again = Seq::new(newr.len(), |i: int| annotate_asset(newr[i], fs).0);
            assert(again =~= newr);
            lemma_set_same(v1, rk, JsonV::Array(newr));
            lemma_count_same(rs, newr, fs, rs.len() as int);
            assert(!(exists|i: int| 0 <= i < newr.len() && #[trigger] annotate_asset(newr[i], fs).2));
        },
        _ => {},
    }
}

/// No more assets are marked downloaded than there are assets.
pub proof fn lemma_marked_at_most_total(v: JsonV, fs: Seq<DownloadFolder>)
    ensures
        annotated(v, fs).2 <= annotated(v, fs).1,
{
    if let Some(JsonV::Array(rs)) = member(v, "results"@) {
        lemma_count_bound(rs, fs, rs.len() as int);
    }
}

/// At most `n` of the first `n` assets count as downloaded.
pub proof fn lemma_count_bound(rs: Seq<JsonV>, fs: Seq<DownloadFolder>, n: int)
    ensures
        count_downloaded(rs, fs, n) <= if n < 0 { 0 } else { n },
    decreases n,
{
    if n > 0 {
        lemma_count_bound(rs, fs, n - 1);
    }
}

/// Position of the first element satisfying `p`, or -1.
pub open spec fn first_pos(rs: Seq<JsonV>, p: spec_fn(JsonV) -> bool) -> int
    decreases rs.len(),
{
    if rs.len() == 0 {
        -1
    } else if p(rs[0]) {
        0
    } else {
        let r = first_pos(rs.drop_first(), p);
        if r < 0 {
            -1
        } else {
            r + 1
        }
    }
}

/// `first_pos` finds the first element satisfying the predicate.
pub proof fn lemma_first_pos(rs: Seq<JsonV>, p: spec_fn(JsonV) -> bool, i: int)
    requires
        0 <= i <= rs.len(),
        forall|k: int| 0 <= k < i ==> !p(#[trigger] rs[k]),
        i == rs.len() || p(rs[i]),
    ensures
        first_pos(rs, p) == (if i == rs.len() { -1 } else { i }),
    decreases i,
{
    if rs.len() > 0 && i > 0 {
        let t = rs.drop_first();
        assert(!p(rs[0]));
        assert forall|k: int| 0 <= k < i - 1 implies !p(#[trigger] t[k]) by {
            assert(t[k] == rs[k + 1]);
        }
        if i < rs.len() {
            assert(t[i - 1] == rs[i]);
        }
        lemma_first_pos(t, p, i - 1);
    }
}

/// The asset that a download of `namespace`/`asset_id` is recorded on.
pub open spec fn is_asset(namespace: Seq<char>, asset_id: Seq<char>) -> spec_fn(JsonV) -> bool {
    |a: JsonV|
        str_or_empty(member(a, "assetNamespace"@)) == namespace && str_or_empty(
            member(a, "assetId"@),
        ) == asset_id
}

/// Whether a project version is the downloaded artifact, or (when the engine
/// version is known) lists that engine version.
pub open spec fn marks_version(ver: JsonV, artifact_id: Seq<char>, mm: Option<Seq<char>>) -> bool {
    ||| str_or_empty(member(ver, "artifactId"@)) == artifact_id
    ||| match mm {
        Some(m) => supports_any(ver, seq![m]),
        None => false,
    }
}

/// `Some(true)` unless it already is.
pub open spec fn mark_true(j: JsonV) -> (JsonV, bool) {
    flag(j, true)
}

/// The `downloadedVersions` list with `m` added unless a string equal to it
/// is already there; a member that is not an array is left alone, and an
/// absent one becomes `[m]`.
pub open spec fn add_version(a: JsonV, m: Seq<char>) -> (JsonV, bool) {
    match member(a, "downloadedVersions"@) {
        None => (with_member(a, "downloadedVersions"@, JsonV::Array(seq![JsonV::Str(m)])), true),
        Some(JsonV::Array(arr)) => if exists|k: int| 0 <= k < arr.len() && #[trigger] arr[k] == JsonV::Str(m) {
            (a, false)
        } else {
            (with_member(a, "downloadedVersions"@, JsonV::Array(arr.push(JsonV::Str(m)))), true)
        },
        Some(_) => (a, false),
    }
}

/// Whether marking changes one of the first `n` project versions.
pub open spec fn marks_any(vers: Seq<JsonV>, artifact_id: Seq<char>, mm: Option<Seq<char>>, n: int) -> bool {
    exists|i: int| 0 <= i < n && marks_version(vers[i], artifact_id, mm) && #[trigger] mark_true(vers[i]).1
}

/// The downloaded asset marked: asset flag, engine version list, and the
/// flags of the project versions that the download covers.
pub open spec fn mark_asset(a: JsonV, artifact_id: Seq<char>, mm: Option<Seq<char>>) -> (JsonV, bool) {
    if a is Object {
        let a1 = mark_true(a);
        let a2 = match mm {
            Some(m) => add_version(a1.0, m),
            None => (a1.0, false),
        };
        match member(a2.0, "projectVersions"@) {
            Some(JsonV::Array(vers)) => (
                with_member(a2.0, "projectVersions"@, JsonV::Array(Seq::new(vers.len(), |i: int|
                    if marks_version(vers[i], artifact_id, mm) { mark_true(vers[i]).0 } else { vers[i] }))),
                a1.1 || a2.1 || marks_any(vers, artifact_id, mm, vers.len() as int),
            ),
            _ => (a2.0, a1.1 || a2.1),
        }
    } else {
        (a, false)
    }
}

/// Whether the asset lists a project version for `artifact_id`.
pub open spec fn has_artifact(a: JsonV, artifact_id: Seq<char>) -> bool {
    match member(a, "projectVersions"@) {
        Some(JsonV::Array(vers)) => exists|i: int| 0 <= i < vers.len() && str_or_empty(member(#[trigger] vers[i], "artifactId"@)) == artifact_id,
        _ => false,
    }
}

/// What recording a download does to the cached Fab library document.
pub open spec fn recorded(v: JsonV, namespace: Seq<char>, asset_id: Seq<char>, artifact_id: Seq<char>, mm: Option<Seq<char>>) -> CacheUpdateV {
    match member(v, "results"@) {
        Some(JsonV::Array(rs)) => {
            let i = first_pos(rs, is_asset(namespace, asset_id));
            if i < 0 {
                CacheUpdateV { doc: v, changed: false, found_asset: false, found_version: false }
            } else {
                let m = mark_asset(rs[i], artifact_id, mm);
                CacheUpdateV {
                    doc: with_member(v, "results"@, JsonV::Array(rs.update(i, m.0))),
                    changed: m.1,
                    found_asset: true,
                    found_version: has_artifact(rs[i], artifact_id),
                }
            }
        },
        _ => CacheUpdateV { doc: v, changed: false, found_asset: false, found_version: false },
    }
}

/// The outcome of recording a download in the cached Fab library.
pub struct CacheUpdateV {
    pub doc: JsonV,
    pub changed: bool,
    pub found_asset: bool,
    pub found_version: bool,
}

/// What [`record_download`] reports.
pub struct CacheUpdate {
    /// Whether the document changed (and should be written back).
    pub changed: bool,
    /// Whether an asset with the namespace and id was found.
    pub found_asset: bool,
    /// Whether that asset lists the artifact among its project versions.
    pub found_version: bool,
}


/// The view of an optional string.
pub open spec fn opt_view(o: Option<String>) -> Option<Seq<char>> {
    match o {
        Some(s) => Some(s@),
        None => None,
    }
}

/// `member.as_str().unwrap_or("")` as a `String`.
fn str_member(j: &Json, k: &String) -> (r: String)
    ensures
        r@ == str_or_empty(member(j@, k@)),
{
    match get_member(j, k) {
        Some(Json::Str(s)) => s.clone(),
        Some(other) => {
            proof { assert(other@ == other.view_of()); }
            String::new()
        },
        None => String::new(),
    }
}

/// Adds engine version `m` to `downloadedVersions` as the cache update does.
fn add_version_to(a: Json, m: &String) -> (r: (Json, bool))
    ensures
        (r.0@, r.1) == add_version(a@, m@),
{
    let kd = key("downloadedVersions");
    let (a0, dv) = take_member(a, &kd);
    match dv {
        None => {
            let mut items: Vec<Json> = Vec::new();
            items.push(Json::Str(m.clone()));
            proof {
                lemma_array_view(items);
                assert(elements_view(items@) =~= seq![JsonV::Str(m@)]);
            }
            (set_member(a0, kd, Json::Array(items)), true)
        },
        Some(Json::Array(mut arr)) => {
            proof { lemma_array_view(arr); }
            let ghost old_arr = elements_view(arr@);
            let mut present = false;
            let mut i: usize = 0;
            while i < arr.len()
                invariant
                    i <= arr.len(),
                    old_arr == elements_view(arr@),
                    present == exists|k: int| 0 <= k < i && #[trigger] old_arr[k] == JsonV::Str(m@),
                decreases arr.len() - i,
            {
                let same = match &arr[i] {
                    Json::Str(s) => *s == *m,
                    other => {
                        proof { assert(other@ == other.view_of()); }
                        false
                    },
                };
                assert(same == (old_arr[i as int] == JsonV::Str(m@)));
                present = present || same;
                i += 1;
            }
            if present {
                proof {
                    lemma_set_twice(a@, kd@, JsonV::Null, JsonV::Array(old_arr));
                    lemma_set_same(a@, kd@, JsonV::Array(old_arr));
                }
                (set_member(a0, kd, Json::Array(arr)), false)
            } else {
                arr.push(Json::Str(m.clone()));
                proof {
                    lemma_array_view(arr);
                    assert(elements_view(arr@) =~= old_arr.push(JsonV::Str(m@)));
                    lemma_set_twice(a@, kd@, JsonV::Null, JsonV::Array(old_arr.push(JsonV::Str(m@))));
                }
                (set_member(a0, kd, Json::Array(arr)), true)
            }
        },
        Some(other) => {
            let ghost ov = other@;
            let r = set_member(a0, kd, other);
            proof {
                lemma_set_twice(a@, kd@, JsonV::Null, ov);
                lemma_set_same(a@, kd@, ov);
                assert(other@ == other.view_of());
            }
            (r, false)
        },
    }
}

/// `token` is the `engineVersions` entry for the engine version `mm`.
pub open spec fn token_for(token: Option<String>, mm: Option<Seq<char>>) -> bool {
    match (token, mm) {
        (Some(t), Some(g)) => t@ == ue_token(g),
        (None, None) => true,
        _ => false,
    }
}

/// Whether the cache update marks this project version.
fn marks_version_of(ver: &Json, artifact_id: &String, token: &Option<String>, Ghost(mm): Ghost<Option<Seq<char>>>) -> (r: bool)
    requires
        token_for(*token, mm),
    ensures
        r == marks_version(ver@, artifact_id@, mm),
{
    let ka = key("artifactId");
    let art = str_member(ver, &ka);
    if art == *artifact_id {
        return true;
    }
    match token {
        Some(t) => {
            let mut ts: Vec<String> = Vec::new();
            ts.push(t.clone());
            let ghost g = mm->0;
            let ghost gs = seq![g];
            proof { assert(ts@[0]@ == ue_token(gs[0])); }
            supports_any_of(ver, &ts, Ghost(gs))
        },
        None => false,
    }
}

/// Whether the asset lists a project version with the artifact id.
fn has_artifact_of(a: &Json, artifact_id: &String) -> (r: bool)
    ensures
        r == has_artifact(a@, artifact_id@),
{
    let kp = key("projectVersions");
    let ka = key("artifactId");
    match get_member(a, &kp) {
        Some(Json::Array(vers)) => {
            proof { lemma_array_view(*vers); }
            let ghost vv = elements_view(vers@);
            let mut found = false;
            let mut i: usize = 0;
            while i < vers.len()
                invariant
                    i <= vers.len(),
                    vv == elements_view(vers@),
                    ka@ == "artifactId"@,
                    found == exists|k: int| 0 <= k < i && str_or_empty(member(#[trigger] vv[k], "artifactId"@)) == artifact_id@,
                decreases vers.len() - i,
            {
                let art = str_member(&vers[i], &ka);
                assert(vv[i as int] == vers@[i as int]@);
                found = found || art == *artifact_id;
                i += 1;
            }
            found
        },
        Some(other) => {
            proof { assert(other@ == other.view_of()); }
            false
        },
        None => false,
    }
}

/// Marks the downloaded asset (see [`mark_asset`]).
fn mark_asset_of(a: Json, artifact_id: &String, mm: &Option<String>) -> (r: (Json, bool))
    ensures
        (r.0@, r.1) == mark_asset(a@, artifact_id@, opt_view(*mm)),
{
    let ghost mmv = opt_view(*mm);
    let is_object = match &a {
        Json::Object(o) => {
            proof { lemma_object_view(*o); }
            true
        },
        _ => false,
    };
    if !is_object {
        return (a, false);
    }
    let (a1, c1) = flag_downloaded(a, true);
    let (a2, c2) = match mm {
        Some(m) => add_version_to(a1, m),
        None => (a1, false),
    };
    let token: Option<String> = match mm {
        Some(m) => {
            let mut t: Vec<char> = Vec::new();
            t.push('U');
            t.push('E');
            t.push('_');
            let mc = chars_of(m.as_str());
            for c in 0..mc.len()
                invariant
                    t@ == seq!['U', 'E', '_'] + mc@.take(c as int),
            {
                t.push(mc[c]);
                assert(mc@.take(c + 1) =~= mc@.take(c as int).push(mc@[c as int]));
            }
            assert(mc@.take(mc.len() as int) =~= mc@);
            Some(string_from(t.as_slice()))
        },
        None => None,
    };
    let kp = key("projectVersions");
    let (a3, pv) = take_member(a2, &kp);
    match pv {
        Some(Json::Array(mut vers)) => {
            proof { lemma_array_view(vers); }
            let ghost old_vers = elements_view(vers@);
            let ghost f = |v: JsonV| if marks_version(v, artifact_id@, mmv) { mark_true(v).0 } else { v };
            let mut changed = c1 || c2;
            let mut i: usize = 0;
            while i < vers.len()
                invariant
                    i <= vers.len() == old_vers.len(),
                    forall|k: int| 0 <= k < i ==> #[trigger] elements_view(vers@)[k] == (if marks_version(old_vers[k], artifact_id@, mmv) { mark_true(old_vers[k]).0 } else { old_vers[k] }),
                    forall|k: int| i <= k < vers.len() ==> #[trigger] elements_view(vers@)[k] == old_vers[k],
                    changed == (c1 || c2 || marks_any(old_vers, artifact_id@, mmv, i as int)),
                    token_for(token, mmv),
                decreases vers.len() - i,
            {
                assert(elements_view(vers@)[i as int] == old_vers[i as int]);
                let ghost before = vers@;
                let ver = take_element(&mut vers, i);
                assert(ver@ == old_vers[i as int]);
                let marks = marks_version_of(&ver, artifact_id, &token, Ghost(mmv));
                let (nv, ch) = if marks {
                    flag_downloaded(ver, true)
                } else {
                    (ver, false)
                };
                vers.set(i, nv);
                proof {
                    assert forall|k: int| 0 <= k < vers.len() && k != i implies #[trigger] elements_view(vers@)[k] == elements_view(before)[k] by {
                        assert(vers@[k] == before[k]);
                    }
                }
                assert(ch == (marks_version(old_vers[i as int], artifact_id@, mmv) && mark_true(old_vers[i as int]).1));
                assert(marks_any(old_vers, artifact_id@, mmv, i + 1) == (marks_any(old_vers, artifact_id@, mmv, i as int) || ch));
                changed = changed || ch;
                i += 1;
            }
            let ghost newv = elements_view(vers@);
            proof {
                let ghost a1v = mark_true(a@);
                let ghost a2v = match opt_view(*mm) {
                    Some(m) => add_version(a1v.0, m),
                    None => (a1v.0, false),
                };
                assert(a1v.1 == c1);
                assert(a2v.1 == c2);
                assert(a2v.0 == a2@);
                assert(member(a2v.0, "projectVersions"@) == Some(JsonV::Array(old_vers)));
                lemma_array_view(vers);
                assert(newv =~= Seq::new(old_vers.len(), |k: int| if marks_version(old_vers[k], artifact_id@, mmv) { mark_true(old_vers[k]).0 } else { old_vers[k] }));
                lemma_set_twice(a2@, kp@, JsonV::Null, JsonV::Array(newv));
            }
            (set_member(a3, kp, Json::Array(vers)), changed)
        },
        Some(other) => {
            let ghost ov = other@;
            let r = set_member(a3, kp, other);
            proof {
                lemma_set_twice(a2@, kp@, JsonV::Null, ov);
                lemma_set_same(a2@, kp@, ov);
                assert(other@ == other.view_of());
            }
            (r, c1 || c2)
        },
        None => (a3, c1 || c2),
    }
}

/// Records a finished download of `namespace`/`asset_id`/`artifact_id`
/// (optionally for engine version `ue_major_minor_version`) in the cached
/// Fab library document.
pub fn record_download(
    value: &mut Json,
    namespace: &String,
    asset_id: &String,
    artifact_id: &String,
    ue_major_minor_version: &Option<String>,
) -> (r: CacheUpdate)
    ensures
        final(value)@ == recorded(old(value)@, namespace@, asset_id@, artifact_id@, opt_view(*ue_major_minor_version)).doc,
        r.changed == recorded(old(value)@, namespace@, asset_id@, artifact_id@, opt_view(*ue_major_minor_version)).changed,
        r.found_asset == recorded(old(value)@, namespace@, asset_id@, artifact_id@, opt_view(*ue_major_minor_version)).found_asset,
        r.found_version == recorded(old(value)@, namespace@, asset_id@, artifact_id@, opt_view(*ue_major_minor_version)).found_version,
{
    let ghost v0 = old(value)@;
    let ghost p = is_asset(namespace@, asset_id@);
    let mut v = Json::Null;
    std::mem::swap(value, &mut v);
    let kr = key("results");
    let kn = key("assetNamespace");
    let ki = key("assetId");
    let (v1, res) = take_member(v, &kr);
    match res {
        Some(Json::Array(mut rs)) => {
            proof { lemma_array_view(rs); }
            let ghost old_rs = elements_view(rs@);
            let mut i: usize = 0;
            while i < rs.len() && !(str_member(&rs[i], &kn) == *namespace && str_member(&rs[i], &ki) == *asset_id)
                invariant
                    i <= rs.len(),
                    old_rs == elements_view(rs@),
                    kn@ == "assetNamespace"@,
                    ki@ == "assetId"@,
                    p == is_asset(namespace@, asset_id@),
                    forall|k: int| 0 <= k < i ==> !p(#[trigger] old_rs[k]),
                decreases rs.len() - i,
            {
                assert(old_rs[i as int] == rs@[i as int]@);
                i += 1;
            }
            if i < rs.len() {
                assert(old_rs[i as int] == rs@[i as int]@);
            }
            proof { lemma_first_pos(old_rs, p, i as int); }
            if i == rs.len() {
                let ghost ov = JsonV::Array(old_rs);
                *value = set_member(v1, kr, Json::Array(rs));
                proof {
                    lemma_set_twice(v0, "results"@, JsonV::Null, ov);
                    lemma_set_same(v0, "results"@, ov);
                }
                return CacheUpdate { changed: false, found_asset: false, found_version: false };
            }
            let asset = take_element(&mut rs, i);
            let found_version = has_artifact_of(&asset, artifact_id);
            let (na, changed) = mark_asset_of(asset, artifact_id, ue_major_minor_version);
            rs.set(i, na);
            proof {
                lemma_array_view(rs);
                assert(elements_view(rs@) =~= old_rs.update(i as int, na@));
                lemma_set_twice(v0, "results"@, JsonV::Null, JsonV::Array(elements_view(rs@)));
            }
            *value = set_member(v1, kr, Json::Array(rs));
            CacheUpdate { changed, found_asset: true, found_version }
        },
        Some(other) => {
            let ghost ov = other@;
            *value = set_member(v1, kr, other);
            proof {
                lemma_set_twice(v0, "results"@, JsonV::Null, ov);
                lemma_set_same(v0, "results"@, ov);
                assert(other@ == other.view_of());
            }
            CacheUpdate { changed: false, found_asset: false, found_version: false }
        },
        None => {
            *value = v1;
            CacheUpdate { changed: false, found_asset: false, found_version: false }
        },
    }
}


proof fn lemma_cache_names_differ()
    ensures
        "assetNamespace"@ != "downloaded"@,
        "assetNamespace"@ != "downloadedVersions"@,
        "assetNamespace"@ != "projectVersions"@,
        "assetId"@ != "downloaded"@,
        "assetId"@ != "downloadedVersions"@,
        "assetId"@ != "projectVersions"@,
        "artifactId"@ != "downloaded"@,
        "engineVersions"@ != "downloaded"@,
        "downloaded"@ != "downloadedVersions"@,
        "downloaded"@ != "projectVersions"@,
        "downloadedVersions"@ != "projectVersions"@,
{
    reveal_strlit("assetNamespace");
    reveal_strlit("assetId");
    reveal_strlit("artifactId");
    reveal_strlit("engineVersions");
    reveal_strlit("downloaded");
    reveal_strlit("downloadedVersions");
    reveal_strlit("projectVersions");
    assert("assetNamespace"@.len() == 14);
    assert("assetId"@.len() == 7);
    assert("artifactId"@[0] == 'a');
    assert("downloaded"@[0] == 'd');
    assert("engineVersions"@.len() == 14);
    assert("downloaded"@.len() == 10);
    assert("downloadedVersions"@.len() == 18);
    assert("projectVersions"@.len() == 15);
}

/// Marking a version leaves what decides whether it is marked unchanged.
proof fn lemma_marks_version_kept(ver: JsonV, artifact_id: Seq<char>, mm: Option<Seq<char>>)
    ensures
        marks_version(mark_true(ver).0, artifact_id, mm) == marks_version(ver, artifact_id, mm),
        mark_true(mark_true(ver).0) == (mark_true(ver).0, false),
{
    lemma_cache_names_differ();
    lemma_get_set(ver, "downloaded"@, JsonV::Bool(true), "artifactId"@);
    lemma_get_set(ver, "downloaded"@, JsonV::Bool(true), "engineVersions"@);
    lemma_get_set(ver, "downloaded"@, JsonV::Bool(true), "downloaded"@);
}

/// What marking an asset writes, read back.
proof fn lemma_mark_asset_members(a: JsonV, artifact_id: Seq<char>, mm: Option<Seq<char>>)
    requires
        a is Object,
    ensures
        ({
            let r = mark_asset(a, artifact_id, mm).0;
            &&& r is Object
            &&& member(r, "downloaded"@) == Some(JsonV::Bool(true))
            &&& member(r, "assetNamespace"@) == member(a, "assetNamespace"@)
            &&& member(r, "assetId"@) == member(a, "assetId"@)
            &&& (mm is Some ==> !add_version(r, mm->0).1)
            &&& (mm is Some ==> add_version(r, mm->0).0 == r)
        }),
{
    lemma_cache_names_differ();
    let a1 = mark_true(a);
    lemma_get_set(a, "downloaded"@, JsonV::Bool(true), "downloaded"@);
    lemma_get_set(a, "downloaded"@, JsonV::Bool(true), "assetNamespace"@);
    lemma_get_set(a, "downloaded"@, JsonV::Bool(true), "assetId"@);
    lemma_get_set(a, "downloaded"@, JsonV::Bool(true), "downloadedVersions"@);
    lemma_get_set(a, "downloaded"@, JsonV::Bool(true), "projectVersions"@);
    assert(member(a1.0, "downloaded"@) == Some(JsonV::Bool(true)));
    let a2 = match mm {
        Some(m) => add_version(a1.0, m),
        None => (a1.0, false),
    };
    if let Some(m) = mm {
        match member(a1.0, "downloadedVersions"@) {
            None => {
                let nv = JsonV::Array(seq![JsonV::Str(m)]);
                lemma_get_set(a1.0, "downloadedVersions"@, nv, "downloaded"@);
                lemma_get_set(a1.0, "downloadedVersions"@, nv, "downloadedVersions"@);
                lemma_get_set(a1.0, "downloadedVersions"@, nv, "assetNamespace"@);
                lemma_get_set(a1.0, "downloadedVersions"@, nv, "assetId"@);
                lemma_get_set(a1.0, "downloadedVersions"@, nv, "projectVersions"@);
            },
            Some(JsonV::Array(arr)) => {
                if !(exists|k: int| 0 <= k < arr.len() && #[trigger] arr[k] == JsonV::Str(m)) {
                    let nv = JsonV::Array(arr.push(JsonV::Str(m)));
                    lemma_get_set(a1.0, "downloadedVersions"@, nv, "downloaded"@);
                    lemma_get_set(a1.0, "downloadedVersions"@, nv, "downloadedVersions"@);
                    lemma_get_set(a1.0, "downloadedVersions"@, nv, "assetNamespace"@);
                    lemma_get_set(a1.0, "downloadedVersions"@, nv, "assetId"@);
                    lemma_get_set(a1.0, "downloadedVersions"@, nv, "projectVersions"@);
                    assert(arr.push(JsonV::Str(m))[arr.len() as int] == JsonV::Str(m));
                }
            },
            _ => {},
        }
    }
    let r = mark_asset(a, artifact_id, mm).0;
    match member(a2.0, "projectVersions"@) {
        Some(JsonV::Array(vers)) => {
            let nv = JsonV::Array(Seq::new(vers.len(), |i: int|
                if marks_version(vers[i], artifact_id, mm) { mark_true(vers[i]).0 } else { vers[i] }));
            lemma_get_set(a2.0, "projectVersions"@, nv, "downloaded"@);
            lemma_get_set(a2.0, "projectVersions"@, nv, "downloadedVersions"@);
            lemma_get_set(a2.0, "projectVersions"@, nv, "assetNamespace"@);
            lemma_get_set(a2.0, "projectVersions"@, nv, "assetId"@);
        },
        _ => {},
    }
    if let Some(m) = mm {
        assert(member(r, "downloadedVersions"@) == member(a2.0, "downloadedVersions"@));
        match member(a1.0, "downloadedVersions"@) {
            None => {
                assert(member(r, "downloadedVersions"@) == Some(JsonV::Array(seq![JsonV::Str(m)])));
                assert(seq![JsonV::Str(m)][0] == JsonV::Str(m));
            },
            Some(JsonV::Array(arr)) => {
                if exists|k: int| 0 <= k < arr.len() && #[trigger] arr[k] == JsonV::Str(m) {
                    assert(member(r, "downloadedVersions"@) == Some(JsonV::Array(arr)));
                } else {
                    assert(member(r, "downloadedVersions"@) == Some(JsonV::Array(arr.push(JsonV::Str(m)))));
                    assert(arr.push(JsonV::Str(m))[arr.len() as int] == JsonV::Str(m));
                }
            },
            _ => {},
        }
    }
}

/// Marking an asset a second time for the same download changes nothing.
proof fn lemma_mark_asset_stable(a: JsonV, artifact_id: Seq<char>, mm: Option<Seq<char>>)
    ensures
        mark_asset(mark_asset(a, artifact_id, mm).0, artifact_id, mm) == (mark_asset(a, artifact_id, mm).0, false),
{
    if a is Object {
        lemma_cache_names_differ();
        lemma_mark_asset_members(a, artifact_id, mm);
        let r = mark_asset(a, artifact_id, mm).0;
        // the first pass: where the project versions came from
        let a1 = mark_true(a);
        let a2 = match mm {
            Some(m) => add_version(a1.0, m),
            None => (a1.0, false),
        };
        assert(mark_true(r) == (r, false));
        let b2 = match mm {
            Some(m) => add_version(r, m),
            None => (r, false),
        };
        assert(b2 == (r, false));
        match member(a2.0, "projectVersions"@) {
            Some(JsonV::Array(vers)) => {
                let newv = Seq::new(vers.len(), |i: int|
                    if marks_version(vers[i], artifact_id, mm) { mark_true(vers[i]).0 } else { vers[i] });
                lemma_get_set(a2.0, "projectVersions"@, JsonV::Array(newv), "projectVersions"@);
                assert(member(r, "projectVersions"@) == Some(JsonV::Array(newv)));
                assert forall|i: int| 0 <= i < newv.len() implies
                    (if marks_version(#[trigger] newv[i], artifact_id, mm) { mark_true(newv[i]).0 } else { newv[i] }) == newv[i]
                    && !(marks_version(newv[i], artifact_id, mm) && mark_true(newv[i]).1) by {
                    lemma_marks_version_kept(vers[i], artifact_id, mm);
                }
                let again = Seq::new(newv.len(), |i: int|
                    if marks_version(newv[i], artifact_id, mm) { mark_true(newv[i]).0 } else { newv[i] });
                assert(again =~= newv);
                lemma_set_same(r, "projectVersions"@, JsonV::Array(newv));
                assert(!marks_any(newv, artifact_id, mm, newv.len() as int));
            },
            _ => {
                assert(member(r, "projectVersions"@) == member(a2.0, "projectVersions"@)) by {
                    lemma_get_set(a, "downloaded"@, JsonV::Bool(true), "projectVersions"@);
                    if let Some(m) = mm {
                        match member(a1.0, "downloadedVersions"@) {
                            None => {
                                lemma_get_set(a1.0, "downloadedVersions"@, JsonV::Array(seq![JsonV::Str(m)]), "projectVersions"@);
                            },
                            Some(JsonV::Array(arr)) => {
                                lemma_get_set(a1.0, "downloadedVersions"@, JsonV::Array(arr.push(JsonV::Str(m))), "projectVersions"@);
                            },
                            _ => {},
                        }
                    }
                }
            },
        }
    }
}

/// Reporting no change means the asset is left as it was.
proof fn lemma_mark_asset_unchanged(a: JsonV, artifact_id: Seq<char>, mm: Option<Seq<char>>)
    requires
        !mark_asset(a, artifact_id, mm).1,
    ensures
        mark_asset(a, artifact_id, mm).0 == a,
{
    if a is Object {
        let a1 = mark_true(a);
        let a2 = match mm {
            Some(m) => add_version(a1.0, m),
            None => (a1.0, false),
        };
        assert(a2.0 == a);
        match member(a2.0, "projectVersions"@) {
            Some(JsonV::Array(vers)) => {
                let newv = Seq::new(vers.len(), |i: int|
                    if marks_version(vers[i], artifact_id, mm) { mark_true(vers[i]).0 } else { vers[i] });
                assert forall|i: int| 0 <= i < vers.len() implies #[trigger] newv[i] == vers[i] by {
                    if marks_version(vers[i], artifact_id, mm) {
                        assert(!mark_true(vers[i]).1);
                    }
                }
                assert(newv =~= vers);
                lemma_set_same(a, "projectVersions"@, JsonV::Array(vers));
            },
            _ => {},
        }
    }
}

/// Recording the same download twice is recording it once: the second time
/// changes nothing, and finds the same asset and version.
pub proof fn lemma_record_idempotent(v: JsonV, namespace: Seq<char>, asset_id: Seq<char>, artifact_id: Seq<char>, mm: Option<Seq<char>>)
    ensures
        ({
            let first = recorded(v, namespace, asset_id, artifact_id, mm);
            let second = recorded(first.doc, namespace, asset_id, artifact_id, mm);
            &&& second.doc == first.doc
            &&& !second.changed
            &&& second.found_asset == first.found_asset
        }),
{
    let rk = "results"@;
    let p = is_asset(namespace, asset_id);
    match member(v, rk) {
        Some(JsonV::Array(rs)) => {
            let i = first_pos(rs, p);
            if i >= 0 {
                lemma_first_pos_range(rs, p);
                let m = mark_asset(rs[i], artifact_id, mm);
                let rs2 = rs.update(i, m.0);
                let d1 = with_member(v, rk, JsonV::Array(rs2));
                lemma_get_set(v, rk, JsonV::Array(rs2), rk);
                if rs[i] is Object {
                    lemma_mark_asset_members(rs[i], artifact_id, mm);
                } else {
                    assert(m.0 == rs[i]);
                }
                assert(p(rs2[i]));
                assert forall|k: int| 0 <= k < i implies !p(#[trigger] rs2[k]) by {
                    assert(rs2[k] == rs[k]);
                }
                lemma_first_pos(rs2, p, i);
                lemma_mark_asset_stable(rs[i], artifact_id, mm);
                assert(rs2.update(i, m.0) =~= rs2);
                lemma_set_same(d1, rk, JsonV::Array(rs2));
            } else {
                lemma_set_same(v, rk, JsonV::Array(rs));
            }
        },
        _ => {},
    }
}

/// When recording reports no change, the document is exactly as before;
/// when it finds the asset, the asset (if an object) is marked downloaded.
pub proof fn lemma_record_effect(v: JsonV, namespace: Seq<char>, asset_id: Seq<char>, artifact_id: Seq<char>, mm: Option<Seq<char>>)
    ensures
        ({
            let r = recorded(v, namespace, asset_id, artifact_id, mm);
            &&& !r.changed ==> r.doc == v
            &&& r.found_asset ==> exists|i: int| #![trigger recorded_asset(r.doc, i)]
                is_asset(namespace, asset_id)(recorded_asset(r.doc, i))
                && (recorded_asset(v, i) is Object ==> member(recorded_asset(r.doc, i), "downloaded"@) == Some(JsonV::Bool(true)))
        }),
{
    let rk = "results"@;
    let p = is_asset(namespace, asset_id);
    match member(v, rk) {
        Some(JsonV::Array(rs)) => {
            let i = first_pos(rs, p);
            if i >= 0 {
                lemma_first_pos_range(rs, p);
                let m = mark_asset(rs[i], artifact_id, mm);
                let rs2 = rs.update(i, m.0);
                let d1 = with_member(v, rk, JsonV::Array(rs2));
                lemma_get_set(v, rk, JsonV::Array(rs2), rk);
                if !m.1 {
                    lemma_mark_asset_unchanged(rs[i], artifact_id, mm);
                    assert(rs2 =~= rs);
                    lemma_set_same(v, rk, JsonV::Array(rs));
                }
                if rs[i] is Object {
                    lemma_mark_asset_members(rs[i], artifact_id, mm);
                } else {
                    assert(m.0 == rs[i]);
                }
                assert(recorded_asset(d1, i) == rs2[i]);
                assert(recorded_asset(v, i) == rs[i]);
            } else {
                lemma_set_same(v, rk, JsonV::Array(rs));
            }
        },
        _ => {},
    }
}

/// An asset whose title leads to a folder under the downloads folder that
/// holds the completion marker counts as downloaded and is flagged
/// `downloaded: true`, whatever engine-version subfolders that folder has.
/// `p` is the first folder with the asset's sanitized title as its name.
pub proof fn lemma_complete_folder_marks_asset(a: JsonV, fs: Seq<DownloadFolder>, title: Seq<char>, p: int)
    requires
        a is Object,
        member(a, "title"@) == Some(JsonV::Str(title)),
        title.len() > 0,
        0 <= p < fs.len(),
        fs[p].name@ == sanitized_title(title),
        fs[p].complete,
        forall|k: int| 0 <= k < p ==> (#[trigger] fs[k]).name@ != fs[p].name@,
    ensures
        annotate_asset(a, fs).1,
        member(annotate_asset(a, fs).0, "downloaded"@) == Some(JsonV::Bool(true)),
{
    lemma_cache_names_differ();
    lemma_folder_pos(fs, sanitized_title(title), p);
    let st = local_state(fs, str_or_empty(member(a, "title"@)));
    assert(st.0);
    let a1 = annotate_versions(a, st.1);
    match member(a, "projectVersions"@) {
        Some(JsonV::Array(vers)) => {
            let nv = JsonV::Array(Seq::new(vers.len(), |i: int| annotate_version(vers[i], st.1).0));
            lemma_get_set(a, "projectVersions"@, nv, "downloaded"@);
        },
        _ => {},
    }
    assert(a1.0 is Object);
    let a2 = flag(a1.0, true);
    lemma_get_set(a1.0, "downloaded"@, JsonV::Bool(true), "downloaded"@);
    assert(member(a2.0, "downloaded"@) == Some(JsonV::Bool(true)));
    let nvs = versions_value(st.1);
    lemma_get_set(a2.0, "downloadedVersions"@, nvs, "downloaded"@);
}

/// `folder_pos` is -1 when no entry has the name, else the first that does.
proof fn lemma_folder_pos_meaning(fs: Seq<DownloadFolder>, name: Seq<char>)
    ensures
        -1 <= folder_pos(fs, name) < fs.len(),
        folder_pos(fs, name) >= 0 ==> fs[folder_pos(fs, name)].name@ == name,
        forall|k: int| 0 <= k < fs.len() && (k < folder_pos(fs, name) || folder_pos(fs, name) < 0) ==> (#[trigger] fs[k]).name@ != name,
    decreases fs.len(),
{
    if fs.len() > 0 && fs[0].name@ != name {
        let t = fs.drop_first();
        lemma_folder_pos_meaning(t, name);
        assert forall|k: int| 0 <= k < fs.len() && (k < folder_pos(fs, name) || folder_pos(fs, name) < 0) implies (#[trigger] fs[k]).name@ != name by {
            if k > 0 {
                assert(fs[k] == t[k - 1]);
            }
        }
    }
}

/// Engine-version subfolder names are found exactly when some subfolder
/// name is not blank.
proof fn lemma_version_names_nonempty(subs: Seq<String>)
    ensures
        version_names(subs).len() > 0 <==> exists|q: int| 0 <= q < subs.len() && trim_ws((#[trigger] subs[q])@).len() > 0,
    decreases subs.len(),
{
    if subs.len() > 0 {
        let init = subs.drop_last();
        lemma_version_names_nonempty(init);
        if exists|q: int| 0 <= q < init.len() && trim_ws((#[trigger] init[q])@).len() > 0 {
            let q = choose|q: int| 0 <= q < init.len() && trim_ws((#[trigger] init[q])@).len() > 0;
            assert(subs[q] == init[q]);
        }
        if exists|q: int| 0 <= q < subs.len() && trim_ws((#[trigger] subs[q])@).len() > 0 {
            let q = choose|q: int| 0 <= q < subs.len() && trim_ws((#[trigger] subs[q])@).len() > 0;
            if q < init.len() {
                assert(init[q] == subs[q]);
            }
        }
    }
}

/// An asset counts as downloaded, and is flagged so, exactly when it has a
/// title and the first folder under the downloads folder named by its
/// sanitized title holds the completion marker or has a subfolder for an
/// engine version (a subfolder name that is not blank).
pub proof fn lemma_asset_downloaded_iff(a: JsonV, fs: Seq<DownloadFolder>, title: Seq<char>)
    requires
        a is Object,
        member(a, "title"@) == Some(JsonV::Str(title)),
    ensures
        annotate_asset(a, fs).1 <==> (title.len() > 0 && exists|p: int| 0 <= p < fs.len()
            && (#[trigger] fs[p]).name@ == sanitized_title(title)
            && (forall|k: int| 0 <= k < p ==> (#[trigger] fs[k]).name@ != sanitized_title(title))
            && (fs[p].complete || exists|q: int| 0 <= q < fs[p].complete_subfolders@.len()
                && trim_ws((#[trigger] fs[p].complete_subfolders@[q])@).len() > 0)),
        member(annotate_asset(a, fs).0, "downloaded"@) == Some(JsonV::Bool(annotate_asset(a, fs).1)),
{
    lemma_cache_names_differ();
    let name = sanitized_title(title);
    let st = local_state(fs, title);
    assert(str_or_empty(member(a, "title"@)) == title);
    lemma_folder_pos_meaning(fs, name);
    let q = if folder_pos(fs, name) < 0 { fs.len() as int } else { folder_pos(fs, name) };
    lemma_folder_pos(fs, name, q);
    if q < fs.len() {
        lemma_version_names_nonempty(fs[q].complete_subfolders@);
    }
    if title.len() > 0 && exists|p: int| 0 <= p < fs.len()
            && (#[trigger] fs[p]).name@ == name
            && (forall|k: int| 0 <= k < p ==> (#[trigger] fs[k]).name@ != name) {
        let p = choose|p: int| 0 <= p < fs.len()
            && (#[trigger] fs[p]).name@ == name
            && (forall|k: int| 0 <= k < p ==> (#[trigger] fs[k]).name@ != name);
        if p < q {
            assert(fs[p].name@ != name);
        } else if q < p {
            assert(fs[q].name@ != name);
        }
        assert(p == q);
    }
    let a1 = annotate_versions(a, st.1);
    match member(a, "projectVersions"@) {
        Some(JsonV::Array(vers)) => {
            let nv = JsonV::Array(Seq::new(vers.len(), |i: int| annotate_version(vers[i], st.1).0));
            lemma_get_set(a, "projectVersions"@, nv, "downloaded"@);
        },
        _ => {},
    }
    let a2 = flag(a1.0, st.0);
    lemma_get_set(a1.0, "downloaded"@, JsonV::Bool(st.0), "downloaded"@);
    let nvs = versions_value(st.1);
    lemma_get_set(a2.0, "downloadedVersions"@, nvs, "downloaded"@);
}

/// The marked count covers every asset that counts as downloaded: when one
/// of the first `n` does, the count is at least one.
pub proof fn lemma_count_includes(rs: Seq<JsonV>, fs: Seq<DownloadFolder>, n: int, i: int)
    requires
        0 <= i < n <= rs.len(),
        annotate_asset(rs[i], fs).1,
    ensures
        count_downloaded(rs, fs, n) >= 1,
    decreases n,
{
    if i < n - 1 {
        lemma_count_includes(rs, fs, n - 1, i);
    }
}

/// Recording a download marks every project version of the asset that the
/// download covers: the version of the downloaded artifact, and, when the
/// engine version `m` is known, every version whose `engineVersions` lists
/// `UE_<m>` (after trimming). `vers[j]` is such a version; `ev[e]` is the
/// entry that names the engine, when that is why it is covered.
pub proof fn lemma_record_marks_covered_versions(
    a: JsonV,
    artifact_id: Seq<char>,
    mm: Option<Seq<char>>,
    vers: Seq<JsonV>,
    j: int,
    ev: Seq<JsonV>,
    e: int,
)
    requires
        a is Object,
        member(a, "projectVersions"@) == Some(JsonV::Array(vers)),
        0 <= j < vers.len(),
        vers[j] is Object,
        str_or_empty(member(vers[j], "artifactId"@)) == artifact_id || ({
            &&& mm is Some
            &&& member(vers[j], "engineVersions"@) == Some(JsonV::Array(ev))
            &&& 0 <= e < ev.len()
            &&& ev[e] matches JsonV::Str(s) && trim_ws(s) == "UE_"@ + mm->0
        }),
    ensures
        member(mark_asset(a, artifact_id, mm).0, "projectVersions"@) matches Some(JsonV::Array(nv))
            && nv.len() == vers.len()
            && member(nv[j], "downloaded"@) == Some(JsonV::Bool(true)),
{
    lemma_cache_names_differ();
    reveal_strlit("UE_");
    assert("UE_"@ =~= seq!['U', 'E', '_']);
    if str_or_empty(member(vers[j], "artifactId"@)) != artifact_id {
        let m = mm->0;
        let vs = seq![m];
        assert(vs[0] == m);
        assert("UE_"@ + m =~= ue_token(m));
        assert(names_engine(ev[e], vs[0]));
        assert(member(vers[j], "engineVersions"@) == Some(JsonV::Array(ev)));
        assert(vs.len() == 1);
        assert(supports_any(vers[j], vs)) by {
            match member(vers[j], "engineVersions"@) {
                Some(JsonV::Array(ev2)) => {
                    assert(ev2 == ev);
                    assert(names_engine(ev2[e], vs[0]));
                },
                _ => {},
            }
        }
    }
    assert(marks_version(vers[j], artifact_id, mm));
    let a1 = mark_true(a);
    lemma_get_set(a, "downloaded"@, JsonV::Bool(true), "projectVersions"@);
    assert(member(a1.0, "projectVersions"@) == Some(JsonV::Array(vers)));
    let a2 = match mm {
        Some(m) => add_version(a1.0, m),
        None => (a1.0, false),
    };
    if let Some(m) = mm {
        match member(a1.0, "downloadedVersions"@) {
            None => {
                lemma_get_set(a1.0, "downloadedVersions"@, JsonV::Array(seq![JsonV::Str(m)]), "projectVersions"@);
            },
            Some(JsonV::Array(arr)) => {
                lemma_get_set(a1.0, "downloadedVersions"@, JsonV::Array(arr.push(JsonV::Str(m))), "projectVersions"@);
            },
            _ => {},
        }
    }
    assert(member(a2.0, "projectVersions"@) == Some(JsonV::Array(vers)));
    lemma_get_set(a1.0, "downloaded"@, JsonV::Bool(true), "downloaded"@);
    assert(a2.0 is Object) by {
        lemma_get_set(a, "downloaded"@, JsonV::Bool(true), "downloaded"@);
        if let Some(m) = mm {
            lemma_get_set(a1.0, "downloadedVersions"@, JsonV::Array(seq![JsonV::Str(m)]), "downloaded"@);
            match member(a1.0, "downloadedVersions"@) {
                Some(JsonV::Array(arr)) => {
                    lemma_get_set(a1.0, "downloadedVersions"@, JsonV::Array(arr.push(JsonV::Str(m))), "downloaded"@);
                },
                _ => {},
            }
        }
    }
    let nv = Seq::new(vers.len(), |i: int|
        if marks_version(vers[i], artifact_id, mm) { mark_true(vers[i]).0 } else { vers[i] });
    lemma_get_set(a2.0, "projectVersions"@, JsonV::Array(nv), "projectVersions"@);
    assert(nv[j] == mark_true(vers[j]).0);
    lemma_get_set(vers[j], "downloaded"@, JsonV::Bool(true), "downloaded"@);
}

/// Recording a download leaves alone every project version that it does
/// not cover: one of another artifact that does not list `UE_<m>` for the
/// known engine version `m` (or any version, when `m` is unknown).
pub proof fn lemma_record_leaves_uncovered_versions(a: JsonV, artifact_id: Seq<char>, mm: Option<Seq<char>>, vers: Seq<JsonV>, j: int)
    requires
        a is Object,
        member(a, "projectVersions"@) == Some(JsonV::Array(vers)),
        0 <= j < vers.len(),
        str_or_empty(member(vers[j], "artifactId"@)) != artifact_id,
        mm is Some ==> !(member(vers[j], "engineVersions"@) matches Some(JsonV::Array(ev))
            && exists|e: int| 0 <= e < ev.len() && (#[trigger] ev[e] matches JsonV::Str(s) && trim_ws(s) == "UE_"@ + mm->0)),
    ensures
        member(mark_asset(a, artifact_id, mm).0, "projectVersions"@) matches Some(JsonV::Array(nv))
            && nv.len() == vers.len()
            && nv[j] == vers[j],
{
    lemma_cache_names_differ();
    reveal_strlit("UE_");
    assert("UE_"@ =~= seq!['U', 'E', '_']);
    if let Some(m) = mm {
        let vs = seq![m];
        assert("UE_"@ + m =~= ue_token(m));
        if supports_any(vers[j], vs) {
            match member(vers[j], "engineVersions"@) {
                Some(JsonV::Array(ev)) => {
                    let (mi, e) = choose|mi: int, e: int| 0 <= mi < vs.len() && 0 <= e < ev.len() && #[trigger] names_engine(ev[e], vs[mi]);
                    assert(vs[mi] == m);
                    assert(ev[e] matches JsonV::Str(s) && trim_ws(s) == "UE_"@ + m);
                    assert(false);
                },
                _ => {},
            }
        }
    }
    assert(!marks_version(vers[j], artifact_id, mm));
    let a1 = mark_true(a);
    lemma_get_set(a, "downloaded"@, JsonV::Bool(true), "projectVersions"@);
    lemma_get_set(a, "downloaded"@, JsonV::Bool(true), "downloaded"@);
    let a2 = match mm {
        Some(m) => add_version(a1.0, m),
        None => (a1.0, false),
    };
    if let Some(m) = mm {
        match member(a1.0, "downloadedVersions"@) {
            None => {
                lemma_get_set(a1.0, "downloadedVersions"@, JsonV::Array(seq![JsonV::Str(m)]), "projectVersions"@);
            },
            Some(JsonV::Array(arr)) => {
                lemma_get_set(a1.0, "downloadedVersions"@, JsonV::Array(arr.push(JsonV::Str(m))), "projectVersions"@);
            },
            _ => {},
        }
    }
    assert(member(a2.0, "projectVersions"@) == Some(JsonV::Array(vers)));
    let nv = Seq::new(vers.len(), |i: int|
        if marks_version(vers[i], artifact_id, mm) { mark_true(vers[i]).0 } else { vers[i] });
    lemma_get_set(a2.0, "projectVersions"@, JsonV::Array(nv), "projectVersions"@);
    assert(nv[j] == vers[j]);
}

/// In the whole document: an asset whose folder is complete on disk is
/// flagged `downloaded: true` and counted among the marked assets.
pub proof fn lemma_annotated_marks_complete(v: JsonV, fs: Seq<DownloadFolder>, rs: Seq<JsonV>, i: int, title: Seq<char>, p: int)
    requires
        member(v, "results"@) == Some(JsonV::Array(rs)),
        0 <= i < rs.len(),
        rs[i] is Object,
        member(rs[i], "title"@) == Some(JsonV::Str(title)),
        title.len() > 0,
        0 <= p < fs.len(),
        fs[p].name@ == sanitized_title(title),
        fs[p].complete,
        forall|k: int| 0 <= k < p ==> (#[trigger] fs[k]).name@ != fs[p].name@,
    ensures
        annotated(v, fs).2 >= 1,
        member(annotated(v, fs).0, "results"@) matches Some(JsonV::Array(nr))
            && nr.len() == rs.len()
            && member(nr[i], "downloaded"@) == Some(JsonV::Bool(true)),
{
    lemma_complete_folder_marks_asset(rs[i], fs, title, p);
    lemma_count_includes(rs, fs, rs.len() as int, i);
    let nr = Seq::new(rs.len(), |k: int| annotate_asset(rs[k], fs).0);
    lemma_get_set(v, "results"@, JsonV::Array(nr), "results"@);
    assert(nr[i] == annotate_asset(rs[i], fs).0);
}

/// In the whole document: recording a download marks the covered project
/// versions of the first asset with the namespace and id (see
/// [`lemma_record_marks_covered_versions`]).
pub proof fn lemma_recorded_marks_covered_versions(
    v: JsonV,
    namespace: Seq<char>,
    asset_id: Seq<char>,
    artifact_id: Seq<char>,
    mm: Option<Seq<char>>,
    rs: Seq<JsonV>,
    i: int,
    vers: Seq<JsonV>,
    j: int,
    ev: Seq<JsonV>,
    e: int,
)
    requires
        member(v, "results"@) == Some(JsonV::Array(rs)),
        0 <= i < rs.len(),
        str_or_empty(member(rs[i], "assetNamespace"@)) == namespace,
        str_or_empty(member(rs[i], "assetId"@)) == asset_id,
        forall|k: int| 0 <= k < i ==> !(str_or_empty(member(#[trigger] rs[k], "assetNamespace"@)) == namespace
            && str_or_empty(member(rs[k], "assetId"@)) == asset_id),
        rs[i] is Object,
        member(rs[i], "projectVersions"@) == Some(JsonV::Array(vers)),
        0 <= j < vers.len(),
        vers[j] is Object,
        str_or_empty(member(vers[j], "artifactId"@)) == artifact_id || ({
            &&& mm is Some
            &&& member(vers[j], "engineVersions"@) == Some(JsonV::Array(ev))
            &&& 0 <= e < ev.len()
            &&& ev[e] matches JsonV::Str(s) && trim_ws(s) == "UE_"@ + mm->0
        }),
    ensures
        recorded(v, namespace, asset_id, artifact_id, mm).found_asset,
        member(recorded(v, namespace, asset_id, artifact_id, mm).doc, "results"@) matches Some(JsonV::Array(nr))
            && nr.len() == rs.len()
            && (member(nr[i], "projectVersions"@) matches Some(JsonV::Array(nv))
                && nv.len() == vers.len()
                && member(nv[j], "downloaded"@) == Some(JsonV::Bool(true))),
{
    let p = is_asset(namespace, asset_id);
    assert forall|k: int| 0 <= k < i implies !p(#[trigger] rs[k]) by {
        assert(!(str_or_empty(member(rs[k], "assetNamespace"@)) == namespace
            && str_or_empty(member(rs[k], "assetId"@)) == asset_id));
    }
    lemma_first_pos(rs, p, i);
    lemma_record_marks_covered_versions(rs[i], artifact_id, mm, vers, j, ev, e);
    let m = mark_asset(rs[i], artifact_id, mm);
    lemma_get_set(v, "results"@, JsonV::Array(rs.update(i, m.0)), "results"@);
}

/// The `i`-th asset of a Fab library document.
pub open spec fn recorded_asset(v: JsonV, i: int) -> JsonV {
    match member(v, "results"@) {
        Some(JsonV::Array(rs)) => rs[i],
        _ => JsonV::Null,
    }
}

/// `first_pos` is -1 or a position of the sequence.
pub proof fn lemma_first_pos_range(rs: Seq<JsonV>, p: spec_fn(JsonV) -> bool)
    ensures
        -1 <= first_pos(rs, p) < rs.len(),
        first_pos(rs, p) >= 0 ==> p(rs[first_pos(rs, p)]),
        forall|k: int| 0 <= k < rs.len() && (k < first_pos(rs, p) || first_pos(rs, p) < 0) ==> !p(#[trigger] rs[k]),
    decreases rs.len(),
{
    if rs.len() > 0 && !p(rs[0]) {
        let t = rs.drop_first();
        lemma_first_pos_range(t, p);
        assert forall|k: int| 0 <= k < rs.len() && (k < first_pos(rs, p) || first_pos(rs, p) < 0) implies !p(#[trigger] rs[k]) by {
            if k > 0 {
                assert(rs[k] == t[k - 1]);
            }
        }
    }
}

} // verus!
