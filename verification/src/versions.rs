//! Engine version strings: reading them out of folder names and project
//! files, normalising them to `major.minor`, and picking an engine for a
//! requested version.
use vstd::prelude::*;
use crate::json::{get_str, get_u64, member, opt_str, opt_u64, Json, JsonV};
use crate::models::{refuse, ApiError, Status, UnrealEngineInfo};
use crate::search::{first_index, lemma_first_index_at, lemma_first_index_meaning, lemma_first_index_none};
use crate::text::{all_digits, all_digits_exec, chars_of, contains_chars, contains_seq, eq_ignore_ascii_case, eq_ignore_case, is_digit, is_hex_digit, lex_less, lex_lt, split_at_first, split_first, starts_with_chars, string_from, trim_whitespace, trim_ws, same_chars, lemma_lex_asymmetric, lemma_lex_irreflexive, lemma_lex_total, lemma_lex_transitive};

verus! {

/// The decimal digit character for `d < 10`.
pub open spec fn digit_char(d: nat) -> char {
    ((d + 48) as u8) as char
}

/// The decimal text of `n`, without leading zeros.
pub open spec fn decimal(n: nat) -> Seq<char>
    decreases n,
{
    if n < 10 {
        seq![digit_char(n)]
    } else {
        decimal(n / 10).push(digit_char(n % 10))
    }
}

/// Appends the decimal text of `n`.
pub fn push_decimal(out: &mut Vec<char>, n: u64)
    ensures
        final(out)@ == old(out)@ + decimal(n as nat),
    decreases n,
{
    if n >= 10 {
        push_decimal(out, n / 10);
    }
    let d: u8 = (n % 10) as u8;
    out.push((d + 48) as char);
    proof {
        if n >= 10 {
            assert(old(out)@ + decimal(n as nat) =~= old(out)@ + decimal((n / 10) as nat) + seq![digit_char((n % 10) as nat)]);
        } else {
            assert(old(out)@ + decimal(n as nat) =~= old(out)@.push(digit_char(n as nat)));
        }
    }
}

// ---------------------------------------------------------------------------
// Version in a folder name

/// A run of digits and dots at the front of `s`.
pub open spec fn version_run(s: Seq<char>) -> Seq<char>
    decreases s.len(),
{
    if s.len() > 0 && (is_digit(s[0]) || s[0] == '.') {
        seq![s[0]] + version_run(s.drop_first())
    } else {
        Seq::empty()
    }
}

/// The first digit sequence of a name, with the dots inside and after it
/// (`5`, `5.2`, `5.2.1`); `None` when the name has no digit.
pub open spec fn version_in_name(s: Seq<char>) -> Option<Seq<char>>
    decreases s.len(),
{
    if s.len() == 0 {
        None
    } else if is_digit(s[0]) {
        Some(version_run(s))
    } else {
        version_in_name(s.drop_first())
    }
}

/// Extracts the first version-like run of digits and dots from a name.
pub fn parse_version_from_name(name: &str) -> (r: Option<String>)
    ensures
        match r {
            Some(v) => version_in_name(name@) == Some(v@),
            None => version_in_name(name@) is None,
        },
{
    let v = chars_of(name);
    let ghost s = v@;
    let mut i: usize = 0;
    assert(s.skip(0) =~= s);
    while i < v.len() && !('0' <= v[i] && v[i] <= '9')
        invariant
            i <= v.len(),
            s == v@,
            version_in_name(s) == version_in_name(s.skip(i as int)),
        decreases v.len() - i,
    {
        assert(s.skip(i as int).drop_first() =~= s.skip(i + 1));
        i += 1;
    }
    if i == v.len() {
        return None;
    }
    let start = i;
    let mut out: Vec<char> = Vec::new();
    while i < v.len() && (('0' <= v[i] && v[i] <= '9') || v[i] == '.')
        invariant
            start <= i <= v.len(),
            s == v@,
            version_run(s.skip(start as int)) == out@ + version_run(s.skip(i as int)),
        decreases v.len() - i,
    {
        assert(s.skip(i as int).drop_first() =~= s.skip(i + 1));
        assert(out@ + version_run(s.skip(i as int)) =~= out@.push(v[i as int]) + version_run(s.skip(i + 1)));
        out.push(v[i]);
        i += 1;
    }
    assert(out@ + version_run(s.skip(i as int)) =~= out@);
    Some(string_from(out.as_slice()))
}

// ---------------------------------------------------------------------------
// major.minor

/// `major.minor` of a version: the text before the first dot must be a
/// non-empty run of digits, and the text between the first and second dot
/// (`0` when there is no dot) a run of digits.
pub open spec fn major_minor_of(u: Seq<char>) -> Option<Seq<char>> {
    let major = split_first(u, '.').0;
    let minor = match split_first(u, '.').1 {
        Some(rest) => split_first(rest, '.').0,
        None => seq!['0'],
    };
    if major.len() > 0 && all_digits(major) && all_digits(minor) {
        Some(major + seq!['.'] + minor)
    } else {
        None
    }
}

/// Executable form of [`major_minor_of`].
fn major_minor(u: &Vec<char>) -> (r: Option<Vec<char>>)
    ensures
        match r {
            Some(m) => major_minor_of(u@) == Some(m@),
            None => major_minor_of(u@) is None,
        },
{
    let (major, rest) = split_at_first(u, '.');
    let minor = match rest {
        Some(t) => split_at_first(&t, '.').0,
        None => {
            let mut z: Vec<char> = Vec::new();
            z.push('0');
            assert(z@ =~= seq!['0']);
            z
        },
    };
    if major.len() > 0 && all_digits_exec(&major) && all_digits_exec(&minor) {
        let mut out = major;
        out.push('.');
        let mut i: usize = 0;
        let ghost base = out@;
        while i < minor.len()
            invariant
                i <= minor.len(),
                out@ == base + minor@.take(i as int),
            decreases minor.len() - i,
        {
            out.push(minor[i]);
            assert(minor@.take(i + 1) =~= minor@.take(i as int).push(minor@[i as int]));
            i += 1;
        }
        assert(minor@.take(i as int) =~= minor@);
        Some(out)
    } else {
        None
    }
}

/// The `UE_` prefix that launcher-installed engine folders carry.
pub open spec fn ue_prefix() -> Seq<char> {
    seq!['U', 'E', '_']
}

/// `s` without a leading `UE_`.
pub open spec fn strip_ue(s: Seq<char>) -> Seq<char> {
    if ue_prefix().is_prefix_of(s) {
        s.skip(3)
    } else {
        s
    }
}

/// An engine association (`5`, `5.4`, `5.4.1`, `UE_5.4`, with whitespace
/// around) as `major.minor`; `None` for anything else, such as a build GUID.
pub open spec fn normalized_association(a: Seq<char>) -> Option<Seq<char>> {
    let t = trim_ws(a);
    if t.len() == 0 {
        None
    } else {
        major_minor_of(strip_ue(t))
    }
}

/// Normalises an engine association to `major.minor`.
pub fn normalize_engine_association(assoc: &str) -> (r: Option<String>)
    ensures
        match r {
            Some(m) => normalized_association(assoc@) == Some(m@),
            None => normalized_association(assoc@) is None,
        },
{
    let t = trim_whitespace(&chars_of(assoc));
    if t.len() == 0 {
        return None;
    }
    let mut p: Vec<char> = Vec::new();
    p.push('U');
    p.push('E');
    p.push('_');
    assert(p@ =~= ue_prefix());
    let u = if starts_with_chars(&t, &p) {
        let mut w: Vec<char> = Vec::new();
        let mut i: usize = 3;
        while i < t.len()
            invariant
                3 <= i <= t.len(),
                w@ == t@.subrange(3, i as int),
            decreases t.len() - i,
        {
            w.push(t[i]);
            assert(t@.subrange(3, i + 1) =~= t@.subrange(3, i as int).push(t@[i as int]));
            i += 1;
        }
        assert(t@.subrange(3, t.len() as int) =~= t@.skip(3));
        w
    } else {
        t
    };
    match major_minor(&u) {
        Some(m) => Some(string_from(m.as_slice())),
        None => None,
    }
}

/// `ver` as `major.minor` when it has that shape, else `ver` itself.
pub open spec fn to_major_minor_spec(ver: Seq<char>) -> Seq<char> {
    match major_minor_of(ver) {
        Some(m) => m,
        None => ver,
    }
}

/// Converts a version like `5.6.1` or `5.6` to `major.minor` (`5.6`).
pub fn to_major_minor(ver: &str) -> (r: String)
    ensures
        r@ == to_major_minor_spec(ver@),
{
    match major_minor(&chars_of(ver)) {
        Some(m) => string_from(m.as_slice()),
        None => ver.to_string(),
    }
}

// ---------------------------------------------------------------------------
// Build GUIDs

/// Positions of the dashes in an 8-4-4-4-12 GUID.
pub open spec fn guid_dash_at(i: int) -> bool {
    i == 8 || i == 13 || i == 18 || i == 23
}

/// An 8-4-4-4-12 group of hexadecimal digits separated by dashes.
pub open spec fn guid_like(s: Seq<char>) -> bool {
    &&& s.len() == 36
    &&& forall|i: int| 0 <= i < 36 ==> (if guid_dash_at(i) { s[i] == '-' } else { is_hex_digit(#[trigger] s[i]) })
}

/// Executable form of [`guid_like`].
pub fn is_guid_like(s: &Vec<char>) -> (r: bool)
    ensures
        r == guid_like(s@),
{
    if s.len() != 36 {
        return false;
    }
    for i in 0..36
        invariant
            s.len() == 36,
            forall|k: int| 0 <= k < i ==> (if guid_dash_at(k) { s@[k] == '-' } else { is_hex_digit(#[trigger] s@[k]) }),
    {
        let c = s[i];
        let ok = if i == 8 || i == 13 || i == 18 || i == 23 {
            c == '-'
        } else {
            ('0' <= c && c <= '9') || ('a' <= c && c <= 'f') || ('A' <= c && c <= 'F')
        };
        if !ok {
            return false;
        }
    }
    true
}

/// What an installed engine's `Build.version` says about it.
pub struct InstalledBuild {
    /// `BuildId`, trimmed, when present and not empty.
    pub build_id: Option<String>,
    /// The version the file states (see [`build_version_label`]).
    pub version: Option<String>,
}

/// The installed engine matches build GUID `g`, and its version is known.
pub open spec fn build_matches(b: InstalledBuild, g: Seq<char>) -> bool {
    &&& b.build_id matches Some(id) && eq_ignore_case(id@, g)
    &&& b.version is Some
}

/// [`build_matches`] as a predicate on installed engines.
pub open spec fn matches_build(g: Seq<char>) -> spec_fn(InstalledBuild) -> bool {
    |b: InstalledBuild| build_matches(b, g)
}

/// An engine association as `major.minor`: a version association directly;
/// a build GUID by the version of the first installed engine with that
/// build id (compared ignoring ASCII case) and a known version.
pub open spec fn association_to_mm(assoc: Seq<char>, installed: Seq<InstalledBuild>) -> Option<Seq<char>> {
    match normalized_association(assoc) {
        Some(m) => Some(m),
        None => {
            let t = trim_ws(assoc);
            if t.len() == 0 || !guid_like(t) {
                None
            } else {
                match first_index(installed, matches_build(t)) {
                    Some(i) => Some(to_major_minor_spec(installed[i].version->0@)),
                    None => None,
                }
            }
        }
    }
}

/// Resolves an `EngineAssociation` to `major.minor`: version strings
/// directly, build GUIDs through the installed engines' build ids.
pub fn resolve_engine_association_to_mm(assoc: &str, installed: &[InstalledBuild]) -> (r: Option<String>)
    ensures
        match r {
            Some(m) => association_to_mm(assoc@, installed@) == Some(m@),
            None => association_to_mm(assoc@, installed@) is None,
        },
{
    if let Some(mm) = normalize_engine_association(assoc) {
        return Some(mm);
    }
    let t = trim_whitespace(&chars_of(assoc));
    if t.len() == 0 || !is_guid_like(&t) {
        return None;
    }
    let ghost p = matches_build(t@);
    let mut i: usize = 0;
    while i < installed.len()
        invariant
            i <= installed.len(),
            t@ == trim_ws(assoc@),
            t@.len() > 0 && guid_like(t@),
            normalized_association(assoc@) is None,
            p == matches_build(t@),
            forall|k: int| 0 <= k < i ==> !p(#[trigger] installed@[k]),
        decreases installed.len() - i,
    {
        let b = &installed[i];
        let hit = match &b.build_id {
            Some(id) => eq_ignore_ascii_case(&chars_of(id.as_str()), &t) && b.version.is_some(),
            None => false,
        };
        if hit {
            proof { lemma_first_index_at(installed@, p, i as int); }
            match &b.version {
                Some(v) => {
                    let r = to_major_minor(v.as_str());
                    return Some(r);
                },
                None => {},
            }
        }
        i += 1;
    }
    proof { lemma_first_index_none(installed@, p); }
    None
}

} // verus!

verus! {

// ---------------------------------------------------------------------------
// Build.version

/// `as_u64().unwrap_or(0)` of a member.
pub open spec fn u64_or_zero(j: JsonV, key: Seq<char>) -> u64 {
    match opt_u64(member(j, key)) {
        Some(n) => n,
        None => 0,
    }
}

/// The version a `Build.version` document states: `major.minor.patch`, or
/// `major.minor` when the patch is 0; `None` when the major version is 0 or
/// missing. Missing numbers count as 0.
pub open spec fn build_version_of(j: JsonV) -> Option<Seq<char>> {
    let major = u64_or_zero(j, "MajorVersion"@);
    let minor = u64_or_zero(j, "MinorVersion"@);
    let patch = u64_or_zero(j, "PatchVersion"@);
    if major > 0 {
        if patch > 0 {
            Some(decimal(major as nat) + seq!['.'] + decimal(minor as nat) + seq!['.'] + decimal(patch as nat))
        } else {
            Some(decimal(major as nat) + seq!['.'] + decimal(minor as nat))
        }
    } else {
        None
    }
}

/// Reads the engine version out of a parsed `Engine/Build/Build.version`.
pub fn build_version_label(v: &Json) -> (r: Option<String>)
    ensures
        match r {
            Some(s) => build_version_of(v@) == Some(s@),
            None => build_version_of(v@) is None,
        },
{
    let major = match get_u64(v, "MajorVersion") {
        Some(n) => n,
        None => 0,
    };
    let minor = match get_u64(v, "MinorVersion") {
        Some(n) => n,
        None => 0,
    };
    let patch = match get_u64(v, "PatchVersion") {
        Some(n) => n,
        None => 0,
    };
    if major == 0 {
        return None;
    }
    let mut out: Vec<char> = Vec::new();
    push_decimal(&mut out, major);
    out.push('.');
    push_decimal(&mut out, minor);
    if patch > 0 {
        out.push('.');
        push_decimal(&mut out, patch);
        assert(out@ =~= decimal(major as nat) + seq!['.'] + decimal(minor as nat) + seq!['.'] + decimal(patch as nat));
    } else {
        assert(out@ =~= decimal(major as nat) + seq!['.'] + decimal(minor as nat));
    }
    Some(string_from(out.as_slice()))
}

/// The `BuildId` a `Build.version` document states: trimmed, and only when
/// it is a non-empty string.
pub open spec fn build_id_in(j: JsonV) -> Option<Seq<char>> {
    match opt_str(member(j, "BuildId"@)) {
        Some(s) => if trim_ws(s).len() > 0 { Some(trim_ws(s)) } else { None },
        None => None,
    }
}

/// Reads the build id out of a parsed `Engine/Build/Build.version`.
pub fn read_build_id(v: &Json) -> (r: Option<String>)
    ensures
        match r {
            Some(s) => build_id_in(v@) == Some(s@),
            None => build_id_in(v@) is None,
        },
{
    match get_str(v, "BuildId") {
        Some(id) => {
            let t = trim_whitespace(&chars_of(id.as_str()));
            if t.len() > 0 {
                Some(string_from(t.as_slice()))
            } else {
                None
            }
        },
        None => None,
    }
}

/// The version shown for an engine folder: what its `Build.version` says,
/// else the version in its folder name, else `unknown`.
pub open spec fn engine_version_text(build: Option<Seq<char>>, name: Seq<char>) -> Seq<char> {
    match build {
        Some(b) => b,
        None => match version_in_name(name) {
            Some(v) => v,
            None => "unknown"@,
        },
    }
}

/// The version label of a discovered engine.
pub fn engine_version_label(build: Option<String>, name: &str) -> (r: String)
    ensures
        r@ == engine_version_text(match build { Some(b) => Some(b@), None => None }, name@),
{
    match build {
        Some(b) => b,
        None => match parse_version_from_name(name) {
            Some(v) => v,
            None => "unknown".to_string(),
        },
    }
}

// ---------------------------------------------------------------------------
// Choosing an engine

/// The engine's version is exactly the requested one.
pub open spec fn version_is(req: Seq<char>) -> spec_fn(UnrealEngineInfo) -> bool {
    |e: UnrealEngineInfo| e.version@ == req
}

/// The engine's version starts with the requested one (5.3 for 5.3.2).
pub open spec fn version_starts(req: Seq<char>) -> spec_fn(UnrealEngineInfo) -> bool {
    |e: UnrealEngineInfo| req.is_prefix_of(e.version@)
}

/// The engine's folder name contains the requested version (UE_5.3).
pub open spec fn name_has(req: Seq<char>) -> spec_fn(UnrealEngineInfo) -> bool {
    |e: UnrealEngineInfo| contains_seq(e.name@, req)
}

/// The engine chosen for a requested version: the first exact match, else
/// the first whose version starts with it, else the first whose name
/// contains it.
pub open spec fn picked_engine(es: Seq<UnrealEngineInfo>, req: Seq<char>) -> Option<int> {
    match first_index(es, version_is(req)) {
        Some(i) => Some(i),
        None => match first_index(es, version_starts(req)) {
            Some(i) => Some(i),
            None => first_index(es, name_has(req)),
        },
    }
}

/// Picks the engine for a requested version.
pub fn pick_engine_for_version<'a>(engines: &'a [UnrealEngineInfo], requested: &str) -> (r: Option<&'a UnrealEngineInfo>)
    ensures
        match picked_engine(engines@, requested@) {
            Some(i) => r matches Some(e) && *e == engines@[i],
            None => r is None,
        },
{
    match pick_engine_index(engines, requested) {
        Some(i) => Some(&engines[i]),
        None => None,
    }
}

/// The position of the engine [`picked_engine`] chooses.
pub fn pick_engine_index(engines: &[UnrealEngineInfo], requested: &str) -> (r: Option<usize>)
    ensures
        r matches Some(i) ==> i < engines@.len(),
        match picked_engine(engines@, requested@) {
            Some(i) => r matches Some(j) && j as int == i,
            None => r is None,
        },
{
    let req = chars_of(requested);
    let mut i: usize = 0;
    while i < engines.len()
        invariant
            i <= engines.len(),
            req@ == requested@,
            forall|k: int| 0 <= k < i ==> !version_is(requested@)(#[trigger] engines@[k]),
        decreases engines.len() - i,
    {
        if crate::text::same_chars(&chars_of(engines[i].version.as_str()), &req) {
            proof { lemma_first_index_at(engines@, version_is(requested@), i as int); }
            return Some(i);
        }
        i += 1;
    }
    proof { lemma_first_index_none(engines@, version_is(requested@)); }
    let mut i: usize = 0;
    while i < engines.len()
        invariant
            i <= engines.len(),
            req@ == requested@,
            first_index(engines@, version_is(requested@)) is None,
            forall|k: int| 0 <= k < i ==> !version_starts(requested@)(#[trigger] engines@[k]),
        decreases engines.len() - i,
    {
        if crate::text::starts_with_chars(&chars_of(engines[i].version.as_str()), &req) {
            proof { lemma_first_index_at(engines@, version_starts(requested@), i as int); }
            return Some(i);
        }
        i += 1;
    }
    proof { lemma_first_index_none(engines@, version_starts(requested@)); }
    let mut i: usize = 0;
    while i < engines.len()
        invariant
            i <= engines.len(),
            req@ == requested@,
            first_index(engines@, version_is(requested@)) is None,
            first_index(engines@, version_starts(requested@)) is None,
            forall|k: int| 0 <= k < i ==> !name_has(requested@)(#[trigger] engines@[k]),
        decreases engines.len() - i,
    {
        if crate::text::contains_chars(&chars_of(engines[i].name.as_str()), &req) {
            proof { lemma_first_index_at(engines@, name_has(requested@), i as int); }
            return Some(i);
        }
        i += 1;
    }
    proof { lemma_first_index_none(engines@, name_has(requested@)); }
    None
}

} // verus!

verus! {

/// `names[i]` is the greatest name, and no name before it is as great: the
/// first entry after a stable sort in descending order.
pub open spec fn is_latest(names: Seq<String>, i: int) -> bool {
    &&& 0 <= i < names.len()
    &&& forall|j: int| 0 <= j < names.len() ==> !lex_lt(names[i]@, #[trigger] names[j]@)
    &&& forall|j: int| 0 <= j < i ==> lex_lt(#[trigger] names[j]@, names[i]@)
}

/// Only one name can be the latest.
pub proof fn lemma_latest_unique(names: Seq<String>, i: int, k: int)
    requires
        is_latest(names, i),
        is_latest(names, k),
    ensures
        i == k,
{
    if i < k {
        assert(lex_lt(names[i]@, names[k]@));
        assert(!lex_lt(names[k]@, names[i]@));
        lemma_lex_asymmetric(names[i]@, names[k]@);
        assert(!lex_lt(names[i]@, names[k]@));
    } else if k < i {
        assert(lex_lt(names[k]@, names[i]@));
        assert(!lex_lt(names[i]@, names[k]@));
        assert(!lex_lt(names[k]@, names[i]@));
    }
}

/// The message of a refusal when no engine can be chosen.
pub open spec fn no_engine_message() -> Seq<char> {
    "engine_path not provided and no engines found in default location"@
}

/// Picks the engine folder with the greatest name among `names`, the
/// folders under `base` that hold an `Engine` directory.
pub fn select_latest_engine(base: &str, names: &Vec<String>) -> (r: Result<String, ApiError>)
    ensures
        names.len() == 0 ==> (r matches Err(e) && e.status == Status::BadRequest && e.message@ == no_engine_message()),
        names.len() > 0 ==> (r matches Ok(p) && exists|i: int| is_latest(names@, i) && p@ == crate::paths::joined(base@, #[trigger] names@[i]@)),
{
    if names.len() == 0 {
        return Err(refuse(Status::BadRequest, "engine_path not provided and no engines found in default location"));
    }
    let mut best: usize = 0;
    let mut best_name = chars_of(names[0].as_str());
    proof { lemma_lex_irreflexive(names@[0]@); }
    let mut j: usize = 1;
    while j < names.len()
        invariant
            1 <= j <= names.len(),
            best < j,
            best_name@ == names@[best as int]@,
            forall|k: int| 0 <= k < j ==> !lex_lt(names@[best as int]@, #[trigger] names@[k]@),
            forall|k: int| 0 <= k < best ==> lex_lt(#[trigger] names@[k]@, names@[best as int]@),
        decreases names.len() - j,
    {
        let cand = chars_of(names[j].as_str());
        if lex_less(&best_name, &cand) {
            proof {
                let nb = names@[best as int]@;
                let nj = names@[j as int]@;
                lemma_lex_irreflexive(nj);
                assert forall|k: int| 0 <= k < j + 1 implies !lex_lt(nj, #[trigger] names@[k]@) by {
                    let nk = names@[k]@;
                    if k < j {
                        lemma_lex_total(nb, nk);
                        if lex_lt(nk, nb) {
                            lemma_lex_transitive(nk, nb, nj);
                        }
                        lemma_lex_asymmetric(nk, nj);
                    }
                }
                assert forall|k: int| 0 <= k < j implies lex_lt(#[trigger] names@[k]@, nj) by {
                    let nk = names@[k]@;
                    lemma_lex_total(nb, nk);
                    if lex_lt(nk, nb) {
                        lemma_lex_transitive(nk, nb, nj);
                    }
                }
            }
            best = j;
            best_name = cand;
        }
        j += 1;
    }
    let p = crate::paths::join_path(base, names[best].as_str());
    assert(is_latest(names@, best as int));
    Ok(p)
}

} // verus!

verus! {

// ---------------------------------------------------------------------------
// Laws

/// Splitting `a . b` at the first dot, when `a` has none, gives `a` and `b`.
pub proof fn lemma_split_joined(a: Seq<char>, b: Seq<char>)
    requires
        forall|k: int| 0 <= k < a.len() ==> a[k] != '.',
    ensures
        split_first(a + seq!['.'] + b, '.') == (a, Some(b)),
{
    let s = a + seq!['.'] + b;
    crate::text::lemma_split_first_skip(s, '.', a.len() as int);
    assert(s.take(a.len() as int) =~= a);
    assert(s.skip(a.len() as int)[0] == '.');
    assert(s.skip(a.len() as int).drop_first() =~= b);
    assert(a + Seq::<char>::empty() =~= a);
}

/// A sequence without dots splits into itself and nothing.
pub proof fn lemma_split_no_dot(a: Seq<char>)
    requires
        forall|k: int| 0 <= k < a.len() ==> a[k] != '.',
    ensures
        split_first(a, '.') == (a, None::<Seq<char>>),
{
    crate::text::lemma_split_first_skip(a, '.', a.len() as int);
    assert(a.take(a.len() as int) =~= a);
    assert(a.skip(a.len() as int).len() == 0);
    assert(a + Seq::<char>::empty() =~= a);
}

/// A `major.minor` text made of digits is its own `major.minor`.
pub proof fn lemma_major_minor_fixed(major: Seq<char>, minor: Seq<char>)
    requires
        major.len() > 0,
        all_digits(major),
        all_digits(minor),
    ensures
        major_minor_of(major + seq!['.'] + minor) == Some(major + seq!['.'] + minor),
{
    assert forall|k: int| 0 <= k < major.len() implies major[k] != '.' by {
        assert(is_digit(major[k]));
    }
    assert forall|k: int| 0 <= k < minor.len() implies minor[k] != '.' by {
        assert(is_digit(minor[k]));
    }
    lemma_split_joined(major, minor);
    lemma_split_no_dot(minor);
}

/// `to_major_minor` is idempotent: a version already brought to
/// `major.minor` stays as it is.
pub proof fn lemma_to_major_minor_idempotent(ver: Seq<char>)
    ensures
        to_major_minor_spec(to_major_minor_spec(ver)) == to_major_minor_spec(ver),
{
    match major_minor_of(ver) {
        Some(m) => {
            let major = split_first(ver, '.').0;
            let minor = match split_first(ver, '.').1 {
                Some(rest) => split_first(rest, '.').0,
                None => seq!['0'],
            };
            assert(all_digits(seq!['0']));
            lemma_major_minor_fixed(major, minor);
        },
        None => {},
    }
}

/// A normalised engine association is already in `major.minor` form:
/// `to_major_minor` leaves it unchanged.
pub proof fn lemma_normalized_is_major_minor(assoc: Seq<char>)
    ensures
        normalized_association(assoc) matches Some(m) ==> to_major_minor_spec(m) == m,
{
    let t = trim_ws(assoc);
    if t.len() > 0 {
        let u = strip_ue(t);
        if major_minor_of(u) is Some {
            let major = split_first(u, '.').0;
            let minor = match split_first(u, '.').1 {
                Some(rest) => split_first(rest, '.').0,
                None => seq!['0'],
            };
            assert(all_digits(seq!['0']));
            lemma_major_minor_fixed(major, minor);
        }
    }
}

/// Padding an already trimmed association with whitespace and a `UE_`
/// prefix does not change how it normalises, and a normalised association
/// is what `to_major_minor` makes of the bare text (the text itself when it
/// has no `major.minor` shape).
pub proof fn lemma_normalize_padding(s: Seq<char>)
    requires
        trim_ws(s) == s,
        s.len() > 0,
        !ue_prefix().is_prefix_of(s),
    ensures
        normalized_association(seq![' '] + ue_prefix() + s + seq![' ']) == normalized_association(s),
        match normalized_association(s) {
            Some(r) => to_major_minor_spec(s) == r,
            None => to_major_minor_spec(s) == s,
        },
{
    let p = |c: char| crate::text::is_ws(c);
    crate::naming::lemma_trim_by(s, p);
    assert(!p(s[0]) && !p(s.last()));
    let t = seq![' '] + ue_prefix() + s + seq![' '];
    assert(p(t[0]));
    assert(t[1] == 'U');
    assert(!p(t[1]));
    crate::text::lemma_trim_start_skip(t, p, 1);
    let u = t.skip(1);
    assert(u =~= ue_prefix() + s + seq![' ']);
    let n = u.len() as int;
    assert(u[n - 1] == ' ');
    assert(u[n - 2] == s.last());
    assert forall|k: int| n - 1 <= k < u.len() implies #[trigger] p(u[k]) by {
        assert(u[k] == ' ');
    }
    crate::text::lemma_trim_end_take(u, p, n - 1);
    let w = u.take(n - 1);
    assert(w =~= ue_prefix() + s);
    assert(trim_ws(t) == w);
    assert(ue_prefix().is_prefix_of(w)) by {
        assert(w.take(3) =~= ue_prefix());
    }
    assert(w.skip(3) =~= s);
    assert(strip_ue(w) == s);
    assert(strip_ue(s) == s);
}

/// Text with no whitespace is left alone by trimming.
pub proof fn lemma_trim_none(s: Seq<char>)
    requires
        forall|k: int| 0 <= k < s.len() ==> !crate::text::is_ws(#[trigger] s[k]),
    ensures
        trim_ws(s) == s,
{
    assert(crate::text::trim_start_by(s, |c: char| crate::text::is_ws(c)) == s);
    assert(crate::text::trim_end_by(s, |c: char| crate::text::is_ws(c)) == s);
}

/// Digits and dots are not whitespace, and a text starting with a digit
/// has no `UE_` prefix.
pub proof fn lemma_version_text_plain(major: Seq<char>, minor: Seq<char>)
    requires
        major.len() > 0,
        all_digits(major),
        all_digits(minor),
    ensures
        trim_ws(major + seq!['.'] + minor) == major + seq!['.'] + minor,
        strip_ue(major + seq!['.'] + minor) == major + seq!['.'] + minor,
{
    let s = major + seq!['.'] + minor;
    assert forall|k: int| 0 <= k < s.len() implies !crate::text::is_ws(#[trigger] s[k]) by {
        if k < major.len() {
            assert(is_digit(major[k]));
            assert(s[k] == major[k]);
        } else if k > major.len() {
            assert(s[k] == minor[k - major.len() - 1]);
            assert(is_digit(minor[k - major.len() - 1]));
        }
    }
    lemma_trim_none(s);
    assert(is_digit(s[0]));
    assert(!ue_prefix().is_prefix_of(s)) by {
        assert(s[0] != 'U');
    }
}

/// A version written by a request to set a project's engine is read back
/// as the same version when the project is opened or listed: what
/// `parse_project_version` accepts resolves to itself as an engine
/// association, whatever engines are installed.
pub proof fn lemma_written_version_reads_back(version: Seq<char>, installed: Seq<InstalledBuild>)
    requires
        crate::create::requested_project_version(version) is Some,
    ensures
        association_to_mm(crate::create::requested_project_version(version)->0, installed)
            == crate::create::requested_project_version(version),
{
    let u = crate::create::bare_version(version);
    let rest = split_first(u, '.').1->0;
    let major = trim_ws(split_first(u, '.').0);
    let minor = trim_ws(split_first(rest, '.').0);
    let mm = major + seq!['.'] + minor;
    lemma_version_text_plain(major, minor);
    lemma_major_minor_fixed(major, minor);
}

/// A version found in a folder name starts with a digit and holds only
/// digits and dots.
pub proof fn lemma_version_in_name_shape(s: Seq<char>)
    ensures
        version_in_name(s) matches Some(v) ==> v.len() > 0 && is_digit(v[0])
            && forall|k: int| 0 <= k < v.len() ==> is_digit(#[trigger] v[k]) || v[k] == '.',
    decreases s.len(),
{
    if s.len() > 0 {
        if is_digit(s[0]) {
            lemma_version_run_shape(s);
        } else {
            lemma_version_in_name_shape(s.drop_first());
        }
    }
}

/// A run of digits and dots holds only digits and dots.
pub proof fn lemma_version_run_shape(s: Seq<char>)
    ensures
        forall|k: int| 0 <= k < version_run(s).len() ==> is_digit(#[trigger] version_run(s)[k]) || version_run(s)[k] == '.',
        s.len() > 0 && is_digit(s[0]) ==> version_run(s).len() > 0 && version_run(s)[0] == s[0],
    decreases s.len(),
{
    if s.len() > 0 && (is_digit(s[0]) || s[0] == '.') {
        lemma_version_run_shape(s.drop_first());
        let r = version_run(s);
        let t = version_run(s.drop_first());
        assert forall|k: int| 0 <= k < r.len() implies is_digit(#[trigger] r[k]) || r[k] == '.' by {
            if k > 0 {
                assert(r[k] == t[k - 1]);
            }
        }
    }
}

/// An engine whose version is exactly the one requested is always
/// preferred: the chosen engine then has exactly that version.
pub proof fn lemma_exact_version_preferred(es: Seq<UnrealEngineInfo>, req: Seq<char>, j: int)
    requires
        0 <= j < es.len(),
        es[j].version@ == req,
    ensures
        picked_engine(es, req) matches Some(i) && es[i].version@ == req,
{
    lemma_first_index_meaning(es, version_is(req));
    assert(version_is(req)(es[j]));
}

/// How an engine is chosen for a requested version `req`: the first engine
/// whose version is `req`; when none is, the first whose version starts
/// with `req`; when none does, the first whose folder name contains `req`;
/// and none when no engine qualifies in any of these ways.
pub proof fn lemma_engine_choice(es: Seq<UnrealEngineInfo>, req: Seq<char>)
    ensures
        (exists|k: int| 0 <= k < es.len() && (#[trigger] es[k]).version@ == req) ==> (picked_engine(es, req) matches Some(i)
            && 0 <= i < es.len() && es[i].version@ == req
            && forall|k: int| 0 <= k < i ==> (#[trigger] es[k]).version@ != req),
        (forall|k: int| 0 <= k < es.len() ==> (#[trigger] es[k]).version@ != req)
            && (exists|k: int| 0 <= k < es.len() && req.is_prefix_of((#[trigger] es[k]).version@))
            ==> (picked_engine(es, req) matches Some(i)
            && 0 <= i < es.len() && req.is_prefix_of(es[i].version@)
            && forall|k: int| 0 <= k < i ==> !req.is_prefix_of((#[trigger] es[k]).version@)),
        (forall|k: int| 0 <= k < es.len() ==> (#[trigger] es[k]).version@ != req && !req.is_prefix_of(es[k].version@))
            && (exists|k: int| 0 <= k < es.len() && contains_seq((#[trigger] es[k]).name@, req))
            ==> (picked_engine(es, req) matches Some(i)
            && 0 <= i < es.len() && contains_seq(es[i].name@, req)
            && forall|k: int| 0 <= k < i ==> !contains_seq((#[trigger] es[k]).name@, req)),
        (forall|k: int| 0 <= k < es.len() ==> (#[trigger] es[k]).version@ != req && !req.is_prefix_of(es[k].version@)
            && !contains_seq(es[k].name@, req)) ==> picked_engine(es, req) is None,
{
    lemma_first_index_meaning(es, version_is(req));
    lemma_first_index_meaning(es, version_starts(req));
    lemma_first_index_meaning(es, name_has(req));
    if exists|k: int| 0 <= k < es.len() && (#[trigger] es[k]).version@ == req {
        let k = choose|k: int| 0 <= k < es.len() && (#[trigger] es[k]).version@ == req;
        assert(version_is(req)(es[k]));
    }
    if exists|k: int| 0 <= k < es.len() && req.is_prefix_of((#[trigger] es[k]).version@) {
        let k = choose|k: int| 0 <= k < es.len() && req.is_prefix_of((#[trigger] es[k]).version@);
        assert(version_starts(req)(es[k]));
    }
    if exists|k: int| 0 <= k < es.len() && contains_seq((#[trigger] es[k]).name@, req) {
        let k = choose|k: int| 0 <= k < es.len() && contains_seq((#[trigger] es[k]).name@, req);
        assert(name_has(req)(es[k]));
    }
    if forall|k: int| 0 <= k < es.len() ==> (#[trigger] es[k]).version@ != req {
        assert forall|k: int| 0 <= k < es.len() implies !version_is(req)(#[trigger] es[k]) by {
            assert(es[k].version@ != req);
        }
    }
    if forall|k: int| 0 <= k < es.len() ==> (#[trigger] es[k]).version@ != req && !req.is_prefix_of(es[k].version@) {
        assert forall|k: int| 0 <= k < es.len() implies !version_starts(req)(#[trigger] es[k]) by {
            assert(!req.is_prefix_of(es[k].version@));
        }
        assert forall|k: int| 0 <= k < es.len() implies !version_is(req)(#[trigger] es[k]) by {
            assert(es[k].version@ != req);
        }
    }
}

} // verus!
