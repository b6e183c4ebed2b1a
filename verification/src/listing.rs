//! The project and engine listings: what is reported for each folder, and
//! the stable orders in which they are shown.
use vstd::prelude::*;
use crate::json::{get_str, member, opt_str, Json};
use crate::models::{UnrealEngineInfo, UnrealProjectInfo};
use crate::search::{first_index, lemma_first_index_at, lemma_first_index_meaning, lemma_first_index_none};
use crate::text::{chars_of, lex_less, lex_lt, lemma_lex_irreflexive, lemma_lex_total, lemma_lex_transitive, lowercased, same_chars, to_lowercase};
use crate::versions::{association_to_mm, resolve_engine_association_to_mm, InstalledBuild};

verus! {

// ---------------------------------------------------------------------------
// Stable insertion order

/// `s` with `x` inserted before the first element that `x` precedes, so
/// after every element it does not precede (equal keys keep their order).
pub open spec fn insert_stable<T>(s: Seq<T>, x: T, lt: spec_fn(T, T) -> bool) -> Seq<T> {
    match first_index(s, |y: T| lt(x, y)) {
        Some(p) => s.insert(p, x),
        None => s.push(x),
    }
}

/// The stable sort of `s` by `lt`.
pub open spec fn sorted_by<T>(s: Seq<T>, lt: spec_fn(T, T) -> bool) -> Seq<T>
    decreases s.len(),
{
    if s.len() == 0 {
        Seq::empty()
    } else {
        insert_stable(sorted_by(s.drop_last(), lt), s.last(), lt)
    }
}

/// `lt` is a strict weak order: irreflexive, transitive, and what it
/// leaves incomparable is an equivalence.
pub open spec fn strict_weak<T>(lt: spec_fn(T, T) -> bool) -> bool {
    &&& forall|a: T| !#[trigger] lt(a, a)
    &&& forall|a: T, b: T, c: T| #[trigger] lt(a, b) && #[trigger] lt(b, c) ==> lt(a, c)
    &&& forall|a: T, b: T, c: T| !#[trigger] lt(a, b) && !lt(b, a) && !#[trigger] lt(b, c) && !lt(c, b) ==> !lt(a, c) && !lt(c, a)
}

/// No element precedes an earlier one.
pub open spec fn in_order<T>(s: Seq<T>, lt: spec_fn(T, T) -> bool) -> bool {
    forall|i: int, j: int| 0 <= i < j < s.len() ==> !lt(#[trigger] s[j], #[trigger] s[i])
}

/// Inserting into an ordered sequence keeps it ordered and adds exactly
/// the one element.
pub proof fn lemma_insert_stable<T>(s: Seq<T>, x: T, lt: spec_fn(T, T) -> bool)
    requires
        strict_weak(lt),
        in_order(s, lt),
    ensures
        in_order(insert_stable(s, x, lt), lt),
        insert_stable(s, x, lt).to_multiset() == s.to_multiset().insert(x),
{
    let p = |y: T| lt(x, y);
    lemma_first_index_meaning(s, p);
    match first_index(s, p) {
        Some(k) => {
            let r = s.insert(k, x);
            assert forall|i: int, j: int| 0 <= i < j < r.len() implies !lt(#[trigger] r[j], #[trigger] r[i]) by {
                if j < k {
                    assert(r[i] == s[i] && r[j] == s[j]);
                } else if j == k {
                    assert(r[i] == s[i]);
                    assert(!p(s[i]));
                    assert(r[j] == x);
                    if lt(x, s[i]) {
                    }
                } else if i == k {
                    assert(r[i] == x && r[j] == s[j - 1]);
                    assert(p(s[k]));
                    if j - 1 > k {
                        assert(!lt(s[j - 1], s[k]));
                        if lt(s[j - 1], x) {
                            // x < s[k], and s[j-1] < x gives s[j-1] < s[k]
                            assert(lt(s[j - 1], s[k]));
                        }
                    }
                } else if i < k {
                    assert(r[i] == s[i] && r[j] == s[j - 1]);
                } else {
                    assert(r[i] == s[i - 1] && r[j] == s[j - 1]);
                }
            }
            assert(r.remove(k) =~= s);
            r.to_multiset_ensures();
            assert(r[k] == x);
            assert(r.contains(x));
            assert(r.to_multiset().count(x) > 0);
            assert(r.to_multiset() =~= s.to_multiset().insert(x));
        },
        None => {
            let r = s.push(x);
            assert forall|i: int, j: int| 0 <= i < j < r.len() implies !lt(#[trigger] r[j], #[trigger] r[i]) by {
                if j == s.len() {
                    assert(!p(s[i]));
                } else {
                    assert(r[i] == s[i] && r[j] == s[j]);
                }
            }
            s.to_multiset_ensures();
        },
    }
}

/// The stable sort is ordered and holds the same elements as its input.
pub proof fn lemma_sorted_by<T>(s: Seq<T>, lt: spec_fn(T, T) -> bool)
    requires
        strict_weak(lt),
    ensures
        in_order(sorted_by(s, lt), lt),
        sorted_by(s, lt).to_multiset() == s.to_multiset(),
    decreases s.len(),
{
    if s.len() == 0 {
        assert(sorted_by(s, lt) =~= Seq::<T>::empty());
        assert(s =~= Seq::<T>::empty());
    } else {
        lemma_sorted_by(s.drop_last(), lt);
        lemma_insert_stable(sorted_by(s.drop_last(), lt), s.last(), lt);
        s.drop_last().to_multiset_ensures();
        assert(s =~= s.drop_last().push(s.last()));
        assert(s.drop_last().push(s.last()).to_multiset() =~= s.drop_last().to_multiset().insert(s.last()));
    }
}

// ---------------------------------------------------------------------------
// Projects

/// Projects are listed by their names lower-cased.
pub open spec fn project_before(a: UnrealProjectInfo, b: UnrealProjectInfo) -> bool {
    lex_lt(lowercased(a.name@), lowercased(b.name@))
}

/// The order of [`project_before`] as a relation value.
pub open spec fn project_order() -> spec_fn(UnrealProjectInfo, UnrealProjectInfo) -> bool {
    |a: UnrealProjectInfo, b: UnrealProjectInfo| project_before(a, b)
}

/// Sorts projects by lower-cased name, keeping the listing order of equal
/// names.
pub fn sort_projects(v: Vec<UnrealProjectInfo>) -> (r: Vec<UnrealProjectInfo>)
    ensures
        r@ == sorted_by(v@, project_order()),
{
    let mut input = v;
    let ghost all = input@;
    let mut out: Vec<UnrealProjectInfo> = Vec::new();
    let mut keys: Vec<Vec<char>> = Vec::new();
    let mut n: usize = 0;
    let total = input.len();
    while input.len() > 0
        invariant
            n + input.len() == total,
            total == all.len(),
            input@ == all.skip(n as int),
            out@ == sorted_by(all.take(n as int), project_order()),
            keys.len() == out.len(),
            forall|k: int| 0 <= k < out.len() ==> (#[trigger] keys@[k])@ == lowercased(out@[k].name@),
        decreases input.len(),
    {
        let x = input.remove(0);
        let ghost xs = all.take(n as int);
        assert(all.skip(n as int)[0] == all[n as int]);
        assert(x == all[n as int]);
        let kx = chars_of(to_lowercase(x.name.as_str()).as_str());
        let ghost p = |y: UnrealProjectInfo| project_order()(x, y);
        let mut pos: usize = 0;
        while pos < out.len() && !lex_less(&kx, &keys[pos])
            invariant
                pos <= out.len(),
                keys.len() == out.len(),
                kx@ == lowercased(x.name@),
                forall|k: int| 0 <= k < out.len() ==> (#[trigger] keys@[k])@ == lowercased(out@[k].name@),
                forall|k: int| 0 <= k < pos ==> !p(#[trigger] out@[k]),
                p == (|y: UnrealProjectInfo| project_order()(x, y)),
            decreases out.len() - pos,
        {
            pos += 1;
        }
        let ghost before = out@;
        let ghost kbefore = keys@;
        proof {
            if pos < out.len() {
                lemma_first_index_at(before, p, pos as int);
            } else {
                lemma_first_index_none(before, p);
            }
            assert(all.take(n + 1).drop_last() =~= xs);
            assert(all.take(n + 1).last() == x);
        }
        out.insert(pos, x);
        keys.insert(pos, kx);
        assert forall|k: int| 0 <= k < out.len() implies (#[trigger] keys@[k])@ == lowercased(out@[k].name@) by {
            if k < pos {
                assert(keys@[k] == kbefore[k] && out@[k] == before[k]);
            } else if k > pos {
                assert(keys@[k] == kbefore[k - 1] && out@[k] == before[k - 1]);
            }
        }
        proof {
            if pos == before.len() {
                assert(before.insert(pos as int, x) =~= before.push(x));
            }
        }
        n += 1;
        assert(all.skip(n as int) =~= all.skip(n - 1).drop_first());
    }
    assert(all.take(total as int) =~= all);
    out
}

/// Project listings come out ordered by lower-cased name, holding every
/// project found.
pub proof fn lemma_projects_sorted(s: Seq<UnrealProjectInfo>)
    ensures
        in_order(sorted_by(s, project_order()), project_order()),
        sorted_by(s, project_order()).to_multiset() == s.to_multiset(),
{
    assert(strict_weak(project_order())) by {
        assert forall|a: UnrealProjectInfo| !#[trigger] project_order()(a, a) by {
            lemma_lex_irreflexive(lowercased(a.name@));
        }
        assert forall|a: UnrealProjectInfo, b: UnrealProjectInfo, c: UnrealProjectInfo|
            #[trigger] project_order()(a, b) && #[trigger] project_order()(b, c) implies project_order()(a, c) by {
            lemma_lex_transitive(lowercased(a.name@), lowercased(b.name@), lowercased(c.name@));
        }
        assert forall|a: UnrealProjectInfo, b: UnrealProjectInfo, c: UnrealProjectInfo|
            !#[trigger] project_order()(a, b) && !project_order()(b, a) && !#[trigger] project_order()(b, c) && !project_order()(c, b)
            implies !project_order()(a, c) && !project_order()(c, a) by {
            lemma_lex_total(lowercased(a.name@), lowercased(b.name@));
            lemma_lex_total(lowercased(b.name@), lowercased(c.name@));
            lemma_lex_irreflexive(lowercased(a.name@));
        }
    }
    lemma_sorted_by(s, project_order());
}

// ---------------------------------------------------------------------------
// Engines

/// Engines are listed by version, then by name.
pub open spec fn engine_before(a: UnrealEngineInfo, b: UnrealEngineInfo) -> bool {
    lex_lt(a.version@, b.version@) || (a.version@ == b.version@ && lex_lt(a.name@, b.name@))
}

/// The order of [`engine_before`] as a relation value.
pub open spec fn engine_order() -> spec_fn(UnrealEngineInfo, UnrealEngineInfo) -> bool {
    |a: UnrealEngineInfo, b: UnrealEngineInfo| engine_before(a, b)
}

/// Whether `a` comes before `b` in the engine listing.
fn engine_less(a: &UnrealEngineInfo, b: &UnrealEngineInfo) -> (r: bool)
    ensures
        r == engine_before(*a, *b),
{
    let av = chars_of(a.version.as_str());
    let bv = chars_of(b.version.as_str());
    if lex_less(&av, &bv) {
        return true;
    }
    same_chars(&av, &bv) && lex_less(&chars_of(a.name.as_str()), &chars_of(b.name.as_str()))
}

/// Sorts engines by version, then name, keeping the listing order of
/// equal entries.
pub fn sort_engines(v: Vec<UnrealEngineInfo>) -> (r: Vec<UnrealEngineInfo>)
    ensures
        r@ == sorted_by(v@, engine_order()),
{
    let mut input = v;
    let ghost all = input@;
    let mut out: Vec<UnrealEngineInfo> = Vec::new();
    let mut n: usize = 0;
    let total = input.len();
    while input.len() > 0
        invariant
            n + input.len() == total,
            total == all.len(),
            input@ == all.skip(n as int),
            out@ == sorted_by(all.take(n as int), engine_order()),
        decreases input.len(),
    {
        let x = input.remove(0);
        let ghost xs = all.take(n as int);
        assert(all.skip(n as int)[0] == all[n as int]);
        assert(x == all[n as int]);
        let ghost p = |y: UnrealEngineInfo| engine_order()(x, y);
        let mut pos: usize = 0;
        while pos < out.len() && !engine_less(&x, &out[pos])
            invariant
                pos <= out.len(),
                forall|k: int| 0 <= k < pos ==> !p(#[trigger] out@[k]),
                p == (|y: UnrealEngineInfo| engine_order()(x, y)),
            decreases out.len() - pos,
        {
            pos += 1;
        }
        let ghost before = out@;
        proof {
            if pos < out.len() {
                lemma_first_index_at(before, p, pos as int);
            } else {
                lemma_first_index_none(before, p);
            }
            assert(all.take(n + 1).drop_last() =~= xs);
            assert(all.take(n + 1).last() == x);
            if pos == before.len() {
                assert(before.insert(pos as int, x) =~= before.push(x));
            }
        }
        out.insert(pos, x);
        n += 1;
        assert(all.skip(n as int) =~= all.skip(n - 1).drop_first());
    }
    assert(all.take(total as int) =~= all);
    out
}

/// Engine listings come out ordered by version and name, holding every
/// engine found.
pub proof fn lemma_engines_sorted(s: Seq<UnrealEngineInfo>)
    ensures
        in_order(sorted_by(s, engine_order()), engine_order()),
        sorted_by(s, engine_order()).to_multiset() == s.to_multiset(),
{
    assert(strict_weak(engine_order())) by {
        assert forall|a: UnrealEngineInfo| !#[trigger] engine_order()(a, a) by {
            lemma_lex_irreflexive(a.version@);
            lemma_lex_irreflexive(a.name@);
        }
        assert forall|a: UnrealEngineInfo, b: UnrealEngineInfo, c: UnrealEngineInfo|
            #[trigger] engine_order()(a, b) && #[trigger] engine_order()(b, c) implies engine_order()(a, c) by {
            if lex_lt(a.version@, b.version@) && lex_lt(b.version@, c.version@) {
                lemma_lex_transitive(a.version@, b.version@, c.version@);
            }
            lemma_lex_irreflexive(a.version@);
            lemma_lex_irreflexive(b.version@);
            if a.version@ == b.version@ && b.version@ == c.version@ {
                lemma_lex_transitive(a.name@, b.name@, c.name@);
            }
        }
        assert forall|a: UnrealEngineInfo, b: UnrealEngineInfo, c: UnrealEngineInfo|
            !#[trigger] engine_order()(a, b) && !engine_order()(b, a) && !#[trigger] engine_order()(b, c) && !engine_order()(c, b)
            implies !engine_order()(a, c) && !engine_order()(c, a) by {
            lemma_lex_total(a.version@, b.version@);
            lemma_lex_total(b.version@, c.version@);
            lemma_lex_total(a.name@, b.name@);
            lemma_lex_total(b.name@, c.name@);
            lemma_lex_irreflexive(a.version@);
            lemma_lex_irreflexive(a.name@);
        }
    }
    lemma_sorted_by(s, engine_order());
}

// ---------------------------------------------------------------------------
// What a listing reports

/// The engine version shown for a project: its `EngineAssociation`
/// resolved to `major.minor`, else empty.
pub open spec fn project_engine_version(doc: Option<Json>, installed: Seq<InstalledBuild>) -> Seq<char> {
    match doc {
        Some(d) => match opt_str(member(d@, "EngineAssociation"@)) {
            Some(a) => match association_to_mm(a, installed) {
                Some(m) => m,
                None => Seq::empty(),
            },
            None => Seq::empty(),
        },
        None => Seq::empty(),
    }
}

/// What the project listing reports for a folder holding a `.uproject`
/// (`doc` is the file's JSON when it could be read and parsed).
pub fn project_info(name: &str, path: &str, uproject_file: &str, doc: &Option<Json>, installed: &[InstalledBuild]) -> (r: UnrealProjectInfo)
    ensures
        r.name@ == name@,
        r.path@ == path@,
        r.uproject_file@ == uproject_file@,
        r.engine_version@ == project_engine_version(*doc, installed@),
{
    let engine_version = match doc {
        Some(d) => match get_str(d, "EngineAssociation") {
            Some(a) => match resolve_engine_association_to_mm(a.as_str(), installed) {
                Some(m) => m,
                None => String::new(),
            },
            None => String::new(),
        },
        None => String::new(),
    };
    UnrealProjectInfo {
        name: name.to_string(),
        path: path.to_string(),
        uproject_file: uproject_file.to_string(),
        engine_version,
    }
}

} // verus!
