//! Folder names derived from asset titles.
use vstd::prelude::*;
use crate::text::{chars_of, equals_char, is_ws, string_from, trim_by, trim_char, trim_end_by, trim_matching, trim_start_by, trim_whitespace, trim_ws};

verus! {

/// Characters that common filesystems refuse in a file name.
pub open spec fn is_illegal_name_char(c: char) -> bool {
    c == '/' || c == '\\' || c == ':' || c == '*' || c == '?' || c == '"' || c == '<' || c == '>'
        || c == '|'
}

/// `s` with every illegal character replaced by `_`.
pub open spec fn replace_illegal(s: Seq<char>) -> Seq<char> {
    s.map_values(|c: char| if is_illegal_name_char(c) { '_' } else { c })
}

/// The folder name for an asset title: illegal characters become `_`, then
/// surrounding whitespace and then surrounding dots are removed.
pub open spec fn sanitized_title(s: Seq<char>) -> Seq<char> {
    trim_char(trim_ws(replace_illegal(s)), '.')
}

/// Sanitize a title for use as a folder name.
pub fn sanitize_title_for_folder(s: &str) -> (r: String)
    ensures
        r@ == sanitized_title(s@),
{
    let v = chars_of(s);
    let mut replaced: Vec<char> = Vec::new();
    for i in 0..v.len()
        invariant
            v@ == s@,
            replaced@ == replace_illegal(v@).take(i as int),
    {
        let c = v[i];
        let d = if c == '/' || c == '\\' || c == ':' || c == '*' || c == '?' || c == '"' || c
            == '<' || c == '>' || c == '|' {
            '_'
        } else {
            c
        };
        replaced.push(d);
        assert(replace_illegal(v@).take(i + 1) =~= replace_illegal(v@).take(i as int).push(d));
    }
    assert(replace_illegal(v@).take(v.len() as int) =~= replace_illegal(v@));
    let t = trim_whitespace(&replaced);
    let u = trim_matching(&t, '.');
    string_from(u.as_slice())
}

/// A sanitized folder name, or `None` when nothing is left of the name.
pub fn get_friendly_folder_name(asset_name: String) -> (r: Option<String>)
    ensures
        match r {
            Some(n) => n@ == sanitized_title(asset_name@) && n@.len() > 0,
            None => sanitized_title(asset_name@).len() == 0,
        },
{
    let t = sanitize_title_for_folder(asset_name.as_str());
    if t.as_str().is_empty() {
        None
    } else {
        Some(t)
    }
}

/// Trimming the front leaves a suffix that does not start with a trimmed character.
pub proof fn lemma_trim_start_suffix(s: Seq<char>, p: spec_fn(char) -> bool)
    ensures
        exists|k: int| 0 <= k <= s.len() && trim_start_by(s, p) == s.skip(k),
        trim_start_by(s, p).len() > 0 ==> !p(trim_start_by(s, p)[0]),
    decreases s.len(),
{
    if s.len() > 0 && p(s[0]) {
        lemma_trim_start_suffix(s.drop_first(), p);
        let k = choose|k: int| 0 <= k <= s.len() - 1 && trim_start_by(s.drop_first(), p) == s.drop_first().skip(k);
        assert(s.drop_first().skip(k) =~= s.skip(k + 1));
    } else {
        assert(s.skip(0) =~= s);
    }
}

/// Trimming the end leaves a prefix that does not end with a trimmed character.
pub proof fn lemma_trim_end_prefix(s: Seq<char>, p: spec_fn(char) -> bool)
    ensures
        exists|k: int| 0 <= k <= s.len() && trim_end_by(s, p) == s.take(k),
        trim_end_by(s, p).len() > 0 ==> !p(trim_end_by(s, p).last()),
    decreases s.len(),
{
    if s.len() > 0 && p(s.last()) {
        lemma_trim_end_prefix(s.drop_last(), p);
        let k = choose|k: int| 0 <= k <= s.len() - 1 && trim_end_by(s.drop_last(), p) == s.drop_last().take(k);
        assert(s.drop_last().take(k) =~= s.take(k));
    } else {
        assert(s.take(s.len() as int) =~= s);
    }
}

/// Every character of `trim_by(s, p)` is a character of `s`, and the
/// result neither starts nor ends with a character that satisfies `p`.
pub proof fn lemma_trim_by(s: Seq<char>, p: spec_fn(char) -> bool)
    ensures
        forall|i: int| 0 <= i < trim_by(s, p).len() ==> s.contains(#[trigger] trim_by(s, p)[i]),
        trim_by(s, p).len() > 0 ==> !p(trim_by(s, p)[0]) && !p(trim_by(s, p).last()),
        trim_by(s, p).len() <= s.len(),
{
    lemma_trim_start_suffix(s, p);
    let a = trim_start_by(s, p);
    let k = choose|k: int| 0 <= k <= s.len() && a == s.skip(k);
    lemma_trim_end_prefix(a, p);
    let b = trim_end_by(a, p);
    let j = choose|j: int| 0 <= j <= a.len() && b == a.take(j);
    assert forall|i: int| 0 <= i < b.len() implies s.contains(#[trigger] b[i]) by {
        assert(b[i] == s[k + i]);
    }
    if b.len() > 0 {
        assert(b[0] == a[0]);
    }
}

/// A sanitized title holds no character that filesystems refuse, and it
/// neither starts nor ends with a dot.
pub proof fn lemma_sanitized_title_is_safe(s: Seq<char>)
    ensures
        forall|i: int| 0 <= i < sanitized_title(s).len() ==> !is_illegal_name_char(#[trigger] sanitized_title(s)[i]),
        sanitized_title(s).len() > 0 ==> sanitized_title(s)[0] != '.' && sanitized_title(s).last() != '.',
        sanitized_title(s).len() <= s.len(),
{
    let r = replace_illegal(s);
    let t = trim_ws(r);
    lemma_trim_by(r, |c: char| is_ws(c));
    lemma_trim_by(t, equals_char('.'));
    let u = sanitized_title(s);
    assert forall|i: int| 0 <= i < u.len() implies !is_illegal_name_char(#[trigger] u[i]) by {
        assert(t.contains(u[i]));
        let j = choose|j: int| 0 <= j < t.len() && t[j] == u[i];
        assert(r.contains(t[j]));
        let k = choose|k: int| 0 <= k < r.len() && r[k] == t[j];
    }
}

/// Replacing illegal characters neither makes nor removes whitespace.
pub proof fn lemma_replace_keeps_ws(c: char)
    ensures
        is_ws(if is_illegal_name_char(c) { '_' } else { c }) == is_ws(c),
{
}

/// Trimming whitespace commutes with replacing illegal characters (front).
pub proof fn lemma_trim_start_replace(s: Seq<char>)
    ensures
        trim_start_by(replace_illegal(s), |c: char| is_ws(c)) == replace_illegal(trim_start_by(s, |c: char| is_ws(c))),
    decreases s.len(),
{
    if s.len() > 0 {
        lemma_replace_keeps_ws(s[0]);
        assert(replace_illegal(s)[0] == (if is_illegal_name_char(s[0]) { '_' } else { s[0] }));
        if is_ws(s[0]) {
            assert(replace_illegal(s).drop_first() =~= replace_illegal(s.drop_first()));
            lemma_trim_start_replace(s.drop_first());
        }
    } else {
        assert(replace_illegal(s) =~= s);
    }
}

/// Trimming whitespace commutes with replacing illegal characters (end).
pub proof fn lemma_trim_end_replace(s: Seq<char>)
    ensures
        trim_end_by(replace_illegal(s), |c: char| is_ws(c)) == replace_illegal(trim_end_by(s, |c: char| is_ws(c))),
    decreases s.len(),
{
    if s.len() > 0 {
        lemma_replace_keeps_ws(s.last());
        assert(replace_illegal(s).last() == (if is_illegal_name_char(s.last()) { '_' } else { s.last() }));
        if is_ws(s.last()) {
            assert(replace_illegal(s).drop_last() =~= replace_illegal(s.drop_last()));
            lemma_trim_end_replace(s.drop_last());
        }
    } else {
        assert(replace_illegal(s) =~= s);
    }
}

/// Trimming twice is trimming once.
pub proof fn lemma_trim_idempotent(s: Seq<char>, p: spec_fn(char) -> bool)
    ensures
        trim_by(trim_by(s, p), p) == trim_by(s, p),
{
    lemma_trim_by(s, p);
    let r = trim_by(s, p);
    assert(trim_start_by(r, p) == r);
    assert(trim_end_by(r, p) == r);
}

/// The folder a download is written to is the folder the library
/// annotation looks for: the download names it after the trimmed title,
/// the annotation after the title as listed, and both give the same name.
pub proof fn lemma_folder_ignores_outer_whitespace(title: Seq<char>)
    ensures
        sanitized_title(trim_ws(title)) == sanitized_title(title),
{
    let p = |c: char| is_ws(c);
    lemma_trim_start_replace(title);
    lemma_trim_end_replace(trim_start_by(title, p));
    lemma_trim_start_replace(trim_by(title, p));
    lemma_trim_end_replace(trim_start_by(trim_by(title, p), p));
    lemma_trim_idempotent(title, p);
    lemma_trim_idempotent(replace_illegal(title), p);
    assert(replace_illegal(trim_ws(title)) == trim_ws(replace_illegal(title)));
}

} // verus!
