//! Breadth-first searches over folders: for a project file under a
//! template, and for the `Content` folder of a downloaded asset. The
//! caller lists folders; the searches decide where to look next and when
//! they are done.
use vstd::prelude::*;
use std::collections::VecDeque;
use crate::create::{is_uproject_name, EntryKind};
use crate::text::{chars_of, contains_chars, contains_seq, eq_ignore_ascii_case, eq_ignore_case, lowercased, to_lowercase};

verus! {

/// An entry of a listed folder.
pub struct ChildEntry {
    /// The entry's full path.
    pub path: String,
    /// Its file name.
    pub name: String,
    /// What it is, following symbolic links.
    pub kind: EntryKind,
}

/// Folders the project search does not descend into.
pub open spec fn skipped_dir(name: Seq<char>) -> bool {
    eq_ignore_case(name, "content"@) || eq_ignore_case(name, ".git"@) || eq_ignore_case(name, ".svn"@)
}

/// Executable form of [`skipped_dir`].
fn is_skipped_dir(name: &str) -> (r: bool)
    ensures
        r == skipped_dir(name@),
{
    let n = chars_of(name);
    eq_ignore_ascii_case(&n, &chars_of("content")) || eq_ignore_ascii_case(&n, &chars_of(".git"))
        || eq_ignore_ascii_case(&n, &chars_of(".svn"))
}

/// The entry is a project file.
pub open spec fn project_file(e: ChildEntry) -> bool {
    e.kind == EntryKind::File && is_uproject_name(e.name@)
}

/// The folders of a listing that the project search queues, in listing
/// order, one level deeper.
pub open spec fn queued_children(es: Seq<ChildEntry>, depth: int) -> Seq<(Seq<char>, int)>
    decreases es.len(),
{
    if es.len() == 0 {
        Seq::empty()
    } else {
        let rest = queued_children(es.drop_last(), depth);
        let e = es.last();
        if e.kind == EntryKind::Dir && !skipped_dir(e.name@) {
            rest.push((e.path@, depth + 1))
        } else {
            rest
        }
    }
}

/// The view of a queue of folders with their depths.
pub open spec fn queue_view(q: Seq<(String, usize)>) -> Seq<(Seq<char>, int)> {
    q.map_values(|p: (String, usize)| (p.0@, p.1 as int))
}

/// A breadth-first search for a `.uproject` file, at most `max_depth`
/// folder levels below the start.
pub struct UprojectSearch {
    queue: VecDeque<(String, usize)>,
    max_depth: usize,
}

impl UprojectSearch {
    /// The folders still to look at, with their depths, in order.
    pub closed spec fn pending(self) -> Seq<(Seq<char>, int)> {
        queue_view(self.queue@)
    }

    /// The deepest level searched.
    pub closed spec fn limit(self) -> int {
        self.max_depth as int
    }

    /// No queued folder lies deeper than the limit.
    pub open spec fn wf(self) -> bool {
        forall|i: int| 0 <= i < self.pending().len() ==> 0 <= (#[trigger] self.pending()[i]).1 <= self.limit()
    }

    /// A search from `start`; with a depth of 0 there is nothing to search.
    pub fn new(start: &str, max_depth: usize) -> (r: UprojectSearch)
        ensures
            r.wf(),
            r.limit() == max_depth,
            max_depth == 0 ==> r.pending() == Seq::<(Seq<char>, int)>::empty(),
            max_depth > 0 ==> r.pending() == seq![(start@, 0int)],
    {
        let mut queue: VecDeque<(String, usize)> = VecDeque::new();
        if max_depth > 0 {
            queue.push_back((start.to_string(), 0));
        }
        let r = UprojectSearch { queue, max_depth };
        assert(r.pending() =~= if max_depth == 0 { Seq::<(Seq<char>, int)>::empty() } else { seq![(start@, 0int)] });
        r
    }

    /// Takes the next folder to look at.
    pub fn next_dir(&mut self) -> (r: Option<(String, usize)>)
        ensures
            final(self).limit() == old(self).limit(),
            old(self).wf() ==> final(self).wf(),
            old(self).pending().len() == 0 ==> r is None && final(self).pending() == old(self).pending(),
            old(self).pending().len() > 0 ==> (r matches Some(d) && (d.0@, d.1 as int) == old(self).pending()[0]
                && final(self).pending() == old(self).pending().drop_first()),
    {
        let ghost q0 = self.queue@;
        let r = self.queue.pop_front();
        proof {
            if q0.len() > 0 {
                assert(queue_view(self.queue@) =~= queue_view(q0).drop_first());
            }
        }
        r
    }

    /// Looks into a folder at `depth`, listed as `entries`: returns the
    /// first project file in it; otherwise queues its sub-folders, unless
    /// the folder is at the depth limit.
    pub fn visit_dir(&mut self, depth: usize, entries: &Vec<ChildEntry>) -> (r: Option<String>)
        requires
            depth <= old(self).limit(),
        ensures
            final(self).limit() == old(self).limit(),
            old(self).wf() ==> final(self).wf(),
            match crate::search::first_index(entries@, |e: ChildEntry| project_file(e)) {
                Some(i) => r matches Some(p) && p@ == entries@[i].path@ && final(self).pending() == old(self).pending(),
                None => r is None && final(self).pending() == old(self).pending() + (if depth < old(self).limit() {
                    queued_children(entries@, depth as int)
                } else {
                    Seq::empty()
                }),
            },
    {
        let ghost p = |e: ChildEntry| project_file(e);
        let mut i: usize = 0;
        while i < entries.len()
            invariant
                i <= entries.len(),
                p == (|e: ChildEntry| project_file(e)),
                forall|k: int| 0 <= k < i ==> !p(#[trigger] entries@[k]),
            decreases entries.len() - i,
        {
            let e = &entries[i];
            if e.kind == EntryKind::File && crate::create::uproject_file_name(e.name.as_str()) {
                proof { crate::search::lemma_first_index_at(entries@, p, i as int); }
                return Some(e.path.clone());
            }
            i += 1;
        }
        proof { crate::search::lemma_first_index_none(entries@, p); }
        if depth >= self.max_depth {
            assert(self.pending() =~= self.pending() + Seq::<(Seq<char>, int)>::empty());
            return None;
        }
        let ghost base = self.pending();
        let ghost lim = self.max_depth;
        assert(base == old(self).pending());
        assert(lim == old(self).limit());
        let mut j: usize = 0;
        while j < entries.len()
            invariant
                j <= entries.len(),
                self.max_depth == lim,
                depth < self.max_depth,
                self.pending() == base + queued_children(entries@.take(j as int), depth as int),
            decreases entries.len() - j,
        {
            let e = &entries[j];
            assert(entries@.take(j + 1).drop_last() =~= entries@.take(j as int));
            if e.kind == EntryKind::Dir && !is_skipped_dir(e.name.as_str()) {
                let ghost before = self.queue@;
                self.queue.push_back((e.path.clone(), depth + 1));
                assert(queue_view(self.queue@) =~= queue_view(before).push((e.path@, depth + 1)));
            }
            j += 1;
        }
        assert(entries@.take(entries.len() as int) =~= entries@);
        proof {
            if old(self).wf() {
                lemma_queued_depth(entries@, depth as int);
                assert forall|k: int| 0 <= k < self.pending().len() implies 0 <= (#[trigger] self.pending()[k]).1 <= self.limit() by {
                    if k >= base.len() {
                        assert(self.pending()[k] == queued_children(entries@, depth as int)[k - base.len()]);
                    } else {
                        assert(self.pending()[k] == old(self).pending()[k]);
                    }
                }
            }
        }
        None
    }
}

/// Every folder queued from a listing at `depth` sits at `depth + 1`, and
/// none of them is skipped.
pub proof fn lemma_queued_depth(es: Seq<ChildEntry>, depth: int)
    ensures
        forall|k: int| 0 <= k < queued_children(es, depth).len() ==> (#[trigger] queued_children(es, depth)[k]).1 == depth + 1,
    decreases es.len(),
{
    if es.len() > 0 {
        lemma_queued_depth(es.drop_last(), depth);
        let rest = queued_children(es.drop_last(), depth);
        let q = queued_children(es, depth);
        assert forall|k: int| 0 <= k < q.len() implies (#[trigger] q[k]).1 == depth + 1 by {
            if k < rest.len() {
                assert(q[k] == rest[k]);
            }
        }
    }
}

/// Every folder the project search queues from a listing is a folder of
/// that listing, and never a `Content`, `.git` or `.svn` folder.
pub proof fn lemma_children_not_skipped(es: Seq<ChildEntry>, depth: int, k: int)
    requires
        0 <= k < queued_children(es, depth).len(),
    ensures
        exists|i: int| 0 <= i < es.len() && (#[trigger] es[i]).kind == EntryKind::Dir && !skipped_dir(es[i].name@)
            && es[i].path@ == queued_children(es, depth)[k].0,
    decreases es.len(),
{
    let rest = queued_children(es.drop_last(), depth);
    if k < rest.len() {
        lemma_children_not_skipped(es.drop_last(), depth, k);
        let i = choose|i: int| 0 <= i < es.drop_last().len() && (#[trigger] es.drop_last()[i]).kind == EntryKind::Dir
            && !skipped_dir(es.drop_last()[i].name@) && es.drop_last()[i].path@ == rest[k].0;
        assert(es[i] == es.drop_last()[i]);
    } else {
        let i = es.len() - 1;
        assert(es[i] == es.last());
    }
}

// ---------------------------------------------------------------------------
// The project search as a whole

/// The paths of the folders of a listing that the project search descends
/// into, in listing order.
pub open spec fn child_dirs(es: Seq<ChildEntry>) -> Seq<Seq<char>>
    decreases es.len(),
{
    if es.len() == 0 {
        Seq::empty()
    } else {
        let rest = child_dirs(es.drop_last());
        let e = es.last();
        if e.kind == EntryKind::Dir && !skipped_dir(e.name@) {
            rest.push(e.path@)
        } else {
            rest
        }
    }
}

/// Folders paired with a depth.
pub open spec fn at_depth(ps: Seq<Seq<char>>, d: int) -> Seq<(Seq<char>, int)> {
    ps.map_values(|p: Seq<char>| (p, d))
}

/// The project file of a listing: the path of its first `.uproject` file.
pub open spec fn project_in(es: Seq<ChildEntry>) -> Option<Seq<char>> {
    match crate::search::first_index(es, |e: ChildEntry| project_file(e)) {
        Some(i) => Some(es[i].path@),
        None => None,
    }
}

/// The folders one level below the folders `l`, where `fs` gives each
/// folder's listing (empty for a folder that cannot be read): for each
/// folder in turn, its sub-folders in listing order.
pub open spec fn next_level(fs: spec_fn(Seq<char>) -> Seq<ChildEntry>, l: Seq<Seq<char>>) -> Seq<Seq<char>>
    decreases l.len(),
{
    if l.len() == 0 {
        Seq::empty()
    } else {
        next_level(fs, l.drop_last()) + child_dirs(fs(l.last()))
    }
}

/// The folders `d` levels below `start`, in breadth-first order.
pub open spec fn level(fs: spec_fn(Seq<char>) -> Seq<ChildEntry>, start: Seq<char>, d: nat) -> Seq<Seq<char>>
    decreases d,
{
    if d == 0 {
        seq![start]
    } else {
        next_level(fs, level(fs, start, (d - 1) as nat))
    }
}

/// The project file of the first of the folders `l` that holds one.
pub open spec fn first_project(fs: spec_fn(Seq<char>) -> Seq<ChildEntry>, l: Seq<Seq<char>>) -> Option<Seq<char>>
    decreases l.len(),
{
    if l.len() == 0 {
        None
    } else {
        match project_in(fs(l[0])) {
            Some(p) => Some(p),
            None => first_project(fs, l.drop_first()),
        }
    }
}

/// The shallowest project file from level `d` down to level `limit`: the
/// first one, in breadth-first order, on the first level that has one.
pub open spec fn shallowest(fs: spec_fn(Seq<char>) -> Seq<ChildEntry>, start: Seq<char>, limit: int, d: nat) -> Option<Seq<char>>
    decreases limit + 1 - d,
{
    if d > limit {
        None
    } else {
        match first_project(fs, level(fs, start, d)) {
            Some(p) => Some(p),
            None => shallowest(fs, start, limit, (d + 1) as nat),
        }
    }
}

/// One round of the project search, as `next_dir` and then `visit_dir` on
/// the folder's listing make it: the project file found in the first
/// pending folder, or the pending folders after it.
pub open spec fn search_step(fs: spec_fn(Seq<char>) -> Seq<ChildEntry>, pending: Seq<(Seq<char>, int)>, limit: int) -> Result<Seq<char>, Seq<(Seq<char>, int)>> {
    let p = pending[0].0;
    let d = pending[0].1;
    match project_in(fs(p)) {
        Some(r) => Ok(r),
        None => Err(pending.drop_first() + (if d < limit { queued_children(fs(p), d) } else { Seq::empty() })),
    }
}

/// The outcome of the project search from `pending` after at most `fuel`
/// rounds: `None` while it has not finished, else what it returns.
pub open spec fn search_run(fs: spec_fn(Seq<char>) -> Seq<ChildEntry>, pending: Seq<(Seq<char>, int)>, limit: int, fuel: nat) -> Option<Option<Seq<char>>>
    decreases fuel,
{
    if pending.len() == 0 {
        Some(None)
    } else if fuel == 0 {
        None
    } else {
        match search_step(fs, pending, limit) {
            Ok(r) => Some(Some(r)),
            Err(rest) => search_run(fs, rest, limit, (fuel - 1) as nat),
        }
    }
}

/// The folders a listing queues are its child folders one level deeper.
pub proof fn lemma_queued_children_at_depth(es: Seq<ChildEntry>, d: int)
    ensures
        queued_children(es, d) == at_depth(child_dirs(es), d + 1),
    decreases es.len(),
{
    if es.len() > 0 {
        lemma_queued_children_at_depth(es.drop_last(), d);
        assert(queued_children(es, d) =~= at_depth(child_dirs(es), d + 1));
    } else {
        assert(queued_children(es, d) =~= at_depth(child_dirs(es), d + 1));
    }
}

/// The project search finds the shallowest project file: started at the
/// folder `start` with a depth limit above 0, whatever it returns once it has
/// finished is the first `.uproject` file, in breadth-first order, of the
/// shallowest level no deeper than the limit that has one, never looking
/// into `Content`, `.git` or `.svn` folders in any ASCII case; `None` when
/// no such level has one.
pub proof fn lemma_search_finds_shallowest(fs: spec_fn(Seq<char>) -> Seq<ChildEntry>, start: Seq<char>, limit: int, fuel: nat)
    requires
        limit > 0,
    ensures
        search_run(fs, seq![(start, 0int)], limit, fuel) matches Some(res) ==> res == shallowest(fs, start, limit, 0),
{
    let l0 = level(fs, start, 0);
    assert(l0.skip(0) =~= seq![start]);
    assert(l0.take(0) =~= Seq::<Seq<char>>::empty());
    assert(seq![(start, 0int)] =~= at_depth(l0.skip(0), 0) + at_depth(next_level(fs, l0.take(0)), 1));
    assert(l0.skip(0) =~= l0);
    lemma_search_from(fs, start, limit, 0, 0, fuel);
}

/// What the search gives from the middle of a level: the rest of level `d`
/// pending, then the folders under the part of it already looked into.
proof fn lemma_search_from(fs: spec_fn(Seq<char>) -> Seq<ChildEntry>, start: Seq<char>, limit: int, d: nat, i: int, fuel: nat)
    requires
        d <= limit,
        0 <= i <= level(fs, start, d).len(),
    ensures
        ({
            let l = level(fs, start, d);
            let pending = at_depth(l.skip(i), d as int) + (if d < limit { at_depth(next_level(fs, l.take(i)), (d + 1) as int) } else { Seq::empty() });
            search_run(fs, pending, limit, fuel) matches Some(res) ==> res == match first_project(fs, l.skip(i)) {
                Some(p) => Some(p),
                None => shallowest(fs, start, limit, (d + 1) as nat),
            }
        }),
    decreases fuel, limit - d, level(fs, start, d).len() - i,
{
    let l = level(fs, start, d);
    let pending = at_depth(l.skip(i), d as int) + (if d < limit { at_depth(next_level(fs, l.take(i)), (d + 1) as int) } else { Seq::empty() });
    if i < l.len() {
        assert(pending[0] == (l[i], d as int));
        assert(l.skip(i)[0] == l[i]);
        assert(l.skip(i).drop_first() =~= l.skip(i + 1));
        match project_in(fs(l[i])) {
            Some(r) => {},
            None => {
                if fuel > 0 {
                    let rest = pending.drop_first() + (if d < limit { queued_children(fs(l[i]), d as int) } else { Seq::empty() });
                    assert(l.take(i + 1).drop_last() =~= l.take(i));
                    assert(l.take(i + 1).last() == l[i]);
                    lemma_queued_children_at_depth(fs(l[i]), d as int);
                    let next = at_depth(l.skip(i + 1), d as int) + (if d < limit { at_depth(next_level(fs, l.take(i + 1)), (d + 1) as int) } else { Seq::empty() });
                    assert(rest =~= next);
                    lemma_search_from(fs, start, limit, d, i + 1, (fuel - 1) as nat);
                }
            },
        }
    } else {
        assert(l.skip(i) =~= Seq::<Seq<char>>::empty());
        assert(l.take(i) =~= l);
        if d < limit {
            let l1 = level(fs, start, (d + 1) as nat);
            assert(l1 == next_level(fs, l));
            assert(l1.skip(0) =~= l1);
            assert(l1.take(0) =~= Seq::<Seq<char>>::empty());
            let next = at_depth(l1.skip(0), (d + 1) as int) + (if d + 1 < limit { at_depth(next_level(fs, l1.take(0)), (d + 2) as int) } else { Seq::empty() });
            assert(pending =~= next);
            lemma_search_from(fs, start, limit, (d + 1) as nat, 0, fuel);
        } else {
            assert(pending =~= Seq::<(Seq<char>, int)>::empty());
        }
    }
}

} // verus!

verus! {

/// How deep below `data` the search for a `Content` folder looks.
pub const CONTENT_SEARCH_DEPTH: usize = 10;

/// A folder named `Content`, in any ASCII case.
pub open spec fn content_named(name: Seq<char>) -> bool {
    eq_ignore_case(name, "Content"@)
}

/// A `Content` folder of a Marketplace plugin.
pub open spec fn marketplace_content(e: ChildEntry) -> bool {
    content_named(e.name@) && contains_seq(lowercased(e.path@), "plugins/marketplace"@)
}

/// One listing in the search for `Content`, from the front: every folder
/// is queued one level deeper; the first `Content` folder is remembered;
/// a Marketplace plugin's `Content` folder ends the search at once.
/// Gives the folders queued, the `Content` folder remembered, and the
/// Marketplace folder if one was met.
pub open spec fn content_scan(es: Seq<ChildEntry>, depth: int, found: Option<Seq<char>>) -> (Seq<(Seq<char>, int)>, Option<Seq<char>>, Option<Seq<char>>)
    decreases es.len(),
{
    if es.len() == 0 {
        (Seq::empty(), found, None)
    } else {
        let e = es[0];
        if e.kind != EntryKind::Dir {
            content_scan(es.drop_first(), depth, found)
        } else if marketplace_content(e) {
            (Seq::empty(), found, Some(e.path@))
        } else {
            let found1 = if content_named(e.name@) && found is None { Some(e.path@) } else { found };
            let rest = content_scan(es.drop_first(), depth, found1);
            (seq![(e.path@, depth + 1)] + rest.0, rest.1, rest.2)
        }
    }
}

/// Not deeper than the content search goes.
pub open spec fn shallow(p: (Seq<char>, int)) -> bool {
    p.1 <= CONTENT_SEARCH_DEPTH
}

/// [`shallow`] as a predicate.
pub open spec fn shallow_pred() -> spec_fn((Seq<char>, int)) -> bool {
    |p: (Seq<char>, int)| shallow(p)
}

/// The breadth-first search for an asset's `Content` folder.
pub struct ContentSearch {
    queue: VecDeque<(String, usize)>,
    found: Option<String>,
    marketplace: Option<String>,
}

impl ContentSearch {
    /// The folders still to look at.
    pub closed spec fn pending(self) -> Seq<(Seq<char>, int)> {
        queue_view(self.queue@)
    }

    /// The first `Content` folder met so far.
    pub closed spec fn first_content(self) -> Option<Seq<char>> {
        crate::fab_cache::opt_view(self.found)
    }

    /// The Marketplace plugin `Content` folder that ended the search.
    pub closed spec fn marketplace_found(self) -> Option<Seq<char>> {
        crate::fab_cache::opt_view(self.marketplace)
    }

    /// A search from an asset's `data` folder.
    pub fn new(data_dir: &str) -> (r: ContentSearch)
        ensures
            r.pending() == seq![(data_dir@, 0int)],
            r.first_content() is None,
            r.marketplace_found() is None,
    {
        let mut queue: VecDeque<(String, usize)> = VecDeque::new();
        queue.push_back((data_dir.to_string(), 0));
        let r = ContentSearch { queue, found: None, marketplace: None };
        assert(r.pending() =~= seq![(data_dir@, 0int)]);
        r
    }

    /// The next folder to list: none once a Marketplace folder was found;
    /// queued folders deeper than the limit are dropped on the way.
    pub fn next_dir(&mut self) -> (r: Option<(String, usize)>)
        ensures
            final(self).first_content() == old(self).first_content(),
            final(self).marketplace_found() == old(self).marketplace_found(),
            old(self).marketplace_found() is Some ==> r is None,
            old(self).marketplace_found() is None ==> match crate::search::first_index(old(self).pending(), shallow_pred()) {
                Some(i) => r matches Some(d) && (d.0@, d.1 as int) == old(self).pending()[i]
                    && final(self).pending() == old(self).pending().skip(i + 1),
                None => r is None && final(self).pending() == Seq::<(Seq<char>, int)>::empty(),
            },
    {
        if self.marketplace.is_some() {
            return None;
        }
        let ghost p = shallow_pred();
        let ghost q0 = self.pending();
        let ghost mut n: int = 0;
        loop
            invariant
                0 <= n <= q0.len(),
                self.pending() == q0.skip(n),
                forall|k: int| 0 <= k < n ==> !p(#[trigger] q0[k]),
                self.found == old(self).found,
                self.marketplace == old(self).marketplace,
                self.marketplace is None,
                p == shallow_pred(),
                q0 == old(self).pending(),
            decreases q0.len() - n,
        {
            let ghost before = self.queue@;
            match self.queue.pop_front() {
                Some(d) => {
                    assert(queue_view(self.queue@) =~= queue_view(before).drop_first());
                    assert(q0.skip(n)[0] == q0[n]);
                    assert(q0.skip(n).drop_first() =~= q0.skip(n + 1));
                    if d.1 <= CONTENT_SEARCH_DEPTH {
                        proof { crate::search::lemma_first_index_at(q0, p, n); }
                        return Some(d);
                    }
                    proof { n = n + 1; }
                },
                None => {
                    assert(q0.skip(n).len() == 0);
                    proof { crate::search::lemma_first_index_none(q0, p); }
                    return None;
                },
            }
        }
    }

    /// Looks at the listing of a folder at `depth`.
    pub fn visit_dir(&mut self, depth: usize, entries: &Vec<ChildEntry>)
        requires
            depth <= CONTENT_SEARCH_DEPTH,
            old(self).marketplace_found() is None,
        ensures
            final(self).pending() == old(self).pending() + content_scan(entries@, depth as int, old(self).first_content()).0,
            final(self).first_content() == content_scan(entries@, depth as int, old(self).first_content()).1,
            final(self).marketplace_found() == content_scan(entries@, depth as int, old(self).first_content()).2,
    {
        let ghost base = self.pending();
        let ghost f0 = self.first_content();
        let ghost mut added: Seq<(Seq<char>, int)> = Seq::empty();
        assert(entries@.skip(0) =~= entries@);
        let mut i: usize = 0;
        while i < entries.len()
            invariant
                i <= entries.len(),
                depth <= CONTENT_SEARCH_DEPTH,
                self.marketplace is None,
                base == old(self).pending(),
                f0 == old(self).first_content(),
                self.pending() == base + added,
                content_scan(entries@, depth as int, f0) == ({
                    let rest = content_scan(entries@.skip(i as int), depth as int, self.first_content());
                    (added + rest.0, rest.1, rest.2)
                }),
            decreases entries.len() - i,
        {
            let e = &entries[i];
            let ghost rest_es = entries@.skip(i as int);
            assert(rest_es[0] == entries@[i as int]);
            assert(rest_es.drop_first() =~= entries@.skip(i + 1));
            if e.kind == EntryKind::Dir {
                let is_content = eq_ignore_ascii_case(&chars_of(e.name.as_str()), &chars_of("Content"));
                if is_content {
                    let lower = to_lowercase(e.path.as_str());
                    if contains_chars(&chars_of(lower.as_str()), &chars_of("plugins/marketplace")) {
                        assert(marketplace_content(*e));
                        assert(content_scan(rest_es, depth as int, self.first_content()) == (Seq::<(Seq<char>, int)>::empty(), self.first_content(), Some(e.path@)));
                        self.marketplace = Some(e.path.clone());
                        assert(added + Seq::<(Seq<char>, int)>::empty() =~= added);
                        return;
                    }
                    if self.found.is_none() {
                        self.found = Some(e.path.clone());
                    }
                }
                let ghost qb = self.queue@;
                self.queue.push_back((e.path.clone(), depth + 1));
                assert(queue_view(self.queue@) =~= queue_view(qb).push((e.path@, depth + 1)));
                proof {
                    let rest = content_scan(entries@.skip(i + 1), depth as int, self.first_content());
                    assert(added + (seq![(e.path@, depth + 1)] + rest.0) =~= added.push((e.path@, depth + 1)) + rest.0);
                    added = added.push((e.path@, depth + 1));
                    assert(base + added =~= self.pending());
                }
            }
            i += 1;
        }
        assert(entries@.skip(i as int).len() == 0);
        assert(added + Seq::<(Seq<char>, int)>::empty() =~= added);
    }

    /// The folder found: a Marketplace plugin's `Content` when one was met,
    /// else the first `Content` folder.
    pub fn result(&self) -> (r: Option<String>)
        ensures
            crate::fab_cache::opt_view(r) == match self.marketplace_found() {
                Some(m) => Some(m),
                None => self.first_content(),
            },
    {
        match &self.marketplace {
            Some(m) => Some(m.clone()),
            None => self.found.clone(),
        }
    }
}

} // verus!
