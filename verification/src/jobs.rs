//! Per-job bookkeeping: the cooperative cancellation registry and the buffer
//! of recent progress events that late subscribers receive.
use vstd::prelude::*;
use std::collections::VecDeque;
use dashmap::DashMap;

verus! {

#[verifier::external_type_specification]
#[verifier::external_body]
#[verifier::reject_recursive_types(K)]
#[verifier::reject_recursive_types(V)]
#[verifier::reject_recursive_types(S)]
pub struct ExDashMap<K, V, S>(DashMap<K, V, S>);

/// The job ids a cancellation map holds, each with its flag.
pub uninterp spec fn cancel_entries(m: DashMap<String, bool>) -> Map<Seq<char>, bool>;

/// The buffered events an event map holds for each job id, oldest first.
pub uninterp spec fn buffered_events(m: DashMap<String, VecDeque<String>>) -> Map<Seq<char>, Seq<Seq<char>>>;

/// No job has an entry.
pub open spec fn no_requests() -> Map<Seq<char>, bool> {
    Map::empty()
}

/// No job has a buffer.
pub open spec fn no_events() -> Map<Seq<char>, Seq<Seq<char>>> {
    Map::empty()
}

/// `DashMap::new` for the cancellation map: it starts empty.
#[verifier::external_body]
fn new_cancel_map() -> (r: DashMap<String, bool>)
    ensures
        cancel_entries(r) == no_requests(),
{
    DashMap::new()
}

/// `DashMap::insert`: the key now maps to the value; other keys keep theirs.
#[verifier::external_body]
fn cancel_map_insert(m: &mut DashMap<String, bool>, k: String, v: bool)
    ensures
        cancel_entries(*final(m)) == cancel_entries(*old(m)).insert(k@, v),
{
    m.insert(k, v);
}

/// `DashMap::remove`: the key no longer has an entry; other keys keep theirs.
#[verifier::external_body]
fn cancel_map_remove(m: &mut DashMap<String, bool>, k: &str)
    ensures
        cancel_entries(*final(m)) == cancel_entries(*old(m)).remove(k@),
{
    m.remove(k);
}

/// `DashMap::get(..).is_some()`: whether the key has an entry.
#[verifier::external_body]
fn cancel_map_has(m: &DashMap<String, bool>, k: &str) -> (r: bool)
    ensures
        r == cancel_entries(*m).contains_key(k@),
{
    m.get(k).is_some()
}

/// `DashMap::new` for the event buffers: it starts empty.
#[verifier::external_body]
fn new_buffer_map() -> (r: DashMap<String, VecDeque<String>>)
    ensures
        buffered_events(r) == no_events(),
{
    DashMap::new()
}

/// `DashMap::insert` on the event buffers.
#[verifier::external_body]
fn buffer_map_insert(m: &mut DashMap<String, VecDeque<String>>, k: String, v: VecDeque<String>)
    ensures
        buffered_events(*final(m)) == buffered_events(*old(m)).insert(k@, v@.map_values(|s: String| s@)),
{
    m.insert(k, v);
}

/// `DashMap::remove` on the event buffers, handing out the removed buffer.
#[verifier::external_body]
fn buffer_map_remove(m: &mut DashMap<String, VecDeque<String>>, k: &str) -> (r: Option<VecDeque<String>>)
    ensures
        buffered_events(*final(m)) == buffered_events(*old(m)).remove(k@),
        match r {
            Some(q) => buffered_events(*old(m)).contains_key(k@) && q@.map_values(|s: String| s@) == buffered_events(*old(m))[k@],
            None => !buffered_events(*old(m)).contains_key(k@),
        },
{
    m.remove(k).map(|(_, v)| v)
}

/// How many recent events are kept for each job.
pub const EVENT_BUFFER_CAPACITY: usize = 32;

/// A buffer after one more event: the oldest event makes room once the
/// buffer is full.
pub open spec fn appended(q: Seq<Seq<char>>, e: Seq<char>) -> Seq<Seq<char>> {
    if q.len() >= EVENT_BUFFER_CAPACITY {
        q.drop_first().push(e)
    } else {
        q.push(e)
    }
}

/// The buffer of a job after the events `es`, starting from `q`.
pub open spec fn after_events(q: Seq<Seq<char>>, es: Seq<Seq<char>>) -> Seq<Seq<char>>
    decreases es.len(),
{
    if es.len() == 0 {
        q
    } else {
        appended(after_events(q, es.drop_last()), es.last())
    }
}

/// Cancellation flags and event buffers of all jobs.
pub struct JobRegistry {
    cancelled: DashMap<String, bool>,
    buffers: DashMap<String, VecDeque<String>>,
}

impl JobRegistry {
    /// The jobs that have been asked to cancel.
    pub closed spec fn cancel_requests(self) -> Map<Seq<char>, bool> {
        cancel_entries(self.cancelled)
    }

    /// The buffered events of each job, oldest first.
    pub closed spec fn events(self) -> Map<Seq<char>, Seq<Seq<char>>> {
        buffered_events(self.buffers)
    }

    /// No job holds more than [`EVENT_BUFFER_CAPACITY`] buffered events.
    pub open spec fn bounded(self) -> bool {
        forall|k: Seq<char>| #[trigger] self.events().contains_key(k) ==> self.events()[k].len() <= EVENT_BUFFER_CAPACITY
    }

    /// An empty registry.
    pub fn new() -> (r: JobRegistry)
        ensures
            r.cancel_requests() == no_requests(),
            r.events() == no_events(),
            r.bounded(),
    {
        JobRegistry { cancelled: new_cancel_map(), buffers: new_buffer_map() }
    }

    /// Requests cancellation of a job.
    pub fn cancel_job(&mut self, job_id: &str)
        ensures
            final(self).cancel_requests() == old(self).cancel_requests().insert(job_id@, true),
            final(self).events() == old(self).events(),
    {
        cancel_map_insert(&mut self.cancelled, job_id.to_string(), true);
    }

    /// Clears a job's cancellation request.
    pub fn acknowledge_cancel(&mut self, job_id: &str)
        ensures
            final(self).cancel_requests() == old(self).cancel_requests().remove(job_id@),
            final(self).events() == old(self).events(),
    {
        cancel_map_remove(&mut self.cancelled, job_id);
    }

    /// Winds up a cancelled job: its cancellation request is cleared.
    pub fn cancel_this_job(&mut self, job_id_opt: Option<&str>)
        ensures
            final(self).cancel_requests() == match job_id_opt {
                Some(j) => old(self).cancel_requests().remove(j@),
                None => old(self).cancel_requests(),
            },
            final(self).events() == old(self).events(),
            old(self).bounded() ==> final(self).bounded(),
    {
        if let Some(j) = job_id_opt {
            self.acknowledge_cancel(j);
        }
    }

    /// Whether a job has been asked to cancel; no job id means no.
    pub fn check_if_job_is_cancelled(&self, job_id_opt: Option<&str>) -> (r: bool)
        ensures
            r == match job_id_opt {
                Some(j) => self.cancel_requests().contains_key(j@),
                None => false,
            },
    {
        match job_id_opt {
            Some(j) => cancel_map_has(&self.cancelled, j),
            None => false,
        }
    }

    /// Buffers an event of a job, keeping only the most recent
    /// [`EVENT_BUFFER_CAPACITY`].
    pub fn push_buffered(&mut self, job_id: &str, json: String)
        ensures
            final(self).events() == old(self).events().insert(
                job_id@,
                appended(
                    if old(self).events().contains_key(job_id@) { old(self).events()[job_id@] } else { Seq::empty() },
                    json@,
                ),
            ),
            final(self).cancel_requests() == old(self).cancel_requests(),
            old(self).bounded() ==> final(self).bounded(),
    {
        let ghost before = buffered_events(self.buffers);
        let ghost prior = if before.contains_key(job_id@) { before[job_id@] } else { Seq::empty() };
        let mut q = match buffer_map_remove(&mut self.buffers, job_id) {
            Some(q) => q,
            None => {
                let e: VecDeque<String> = VecDeque::with_capacity(EVENT_BUFFER_CAPACITY);
                assert(e@.map_values(|s: String| s@) =~= Seq::<Seq<char>>::empty());
                e
            },
        };
        let ghost qv = q@.map_values(|s: String| s@);
        assert(qv == prior);
        if q.len() >= EVENT_BUFFER_CAPACITY {
            q.pop_front();
        }
        let ghost jv = json@;
        q.push_back(json);
        proof {
            assert(q@.map_values(|s: String| s@) =~= appended(qv, jv));
            assert(buffered_events(self.buffers) == before.remove(job_id@));
        }
        buffer_map_insert(&mut self.buffers, job_id.to_string(), q);
        proof {
            assert(buffered_events(self.buffers) =~= before.insert(job_id@, appended(qv, jv)));
            if old(self).bounded() {
                if before.contains_key(job_id@) {
                    assert(old(self).events().contains_key(job_id@));
                }
                assert(prior.len() <= EVENT_BUFFER_CAPACITY);
                assert forall|k: Seq<char>| #[trigger] self.events().contains_key(k)
                    implies self.events()[k].len() <= EVENT_BUFFER_CAPACITY by {
                    if k != job_id@ {
                        assert(old(self).events().contains_key(k));
                    }
                }
            }
        }
    }

    /// Hands out a job's buffered events, oldest first, and empties its
    /// buffer.
    pub fn take_buffer(&mut self, job_id: &str) -> (r: Vec<String>)
        ensures
            old(self).events().contains_key(job_id@) ==> {
                &&& r@.map_values(|s: String| s@) == old(self).events()[job_id@]
                &&& final(self).events() == old(self).events().insert(job_id@, Seq::empty())
            },
            !old(self).events().contains_key(job_id@) ==> {
                &&& r@.len() == 0
                &&& final(self).events() == old(self).events()
            },
            final(self).cancel_requests() == old(self).cancel_requests(),
            old(self).bounded() ==> final(self).bounded(),
    {
        let ghost before = buffered_events(self.buffers);
        match buffer_map_remove(&mut self.buffers, job_id) {
            Some(mut q) => {
                let ghost qv = q@.map_values(|s: String| s@);
                let mut out: Vec<String> = Vec::new();
                while q.len() > 0
                    invariant
                        out@.map_values(|s: String| s@) + q@.map_values(|s: String| s@) == qv,
                    decreases q.len(),
                {
                    let ghost qb = q@;
                    let ghost ob = out@;
                    match q.pop_front() {
                        Some(v) => {
                            out.push(v);
                            proof {
                                assert(out@.map_values(|s: String| s@) + q@.map_values(|s: String| s@) =~= ob.map_values(|s: String| s@) + qb.map_values(|s: String| s@));
                            }
                        },
                        None => {},
                    }
                }
                assert(out@.map_values(|s: String| s@) =~= qv);
                buffer_map_insert(&mut self.buffers, job_id.to_string(), q);
                proof {
                    assert(q@.map_values(|s: String| s@) =~= Seq::<Seq<char>>::empty());
                    assert(buffered_events(self.buffers) =~= before.insert(job_id@, Seq::empty()));
                }
                out
            },
            None => {
                proof {
                    assert(before.remove(job_id@) =~= before);
                }
                Vec::new()
            },
        }
    }
}

/// A late subscriber gets the most recent events of the job, oldest first:
/// after the events `es` on a job with an empty buffer, the buffer holds the
/// last [`EVENT_BUFFER_CAPACITY`] of them (all of them when there are fewer).
pub proof fn lemma_buffer_keeps_latest(es: Seq<Seq<char>>)
    ensures
        after_events(Seq::empty(), es) == es.subrange(
            if es.len() > EVENT_BUFFER_CAPACITY { es.len() - EVENT_BUFFER_CAPACITY } else { 0 },
            es.len() as int,
        ),
    decreases es.len(),
{
    if es.len() == 0 {
        assert(es.subrange(0, 0) =~= Seq::<Seq<char>>::empty());
    } else {
        let init = es.drop_last();
        lemma_buffer_keeps_latest(init);
        let lo = if init.len() > EVENT_BUFFER_CAPACITY { init.len() - EVENT_BUFFER_CAPACITY } else { 0 };
        let q = init.subrange(lo, init.len() as int);
        let lo2 = if es.len() > EVENT_BUFFER_CAPACITY { es.len() - EVENT_BUFFER_CAPACITY } else { 0 };
        if q.len() >= EVENT_BUFFER_CAPACITY {
            assert(q.drop_first().push(es.last()) =~= es.subrange(lo2, es.len() as int));
        } else {
            assert(q.push(es.last()) =~= es.subrange(lo2, es.len() as int));
        }
    }
}

/// The buffered events of job `j` in a registry: none when it has no buffer.
pub open spec fn buffer_of(r: JobRegistry, j: Seq<char>) -> Seq<Seq<char>> {
    if r.events().contains_key(j) {
        r.events()[j]
    } else {
        Seq::empty()
    }
}

/// What a subscriber that comes late is handed: when, since the last
/// `take_buffer` of job `j` (or since the start), its buffer was changed only
/// by `push_buffered` of the events `es`, in that order, `take_buffer`
/// gives back the last [`EVENT_BUFFER_CAPACITY`] of them (all of them when
/// there are fewer), oldest first, and leaves the buffer empty, so that a
/// second `take_buffer` right after it gives back nothing.
///
/// `states[i]` is the registry before the `i`-th push; `taken` and `after`
/// are what `take_buffer` returns and leaves on the last state.
pub proof fn lemma_take_after_pushes(
    states: Seq<JobRegistry>,
    es: Seq<Seq<char>>,
    j: Seq<char>,
    taken: Seq<Seq<char>>,
    after: JobRegistry,
)
    requires
        states.len() == es.len() + 1,
        buffer_of(states[0], j) == Seq::<Seq<char>>::empty(),
        forall|i: int| 0 <= i < es.len() ==> #[trigger] buffer_of(states[i + 1], j) == appended(buffer_of(states[i], j), es[i]),
        states.last().events().contains_key(j) ==> {
            &&& taken == states.last().events()[j]
            &&& after.events() == states.last().events().insert(j, Seq::empty())
        },
        !states.last().events().contains_key(j) ==> {
            &&& taken.len() == 0
            &&& after.events() == states.last().events()
        },
    ensures
        taken == es.subrange(
            if es.len() > EVENT_BUFFER_CAPACITY { es.len() - EVENT_BUFFER_CAPACITY } else { 0 },
            es.len() as int,
        ),
        buffer_of(after, j) == Seq::<Seq<char>>::empty(),
{
    lemma_run_prefix(states, es, j, es.len() as int);
    assert(es.take(es.len() as int) =~= es);
    lemma_buffer_keeps_latest(es);
    assert(buffer_of(states.last(), j) == after_events(Seq::empty(), es));
    if !states.last().events().contains_key(j) {
        assert(taken =~= Seq::<Seq<char>>::empty());
    }
}

/// After the first `i` pushes, a run that started from an empty buffer
/// holds what those events leave in it.
proof fn lemma_run_prefix(states: Seq<JobRegistry>, es: Seq<Seq<char>>, j: Seq<char>, i: int)
    requires
        0 <= i <= es.len(),
        states.len() == es.len() + 1,
        buffer_of(states[0], j) == Seq::<Seq<char>>::empty(),
        forall|i: int| 0 <= i < es.len() ==> #[trigger] buffer_of(states[i + 1], j) == appended(buffer_of(states[i], j), es[i]),
    ensures
        buffer_of(states[i], j) == after_events(Seq::empty(), es.take(i)),
    decreases i,
{
    if i == 0 {
        assert(es.take(0) =~= Seq::<Seq<char>>::empty());
    } else {
        lemma_run_prefix(states, es, j, i - 1);
        assert(es.take(i).drop_last() =~= es.take(i - 1));
        assert(es.take(i).last() == es[i - 1]);
        assert(buffer_of(states[(i - 1) + 1], j) == appended(buffer_of(states[i - 1], j), es[i - 1]));
    }
}

/// Cancelling marks exactly the job asked for; acknowledging clears exactly
/// that job again.
pub proof fn lemma_cancel_cycle(m: Map<Seq<char>, bool>, job: Seq<char>, other: Seq<char>)
    ensures
        m.insert(job, true).contains_key(job),
        !m.insert(job, true).remove(job).contains_key(job),
        other != job ==> (m.insert(job, true).contains_key(other) == m.contains_key(other)),
        other != job ==> (m.insert(job, true).remove(job).contains_key(other) == m.contains_key(other)),
{
}

} // verus!
