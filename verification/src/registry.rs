//! The worker registry: one shared table of worker records keyed by
//! identity, kept sorted by identifier so listings and selection are
//! stable. Liveness is tracked through heartbeat touches and a periodic
//! staleness sweep.

use vstd::prelude::*;

verus! {

use crate::types::TimeStamp;
use crate::worker::{Worker, WorkerAddress, WorkerId, WorkerStatus};

/// Identifiers strictly increase along the table: sorted and duplicate-free.
pub open spec fn ids_sorted(s: Seq<Worker>) -> bool {
    forall|i: int, j: int| 0 <= i < j < s.len() ==> s[i].id.0.value < s[j].id.0.value
}

/// Some record carries the identifier.
pub open spec fn has_id(s: Seq<Worker>, id: WorkerId) -> bool {
    exists|i: int| 0 <= i < s.len() && s[i].id == id
}

/// The position of the record carrying the identifier.
pub open spec fn id_index(s: Seq<Worker>, id: WorkerId) -> int {
    choose|i: int| 0 <= i < s.len() && s[i].id == id
}

/// The record stored under an identifier, if any.
pub open spec fn spec_get(s: Seq<Worker>, id: WorkerId) -> Option<Worker> {
    if has_id(s, id) {
        Some(s[id_index(s, id)])
    } else {
        None
    }
}

/// In a sorted table, equal identifiers mean equal positions.
pub proof fn lemma_sorted_unique(s: Seq<Worker>, i: int, j: int)
    requires
        ids_sorted(s),
        0 <= i < s.len(),
        0 <= j < s.len(),
        s[i].id == s[j].id,
    ensures
        i == j,
{
    if i < j {
        assert(s[i].id.0.value < s[j].id.0.value);
    }
    if j < i {
        assert(s[j].id.0.value < s[i].id.0.value);
    }
}

/// Does a record match an optional status filter?
pub open spec fn status_matches(w: Worker, f: Option<WorkerStatus>) -> bool {
    match f {
        None => true,
        Some(st) => w.status == st,
    }
}

/// The records that pass the filter, in table order.
pub open spec fn filter_status(s: Seq<Worker>, f: Option<WorkerStatus>) -> Seq<Worker>
    decreases s.len(),
{
    if s.len() == 0 {
        Seq::empty()
    } else {
        let rest = filter_status(s.drop_last(), f);
        if status_matches(s.last(), f) {
            rest.push(s.last())
        } else {
            rest
        }
    }
}

/// Is the record's heartbeat older than the threshold, and the record not
/// administratively excluded?
pub open spec fn is_stale(w: Worker, now: TimeStamp, threshold: u64) -> bool {
    w.status != WorkerStatus::Disabled && now.secs > w.last_heartbeat.secs && now.secs
        - w.last_heartbeat.secs > threshold
}

/// One record after a sweep: a stale one moves to Unknown, the rest stay.
pub open spec fn sweep_one(w: Worker, now: TimeStamp, threshold: u64) -> Worker {
    if is_stale(w, now, threshold) {
        Worker { status: WorkerStatus::Unknown, ..w }
    } else {
        w
    }
}

/// The whole table after a sweep.
pub open spec fn swept(s: Seq<Worker>, now: TimeStamp, threshold: u64) -> Seq<Worker> {
    Seq::new(s.len(), |i: int| sweep_one(s[i], now, threshold))
}

/// The identifiers of the stale records, in table order.
pub open spec fn stale_ids(s: Seq<Worker>, now: TimeStamp, threshold: u64) -> Seq<WorkerId>
    decreases s.len(),
{
    if s.len() == 0 {
        Seq::empty()
    } else {
        let rest = stale_ids(s.drop_last(), now, threshold);
        if is_stale(s.last(), now, threshold) {
            rest.push(s.last().id)
        } else {
            rest
        }
    }
}

/// The shared worker table. All operations are point or full-scan reads and
/// whole-record writes; callers serialise access with one exclusive lock.
pub struct WorkerStore {
    pub workers: Vec<Worker>,
}

impl WorkerStore {
    /// The table's well-formedness: sorted, duplicate-free identifiers.
    pub open spec fn wf(&self) -> bool {
        ids_sorted(self.workers@)
    }

    /// An empty table.
    pub fn new() -> (r: WorkerStore)
        ensures
            r.wf(),
            r.workers@.len() == 0,
    {
        WorkerStore { workers: Vec::new() }
    }

    /// Stores a record under its identifier, replacing any record already
    /// there; every other identifier keeps its record.
    pub fn insert(&mut self, worker: Worker)
        requires
            old(self).wf(),
        ensures
            final(self).wf(),
            spec_get(final(self).workers@, worker.id) == Some(worker),
            forall|x: WorkerId| #[trigger]
                spec_get(final(self).workers@, x) == if x == worker.id {
                    Some(worker)
                } else {
                    spec_get(old(self).workers@, x)
                },
    {
        let ghost s0 = self.workers@;
        let mut i: usize = 0;
        let n = self.workers.len();
        while i < n && self.workers[i].id.0.value < worker.id.0.value
            invariant
                n == self.workers.len(),
                i <= n,
                self.workers@ == s0,
                forall|k: int| 0 <= k < i ==> s0[k].id.0.value < worker.id.0.value,
            decreases n - i,
        {
            i = i + 1;
        }
        proof {
            assert forall|k: int| i <= k < n implies s0[k].id.0.value >= worker.id.0.value by {
                if i < n && k > i {
                    assert(s0[i as int].id.0.value < s0[k].id.0.value);
                }
            }
        }
        if i < self.workers.len() && self.workers[i].id.0.value == worker.id.0.value {
            proof {
                assert(s0[i as int].id.0 == worker.id.0);
                assert(s0[i as int].id == worker.id);
            }
            self.workers.set(i, worker);
            proof {
                let s1 = self.workers@;
                assert(ids_sorted(s1));
                assert forall|x: WorkerId| #[trigger] spec_get(s1, x) == (if x == worker.id {
                    Some(worker)
                } else {
                    spec_get(s0, x)
                }) by {
                    lemma_get_after_update(s0, i as int, worker, x);
                }
            }
        } else {
            proof {
                assert forall|k: int| i <= k < n implies s0[k].id.0.value > worker.id.0.value by {
                    if k == i {
                        assert(s0[k].id.0.value >= worker.id.0.value);
                        assert(s0[k].id.0.value != worker.id.0.value);
                    } else {
                        assert(s0[i as int].id.0.value < s0[k].id.0.value);
                    }
                }
            }
            self.workers.insert(i, worker);
            proof {
                let s1 = self.workers@;
                assert forall|a: int, b: int| 0 <= a < b < s1.len() implies s1[a].id.0.value
                    < s1[b].id.0.value by {
                    if a < i && b > i {
                        assert(s1[a] == s0[a] && s1[b] == s0[b - 1]);
                    }
                }
                assert(ids_sorted(s1));
                assert forall|x: WorkerId| #[trigger] spec_get(s1, x) == (if x == worker.id {
                    Some(worker)
                } else {
                    spec_get(s0, x)
                }) by {
                    lemma_get_after_insert(s0, i as int, worker, x);
                }
            }
        }
    }

    /// A snapshot of the records passing the optional status filter, in
    /// identifier order.
    pub fn list(&self, status: Option<&WorkerStatus>) -> (r: Vec<Worker>)
        ensures
            r@ == filter_status(
                self.workers@,
                match status {
                    Some(st) => Some(*st),
                    None => None,
                },
            ),
    {
        let ghost f = match status {
            Some(st) => Some(*st),
            None => None,
        };
        let mut out: Vec<Worker> = Vec::new();
        let mut i: usize = 0;
        let n = self.workers.len();
        while i < n
            invariant
                n == self.workers.len(),
                i <= n,
                f == (match status {
                    Some(st) => Some(*st),
                    None => None,
                }),
                out@ == filter_status(self.workers@.subrange(0, i as int), f),
            decreases n - i,
        {
            let ghost pre = self.workers@.subrange(0, i as int);
            let ghost post = self.workers@.subrange(0, i + 1 as int);
            proof {
                assert(post.drop_last() =~= pre);
                assert(post.last() == self.workers@[i as int]);
            }
            let keep = match status {
                Some(st) => self.workers[i].status == *st,
                None => true,
            };
            if keep {
                out.push(self.workers[i].clone());
            }
            i = i + 1;
        }
        proof {
            assert(self.workers@.subrange(0, n as int) =~= self.workers@);
        }
        out
    }

    /// Point lookup by identifier.
    pub fn get(&self, id: WorkerId) -> (r: Option<Worker>)
        requires
            self.wf(),
        ensures
            r == spec_get(self.workers@, id),
    {
        let n = self.workers.len();
        let mut i: usize = 0;
        while i < n
            invariant
                self.wf(),
                n == self.workers.len(),
                i <= n,
                forall|k: int| 0 <= k < i ==> self.workers@[k].id != id,
            decreases n - i,
        {
            if self.workers[i].id.0.value == id.0.value {
                proof {
                    assert(self.workers@[i as int].id == id);
                    assert(has_id(self.workers@, id));
                    assert(self.workers@[id_index(self.workers@, id)].id == id);
                    lemma_sorted_unique(self.workers@, i as int, id_index(self.workers@, id));
                }
                return Some(self.workers[i].clone());
            }
            i = i + 1;
        }
        proof {
            if has_id(self.workers@, id) {
                let k = id_index(self.workers@, id);
                assert(0 <= k < n && self.workers@[k].id == id);
            }
        }
        None
    }

    /// Replaces the stored record wholesale when the identifier is known;
    /// yields nothing, and changes nothing, for an unknown identifier.
    pub fn update(&mut self, worker: &Worker) -> (r: Option<Worker>)
        requires
            old(self).wf(),
        ensures
            final(self).wf(),
            r is Some <==> has_id(old(self).workers@, worker.id),
            r is Some ==> r == Some(*worker) && spec_get(final(self).workers@, worker.id) == Some(
                *worker,
            ),
            r is None ==> final(self).workers@ == old(self).workers@,
            forall|x: WorkerId| x != worker.id ==> #[trigger] spec_get(final(self).workers@, x)
                == spec_get(old(self).workers@, x),
    {
        let ghost s0 = self.workers@;
        let n = self.workers.len();
        let mut i: usize = 0;
        while i < n
            invariant
                self.wf(),
                self.workers@ == s0,
                s0 == old(self).workers@,
                n == self.workers.len(),
                i <= n,
                forall|k: int| 0 <= k < i ==> self.workers@[k].id != worker.id,
            decreases n - i,
        {
            if self.workers[i].id.0.value == worker.id.0.value {
                proof {
                    assert(s0[i as int].id == worker.id);
                    assert(has_id(s0, worker.id));
                }
                self.workers.set(i, worker.clone());
                proof {
                    let s1 = self.workers@;
                    assert(ids_sorted(s1));
                    assert forall|x: WorkerId| x != worker.id implies #[trigger] spec_get(s1, x)
                        == spec_get(s0, x) by {
                        lemma_get_after_update(s0, i as int, *worker, x);
                    }
                    lemma_get_after_update(s0, i as int, *worker, worker.id);
                }
                return Some(worker.clone());
            }
            i = i + 1;
        }
        proof {
            if has_id(s0, worker.id) {
                let k = id_index(s0, worker.id);
                assert(0 <= k < n && s0[k].id == worker.id);
            }
        }
        None
    }

    /// Refreshes a worker's liveness stamp to the given instant, leaving
    /// its status untouched; yields nothing for an unknown identifier.
    pub fn touch_at(&mut self, id: &WorkerId, now: TimeStamp) -> (r: Option<Worker>)
        requires
            old(self).wf(),
        ensures
            final(self).wf(),
            r is Some <==> has_id(old(self).workers@, *id),
            r is None ==> final(self).workers@ == old(self).workers@,
            (match spec_get(old(self).workers@, *id) {
                Some(w) => r == Some((Worker { last_heartbeat: now, ..w })) && spec_get(
                    final(self).workers@,
                    *id,
                ) == Some((Worker { last_heartbeat: now, ..w })),
                None => r is None,
            }),
            forall|x: WorkerId| x != *id ==> #[trigger] spec_get(final(self).workers@, x)
                == spec_get(old(self).workers@, x),
    {
        let ghost s0 = self.workers@;
        let n = self.workers.len();
        let mut i: usize = 0;
        while i < n
            invariant
                self.wf(),
                self.workers@ == s0,
                s0 == old(self).workers@,
                n == self.workers.len(),
                i <= n,
                forall|k: int| 0 <= k < i ==> self.workers@[k].id != *id,
            decreases n - i,
        {
            if self.workers[i].id.0.value == id.0.value {
                proof {
                    assert(s0[i as int].id == *id);
                    assert(has_id(s0, *id));
                    assert(s0[id_index(s0, *id)].id == *id);
                    lemma_sorted_unique(s0, i as int, id_index(s0, *id));
                }
                let mut w = self.workers[i].clone();
                w.touch_at(now);
                let out = w.clone();
                self.workers.set(i, w);
                proof {
                    let s1 = self.workers@;
                    assert(ids_sorted(s1));
                    assert forall|x: WorkerId| x != *id implies #[trigger] spec_get(s1, x)
                        == spec_get(s0, x) by {
                        lemma_get_after_update(s0, i as int, s1[i as int], x);
                    }
                    lemma_get_after_update(s0, i as int, s1[i as int], *id);
                }
                return Some(out);
            }
            i = i + 1;
        }
        proof {
            if has_id(s0, *id) {
                let k = id_index(s0, *id);
                assert(0 <= k < n && s0[k].id == *id);
            }
        }
        None
    }

    /// Refreshes a worker's liveness stamp from the wall clock. The record
    /// keeps its identity, address, status and creation time; only the
    /// heartbeat stamp moves, and only for the named worker.
    pub fn touch(&mut self, id: &WorkerId) -> (r: Option<Worker>)
        requires
            old(self).wf(),
        ensures
            final(self).wf(),
            r is Some <==> has_id(old(self).workers@, *id),
            r is None ==> final(self).workers@ == old(self).workers@,
            (match spec_get(old(self).workers@, *id) {
                Some(w) => (match spec_get(final(self).workers@, *id) {
                    Some(t) => t.id == w.id && t.address == w.address && t.status == w.status
                        && t.create_time == w.create_time && r == Some(t),
                    None => false,
                }),
                None => r is None,
            }),
            forall|x: WorkerId| x != *id ==> #[trigger] spec_get(final(self).workers@, x)
                == spec_get(old(self).workers@, x),
    {
        let now = TimeStamp::now();
        self.touch_at(id, now)
    }

    /// Retires the record under the identifier: a soft delete. The record
    /// is retained with status Disabled — never physically erased, so the
    /// history linking execution results to worker identities stays valid —
    /// and the record as it stood before is handed back; nothing changes
    /// for an unknown identifier.
    pub fn remove(&mut self, id: &WorkerId) -> (r: Option<Worker>)
        requires
            old(self).wf(),
        ensures
            final(self).wf(),
            r == spec_get(old(self).workers@, *id),
            (match spec_get(old(self).workers@, *id) {
                Some(w) => spec_get(final(self).workers@, *id) == Some(
                    (Worker { status: WorkerStatus::Disabled, ..w }),
                ),
                None => final(self).workers@ == old(self).workers@,
            }),
            forall|x: WorkerId| x != *id ==> #[trigger] spec_get(final(self).workers@, x)
                == spec_get(old(self).workers@, x),
    {
        let ghost s0 = self.workers@;
        let n = self.workers.len();
        let mut i: usize = 0;
        while i < n
            invariant
                self.wf(),
                self.workers@ == s0,
                s0 == old(self).workers@,
                n == self.workers.len(),
                i <= n,
                forall|k: int| 0 <= k < i ==> self.workers@[k].id != *id,
            decreases n - i,
        {
            if self.workers[i].id.0.value == id.0.value {
                proof {
                    assert(s0[i as int].id == *id);
                    assert(has_id(s0, *id));
                    assert(s0[id_index(s0, *id)].id == *id);
                    lemma_sorted_unique(s0, i as int, id_index(s0, *id));
                }
                let out = self.workers[i].clone();
                let mut retired = self.workers[i].clone();
                retired.update_status(WorkerStatus::Disabled);
                self.workers.set(i, retired);
                proof {
                    let s1 = self.workers@;
                    assert(ids_sorted(s1));
                    assert forall|x: WorkerId| x != *id implies #[trigger] spec_get(s1, x)
                        == spec_get(s0, x) by {
                        lemma_get_after_update(s0, i as int, s1[i as int], x);
                    }
                    lemma_get_after_update(s0, i as int, s1[i as int], *id);
                }
                return Some(out);
            }
            i = i + 1;
        }
        proof {
            if has_id(s0, *id) {
                let k = id_index(s0, *id);
                assert(0 <= k < n && s0[k].id == *id);
            }
        }
        None
    }

    /// Creates a worker for the address — fresh identity, current instant,
    /// status available — stores it, and hands the record back.
    pub fn register(&mut self, address: WorkerAddress) -> (r: Worker)
        requires
            old(self).wf(),
        ensures
            final(self).wf(),
            r.address == address,
            r.status == WorkerStatus::Available,
            spec_get(final(self).workers@, r.id) == Some(r),
            forall|x: WorkerId| x != r.id ==> #[trigger] spec_get(final(self).workers@, x)
                == spec_get(old(self).workers@, x),
    {
        let worker = Worker::new(address);
        let out = worker.clone();
        self.insert(worker);
        out
    }

    /// Marks every stale record Unknown and reports each affected
    /// identifier exactly once, in table order. A record already Disabled
    /// is left alone; no identifier joins or leaves the table.
    pub fn sweep_stale(&mut self, now: TimeStamp, threshold: u64) -> (r: Vec<WorkerId>)
        requires
            old(self).wf(),
        ensures
            final(self).wf(),
            final(self).workers@ == swept(old(self).workers@, now, threshold),
            r@ == stale_ids(old(self).workers@, now, threshold),
    {
        let ghost s0 = self.workers@;
        let mut out: Vec<WorkerId> = Vec::new();
        let mut i: usize = 0;
        let n = self.workers.len();
        while i < n
            invariant
                n == self.workers@.len(),
                n == s0.len(),
                i <= n,
                ids_sorted(s0),
                forall|k: int| 0 <= k < i ==> self.workers@[k] == sweep_one(s0[k], now, threshold),
                forall|k: int| i <= k < n ==> self.workers@[k] == s0[k],
                out@ == stale_ids(s0.subrange(0, i as int), now, threshold),
            decreases n - i,
        {
            let ghost pre = s0.subrange(0, i as int);
            let ghost post = s0.subrange(0, i + 1 as int);
            proof {
                assert(post.drop_last() =~= pre);
                assert(post.last() == s0[i as int]);
            }
            let w = &self.workers[i];
            let stale = w.status != WorkerStatus::Disabled && now.secs > w.last_heartbeat.secs
                && now.secs - w.last_heartbeat.secs > threshold;
            if stale {
                out.push(self.workers[i].id);
                let mut moved = self.workers[i].clone();
                moved.update_status(WorkerStatus::Unknown);
                self.workers.set(i, moved);
            }
            i = i + 1;
        }
        proof {
            assert(s0.subrange(0, n as int) =~= s0);
            assert(self.workers@ =~= swept(s0, now, threshold));
            assert forall|a: int, b: int|
                0 <= a < b < self.workers@.len() implies self.workers@[a].id.0.value
                < self.workers@[b].id.0.value by {
                assert(self.workers@[a].id == s0[a].id && self.workers@[b].id == s0[b].id);
            }
        }
        out
    }
}

/// After replacing position `i` (same identifier), lookups see the new
/// record there and the old records elsewhere.
proof fn lemma_get_after_update(s: Seq<Worker>, i: int, w: Worker, x: WorkerId)
    requires
        ids_sorted(s),
        0 <= i < s.len(),
        s[i].id == w.id,
    ensures
        spec_get(s.update(i, w), x) == if x == w.id {
            Some(w)
        } else {
            spec_get(s, x)
        },
{
    let t = s.update(i, w);
    assert forall|a: int, b: int| 0 <= a < b < t.len() implies t[a].id.0.value
        < t[b].id.0.value by {
        assert(t[a].id == s[a].id && t[b].id == s[b].id);
    }
    if x == w.id {
        assert(t[i].id == x);
        assert(has_id(t, x));
        lemma_sorted_unique(t, id_index(t, x), i);
    } else {
        if has_id(t, x) {
            let k = id_index(t, x);
            assert(0 <= k < t.len() && t[k].id == x);
            assert(k != i);
            assert(s[k].id == x);
            assert(has_id(s, x));
            lemma_sorted_unique(s, id_index(s, x), k);
        }
        if has_id(s, x) {
            let k = id_index(s, x);
            assert(0 <= k < s.len() && s[k].id == x);
            assert(k != i);
            assert(t[k].id == x);
            assert(has_id(t, x));
        }
    }
}

/// After inserting a new identifier at its sorted position, lookups see the
/// new record under it and the old records elsewhere.
proof fn lemma_get_after_insert(s: Seq<Worker>, i: int, w: Worker, x: WorkerId)
    requires
        ids_sorted(s),
        0 <= i <= s.len(),
        forall|k: int| 0 <= k < i ==> s[k].id.0.value < w.id.0.value,
        forall|k: int| i <= k < s.len() ==> s[k].id.0.value > w.id.0.value,
    ensures
        spec_get(s.insert(i, w), x) == if x == w.id {
            Some(w)
        } else {
            spec_get(s, x)
        },
{
    let t = s.insert(i, w);
    assert forall|a: int, b: int| 0 <= a < b < t.len() implies t[a].id.0.value
        < t[b].id.0.value by {
        if a < i && b > i {
            assert(t[a] == s[a] && t[b] == s[b - 1]);
        }
    }
    assert(ids_sorted(t));
    if x == w.id {
        assert(t[i].id == x);
        assert(has_id(t, x));
        lemma_sorted_unique(t, id_index(t, x), i);
    } else {
        if has_id(t, x) {
            let k = id_index(t, x);
            assert(0 <= k < t.len() && t[k].id == x);
            assert(k != i);
            let k0: int = if k < i {
                k
            } else {
                k - 1
            };
            assert(s[k0].id == x);
            assert(has_id(s, x));
            lemma_sorted_unique(s, id_index(s, x), k0);
        }
        if has_id(s, x) {
            let k = id_index(s, x);
            assert(0 <= k < s.len() && s[k].id == x);
            let k1: int = if k < i {
                k
            } else {
                k + 1
            };
            assert(t[k1].id == x);
            assert(has_id(t, x));
        }
    }
}

/// After removing position `i`, lookups under every other identifier are
/// unchanged.
proof fn lemma_get_after_remove(s: Seq<Worker>, i: int, x: WorkerId)
    requires
        ids_sorted(s),
        0 <= i < s.len(),
        x != s[i].id,
    ensures
        spec_get(s.remove(i), x) == spec_get(s, x),
{
    let t = s.remove(i);
    assert forall|a: int, b: int| 0 <= a < b < t.len() implies t[a].id.0.value
        < t[b].id.0.value by {
        if a < i && b >= i {
            assert(t[a] == s[a] && t[b] == s[b + 1]);
        }
    }
    assert(ids_sorted(t));
    if has_id(t, x) {
        let k = id_index(t, x);
        assert(0 <= k < t.len() && t[k].id == x);
        let k0: int = if k < i {
            k
        } else {
            k + 1
        };
        assert(s[k0].id == x);
        assert(has_id(s, x));
        lemma_sorted_unique(s, id_index(s, x), k0);
    }
    if has_id(s, x) {
        let k = id_index(s, x);
        assert(0 <= k < s.len() && s[k].id == x);
        assert(k != i);
        let k1: int = if k < i {
            k
        } else {
            k - 1
        };
        assert(t[k1].id == x);
        assert(has_id(t, x));
    }
}

/// Every reported identifier names a stale record, and the reported
/// identifiers strictly increase, so none repeats.
proof fn lemma_stale_ids_increase(s: Seq<Worker>, now: TimeStamp, threshold: u64)
    requires
        ids_sorted(s),
    ensures
        forall|a: int|
            0 <= a < stale_ids(s, now, threshold).len() ==> exists|i: int|
                0 <= i < s.len() && s[i].id == #[trigger] stale_ids(s, now, threshold)[a]
                    && is_stale(s[i], now, threshold),
        forall|a: int, b: int|
            0 <= a < b < stale_ids(s, now, threshold).len() ==> stale_ids(
                s,
                now,
                threshold,
            )[a].0.value < stale_ids(s, now, threshold)[b].0.value,
    decreases s.len(),
{
    if s.len() > 0 {
        let head = s.drop_last();
        let ids = stale_ids(s, now, threshold);
        let hids = stale_ids(head, now, threshold);
        assert(ids_sorted(head));
        lemma_stale_ids_increase(head, now, threshold);
        assert forall|a: int|
            0 <= a < ids.len() implies exists|i: int|
            0 <= i < s.len() && s[i].id == #[trigger] ids[a] && is_stale(s[i], now, threshold) by {
            if a < hids.len() {
                assert(ids[a] == hids[a]);
                let i = choose|i: int|
                    0 <= i < head.len() && head[i].id == hids[a] && is_stale(
                        head[i],
                        now,
                        threshold,
                    );
                assert(s[i] == head[i]);
            } else {
                let i = s.len() - 1;
                assert(s[i].id == ids[a] && is_stale(s[i], now, threshold));
            }
        }
        assert forall|a: int, b: int| 0 <= a < b < ids.len() implies ids[a].0.value
            < ids[b].0.value by {
            if b < hids.len() {
                assert(ids[a] == hids[a] && ids[b] == hids[b]);
            } else {
                assert(ids[a] == hids[a]);
                let i = choose|i: int|
                    0 <= i < head.len() && head[i].id == hids[a] && is_stale(
                        head[i],
                        now,
                        threshold,
                    );
                assert(s[i].id.0.value < s[s.len() - 1].id.0.value);
            }
        }
    }
}

/// A stale record's identifier is reported.
proof fn lemma_stale_reported(s: Seq<Worker>, now: TimeStamp, threshold: u64, i: int)
    requires
        0 <= i < s.len(),
        is_stale(s[i], now, threshold),
    ensures
        stale_ids(s, now, threshold).contains(s[i].id),
    decreases s.len(),
{
    let ids = stale_ids(s, now, threshold);
    let head = s.drop_last();
    let hids = stale_ids(head, now, threshold);
    if i == s.len() - 1 {
        assert(ids.last() == s[i].id);
        assert(ids[ids.len() - 1] == s[i].id);
    } else {
        assert(head[i] == s[i]);
        lemma_stale_reported(head, now, threshold, i);
        let a = choose|a: int| 0 <= a < hids.len() && hids[a] == s[i].id;
        assert(ids[a] == s[i].id);
    }
}

/// A sweep reports an identifier exactly when its record was stale, reports
/// it at most once, and moves exactly the stale records to Unknown; no
/// record reverts to Available and none changes identity.
pub proof fn lemma_sweep_stale_law(s: Seq<Worker>, now: TimeStamp, threshold: u64)
    requires
        ids_sorted(s),
    ensures
        swept(s, now, threshold).len() == s.len(),
        forall|i: int| 0 <= i < s.len() ==> (#[trigger] swept(s, now, threshold)[i]).id == s[i].id,
        forall|i: int|
            0 <= i < s.len() ==> (#[trigger] swept(s, now, threshold)[i]).status == (if is_stale(
                s[i],
                now,
                threshold,
            ) {
                WorkerStatus::Unknown
            } else {
                s[i].status
            }),
        forall|i: int|
            0 <= i < s.len() ==> (stale_ids(s, now, threshold).contains(#[trigger] s[i].id)
                <==> is_stale(s[i], now, threshold)),
        forall|a: int, b: int|
            0 <= a < b < stale_ids(s, now, threshold).len() ==> stale_ids(s, now, threshold)[a]
                != stale_ids(s, now, threshold)[b],
{
    lemma_stale_ids_increase(s, now, threshold);
    let ids = stale_ids(s, now, threshold);
    assert forall|i: int|
        0 <= i < s.len() implies (ids.contains(#[trigger] s[i].id) <==> is_stale(
        s[i],
        now,
        threshold,
    )) by {
        if is_stale(s[i], now, threshold) {
            lemma_stale_reported(s, now, threshold, i);
        }
        if ids.contains(s[i].id) {
            let a = choose|a: int| 0 <= a < ids.len() && ids[a] == s[i].id;
            let k = choose|k: int|
                0 <= k < s.len() && s[k].id == ids[a] && is_stale(s[k], now, threshold);
            lemma_sorted_unique(s, k, i);
        }
    }
}

} // verus!
