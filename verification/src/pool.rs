//! Worker supervision: the sessions the supervisor keeps for its worker
//! processes, broadcast response aggregation, and the restart policy with
//! exponential backoff and a crash budget.

use vstd::prelude::*;

use crate::response::ProxyResponseStatus;
use crate::types::{RunState, WorkerInfo};

verus! {

/// One supervised worker process: its dense id, its pid and its run state.
/// The byte channel to the process lives outside the library; the session
/// records what the supervisor knows.
#[derive(Debug, Clone, Copy, PartialEq, Eq, Structural, Hash)]
pub struct WorkerSession {
    pub id: u32,
    pub pid: i32,
    pub run_state: RunState,
}

impl WorkerSession {
    /// The session as listed in status responses.
    pub fn info(&self) -> (r: WorkerInfo)
        ensures
            r == (WorkerInfo { id: self.id, pid: self.pid, run_state: self.run_state }),
    {
        WorkerInfo { id: self.id, pid: self.pid, run_state: self.run_state }
    }
}

/// The set of worker sessions the supervisor owns.  Ids are unique: a
/// session is replaced in place when its worker is respawned, and only
/// once it has reached `Stopped`.
#[derive(Debug, Clone, PartialEq, Eq)]
pub struct WorkerPool {
    pub sessions: Vec<WorkerSession>,
    /// the id the next freshly launched worker will get
    pub next_id: u32,
}

/// The ids of the running sessions, in session order.
pub open spec fn spec_running_ids(s: Seq<WorkerSession>) -> Seq<u32>
    decreases s.len(),
{
    if s.len() == 0 {
        Seq::empty()
    } else {
        spec_running_ids(s.drop_last()) + (if s.last().run_state == RunState::Running {
            seq![s.last().id]
        } else {
            Seq::<u32>::empty()
        })
    }
}

/// The running ids of a pool with unique session ids name each running
/// worker exactly once: they are pairwise distinct, and an id is listed
/// exactly when a running session holds it.
pub proof fn lemma_running_ids(s: Seq<WorkerSession>)
    requires
        forall|i: int, j: int|
            0 <= i < j < s.len() ==> (#[trigger] s[i]).id != (#[trigger] s[j]).id,
    ensures
        forall|a: int, b: int|
            0 <= a < b < spec_running_ids(s).len() ==> spec_running_ids(s)[a]
                != spec_running_ids(s)[b],
        forall|id: u32|
            #[trigger] spec_running_ids(s).contains(id) <==> exists|i: int|
                0 <= i < s.len() && (#[trigger] s[i]).id == id && s[i].run_state
                    == RunState::Running,
    decreases s.len(),
{
    if s.len() > 0 {
        let d = s.drop_last();
        let n = s.len() - 1;
        assert(s[n] == s.last());
        assert forall|i: int, j: int|
            0 <= i < j < d.len() implies (#[trigger] d[i]).id != (#[trigger] d[j]).id by {
            assert(d[i] == s[i]);
            assert(d[j] == s[j]);
        }
        lemma_running_ids(d);
        let rd = spec_running_ids(d);
        let r = spec_running_ids(s);
        if s.last().run_state == RunState::Running {
            assert(r =~= rd.push(s.last().id));
            // the last id is fresh among the earlier running ids
            assert(!rd.contains(s.last().id)) by {
                if rd.contains(s.last().id) {
                    let i = choose|i: int|
                        0 <= i < d.len() && (#[trigger] d[i]).id == s.last().id && d[i].run_state
                            == RunState::Running;
                    assert(s[i].id == s[n].id);
                }
            }
            assert forall|a: int, b: int| 0 <= a < b < r.len() implies r[a] != r[b] by {
                if b < r.len() - 1 {
                    assert(r[a] == rd[a] && r[b] == rd[b]);
                } else {
                    assert(r[a] == rd[a]);
                    assert(rd.contains(rd[a]));
                }
            }
            assert forall|id: u32| #[trigger] r.contains(id) implies exists|i: int|
                0 <= i < s.len() && (#[trigger] s[i]).id == id && s[i].run_state
                    == RunState::Running by {
                let a = choose|a: int| 0 <= a < r.len() && r[a] == id;
                if a < r.len() - 1 {
                    assert(rd[a] == id);
                    assert(rd.contains(id));
                    let i = choose|i: int|
                        0 <= i < d.len() && (#[trigger] d[i]).id == id && d[i].run_state
                            == RunState::Running;
                    assert(s[i].id == id && s[i].run_state == RunState::Running);
                } else {
                    assert(s[n].id == id && s[n].run_state == RunState::Running);
                }
            }
            assert forall|id: u32|
                (exists|i: int|
                    0 <= i < s.len() && (#[trigger] s[i]).id == id && s[i].run_state
                        == RunState::Running) implies #[trigger] r.contains(id) by {
                let i = choose|i: int|
                    0 <= i < s.len() && (#[trigger] s[i]).id == id && s[i].run_state
                        == RunState::Running;
                if i < n {
                    assert(d[i].id == id && d[i].run_state == RunState::Running);
                    assert(rd.contains(id));
                    let a = choose|a: int| 0 <= a < rd.len() && rd[a] == id;
                    assert(r[a] == id);
                } else {
                    assert(r[r.len() - 1] == id);
                }
            }
        } else {
            assert(r =~= rd);
            assert forall|id: u32| #[trigger] r.contains(id) implies exists|i: int|
                0 <= i < s.len() && (#[trigger] s[i]).id == id && s[i].run_state
                    == RunState::Running by {
                let i = choose|i: int|
                    0 <= i < d.len() && (#[trigger] d[i]).id == id && d[i].run_state
                        == RunState::Running;
                assert(s[i].id == id && s[i].run_state == RunState::Running);
            }
            assert forall|id: u32|
                (exists|i: int|
                    0 <= i < s.len() && (#[trigger] s[i]).id == id && s[i].run_state
                        == RunState::Running) implies #[trigger] r.contains(id) by {
                let i = choose|i: int|
                    0 <= i < s.len() && (#[trigger] s[i]).id == id && s[i].run_state
                        == RunState::Running;
                assert(i < n);
                assert(d[i].id == id && d[i].run_state == RunState::Running);
            }
        }
    }
}

impl WorkerPool {
    /// Well-formed: one session per id, and every id is below `next_id`.
    pub open spec fn wf(&self) -> bool {
        (forall|i: int, j: int|
            0 <= i < j < self.sessions@.len() ==> (#[trigger] self.sessions@[i]).id != (
            #[trigger] self.sessions@[j]).id) && (forall|i: int|
            0 <= i < self.sessions@.len() ==> (#[trigger] self.sessions@[i]).id < self.next_id)
    }

    /// An empty pool.
    pub fn new() -> (r: WorkerPool)
        ensures
            r.wf(),
            r.sessions@.len() == 0,
            r.next_id == 0,
    {
        WorkerPool { sessions: Vec::new(), next_id: 0 }
    }

    /// Registers a freshly spawned worker under a fresh id, never used by
    /// any session of the pool, running.  Returns the id.
    pub fn spawn(&mut self, pid: i32) -> (id: u32)
        requires
            old(self).wf(),
            old(self).next_id < 0xffff_ffff,
        ensures
            final(self).wf(),
            id == old(self).next_id,
            final(self).next_id == old(self).next_id + 1,
            final(self).sessions@ == old(self).sessions@.push(
                WorkerSession { id, pid, run_state: RunState::Running },
            ),
            forall|i: int|
                0 <= i < old(self).sessions@.len() ==> (#[trigger] old(self).sessions@[i]).id
                    != id,
    {
        let id = self.next_id;
        self.sessions.push(WorkerSession { id, pid, run_state: RunState::Running });
        self.next_id = self.next_id + 1;
        proof {
            assert forall|i: int, j: int|
                0 <= i < j < self.sessions@.len() implies (#[trigger] self.sessions@[i]).id != (
                #[trigger] self.sessions@[j]).id by {
                if j == self.sessions@.len() - 1 {
                    assert(old(self).sessions@[i].id < old(self).next_id);
                }
            }
        }
        id
    }

    /// Replaces the session at a position with a fresh worker under the
    /// same id.  A worker id is reused only once the previous session with
    /// that id has reached `Stopped`.
    pub fn respawn(&mut self, at: usize, pid: i32)
        requires
            old(self).wf(),
            at < old(self).sessions@.len(),
            old(self).sessions@[at as int].run_state == RunState::Stopped,
        ensures
            final(self).wf(),
            final(self).sessions@ == old(self).sessions@.update(
                at as int,
                WorkerSession {
                    id: old(self).sessions@[at as int].id,
                    pid,
                    run_state: RunState::Running,
                },
            ),
            final(self).next_id == old(self).next_id,
    {
        let id = self.sessions[at].id;
        let fresh = WorkerSession { id, pid, run_state: RunState::Running };
        self.sessions.remove(at);
        self.sessions.insert(at, fresh);
        proof {
            assert(self.sessions@ =~= old(self).sessions@.update(at as int, fresh));
        }
    }

    /// Records an observed run-state change of the session at a position:
    /// a graceful stop begins, an exit is reaped, a probe times out or a
    /// probe answer clears the overlay.
    pub fn set_run_state(&mut self, at: usize, run_state: RunState)
        requires
            old(self).wf(),
            at < old(self).sessions@.len(),
        ensures
            final(self).wf(),
            final(self).sessions@ == old(self).sessions@.update(
                at as int,
                WorkerSession {
                    id: old(self).sessions@[at as int].id,
                    pid: old(self).sessions@[at as int].pid,
                    run_state,
                },
            ),
            final(self).next_id == old(self).next_id,
    {
        let id = self.sessions[at].id;
        let pid = self.sessions[at].pid;
        let updated = WorkerSession { id, pid, run_state };
        self.sessions.remove(at);
        self.sessions.insert(at, updated);
        proof {
            assert(self.sessions@ =~= old(self).sessions@.update(at as int, updated));
        }
    }

    /// The position of the session with the given pid, if any.
    pub fn position_of_pid(&self, pid: i32) -> (r: Option<usize>)
        ensures
            match r {
                Option::Some(i) => i < self.sessions@.len() && self.sessions@[i as int].pid == pid,
                Option::None => forall|i: int|
                    0 <= i < self.sessions@.len() ==> (#[trigger] self.sessions@[i]).pid != pid,
            },
    {
        let mut i: usize = 0;
        while i < self.sessions.len()
            invariant
                0 <= i <= self.sessions@.len(),
                forall|j: int| 0 <= j < i ==> (#[trigger] self.sessions@[j]).pid != pid,
            decreases self.sessions@.len() - i,
        {
            if self.sessions[i].pid == pid {
                return Option::Some(i);
            }
            i += 1;
        }
        Option::None
    }

    /// The ids of the workers that are running right now: the targets of a
    /// broadcast.
    pub fn running_ids(&self) -> (r: Vec<u32>)
        ensures
            r@ == spec_running_ids(self.sessions@),
    {
        let mut r: Vec<u32> = Vec::new();
        proof {
            assert(self.sessions@.take(0) =~= Seq::<WorkerSession>::empty());
            assert(r@ =~= spec_running_ids(self.sessions@.take(0)));
        }
        let mut i: usize = 0;
        while i < self.sessions.len()
            invariant
                0 <= i <= self.sessions@.len(),
                r@ == spec_running_ids(self.sessions@.take(i as int)),
            decreases self.sessions@.len() - i,
        {
            if matches!(self.sessions[i].run_state, RunState::Running) {
                r.push(self.sessions[i].id);
            }
            proof {
                assert(self.sessions@.take(i + 1).drop_last() =~= self.sessions@.take(i as int));
                assert(self.sessions@.take(i + 1).last() == self.sessions@[i as int]);
                assert(r@ =~= spec_running_ids(self.sessions@.take(i + 1)));
            }
            i += 1;
        }
        proof {
            assert(self.sessions@.take(self.sessions@.len() as int) =~= self.sessions@);
        }
        r
    }

    /// The sessions as worker descriptions, for status responses.
    pub fn worker_infos(&self) -> (r: Vec<WorkerInfo>)
        ensures
            r@.len() == self.sessions@.len(),
            forall|i: int|
                0 <= i < r@.len() ==> r@[i] == (WorkerInfo {
                    id: (#[trigger] self.sessions@[i]).id,
                    pid: self.sessions@[i].pid,
                    run_state: self.sessions@[i].run_state,
                }),
    {
        let mut r: Vec<WorkerInfo> = Vec::new();
        let mut i: usize = 0;
        while i < self.sessions.len()
            invariant
                0 <= i <= self.sessions@.len(),
                r@.len() == i,
                forall|j: int|
                    0 <= j < i ==> r@[j] == (WorkerInfo {
                        id: (#[trigger] self.sessions@[j]).id,
                        pid: self.sessions@[j].pid,
                        run_state: self.sessions@[j].run_state,
                    }),
            decreases self.sessions@.len() - i,
        {
            r.push(self.sessions[i].info());
            i += 1;
        }
        r
    }
}

/// No worker id is reused while any session with that id is not stopped:
/// the pool holds one session per id, a fresh launch takes an id that no
/// session ever held, and `respawn` demands that the session it replaces
/// has reached `Stopped`.
pub proof fn lemma_worker_id_not_reused(p: WorkerPool)
    requires
        p.wf(),
    ensures
        forall|i: int, j: int|
            0 <= i < p.sessions@.len() && 0 <= j < p.sessions@.len() && i != j ==> (
            #[trigger] p.sessions@[i]).id != (#[trigger] p.sessions@[j]).id,
{
}

} // verus!

verus! {

/// Whether a vector of ids holds the given id.
pub fn ids_contain(v: &Vec<u32>, id: u32) -> (r: bool)
    ensures
        r <==> v@.contains(id),
{
    let mut i: usize = 0;
    while i < v.len()
        invariant
            0 <= i <= v@.len(),
            forall|j: int| 0 <= j < i ==> v@[j] != id,
        decreases v@.len() - i,
    {
        if v[i] == id {
            proof {
                assert(v@[i as int] == id);
            }
            return true;
        }
        i += 1;
    }
    proof {
        if v@.contains(id) {
            let j = choose|j: int| 0 <= j < v@.len() && v@[j] == id;
        }
    }
    false
}

/// Clones a worker answer status, keeping its value.
pub fn duplicate_status(s: &ProxyResponseStatus) -> (r: ProxyResponseStatus)
    ensures
        r == *s,
{
    match s {
        ProxyResponseStatus::Okay => ProxyResponseStatus::Okay,
        ProxyResponseStatus::Processing => ProxyResponseStatus::Processing,
        ProxyResponseStatus::Error(m) => ProxyResponseStatus::Error(m.clone()),
    }
}

/// A final status: a worker is done with the request, well or badly.
pub open spec fn spec_is_terminal(s: ProxyResponseStatus) -> bool {
    s != ProxyResponseStatus::Processing
}

/// Collects the per-worker outcomes of one broadcast request.  The
/// expected ids are the workers that were running at dispatch time; each
/// may contribute at most one terminal response.
#[derive(Debug, Clone, PartialEq, Eq)]
pub struct BroadcastAggregator {
    /// ids of the workers the request was dispatched to, pairwise distinct
    pub expected: Vec<u32>,
    /// terminal responses observed so far, one per worker
    pub terminal: Vec<(u32, ProxyResponseStatus)>,
}

impl BroadcastAggregator {
    /// A terminal response of the given worker was recorded.
    pub open spec fn has_terminal(&self, id: u32) -> bool {
        exists|j: int| 0 <= j < self.terminal@.len() && (#[trigger] self.terminal@[j]).0 == id
    }

    /// Well-formed: expected ids unique, at most one terminal response per
    /// worker, and only from expected workers.
    pub open spec fn wf(&self) -> bool {
        (forall|a: int, b: int|
            0 <= a < b < self.expected@.len() ==> self.expected@[a] != self.expected@[b])
            && (forall|a: int, b: int|
            0 <= a < b < self.terminal@.len() ==> (#[trigger] self.terminal@[a]).0 != (
            #[trigger] self.terminal@[b]).0) && (forall|j: int|
            0 <= j < self.terminal@.len() ==> self.expected@.contains(
                (#[trigger] self.terminal@[j]).0,
            ))
    }

    /// Starts aggregating for the given dispatch targets.
    pub fn new(expected: Vec<u32>) -> (r: BroadcastAggregator)
        requires
            forall|a: int, b: int| 0 <= a < b < expected@.len() ==> expected@[a] != expected@[b],
        ensures
            r.wf(),
            r.expected == expected,
            r.terminal@.len() == 0,
    {
        BroadcastAggregator { expected, terminal: Vec::new() }
    }

    /// Feeds one worker response into the aggregation.  `Processing`
    /// responses keep the stream open; the first terminal response of an
    /// expected worker is recorded; anything else is discarded.
    pub fn record(&mut self, worker_id: u32, status: ProxyResponseStatus) -> (recorded: bool)
        requires
            old(self).wf(),
        ensures
            final(self).wf(),
            final(self).expected == old(self).expected,
            recorded <==> (spec_is_terminal(status) && old(self).expected@.contains(worker_id)
                && !old(self).has_terminal(worker_id)),
            recorded ==> final(self).terminal@ == old(self).terminal@.push((worker_id, status)),
            !recorded ==> final(self).terminal@ == old(self).terminal@,
    {
        if matches!(status, ProxyResponseStatus::Processing) {
            return false;
        }
        if !ids_contain(&self.expected, worker_id) {
            return false;
        }
        let mut j: usize = 0;
        while j < self.terminal.len()
            invariant
                *self == *old(self),
                self.wf(),
                0 <= j <= self.terminal@.len(),
                forall|a: int| 0 <= a < j ==> (#[trigger] self.terminal@[a]).0 != worker_id,
            decreases self.terminal@.len() - j,
        {
            if self.terminal[j].0 == worker_id {
                proof {
                    assert(self.terminal@[j as int].0 == worker_id);
                }
                return false;
            }
            j += 1;
        }
        self.terminal.push((worker_id, status));
        proof {
            assert forall|a: int, b: int|
                0 <= a < b < self.terminal@.len() implies (#[trigger] self.terminal@[a]).0 != (
                #[trigger] self.terminal@[b]).0 by {
                if b == self.terminal@.len() - 1 {
                    assert(old(self).terminal@[a].0 != worker_id);
                }
            }
        }
        true
    }

    /// Records that a worker went away mid-request: it contributes a
    /// synthetic error as its terminal response.
    pub fn worker_disconnected(&mut self, worker_id: u32) -> (recorded: bool)
        requires
            old(self).wf(),
        ensures
            final(self).wf(),
            final(self).expected == old(self).expected,
            recorded <==> (old(self).expected@.contains(worker_id) && !old(self).has_terminal(
                worker_id,
            )),
            recorded ==> final(self).terminal@.len() == old(self).terminal@.len() + 1
                && final(self).terminal@.last().0 == worker_id && (final(self).terminal@.last().1
                matches ProxyResponseStatus::Error(m) && m@ == "worker disconnected"@),
            !recorded ==> final(self).terminal@ == old(self).terminal@,
    {
        self.record(worker_id, ProxyResponseStatus::Error(String::from_str("worker disconnected")))
    }

    /// Whether every expected worker has answered with a terminal
    /// response.
    pub fn is_complete(&self) -> (r: bool)
        requires
            self.wf(),
        ensures
            r <==> (forall|a: int|
                0 <= a < self.expected@.len() ==> self.has_terminal(#[trigger] self.expected@[a])),
    {
        let mut a: usize = 0;
        while a < self.expected.len()
            invariant
                self.wf(),
                0 <= a <= self.expected@.len(),
                forall|b: int| 0 <= b < a ==> self.has_terminal(#[trigger] self.expected@[b]),
            decreases self.expected@.len() - a,
        {
            let id = self.expected[a];
            let mut found = false;
            let mut j: usize = 0;
            while j < self.terminal.len()
                invariant
                    0 <= j <= self.terminal@.len(),
                    found <==> exists|b: int|
                        0 <= b < j && (#[trigger] self.terminal@[b]).0 == id,
                decreases self.terminal@.len() - j,
            {
                if self.terminal[j].0 == id {
                    proof {
                        assert(self.terminal@[j as int].0 == id);
                    }
                    found = true;
                }
                j += 1;
            }
            if !found {
                return false;
            }
            a += 1;
        }
        true
    }

    /// The aggregated outcome, one terminal status for every worker the
    /// request was dispatched to: the recorded response where one arrived,
    /// a synthetic disconnection error where none did (the overall
    /// deadline expired first).  The result always holds exactly as many
    /// terminal responses as there were running workers at dispatch time,
    /// in dispatch order.
    pub fn finalize(&self) -> (r: Vec<(u32, ProxyResponseStatus)>)
        requires
            self.wf(),
        ensures
            r@.len() == self.expected@.len(),
            forall|a: int| 0 <= a < r@.len() ==> (#[trigger] r@[a]).0 == self.expected@[a],
            forall|a: int|
                0 <= a < r@.len() ==> if self.has_terminal(self.expected@[a]) {
                    exists|j: int|
                        0 <= j < self.terminal@.len() && (#[trigger] self.terminal@[j]) == (
                        self.expected@[a],
                        (#[trigger] r@[a]).1,
                        )
                } else {
                    ((#[trigger] r@[a]).1 matches ProxyResponseStatus::Error(m) && m@
                        == "worker disconnected"@)
                },
    {
        let mut r: Vec<(u32, ProxyResponseStatus)> = Vec::new();
        let mut a: usize = 0;
        while a < self.expected.len()
            invariant
                self.wf(),
                0 <= a <= self.expected@.len(),
                r@.len() == a,
                forall|b: int| 0 <= b < a ==> (#[trigger] r@[b]).0 == self.expected@[b],
                forall|b: int|
                    0 <= b < a ==> if self.has_terminal(self.expected@[b]) {
                        exists|j: int|
                            0 <= j < self.terminal@.len() && (#[trigger] self.terminal@[j]) == (
                            self.expected@[b],
                            (#[trigger] r@[b]).1,
                            )
                    } else {
                        ((#[trigger] r@[b]).1 matches ProxyResponseStatus::Error(m) && m@
                            == "worker disconnected"@)
                    },
            decreases self.expected@.len() - a,
        {
            let id = self.expected[a];
            let mut found: Option<usize> = Option::None;
            let mut j: usize = 0;
            while j < self.terminal.len()
                invariant
                    0 <= j <= self.terminal@.len(),
                    match found {
                        Option::Some(b) => b < self.terminal@.len()
                            && self.terminal@[b as int].0 == id,
                        Option::None => forall|b: int|
                            0 <= b < j ==> (#[trigger] self.terminal@[b]).0 != id,
                    },
                decreases self.terminal@.len() - j,
            {
                if matches!(found, Option::None) && self.terminal[j].0 == id {
                    proof {
                        assert(self.terminal@[j as int].0 == id);
                    }
                    found = Option::Some(j);
                }
                j += 1;
            }
            match found {
                Option::Some(b) => {
                    r.push((id, duplicate_status(&self.terminal[b].1)));
                    proof {
                        assert(self.terminal@[b as int] == (id, r@[a as int].1));
                    }
                },
                Option::None => {
                    r.push((id, ProxyResponseStatus::Error(String::from_str(
                        "worker disconnected",
                    ))));
                    proof {
                        assert(!self.has_terminal(id));
                    }
                },
            }
            a += 1;
        }
        r
    }
}

/// How the supervisor reacts to a worker crash.
#[derive(Debug, Clone, PartialEq, Eq, Structural, Copy, Hash)]
pub enum RestartDecision {
    /// respawn the worker after this many milliseconds
    Respawn(u64),
    /// the crash budget is spent: do not respawn until an operator asks
    Pause,
}

/// The restart delay after the n-th consecutive crash: it doubles from one
/// second and caps at thirty seconds.
pub open spec fn spec_backoff_delay(n: u32) -> u64
    decreases n,
{
    if n <= 1 {
        1000
    } else {
        let d = spec_backoff_delay((n - 1) as u32);
        if 2 * d > 30000 {
            30000
        } else {
            (2 * d) as u64
        }
    }
}

/// The delay never exceeds the cap.
pub proof fn lemma_backoff_delay_capped(n: u32)
    ensures
        1000 <= spec_backoff_delay(n) <= 30000,
    decreases n,
{
    if n > 1 {
        lemma_backoff_delay_capped((n - 1) as u32);
    }
}

/// Computes the restart delay after the n-th consecutive crash.
pub fn backoff_delay(n: u32) -> (r: u64)
    ensures
        r == spec_backoff_delay(n),
{
    if n <= 1 {
        return 1000;
    }
    let mut d: u64 = 1000;
    let mut i: u32 = 1;
    while i < n
        invariant
            1 <= i <= n,
            d == spec_backoff_delay(i),
            d <= 30000,
        decreases n - i,
    {
        proof {
            lemma_backoff_delay_capped(i);
        }
        if d > 15000 {
            d = 30000;
        } else {
            d = 2 * d;
        }
        i += 1;
    }
    d
}

/// The restart policy of one worker: crashes inside a one-minute window
/// count against a budget of five automatic respawns; the budget spent,
/// restarting pauses until an operator relaunches the worker.
#[derive(Debug, Clone, PartialEq, Eq, Structural, Copy, Hash)]
pub struct RestartPolicy {
    /// crashes counted in the current window
    pub consecutive_crashes: u32,
    /// when the current window opened
    pub window_start_ms: u64,
    /// the crash budget is spent
    pub paused: bool,
}

/// What one crash does to the policy and what the supervisor then does.
pub open spec fn spec_on_crash(p: RestartPolicy, now_ms: u64) -> (RestartPolicy, RestartDecision) {
    if p.paused {
        (p, RestartDecision::Pause)
    } else if p.consecutive_crashes == 0 || now_ms - p.window_start_ms >= 60000 {
        (
            RestartPolicy { consecutive_crashes: 1, window_start_ms: now_ms, paused: false },
            RestartDecision::Respawn(spec_backoff_delay(1)),
        )
    } else if p.consecutive_crashes >= 5 {
        (RestartPolicy { paused: true, ..p }, RestartDecision::Pause)
    } else {
        (
            RestartPolicy { consecutive_crashes: (p.consecutive_crashes + 1) as u32, ..p },
            RestartDecision::Respawn(spec_backoff_delay((p.consecutive_crashes + 1) as u32)),
        )
    }
}

impl RestartPolicy {
    /// A fresh policy: no crashes counted, not paused.
    pub fn new() -> (r: RestartPolicy)
        ensures
            r == (RestartPolicy { consecutive_crashes: 0, window_start_ms: 0, paused: false }),
    {
        RestartPolicy { consecutive_crashes: 0, window_start_ms: 0, paused: false }
    }

    /// Counts one unexpected exit and decides whether to respawn: the
    /// first five crashes within a minute respawn with doubling delays,
    /// the sixth pauses restarting until `resume`.
    pub fn on_crash(&mut self, now_ms: u64) -> (d: RestartDecision)
        requires
            old(self).window_start_ms <= now_ms,
            old(self).consecutive_crashes <= 5,
        ensures
            final(self).consecutive_crashes <= 5,
            (*final(self), d) == spec_on_crash(*old(self), now_ms),
    {
        if self.paused {
            RestartDecision::Pause
        } else if self.consecutive_crashes == 0 || now_ms - self.window_start_ms >= 60000 {
            self.consecutive_crashes = 1;
            self.window_start_ms = now_ms;
            RestartDecision::Respawn(backoff_delay(1))
        } else if self.consecutive_crashes >= 5 {
            self.paused = true;
            RestartDecision::Pause
        } else {
            self.consecutive_crashes = self.consecutive_crashes + 1;
            RestartDecision::Respawn(backoff_delay(self.consecutive_crashes))
        }
    }

    /// An operator relaunched the worker: the budget is restored.
    pub fn resume(&mut self)
        ensures
            *final(self) == (RestartPolicy {
                consecutive_crashes: 0,
                window_start_ms: old(self).window_start_ms,
                paused: false,
            }),
    {
        self.consecutive_crashes = 0;
        self.paused = false;
    }
}

} // verus!
