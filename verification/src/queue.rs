//! Download queue and concurrency control: an ordered task queue with
//! de-duplication and priority insertion, the active set of running
//! transfers, the per-task control signals, and the dispatch decision of the
//! coordinator loop.

use vstd::prelude::*;
use crate::models::Resource;

verus! {

/// Concurrency mode for the download coordinator: `Queue` runs one transfer
/// at a time, `Parallel` runs up to a fixed small number simultaneously.
#[derive(Clone, Copy, Debug, PartialEq, Eq, Structural)]
pub enum DownloadMode {
    Queue,
    Parallel,
}

/// Number of simultaneous transfers allowed in `Parallel` mode.
pub const PARALLEL_LIMIT: usize = 4;

impl DownloadMode {
    /// Active-slot limit this mode allows.
    pub fn limit(&self) -> (r: usize)
        ensures
            r == self.spec_limit(),
    {
        match self {
            DownloadMode::Queue => 1,
            DownloadMode::Parallel => PARALLEL_LIMIT,
        }
    }

    /// What `limit` returns.
    pub open spec fn spec_limit(&self) -> usize {
        match self {
            DownloadMode::Queue => 1,
            DownloadMode::Parallel => PARALLEL_LIMIT,
        }
    }
}

/// Encoding of `SignalState::Running` in a shared byte flag.
pub const STATUS_RUNNING: u8 = 0;

/// Encoding of `SignalState::Paused` in a shared byte flag.
pub const STATUS_PAUSED: u8 = 1;

/// Encoding of `SignalState::Cancelled` in a shared byte flag.
pub const STATUS_CANCELLED: u8 = 2;

/// Control signal of one active transfer. `Paused` preserves the partial
/// artifact for a later resume; `Cancelled` is terminal and deletes it.
#[derive(Clone, Copy, Debug, PartialEq, Eq, Structural)]
pub enum SignalState {
    Running,
    Paused,
    Cancelled,
}

impl SignalState {
    /// Byte encoding of this state.
    pub open spec fn spec_code(&self) -> u8 {
        match self {
            SignalState::Running => STATUS_RUNNING,
            SignalState::Paused => STATUS_PAUSED,
            SignalState::Cancelled => STATUS_CANCELLED,
        }
    }

    /// Encode this state as the byte stored in a shared flag.
    pub fn to_code(&self) -> (r: u8)
        ensures
            r == self.spec_code(),
    {
        match self {
            SignalState::Running => STATUS_RUNNING,
            SignalState::Paused => STATUS_PAUSED,
            SignalState::Cancelled => STATUS_CANCELLED,
        }
    }

    /// Decode a byte read from a shared flag; bytes outside the encoding
    /// yield `None`.
    pub fn from_code(code: u8) -> (r: Option<SignalState>)
        ensures
            r == (if code == STATUS_RUNNING {
                Some(SignalState::Running)
            } else if code == STATUS_PAUSED {
                Some(SignalState::Paused)
            } else if code == STATUS_CANCELLED {
                Some(SignalState::Cancelled)
            } else {
                None::<SignalState>
            }),
    {
        if code == STATUS_RUNNING {
            Some(SignalState::Running)
        } else if code == STATUS_PAUSED {
            Some(SignalState::Paused)
        } else if code == STATUS_CANCELLED {
            Some(SignalState::Cancelled)
        } else {
            None
        }
    }
}

/// No element occurs twice.
pub open spec fn unique_seq<A>(s: Seq<A>) -> bool {
    forall|i: int, j: int| 0 <= i < j < s.len() ==> s[i] != s[j]
}

/// The identifiers of a task sequence, in order.
pub open spec fn seq_ids(q: Seq<Resource>) -> Seq<i64> {
    q.map_values(|r: Resource| r.id)
}

/// The task sequence with every task of the given identifier removed, order
/// otherwise kept.
pub open spec fn remove_task(q: Seq<Resource>, id: i64) -> Seq<Resource>
    decreases q.len(),
{
    if q.len() == 0 {
        Seq::empty()
    } else if q.last().id == id {
        remove_task(q.drop_last(), id)
    } else {
        remove_task(q.drop_last(), id).push(q.last())
    }
}

/// The identifier sequence with every occurrence of the given identifier
/// removed, order otherwise kept.
pub open spec fn remove_i64(s: Seq<i64>, id: i64) -> Seq<i64>
    decreases s.len(),
{
    if s.len() == 0 {
        Seq::empty()
    } else if s.last() == id {
        remove_i64(s.drop_last(), id)
    } else {
        remove_i64(s.drop_last(), id).push(s.last())
    }
}

/// The signal entries with every entry of the given identifier removed, order
/// otherwise kept.
pub open spec fn remove_entry(s: Seq<(i64, SignalState)>, id: i64) -> Seq<(i64, SignalState)>
    decreases s.len(),
{
    if s.len() == 0 {
        Seq::empty()
    } else if s.last().0 == id {
        remove_entry(s.drop_last(), id)
    } else {
        remove_entry(s.drop_last(), id).push(s.last())
    }
}

/// No task of the removed identifier remains.
pub proof fn lemma_remove_task_no_id(q: Seq<Resource>, id: i64)
    ensures
        forall|j: int| 0 <= j < remove_task(q, id).len()
            ==> #[trigger] remove_task(q, id)[j].id != id,
    decreases q.len(),
{
    if q.len() > 0 {
        lemma_remove_task_no_id(q.drop_last(), id);
    }
}

/// Removing an absent identifier changes nothing.
pub proof fn lemma_remove_task_noop(q: Seq<Resource>, id: i64)
    requires
        forall|j: int| 0 <= j < q.len() ==> (#[trigger] q[j]).id != id,
    ensures
        remove_task(q, id) == q,
    decreases q.len(),
{
    if q.len() > 0 {
        assert(forall|j: int| 0 <= j < q.drop_last().len()
            ==> (#[trigger] q.drop_last()[j]).id != id);
        lemma_remove_task_noop(q.drop_last(), id);
        assert(remove_task(q, id) =~= q);
    } else {
        assert(remove_task(q, id) =~= q);
    }
}

/// When identifiers are unique and position `k` holds the identifier, the
/// removal deletes exactly that position.
pub proof fn lemma_remove_task_at(q: Seq<Resource>, id: i64, k: int)
    requires
        unique_seq(seq_ids(q)),
        0 <= k < q.len(),
        q[k].id == id,
    ensures
        remove_task(q, id) == q.remove(k),
    decreases q.len(),
{
    assert(forall|i: int| 0 <= i < q.len() ==> seq_ids(q)[i] == (#[trigger] q[i]).id);
    if k == q.len() - 1 {
        assert(forall|j: int| 0 <= j < q.drop_last().len()
            ==> (#[trigger] q.drop_last()[j]).id != id);
        lemma_remove_task_noop(q.drop_last(), id);
        assert(remove_task(q, id) =~= q.remove(k));
    } else {
        assert(q.last().id != id);
        assert(seq_ids(q.drop_last()) =~= seq_ids(q).drop_last());
        assert(q.drop_last()[k].id == id);
        lemma_remove_task_at(q.drop_last(), id, k);
        assert(remove_task(q, id) =~= q.remove(k));
    }
}

/// Membership after removal: exactly the other identifiers remain.
pub proof fn lemma_remove_i64_contains(s: Seq<i64>, id: i64)
    ensures
        forall|x: i64| #[trigger] remove_i64(s, id).contains(x) <==> (s.contains(x) && x != id),
    decreases s.len(),
{
    if s.len() > 0 {
        lemma_remove_i64_contains(s.drop_last(), id);
        assert forall|x: i64| #[trigger] remove_i64(s, id).contains(x)
            implies (s.contains(x) && x != id) by {
            if s.last() != id && remove_i64(s, id).last() == x {
                assert(s.contains(x)) by {
                    assert(s[s.len() - 1] == x);
                }
            } else {
                let r = remove_i64(s, id);
                let j = choose|j: int| 0 <= j < r.len() && r[j] == x;
                if s.last() == id {
                    assert(remove_i64(s.drop_last(), id).contains(x));
                } else {
                    if j < r.len() - 1 {
                        assert(remove_i64(s.drop_last(), id)[j] == x);
                        assert(remove_i64(s.drop_last(), id).contains(x));
                    }
                }
                assert(s.drop_last().contains(x) ==> s.contains(x)) by {
                    if s.drop_last().contains(x) {
                        let m = choose|m: int|
                            0 <= m < s.drop_last().len() && s.drop_last()[m] == x;
                        assert(s[m] == x);
                    }
                }
            }
        }
        assert forall|x: i64| s.contains(x) && x != id
            implies #[trigger] remove_i64(s, id).contains(x) by {
            let j = choose|j: int| 0 <= j < s.len() && s[j] == x;
            if j == s.len() - 1 {
                assert(s.last() == x);
                let r = remove_i64(s, id);
                assert(r.last() == x);
                assert(r[r.len() - 1] == x);
            } else {
                assert(s.drop_last()[j] == x);
                assert(s.drop_last().contains(x));
                assert(remove_i64(s.drop_last(), id).contains(x));
                if s.last() != id {
                    let r0 = remove_i64(s.drop_last(), id);
                    let m = choose|m: int| 0 <= m < r0.len() && r0[m] == x;
                    assert(remove_i64(s, id)[m] == x);
                }
            }
        }
    }
}

/// Removal keeps identifiers unique.
pub proof fn lemma_remove_i64_unique(s: Seq<i64>, id: i64)
    requires
        unique_seq(s),
    ensures
        unique_seq(remove_i64(s, id)),
    decreases s.len(),
{
    if s.len() > 0 {
        assert(unique_seq(s.drop_last()));
        lemma_remove_i64_unique(s.drop_last(), id);
        if s.last() != id {
            lemma_remove_i64_contains(s.drop_last(), id);
            let r0 = remove_i64(s.drop_last(), id);
            assert(!r0.contains(s.last())) by {
                if r0.contains(s.last()) {
                    assert(s.drop_last().contains(s.last()));
                    let m = choose|m: int|
                        0 <= m < s.drop_last().len() && s.drop_last()[m] == s.last();
                    assert(s[m] == s[s.len() - 1]);
                }
            }
            assert forall|i: int, j: int| 0 <= i < j < r0.push(s.last()).len()
                implies r0.push(s.last())[i] != r0.push(s.last())[j] by {
                if j == r0.len() {
                    assert(r0.contains(r0[i])) by {
                        assert(r0[i] == r0[i]);
                    }
                }
            }
        }
    }
}

/// Removing an absent identifier changes nothing.
pub proof fn lemma_remove_i64_noop(s: Seq<i64>, id: i64)
    requires
        !s.contains(id),
    ensures
        remove_i64(s, id) == s,
    decreases s.len(),
{
    if s.len() > 0 {
        assert(s.last() != id) by {
            assert(s[s.len() - 1] == s.last());
        }
        assert(!s.drop_last().contains(id)) by {
            if s.drop_last().contains(id) {
                let m = choose|m: int| 0 <= m < s.drop_last().len() && s.drop_last()[m] == id;
                assert(s[m] == id);
            }
        }
        lemma_remove_i64_noop(s.drop_last(), id);
        assert(remove_i64(s, id) =~= s);
    } else {
        assert(remove_i64(s, id) =~= s);
    }
}

/// When identifiers are unique and position `k` holds the identifier, the
/// removal deletes exactly that position.
pub proof fn lemma_remove_i64_at(s: Seq<i64>, id: i64, k: int)
    requires
        unique_seq(s),
        0 <= k < s.len(),
        s[k] == id,
    ensures
        remove_i64(s, id) == s.remove(k),
    decreases s.len(),
{
    if k == s.len() - 1 {
        assert(!s.drop_last().contains(id)) by {
            if s.drop_last().contains(id) {
                let m = choose|m: int| 0 <= m < s.drop_last().len() && s.drop_last()[m] == id;
                assert(s[m] == s[k]);
            }
        }
        lemma_remove_i64_noop(s.drop_last(), id);
        assert(remove_i64(s, id) =~= s.remove(k));
    } else {
        assert(s.last() != id);
        assert(unique_seq(s.drop_last()));
        assert(s.drop_last()[k] == id);
        lemma_remove_i64_at(s.drop_last(), id, k);
        assert(remove_i64(s, id) =~= s.remove(k));
    }
}

/// The identifiers of removed signal entries are the removed identifiers.
pub proof fn lemma_remove_entry_ids(s: Seq<(i64, SignalState)>, id: i64)
    ensures
        remove_entry(s, id).map_values(|p: (i64, SignalState)| p.0)
            == remove_i64(s.map_values(|p: (i64, SignalState)| p.0), id),
    decreases s.len(),
{
    let ids = s.map_values(|p: (i64, SignalState)| p.0);
    if s.len() > 0 {
        lemma_remove_entry_ids(s.drop_last(), id);
        assert(s.drop_last().map_values(|p: (i64, SignalState)| p.0) =~= ids.drop_last());
        if s.last().0 == id {
            assert(remove_entry(s, id).map_values(|p: (i64, SignalState)| p.0)
                =~= remove_i64(ids, id));
        } else {
            assert(remove_entry(s, id).map_values(|p: (i64, SignalState)| p.0)
                =~= remove_i64(ids, id));
        }
    } else {
        assert(remove_entry(s, id).map_values(|p: (i64, SignalState)| p.0)
            =~= remove_i64(ids, id));
    }
}

/// State of the download coordinator: the pending queue, the set of active
/// transfers, their control signals, and the concurrency mode.
pub struct DownloadQueue {
    /// Pending tasks; the front is at index zero.
    queue: Vec<Resource>,
    /// Identifiers of the transfers currently running.
    active: Vec<i64>,
    /// Control signal of each active transfer.
    signals: Vec<(i64, SignalState)>,
    /// Current concurrency mode.
    mode: DownloadMode,
    /// One-shot guard: whether the worker loop has been started.
    worker_started: bool,
}

impl DownloadQueue {
    /// The queued tasks, front first.
    pub closed spec fn queued(&self) -> Seq<Resource> {
        self.queue@
    }

    /// The identifiers of the queued tasks, front first.
    pub closed spec fn queued_ids(&self) -> Seq<i64> {
        seq_ids(self.queue@)
    }

    /// The identifiers of the active transfers.
    pub closed spec fn active_ids(&self) -> Seq<i64> {
        self.active@
    }

    /// The registered control signals.
    pub closed spec fn signal_entries(&self) -> Seq<(i64, SignalState)> {
        self.signals@
    }

    /// The identifiers that hold a registered control signal.
    pub closed spec fn signal_ids(&self) -> Seq<i64> {
        self.signals@.map_values(|p: (i64, SignalState)| p.0)
    }

    /// The current concurrency mode.
    pub closed spec fn spec_mode(&self) -> DownloadMode {
        self.mode
    }

    /// Whether the worker loop has been started.
    pub closed spec fn spec_worker_started(&self) -> bool {
        self.worker_started
    }

    /// Well-formedness: no identifier occurs twice in the queue or in the
    /// active set, no identifier is both queued and active, and a control
    /// signal is registered exactly for the active transfers.
    pub closed spec fn wf(&self) -> bool {
        &&& unique_seq(self.queued_ids())
        &&& unique_seq(self.active_ids())
        &&& forall|x: i64|
            !(#[trigger] self.queued_ids().contains(x) && self.active_ids().contains(x))
        &&& unique_seq(self.signal_ids())
        &&& forall|x: i64|
            #[trigger] self.signal_ids().contains(x) <==> self.active_ids().contains(x)
    }

    /// The active set fits the limit of the current mode. `new` establishes
    /// this bound and every operation's `ensures` below states that it keeps
    /// it; a dispatch re-establishes it outright, since it hands out a task
    /// only below the limit. The one transition that may break it is a mode
    /// change that lowers the limit below the number of transfers already
    /// active: those keep running until they drain.
    pub closed spec fn within_capacity(&self) -> bool {
        self.active_ids().len() <= self.mode.spec_limit()
    }

    /// A fresh coordinator: empty queue, no active transfers, one transfer at
    /// a time, worker not yet started.
    pub fn new() -> (r: Self)
        ensures
            r.wf(),
            r.queued() == Seq::<Resource>::empty(),
            r.active_ids() == Seq::<i64>::empty(),
            r.signal_entries() == Seq::<(i64, SignalState)>::empty(),
            r.spec_mode() == DownloadMode::Queue,
            !r.spec_worker_started(),
            r.within_capacity(),
    {
        let r = DownloadQueue {
            queue: Vec::new(),
            active: Vec::new(),
            signals: Vec::new(),
            mode: DownloadMode::Queue,
            worker_started: false,
        };
        proof {
            assert(r.queued_ids() =~= Seq::<i64>::empty());
            assert(r.signal_ids() =~= Seq::<i64>::empty());
        }
        r
    }

    /// Switch the concurrency mode. Takes effect on the next dispatch
    /// decision; transfers already active keep running.
    pub fn update_mode(&mut self, mode: DownloadMode)
        requires
            old(self).wf(),
        ensures
            final(self).wf(),
            final(self).spec_mode() == mode,
            final(self).queued() == old(self).queued(),
            final(self).active_ids() == old(self).active_ids(),
            final(self).signal_entries() == old(self).signal_entries(),
            final(self).spec_worker_started() == old(self).spec_worker_started(),
            old(self).within_capacity() && old(self).spec_mode().spec_limit() <= mode.spec_limit()
                ==> final(self).within_capacity(),
    {
        if self.mode != mode {
            self.mode = mode;
        }
    }

    /// Position of the queued task with this identifier, or the queue length
    /// when none carries it.
    fn find_queued(&self, id: i64) -> (r: usize)
        ensures
            r <= self.queued().len(),
            forall|k: int| 0 <= k < r ==> (#[trigger] self.queued()[k]).id != id,
            r < self.queued().len() ==> self.queued()[r as int].id == id,
    {
        let mut i: usize = 0;
        while i < self.queue.len()
            invariant
                i <= self.queue@.len(),
                forall|k: int| 0 <= k < i ==> (#[trigger] self.queue@[k]).id != id,
            decreases self.queue@.len() - i,
        {
            if self.queue[i].id == id {
                return i;
            }
            i = i + 1;
        }
        i
    }

    /// Position of this identifier in the active set, or the set's size when
    /// it is not active.
    fn find_active(&self, id: i64) -> (r: usize)
        ensures
            r <= self.active_ids().len(),
            forall|k: int| 0 <= k < r ==> self.active_ids()[k] != id,
            r < self.active_ids().len() ==> self.active_ids()[r as int] == id,
    {
        let mut i: usize = 0;
        while i < self.active.len()
            invariant
                i <= self.active@.len(),
                forall|k: int| 0 <= k < i ==> self.active@[k] != id,
            decreases self.active@.len() - i,
        {
            if self.active[i] == id {
                return i;
            }
            i = i + 1;
        }
        i
    }

    /// Position of the signal entry of this identifier, or the registry size
    /// when none is registered.
    fn find_signal(&self, id: i64) -> (r: usize)
        ensures
            r <= self.signal_entries().len(),
            forall|k: int| 0 <= k < r ==> (#[trigger] self.signal_entries()[k]).0 != id,
            r < self.signal_entries().len() ==> self.signal_entries()[r as int].0 == id,
    {
        let mut i: usize = 0;
        while i < self.signals.len()
            invariant
                i <= self.signals@.len(),
                forall|k: int| 0 <= k < i ==> (#[trigger] self.signals@[k]).0 != id,
            decreases self.signals@.len() - i,
        {
            if self.signals[i].0 == id {
                return i;
            }
            i = i + 1;
        }
        i
    }

    /// Whether a queued task carries this identifier.
    pub fn is_queued(&self, id: i64) -> (r: bool)
        ensures
            r == self.queued_ids().contains(id),
    {
        let mut i: usize = 0;
        while i < self.queue.len()
            invariant
                i <= self.queue@.len(),
                forall|k: int| 0 <= k < i ==> self.queue@[k].id != id,
            decreases self.queue@.len() - i,
        {
            if self.queue[i].id == id {
                proof {
                    assert(self.queued_ids()[i as int] == id);
                }
                return true;
            }
            i = i + 1;
        }
        proof {
            assert(forall|k: int|
                0 <= k < self.queued_ids().len() ==> #[trigger] self.queued_ids()[k] != id);
        }
        false
    }

    /// Whether a transfer with this identifier is active.
    pub fn is_active(&self, id: i64) -> (r: bool)
        ensures
            r == self.active_ids().contains(id),
    {
        let mut i: usize = 0;
        while i < self.active.len()
            invariant
                i <= self.active@.len(),
                forall|k: int| 0 <= k < i ==> self.active@[k] != id,
            decreases self.active@.len() - i,
        {
            if self.active[i] == id {
                return true;
            }
            i = i + 1;
        }
        false
    }

    /// Append a task to the back of the queue, unless a task with the same
    /// identifier is already queued or active; then nothing changes.
    pub fn add_task(&mut self, resource: Resource) -> (added: bool)
        requires
            old(self).wf(),
        ensures
            final(self).wf(),
            added == (!old(self).queued_ids().contains(resource.id)
                && !old(self).active_ids().contains(resource.id)),
            added ==> final(self).queued() == old(self).queued().push(resource),
            !added ==> final(self).queued() == old(self).queued(),
            final(self).active_ids() == old(self).active_ids(),
            final(self).signal_entries() == old(self).signal_entries(),
            final(self).spec_mode() == old(self).spec_mode(),
            final(self).spec_worker_started() == old(self).spec_worker_started(),
            old(self).within_capacity() ==> final(self).within_capacity(),
    {
        if self.is_queued(resource.id) || self.is_active(resource.id) {
            return false;
        }
        let ghost id = resource.id;
        self.queue.push(resource);
        proof {
            assert(self.queued_ids() =~= old(self).queued_ids().push(id));
            assert forall|x: i64|
                #[trigger] self.queued_ids().contains(x) implies
                old(self).queued_ids().contains(x) || x == id by {
                let k = choose|k: int|
                    0 <= k < self.queued_ids().len() && self.queued_ids()[k] == x;
                if k < old(self).queued_ids().len() {
                    assert(old(self).queued_ids()[k] == x);
                }
            }
            assert forall|x: i64| old(self).queued_ids().contains(x) implies
                #[trigger] self.queued_ids().contains(x) by {
                let k = choose|k: int|
                    0 <= k < old(self).queued_ids().len() && old(self).queued_ids()[k] == x;
                assert(self.queued_ids()[k] == x);
            }
            assert(self.queued_ids().contains(id)) by {
                assert(self.queued_ids()[self.queued_ids().len() - 1] == id);
            }
        }
        true
    }

    /// Insert a task at the front of the queue, removing any queued task with
    /// the same identifier first. Used for user-initiated requests, which
    /// preempt background work. A task whose transfer is already active is
    /// left alone; then nothing changes.
    pub fn add_task_priority(&mut self, resource: Resource) -> (added: bool)
        requires
            old(self).wf(),
        ensures
            final(self).wf(),
            added == !old(self).active_ids().contains(resource.id),
            added ==> final(self).queued()
                == seq![resource] + remove_task(old(self).queued(), resource.id),
            !added ==> final(self).queued() == old(self).queued(),
            final(self).active_ids() == old(self).active_ids(),
            final(self).signal_entries() == old(self).signal_entries(),
            final(self).spec_mode() == old(self).spec_mode(),
            final(self).spec_worker_started() == old(self).spec_worker_started(),
            old(self).within_capacity() ==> final(self).within_capacity(),
    {
        if self.is_active(resource.id) {
            return false;
        }
        let id: i64 = resource.id;
        let ghost q0 = self.queue@;

        // Drop the queued task that carries the same identifier, if any.
        let found: usize = self.find_queued(id);
        proof {
            assert(forall|k: int|
                0 <= k < q0.len() ==> seq_ids(q0)[k] == (#[trigger] q0[k]).id);
        }
        if found < self.queue.len() {
            let _ = self.queue.remove(found);
            proof {
                lemma_remove_task_at(q0, id, found as int);
            }
        } else {
            proof {
                lemma_remove_task_noop(q0, id);
            }
        }
        self.queue.insert(0, resource);
        proof {
            assert(self.queue@ =~= seq![resource] + remove_task(q0, id));
            lemma_remove_task_no_id(q0, id);
            let qids = self.queued_ids();
            assert(qids =~= seq![id] + seq_ids(remove_task(q0, id)));
            assert(forall|j: int| 0 <= j < remove_task(q0, id).len()
                ==> seq_ids(remove_task(q0, id))[j] == (#[trigger] remove_task(q0, id)[j]).id);
            // Every removed-queue identifier was queued before.
            assert forall|x: i64| seq_ids(remove_task(q0, id)).contains(x)
                implies seq_ids(q0).contains(x) by {
                lemma_remove_task_subset(q0, id, x);
            }
            // Uniqueness of the new queue's identifiers.
            assert(unique_seq(seq_ids(remove_task(q0, id)))) by {
                lemma_remove_task_ids_unique(q0, id);
            }
            assert forall|a: int, b: int| 0 <= a < b < qids.len()
                implies qids[a] != qids[b] by {
                if a == 0 {
                    assert(qids[b] == remove_task(q0, id)[b - 1].id);
                } else {
                    assert(qids[a] == seq_ids(remove_task(q0, id))[a - 1]);
                    assert(qids[b] == seq_ids(remove_task(q0, id))[b - 1]);
                }
            }
            // Disjointness from the active set.
            assert forall|x: i64| #[trigger] qids.contains(x)
                implies !self.active_ids().contains(x) by {
                let k = choose|k: int| 0 <= k < qids.len() && qids[k] == x;
                if k == 0 {
                    assert(x == id);
                } else {
                    assert(qids[k] == seq_ids(remove_task(q0, id))[k - 1]);
                    lemma_remove_task_subset(q0, id, x);
                    assert(old(self).queued_ids().contains(x));
                }
            }
        }
        true
    }

    /// Dispatch decision of the coordinator loop: when a slot is free and a
    /// task is pending, move the front task into the active set, register its
    /// control signal as `Running`, and hand the task out. Otherwise nothing
    /// changes.
    pub fn start_next(&mut self) -> (r: Option<Resource>)
        requires
            old(self).wf(),
        ensures
            final(self).wf(),
            r is Some <==> (old(self).active_ids().len() < old(self).spec_mode().spec_limit()
                && old(self).queued().len() > 0),
            r is Some ==> {
                &&& r->0 == old(self).queued()[0]
                &&& final(self).queued() == old(self).queued().drop_first()
                &&& final(self).active_ids() == old(self).active_ids().push(r->0.id)
                &&& final(self).signal_entries()
                    == old(self).signal_entries().push((r->0.id, SignalState::Running))
                &&& final(self).active_ids().len() <= final(self).spec_mode().spec_limit()
            },
            r is None ==> final(self).queued() == old(self).queued()
                && final(self).active_ids() == old(self).active_ids()
                && final(self).signal_entries() == old(self).signal_entries(),
            final(self).spec_mode() == old(self).spec_mode(),
            final(self).spec_worker_started() == old(self).spec_worker_started(),
            old(self).within_capacity() ==> final(self).within_capacity(),
    {
        let limit = self.mode.limit();
        if self.active.len() >= limit {
            return None;
        }
        if self.queue.len() == 0 {
            return None;
        }
        let ghost q0 = self.queue@;
        let resource = self.queue.remove(0);
        let id = resource.id;
        self.active.push(id);
        self.signals.push((id, SignalState::Running));
        proof {
            assert(self.queue@ =~= q0.drop_first());
            let qids = self.queued_ids();
            assert(qids =~= seq_ids(q0).drop_first());
            assert(forall|k: int| 0 <= k < q0.len()
                ==> seq_ids(q0)[k] == (#[trigger] q0[k]).id);
            assert(self.signal_ids() =~= old(self).signal_ids().push(id));
            // The dispatched identifier was first in the queue, hence not
            // active before, and no longer queued.
            assert(seq_ids(q0)[0] == id);
            assert(old(self).queued_ids().contains(id)) by {
                assert(seq_ids(q0)[0] == id);
            }
            assert(!old(self).active_ids().contains(id));
            assert(!old(self).signal_ids().contains(id));
            // The remaining queue keeps its identifiers unique.
            assert forall|a: int, b: int| 0 <= a < b < qids.len()
                implies qids[a] != qids[b] by {
                assert(qids[a] == seq_ids(q0)[a + 1]);
                assert(qids[b] == seq_ids(q0)[b + 1]);
            }
            // The extended signal registry keeps its identifiers unique.
            assert forall|a: int, b: int| 0 <= a < b < self.signal_ids().len()
                implies self.signal_ids()[a] != self.signal_ids()[b] by {
                if b == self.signal_ids().len() - 1 {
                    assert(old(self).signal_ids().contains(old(self).signal_ids()[a]));
                }
            }
            assert forall|a: int, b: int| 0 <= a < b < self.active@.len()
                implies self.active@[a] != self.active@[b] by {
                if b == self.active@.len() - 1 {
                    assert(old(self).active_ids().contains(old(self).active_ids()[a]));
                }
            }
            assert forall|x: i64| #[trigger] qids.contains(x)
                implies !self.active_ids().contains(x) by {
                let k = choose|k: int| 0 <= k < qids.len() && qids[k] == x;
                assert(seq_ids(q0)[k + 1] == x);
                assert(old(self).queued_ids().contains(x));
                assert(x != id);
                assert forall|m: int| 0 <= m < self.active@.len()
                    implies self.active@[m] != x by {
                    if m < self.active@.len() - 1 {
                        assert(old(self).active_ids().contains(old(self).active_ids()[m]));
                    }
                }
            }
            assert forall|x: i64| #[trigger] self.signal_ids().contains(x)
                implies self.active_ids().contains(x) by {
                let k = choose|k: int|
                    0 <= k < self.signal_ids().len() && self.signal_ids()[k] == x;
                if k < self.signal_ids().len() - 1 {
                    assert(old(self).signal_ids()[k] == x);
                    assert(old(self).signal_ids().contains(x));
                    assert(old(self).active_ids().contains(x));
                    let m = choose|m: int|
                        0 <= m < old(self).active_ids().len() && old(self).active_ids()[m] == x;
                    assert(self.active_ids()[m] == x);
                } else {
                    assert(self.active_ids()[self.active_ids().len() - 1] == x);
                }
            }
            assert forall|x: i64| #[trigger] self.active_ids().contains(x)
                implies self.signal_ids().contains(x) by {
                let k = choose|k: int|
                    0 <= k < self.active_ids().len() && self.active_ids()[k] == x;
                if k < self.active_ids().len() - 1 {
                    assert(old(self).active_ids()[k] == x);
                    assert(old(self).active_ids().contains(x));
                    assert(old(self).signal_ids().contains(x));
                    let m = choose|m: int|
                        0 <= m < old(self).signal_ids().len() && old(self).signal_ids()[m] == x;
                    assert(self.signal_ids()[m] == x);
                } else {
                    assert(self.signal_ids()[self.signal_ids().len() - 1] == x);
                }
            }
        }
        Some(resource)
    }

    /// Retire a finished transfer: drop its identifier from the active set
    /// and its entry from the signal registry. No signal entry for the
    /// identifier remains afterwards.
    pub fn complete(&mut self, id: i64)
        requires
            old(self).wf(),
        ensures
            final(self).wf(),
            final(self).active_ids() == remove_i64(old(self).active_ids(), id),
            final(self).signal_entries() == remove_entry(old(self).signal_entries(), id),
            !final(self).active_ids().contains(id),
            !final(self).signal_ids().contains(id),
            final(self).queued() == old(self).queued(),
            final(self).spec_mode() == old(self).spec_mode(),
            final(self).spec_worker_started() == old(self).spec_worker_started(),
            final(self).active_ids().len() <= old(self).active_ids().len(),
            old(self).within_capacity() ==> final(self).within_capacity(),
    {
        let ghost a0 = self.active@;
        let ghost s0 = self.signals@;

        // Drop the identifier from the active set.
        let found: usize = self.find_active(id);
        if found < self.active.len() {
            let _ = self.active.remove(found);
            proof {
                lemma_remove_i64_at(a0, id, found as int);
            }
        } else {
            proof {
                assert(!a0.contains(id)) by {
                    if a0.contains(id) {
                        let m = choose|m: int| 0 <= m < a0.len() && a0[m] == id;
                    }
                }
                lemma_remove_i64_noop(a0, id);
            }
        }

        // Drop the signal entry.
        let sfound: usize = self.find_signal(id);
        proof {
            assert(forall|k: int| 0 <= k < s0.len()
                ==> old(self).signal_ids()[k] == (#[trigger] s0[k]).0);
        }
        if sfound < self.signals.len() {
            let _ = self.signals.remove(sfound);
            proof {
                lemma_remove_entry_at(s0, id, sfound as int);
            }
        } else {
            proof {
                lemma_remove_entry_noop(s0, id);
            }
        }

        proof {
            lemma_remove_i64_contains(a0, id);
            lemma_remove_i64_unique(a0, id);
            lemma_remove_entry_ids(s0, id);
            lemma_remove_i64_contains(old(self).signal_ids(), id);
            lemma_remove_i64_unique(old(self).signal_ids(), id);
            assert forall|x: i64| #[trigger] self.queued_ids().contains(x)
                implies !self.active_ids().contains(x) by {
                assert(!(old(self).queued_ids().contains(x)
                    && old(self).active_ids().contains(x)));
            }
        }
    }

    /// First registered signal state for the identifier, if any.
    pub fn signal_of(&self, id: i64) -> (r: Option<SignalState>)
        ensures
            r == signal_state_of(self.signal_entries(), id),
    {
        let mut i: usize = 0;
        proof {
            assert(self.signals@.skip(0) =~= self.signals@);
        }
        while i < self.signals.len()
            invariant
                i <= self.signals@.len(),
                signal_state_of(self.signals@, id)
                    == signal_state_of(self.signals@.skip(i as int), id),
            decreases self.signals@.len() - i,
        {
            let entry = self.signals[i];
            proof {
                assert(self.signals@.skip(i as int).first() == entry);
                assert(self.signals@.skip(i as int).drop_first()
                    =~= self.signals@.skip(i + 1));
            }
            if entry.0 == id {
                return Some(entry.1);
            }
            i = i + 1;
        }
        proof {
            assert(self.signals@.skip(i as int).len() == 0);
        }
        None
    }

    /// Request a pause of an active transfer: set its control signal to
    /// `Paused`. A request for an identifier without a registered signal (the
    /// task is not currently active) is a silent no-op.
    pub fn pause(&mut self, id: i64) -> (r: bool)
        requires
            old(self).wf(),
        ensures
            final(self).wf(),
            r == old(self).signal_ids().contains(id),
            final(self).signal_entries().len() == old(self).signal_entries().len(),
            forall|j: int| 0 <= j < old(self).signal_entries().len()
                ==> final(self).signal_entries()[j]
                    == (if (#[trigger] old(self).signal_entries()[j]).0 == id {
                        (id, SignalState::Paused)
                    } else {
                        old(self).signal_entries()[j]
                    }),
            final(self).queued() == old(self).queued(),
            final(self).active_ids() == old(self).active_ids(),
            final(self).spec_mode() == old(self).spec_mode(),
            final(self).spec_worker_started() == old(self).spec_worker_started(),
            old(self).within_capacity() ==> final(self).within_capacity(),
    {
        self.set_signal(id, SignalState::Paused)
    }

    /// Request cancellation of an active transfer: set its control signal to
    /// `Cancelled`. A request for an identifier without a registered signal
    /// (the task is not currently active) is a silent no-op.
    pub fn cancel(&mut self, id: i64) -> (r: bool)
        requires
            old(self).wf(),
        ensures
            final(self).wf(),
            r == old(self).signal_ids().contains(id),
            final(self).signal_entries().len() == old(self).signal_entries().len(),
            forall|j: int| 0 <= j < old(self).signal_entries().len()
                ==> final(self).signal_entries()[j]
                    == (if (#[trigger] old(self).signal_entries()[j]).0 == id {
                        (id, SignalState::Cancelled)
                    } else {
                        old(self).signal_entries()[j]
                    }),
            final(self).queued() == old(self).queued(),
            final(self).active_ids() == old(self).active_ids(),
            final(self).spec_mode() == old(self).spec_mode(),
            final(self).spec_worker_started() == old(self).spec_worker_started(),
            old(self).within_capacity() ==> final(self).within_capacity(),
    {
        self.set_signal(id, SignalState::Cancelled)
    }

    /// Set the signal of the identifier, if one is registered.
    fn set_signal(&mut self, id: i64, st: SignalState) -> (r: bool)
        requires
            old(self).wf(),
        ensures
            final(self).wf(),
            r == old(self).signal_ids().contains(id),
            final(self).signal_entries().len() == old(self).signal_entries().len(),
            forall|j: int| 0 <= j < old(self).signal_entries().len()
                ==> final(self).signal_entries()[j]
                    == (if (#[trigger] old(self).signal_entries()[j]).0 == id {
                        (id, st)
                    } else {
                        old(self).signal_entries()[j]
                    }),
            final(self).queued() == old(self).queued(),
            final(self).active_ids() == old(self).active_ids(),
            final(self).spec_mode() == old(self).spec_mode(),
            final(self).spec_worker_started() == old(self).spec_worker_started(),
            old(self).within_capacity() ==> final(self).within_capacity(),
    {
        let ghost s0 = self.signals@;
        proof {
            assert(forall|k: int| 0 <= k < s0.len()
                ==> old(self).signal_ids()[k] == (#[trigger] s0[k]).0);
        }
        let mut i: usize = 0;
        while i < self.signals.len()
            invariant
                i <= self.signals@.len(),
                old(self).wf(),
                self.signals@ == s0,
                s0 == old(self).signal_entries(),
                self.queued() == old(self).queued(),
                self.active_ids() == old(self).active_ids(),
                self.spec_mode() == old(self).spec_mode(),
                self.spec_worker_started() == old(self).spec_worker_started(),
                forall|k: int| 0 <= k < i ==> self.signals@[k].0 != id,
            decreases self.signals@.len() - i,
        {
            if self.signals[i].0 == id {
                let _ = self.signals.remove(i);
                self.signals.insert(i, (id, st));
                proof {
                    assert(forall|k: int| 0 <= k < s0.len()
                        ==> old(self).signal_ids()[k] == (#[trigger] s0[k]).0);
                    assert(self.signals@ =~= s0.update(i as int, (id, st)));
                    assert(self.signal_ids() =~= old(self).signal_ids());
                    assert(old(self).signal_ids()[i as int] == id);
                    assert(old(self).signal_ids().contains(id)) by {
                        assert(old(self).signal_ids()[i as int] == id);
                    }
                    assert forall|j: int| 0 <= j < s0.len()
                        implies self.signals@[j]
                            == (if (#[trigger] s0[j]).0 == id { (id, st) } else { s0[j] }) by {
                        if j != i && s0[j].0 == id {
                            assert(old(self).signal_ids()[j] == id);
                        }
                    }
                }
                return true;
            }
            i = i + 1;
        }
        proof {
            assert(!old(self).signal_ids().contains(id)) by {
                if old(self).signal_ids().contains(id) {
                    let m = choose|m: int|
                        0 <= m < old(self).signal_ids().len()
                            && old(self).signal_ids()[m] == id;
                    assert(s0[m].0 == id);
                }
            }
        }
        false
    }

    /// The concurrency mode currently in force.
    pub fn current_mode(&self) -> (r: DownloadMode)
        ensures
            r == self.spec_mode(),
    {
        self.mode
    }

    /// Number of transfers currently active.
    pub fn active_count(&self) -> (r: usize)
        ensures
            r == self.active_ids().len(),
    {
        self.active.len()
    }

    /// Number of tasks waiting in the queue.
    pub fn queue_len(&self) -> (r: usize)
        ensures
            r == self.queued().len(),
    {
        self.queue.len()
    }

    /// One-shot worker guard: the first call reports that the worker loop
    /// should be started; every later call is a no-op.
    pub fn ensure_worker_started(&mut self) -> (start_now: bool)
        requires
            old(self).wf(),
        ensures
            final(self).wf(),
            start_now == !old(self).spec_worker_started(),
            final(self).spec_worker_started(),
            final(self).queued() == old(self).queued(),
            final(self).active_ids() == old(self).active_ids(),
            final(self).signal_entries() == old(self).signal_entries(),
            final(self).spec_mode() == old(self).spec_mode(),
            old(self).within_capacity() ==> final(self).within_capacity(),
    {
        if self.worker_started {
            false
        } else {
            self.worker_started = true;
            true
        }
    }

    /// Observable queue state: each queued identifier with its one-based
    /// position, and the identifiers of the active transfers.
    pub fn snapshot(&self) -> (r: (Vec<(i64, usize)>, Vec<i64>))
        ensures
            r.0@.len() == self.queued().len(),
            forall|j: int| 0 <= j < r.0@.len()
                ==> #[trigger] r.0@[j] == (self.queued()[j].id, (j + 1) as usize),
            r.1@ == self.active_ids(),
    {
        let mut queued: Vec<(i64, usize)> = Vec::new();
        let mut i: usize = 0;
        while i < self.queue.len()
            invariant
                i <= self.queue@.len(),
                queued@.len() == i,
                forall|j: int| 0 <= j < i
                    ==> #[trigger] queued@[j] == (self.queue@[j].id, (j + 1) as usize),
            decreases self.queue@.len() - i,
        {
            queued.push((self.queue[i].id, i + 1));
            i = i + 1;
        }
        let mut active: Vec<i64> = Vec::new();
        let mut k: usize = 0;
        while k < self.active.len()
            invariant
                k <= self.active@.len(),
                active@ == self.active@.subrange(0, k as int),
            decreases self.active@.len() - k,
        {
            active.push(self.active[k]);
            k = k + 1;
            proof {
                assert(active@ =~= self.active@.subrange(0, k as int));
            }
        }
        proof {
            assert(active@ =~= self.active@);
        }
        (queued, active)
    }
}

/// First registered signal state for an identifier.
pub open spec fn signal_state_of(s: Seq<(i64, SignalState)>, id: i64) -> Option<SignalState>
    decreases s.len(),
{
    if s.len() == 0 {
        None
    } else if s.first().0 == id {
        Some(s.first().1)
    } else {
        signal_state_of(s.drop_first(), id)
    }
}

/// Every identifier of the reduced queue was in the original queue.
pub proof fn lemma_remove_task_subset(q: Seq<Resource>, id: i64, x: i64)
    requires
        seq_ids(remove_task(q, id)).contains(x),
    ensures
        seq_ids(q).contains(x),
    decreases q.len(),
{
    assert(forall|j: int| 0 <= j < remove_task(q, id).len()
        ==> seq_ids(remove_task(q, id))[j] == (#[trigger] remove_task(q, id)[j]).id);
    assert(forall|j: int| 0 <= j < q.len() ==> seq_ids(q)[j] == (#[trigger] q[j]).id);
    if q.len() > 0 {
        if q.last().id == id {
            lemma_remove_task_subset(q.drop_last(), id, x);
            let m = choose|m: int|
                0 <= m < seq_ids(q.drop_last()).len() && seq_ids(q.drop_last())[m] == x;
            assert(q.drop_last()[m].id == x) by {
                assert(seq_ids(q.drop_last())[m] == q.drop_last()[m].id);
            }
            assert(seq_ids(q)[m] == x);
        } else {
            let r = remove_task(q, id);
            let k = choose|k: int| 0 <= k < seq_ids(r).len() && seq_ids(r)[k] == x;
            if k == r.len() - 1 {
                assert(r[k] == q.last());
                assert(seq_ids(q)[q.len() - 1] == x);
            } else {
                assert(remove_task(q.drop_last(), id)[k] == r[k]);
                assert(seq_ids(remove_task(q.drop_last(), id)).contains(x)) by {
                    assert(seq_ids(remove_task(q.drop_last(), id))[k] == x);
                }
                lemma_remove_task_subset(q.drop_last(), id, x);
                let m = choose|m: int|
                    0 <= m < seq_ids(q.drop_last()).len() && seq_ids(q.drop_last())[m] == x;
                assert(q.drop_last()[m].id == x) by {
                    assert(seq_ids(q.drop_last())[m] == q.drop_last()[m].id);
                }
                assert(seq_ids(q)[m] == x);
            }
        }
    }
}

/// Removal keeps the queue's identifiers unique.
pub proof fn lemma_remove_task_ids_unique(q: Seq<Resource>, id: i64)
    requires
        unique_seq(seq_ids(q)),
    ensures
        unique_seq(seq_ids(remove_task(q, id))),
    decreases q.len(),
{
    assert(forall|j: int| 0 <= j < q.len() ==> seq_ids(q)[j] == (#[trigger] q[j]).id);
    if q.len() > 0 {
        assert(seq_ids(q.drop_last()) =~= seq_ids(q).drop_last());
        assert(unique_seq(seq_ids(q.drop_last())));
        lemma_remove_task_ids_unique(q.drop_last(), id);
        if q.last().id != id {
            let r0 = remove_task(q.drop_last(), id);
            let r = r0.push(q.last());
            assert(seq_ids(r) =~= seq_ids(r0).push(q.last().id));
            assert(!seq_ids(r0).contains(q.last().id)) by {
                if seq_ids(r0).contains(q.last().id) {
                    lemma_remove_task_subset(q.drop_last(), id, q.last().id);
                    let m = choose|m: int|
                        0 <= m < seq_ids(q.drop_last()).len()
                            && seq_ids(q.drop_last())[m] == q.last().id;
                    assert(seq_ids(q)[m] == seq_ids(q)[q.len() - 1]);
                }
            }
            assert forall|a: int, b: int| 0 <= a < b < seq_ids(r).len()
                implies seq_ids(r)[a] != seq_ids(r)[b] by {
                if b == seq_ids(r).len() - 1 {
                    assert(seq_ids(r0).contains(seq_ids(r0)[a])) by {
                        assert(seq_ids(r0)[a] == seq_ids(r0)[a]);
                    }
                }
            }
        }
    }
}

/// Removing an absent identifier from the signal entries changes nothing.
pub proof fn lemma_remove_entry_noop(s: Seq<(i64, SignalState)>, id: i64)
    requires
        forall|j: int| 0 <= j < s.len() ==> (#[trigger] s[j]).0 != id,
    ensures
        remove_entry(s, id) == s,
    decreases s.len(),
{
    if s.len() > 0 {
        assert(forall|j: int| 0 <= j < s.drop_last().len()
            ==> (#[trigger] s.drop_last()[j]).0 != id);
        lemma_remove_entry_noop(s.drop_last(), id);
        assert(remove_entry(s, id) =~= s);
    } else {
        assert(remove_entry(s, id) =~= s);
    }
}

/// When the entry identifiers are unique and position `k` holds the
/// identifier, the removal deletes exactly that position.
pub proof fn lemma_remove_entry_at(s: Seq<(i64, SignalState)>, id: i64, k: int)
    requires
        unique_seq(s.map_values(|p: (i64, SignalState)| p.0)),
        0 <= k < s.len(),
        s[k].0 == id,
    ensures
        remove_entry(s, id) == s.remove(k),
    decreases s.len(),
{
    let ids = s.map_values(|p: (i64, SignalState)| p.0);
    assert(forall|j: int| 0 <= j < s.len() ==> ids[j] == (#[trigger] s[j]).0);
    if k == s.len() - 1 {
        assert(forall|j: int| 0 <= j < s.drop_last().len()
            ==> (#[trigger] s.drop_last()[j]).0 != id);
        lemma_remove_entry_noop(s.drop_last(), id);
        assert(remove_entry(s, id) =~= s.remove(k));
    } else {
        assert(s.last().0 != id);
        assert(s.drop_last().map_values(|p: (i64, SignalState)| p.0) =~= ids.drop_last());
        assert(unique_seq(ids.drop_last()));
        lemma_remove_entry_at(s.drop_last(), id, k);
        assert(remove_entry(s, id) =~= s.remove(k));
    }
}

/// Law: a task identifier appears in at most one of the queue and the active
/// set of a well-formed coordinator.
pub proof fn lemma_id_in_at_most_one_place(q: &DownloadQueue, id: i64)
    requires
        q.wf(),
    ensures
        !(q.queued_ids().contains(id) && q.active_ids().contains(id)),
{
}

/// Law: a control signal is registered exactly for the active transfers of a
/// well-formed coordinator; in particular, none dangles after its transfer
/// was retired.
pub proof fn lemma_signals_match_active(q: &DownloadQueue, id: i64)
    requires
        q.wf(),
    ensures
        q.signal_ids().contains(id) <==> q.active_ids().contains(id),
{
}

/// Law: a priority insertion leaves exactly one task with the inserted
/// identifier in the queue, and it stands at the front.
pub proof fn lemma_priority_front_single_copy(q: Seq<Resource>, t: Resource)
    ensures
        (seq![t] + remove_task(q, t.id))[0] == t,
        forall|j: int| 1 <= j < (seq![t] + remove_task(q, t.id)).len()
            ==> (#[trigger] (seq![t] + remove_task(q, t.id))[j]).id != t.id,
{
    lemma_remove_task_no_id(q, t.id);
    assert forall|j: int| 1 <= j < (seq![t] + remove_task(q, t.id)).len()
        implies (#[trigger] (seq![t] + remove_task(q, t.id))[j]).id != t.id by {
        assert((seq![t] + remove_task(q, t.id))[j] == remove_task(q, t.id)[j - 1]);
    }
}

/// The category is on the allow-list.
pub open spec fn category_allowed(allowed: Seq<String>, cat: Seq<char>) -> bool {
    exists|k: int| 0 <= k < allowed.len() && (#[trigger] allowed[k])@ == cat
}

/// The resources an automatic scan selects, in order: those whose category is
/// on the allow-list and that are not already present on disk.
pub open spec fn auto_candidates(
    resources: Seq<Resource>,
    allowed: Seq<String>,
    present: Seq<bool>,
) -> Seq<Resource>
    decreases resources.len(),
{
    if resources.len() == 0 {
        Seq::empty()
    } else {
        let prev = auto_candidates(resources.drop_last(), allowed, present.drop_last());
        if category_allowed(allowed, resources.last().category@) && !present.last() {
            prev.push(resources.last())
        } else {
            prev
        }
    }
}

/// Select the resources an automatic scan queues: those whose category is on
/// the allow-list and that are not already present on disk. `present[i]` says
/// whether `resources[i]`'s destination file already exists.
pub fn select_auto_download(
    resources: &Vec<Resource>,
    allowed: &Vec<String>,
    present: &Vec<bool>,
) -> (r: Vec<Resource>)
    requires
        present@.len() == resources@.len(),
    ensures
        r@ == auto_candidates(resources@, allowed@, present@),
{
    let mut r: Vec<Resource> = Vec::new();
    let mut i: usize = 0;
    while i < resources.len()
        invariant
            i <= resources@.len(),
            present@.len() == resources@.len(),
            r@ == auto_candidates(resources@.subrange(0, i as int), allowed@,
                present@.subrange(0, i as int)),
        decreases resources@.len() - i,
    {
        let resource = &resources[i];

        // Scan the allow-list for this resource's category.
        let mut in_list: bool = false;
        let mut k: usize = 0;
        while k < allowed.len()
            invariant
                k <= allowed@.len(),
                in_list == exists|m: int| 0 <= m < k
                    && (#[trigger] allowed@[m])@ == resource.category@,
            decreases allowed@.len() - k,
        {
            if allowed[k] == resource.category {
                in_list = true;
            }
            k = k + 1;
        }
        proof {
            assert(in_list == category_allowed(allowed@, resource.category@));
        }
        if in_list && !present[i] {
            r.push(resource.duplicate());
        }
        i = i + 1;
        proof {
            assert(resources@.subrange(0, i as int).drop_last()
                =~= resources@.subrange(0, i - 1));
            assert(present@.subrange(0, i as int).drop_last()
                =~= present@.subrange(0, i - 1));
            assert(resources@.subrange(0, i as int).last() == resources@[i - 1]);
            assert(present@.subrange(0, i as int).last() == present@[i - 1]);
            assert(r@ =~= auto_candidates(resources@.subrange(0, i as int), allowed@,
                present@.subrange(0, i as int)));
        }
    }
    proof {
        assert(resources@.subrange(0, resources@.len() as int) =~= resources@);
        assert(present@.subrange(0, present@.len() as int) =~= present@);
    }
    r
}

} // verus!
