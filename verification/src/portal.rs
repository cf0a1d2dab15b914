use crate::collector::Address;
use crate::fault::Fault;
use crate::TaskId;
use vstd::prelude::*;

verus! {

/// A schedulable unit: the identity of the task and the address of its
/// closure.
pub type Task = (TaskId, Address);

/// Name of a worker thread.
pub type ThreadId = u64;

/// What the scheduler keeps for one worker thread, as contracts see it: the
/// tasks that are ready to be polled, the last one to be polled first, and
/// the tasks that wait to be woken.
pub struct PeerView {
    pub poll_list: Seq<Task>,
    pub pending_set: Set<Task>,
}

/// What a scheduler stands for in contracts: the threads in the order in
/// which they were registered, what is kept for each, and the identity that
/// the next task gets.
pub struct PortalView {
    pub order: Seq<ThreadId>,
    pub peers: Map<ThreadId, PeerView>,
    pub task_id: TaskId,
}

/// The first thread of `order`, other than `thread`, that has a task ready.
pub open spec fn first_ready(
    order: Seq<ThreadId>,
    peers: Map<ThreadId, PeerView>,
    thread: ThreadId,
) -> Option<ThreadId>
    decreases order.len(),
{
    if order.len() == 0 {
        None
    } else if order[0] != thread && peers[order[0]].poll_list.len() > 0 {
        Some(order[0])
    } else {
        first_ready(order.skip(1), peers, thread)
    }
}

impl PortalView {
    /// Whether the thread is registered.
    pub open spec fn knows(self, thread: ThreadId) -> bool {
        self.peers.contains_key(thread)
    }

    /// The scheduler with what is kept for `thread` replaced.
    pub open spec fn with_peer(self, thread: ThreadId, peer: PeerView) -> Self {
        PortalView { peers: self.peers.insert(thread, peer), ..self }
    }

    /// After `thread` was registered.
    pub open spec fn registered(self, thread: ThreadId) -> Self {
        if self.knows(thread) {
            self
        } else {
            PortalView {
                order: self.order.push(thread),
                peers: self.peers.insert(
                    thread,
                    PeerView { poll_list: Seq::empty(), pending_set: Set::empty() },
                ),
                ..self
            }
        }
    }

    /// The identity after `id`; after the last one the count starts again.
    pub open spec fn next_id(id: TaskId) -> TaskId {
        if id == u32::MAX {
            0
        } else {
            (id + 1) as u32
        }
    }

    /// After a task was spawned for the closure on `thread`.
    pub open spec fn spawned(self, thread: ThreadId, closure: Address) -> Self {
        PortalView {
            peers: self.peers.insert(
                thread,
                PeerView {
                    poll_list: self.peers[thread].poll_list.push((self.task_id, closure)),
                    ..self.peers[thread]
                },
            ),
            task_id: Self::next_id(self.task_id),
            ..self
        }
    }

    /// After the task was suspended on `thread`.
    pub open spec fn suspended(self, thread: ThreadId, task: Task) -> Self {
        self.with_peer(
            thread,
            PeerView {
                pending_set: self.peers[thread].pending_set.insert(task),
                ..self.peers[thread]
            },
        )
    }

    /// After a wake of the task on `thread`: a task that waits there
    /// becomes ready; for any other task nothing changes.
    pub open spec fn woken(self, thread: ThreadId, task: Task) -> Self {
        if self.peers[thread].pending_set.contains(task) {
            self.with_peer(
                thread,
                PeerView {
                    poll_list: self.peers[thread].poll_list.push(task),
                    pending_set: self.peers[thread].pending_set.remove(task),
                },
            )
        } else {
            self
        }
    }

    /// The thread from whose list `thread` takes its next task: itself if
    /// it has a task ready, else the first other thread that has one.
    pub open spec fn source(self, thread: ThreadId) -> Option<ThreadId> {
        if self.peers[thread].poll_list.len() > 0 {
            Some(thread)
        } else {
            first_ready(self.order, self.peers, thread)
        }
    }

    /// After `thread` has fetched a task: the task that was pushed last has
    /// left the list of the source.
    pub open spec fn fetched(self, thread: ThreadId) -> Self {
        match self.source(thread) {
            Some(source) => self.with_peer(
                source,
                PeerView {
                    poll_list: self.peers[source].poll_list.drop_last(),
                    ..self.peers[source]
                },
            ),
            None => self,
        }
    }

    /// Whether the task is ready on the thread exactly once.
    pub open spec fn ready_once(self, thread: ThreadId, task: Task) -> bool {
        let list = self.peers[thread].poll_list;
        exists|i: int|
            0 <= i < list.len() && list[i] == task && forall|j: int|
                0 <= j < list.len() && list[j] == task ==> j == i
    }

    /// Whether the task is ready nowhere and waits nowhere: it is with a
    /// runner, or not known at all.
    pub open spec fn in_flight(self, task: Task) -> bool {
        forall|thread: ThreadId| #[trigger]
            self.knows(thread) ==> !self.peers[thread].poll_list.contains(task)
                && !self.peers[thread].pending_set.contains(task)
    }

    /// A task that is suspended and then woken is ready exactly once, and
    /// waits no longer.
    pub proof fn lemma_suspend_then_wake(self, thread: ThreadId, task: Task)
        requires
            self.knows(thread),
            self.in_flight(task),
        ensures
            self.suspended(thread, task).woken(thread, task).ready_once(thread, task),
            !self.suspended(thread, task).woken(thread, task).peers[thread].pending_set.contains(
                task,
            ),
            self.suspended(thread, task).woken(thread, task).peers[thread].poll_list
                == self.peers[thread].poll_list.push(task),
    {
        let before = self.peers[thread].poll_list;
        let after = self.suspended(thread, task).woken(thread, task).peers[thread].poll_list;
        assert(after == before.push(task));
        assert(after[before.len() as int] == task);
        assert forall|j: int| 0 <= j < after.len() && after[j] == task implies j
            == before.len() by {
            if j < before.len() {
                assert(before[j] == task);
                assert(before.contains(task));
            }
        }
    }

    /// A wake that comes before the suspension is lost: the task that is
    /// woken and then suspended waits, and is not ready.
    pub proof fn lemma_wake_then_suspend(self, thread: ThreadId, task: Task)
        requires
            self.knows(thread),
            self.in_flight(task),
        ensures
            self.woken(thread, task) == self,
            self.woken(thread, task).suspended(thread, task).peers[thread].pending_set.contains(
                task,
            ),
            !self.woken(thread, task).suspended(thread, task).peers[thread].poll_list.contains(
                task,
            ),
    {
    }

    /// A task that waits on a thread and is woken there twice is made ready
    /// once: the second wake changes nothing.
    pub proof fn lemma_second_wake_is_lost(self, thread: ThreadId, task: Task)
        requires
            self.knows(thread),
        ensures
            self.woken(thread, task).woken(thread, task) == self.woken(thread, task),
    {
    }
}

/// What the scheduler keeps for one worker thread.
struct Peer {
    thread: ThreadId,
    poll_list: Vec<Task>,
    /// The tasks that wait; none stands here twice.
    pending_set: Vec<Task>,
}

impl View for Peer {
    type V = PeerView;

    closed spec fn view(&self) -> PeerView {
        PeerView { poll_list: self.poll_list@, pending_set: self.pending_set@.to_set() }
    }
}

impl Peer {
    spec fn wf(&self) -> bool {
        self.pending_set@.no_duplicates()
    }

    /// The place of the task among those that wait.
    fn find_pending(&self, task: Task) -> (place: Option<usize>)
        ensures
            match place {
                Some(i) => i < self.pending_set@.len() && self.pending_set@[i as int] == task,
                None => !self@.pending_set.contains(task),
            },
    {
        let mut i: usize = 0;
        while i < self.pending_set.len()
            invariant
                i <= self.pending_set.len(),
                forall|j: int| 0 <= j < i ==> self.pending_set@[j] != task,
            decreases self.pending_set.len() - i,
        {
            let other = self.pending_set[i];
            if other.0 == task.0 && other.1.0 == task.1.0 && other.1.1 == task.1.1 {
                return Some(i);
            }
            i += 1;
        }
        proof {
            if self.pending_set@.to_set().contains(task) {
                assert(self.pending_set@.contains(task));
                let j = choose|j: int|
                    0 <= j < self.pending_set@.len() && self.pending_set@[j] == task;
                assert(self.pending_set@[j] != task);
            }
        }
        None
    }

    /// Lets the task wait.
    fn suspend(&mut self, task: Task)
        requires
            old(self).wf(),
        ensures
            final(self).wf(),
            final(self).thread == old(self).thread,
            final(self)@ == (PeerView {
                pending_set: old(self)@.pending_set.insert(task),
                ..old(self)@
            }),
    {
        if self.find_pending(task).is_none() {
            self.pending_set.push(task);
            proof {
                let before = old(self).pending_set@;
                assert(!before.contains(task)) by {
                    if before.contains(task) {
                        assert(before.to_set().contains(task));
                    }
                }
                assert(self.pending_set@ == before.push(task));
                assert forall|i: int, j: int|
                    0 <= i < self.pending_set@.len() && 0 <= j < self.pending_set@.len() && i
                        != j implies self.pending_set@[i] != self.pending_set@[j] by {
                    if i < before.len() && j < before.len() {
                        assert(before[i] != before[j]);
                    } else if i < before.len() {
                        assert(before.contains(before[i]));
                    } else {
                        assert(before.contains(before[j]));
                    }
                }
                assert(self.pending_set@.to_set() =~= before.to_set().insert(task)) by {
                    assert forall|other: Task|
                        self.pending_set@.to_set().contains(other) <==> before.to_set().insert(
                            task,
                        ).contains(other) by {
                        if self.pending_set@.contains(other) {
                            let k = choose|k: int|
                                0 <= k < self.pending_set@.len() && self.pending_set@[k] == other;
                            if k < before.len() {
                                assert(before[k] == other);
                                assert(before.contains(other));
                            }
                        }
                        if before.contains(other) {
                            let k = choose|k: int| 0 <= k < before.len() && before[k] == other;
                            assert(self.pending_set@[k] == other);
                        }
                        if other == task {
                            assert(self.pending_set@[before.len() as int] == task);
                        }
                    }
                }
            }
        } else {
            proof {
                assert(self@.pending_set =~= old(self)@.pending_set.insert(task));
            }
        }
    }

    /// Makes the task ready if it waits; says whether it did.
    fn wake(&mut self, task: Task) -> (woken: bool)
        requires
            old(self).wf(),
        ensures
            final(self).wf(),
            final(self).thread == old(self).thread,
            woken == old(self)@.pending_set.contains(task),
            final(self)@ == if woken {
                PeerView {
                    poll_list: old(self)@.poll_list.push(task),
                    pending_set: old(self)@.pending_set.remove(task),
                }
            } else {
                old(self)@
            },
    {
        match self.find_pending(task) {
            None => false,
            Some(place) => {
                self.pending_set.remove(place);
                self.poll_list.push(task);
                proof {
                    let before = old(self).pending_set@;
                    assert(before.contains(task));
                    assert(self.pending_set@ == before.remove(place as int));
                    assert forall|i: int, j: int|
                        0 <= i < self.pending_set@.len() && 0 <= j < self.pending_set@.len() && i
                            != j implies self.pending_set@[i] != self.pending_set@[j] by {
                        let a = if i < place { i } else { i + 1 };
                        let b = if j < place { j } else { j + 1 };
                        assert(before[a] != before[b]);
                    }
                    assert(self.pending_set@.to_set() =~= before.to_set().remove(task)) by {
                        assert forall|other: Task|
                            self.pending_set@.to_set().contains(other) <==> before.to_set().remove(
                                task,
                            ).contains(other) by {
                            if self.pending_set@.contains(other) {
                                let k = choose|k: int|
                                    0 <= k < self.pending_set@.len() && self.pending_set@[k]
                                        == other;
                                let a = if k < place { k } else { k + 1 };
                                assert(before[a] == other);
                                assert(before.contains(other));
                                assert(a != place);
                                assert(before[a] != before[place as int]);
                            }
                            if before.contains(other) && other != task {
                                let k = choose|k: int| 0 <= k < before.len() && before[k] == other;
                                let a = if k < place { k } else { k - 1 };
                                assert(self.pending_set@[a] == other);
                            }
                        }
                    }
                }
                true
            },
        }
    }
}

/// The scheduler: for each worker thread the tasks that are ready and the
/// tasks that wait, and the source of task identities.
pub struct Portal {
    peer_table: Vec<Peer>,
    task_id: TaskId,
}

impl View for Portal {
    type V = PortalView;

    closed spec fn view(&self) -> PortalView {
        PortalView {
            order: Seq::new(self.peer_table@.len(), |i: int| self.peer_table@[i].thread),
            peers: Map::new(
                |thread: ThreadId|
                    exists|i: int|
                        0 <= i < self.peer_table@.len() && self.peer_table@[i].thread == thread,
                |thread: ThreadId|
                    self.peer_table@[choose|i: int|
                        0 <= i < self.peer_table@.len() && self.peer_table@[i].thread == thread]@,
            ),
            task_id: self.task_id,
        }
    }
}

impl Portal {
    /// The invariant of the scheduler's representation. Every function of
    /// the scheduler keeps it.
    pub closed spec fn wf(&self) -> bool {
        &&& forall|i: int, j: int|
            0 <= i < j < self.peer_table@.len() ==> self.peer_table@[i].thread
                != self.peer_table@[j].thread
        &&& forall|i: int| 0 <= i < self.peer_table@.len() ==> (#[trigger] self.peer_table@[i]).wf()
    }

    /// The peer at a place of the table is the one kept for its thread.
    proof fn lemma_peer_at(&self, place: int)
        requires
            self.wf(),
            0 <= place < self.peer_table@.len(),
        ensures
            self@.knows(self.peer_table@[place].thread),
            self@.peers[self.peer_table@[place].thread] == self.peer_table@[place]@,
            self@.order[place] == self.peer_table@[place].thread,
            self@.order.len() == self.peer_table@.len(),
    {
        let thread = self.peer_table@[place].thread;
        let chosen = choose|i: int|
            0 <= i < self.peer_table@.len() && self.peer_table@[i].thread == thread;
        if chosen < place {
            assert(self.peer_table@[chosen].thread != self.peer_table@[place].thread);
        }
        if place < chosen {
            assert(self.peer_table@[place].thread != self.peer_table@[chosen].thread);
        }
    }

    /// The registered threads are those of the order, each of which stands
    /// there once.
    pub proof fn lemma_registered_in_order(&self)
        requires
            self.wf(),
        ensures
            forall|thread: ThreadId| self@.knows(thread) <==> self@.order.contains(thread),
            self@.order.no_duplicates(),
    {
        assert forall|thread: ThreadId| self@.knows(thread) <==> self@.order.contains(thread) by {
            if self@.knows(thread) {
                let i = choose|i: int|
                    0 <= i < self.peer_table@.len() && self.peer_table@[i].thread == thread;
                assert(self@.order[i] == thread);
            }
            if self@.order.contains(thread) {
                let i = choose|i: int| 0 <= i < self@.order.len() && self@.order[i] == thread;
                assert(self.peer_table@[i].thread == thread);
            }
        }
        assert forall|i: int, j: int|
            0 <= i < self@.order.len() && 0 <= j < self@.order.len() && i != j implies self@.order[i]
            != self@.order[j] by {
            if i < j {
                assert(self.peer_table@[i].thread != self.peer_table@[j].thread);
            } else {
                assert(self.peer_table@[j].thread != self.peer_table@[i].thread);
            }
        }
    }

    /// A scheduler without threads; the first task gets identity 0.
    pub fn new() -> (portal: Self)
        ensures
            portal.wf(),
            portal@ == (PortalView { order: Seq::empty(), peers: Map::empty(), task_id: 0 }),
    {
        let portal = Portal { peer_table: Vec::new(), task_id: 0 };
        assert(portal@.order =~= Seq::empty());
        assert(portal@.peers =~= Map::empty());
        portal
    }

    /// The place of the peer of the thread in the table.
    fn find_peer(&self, thread: ThreadId) -> (place: Option<usize>)
        requires
            self.wf(),
        ensures
            place is Some == self@.knows(thread),
            place matches Some(i) ==> i < self.peer_table@.len() && self.peer_table@[i as int].thread
                == thread,
    {
        let mut i: usize = 0;
        while i < self.peer_table.len()
            invariant
                i <= self.peer_table.len(),
                forall|j: int| 0 <= j < i ==> self.peer_table@[j].thread != thread,
            decreases self.peer_table.len() - i,
        {
            if self.peer_table[i].thread == thread {
                return Some(i);
            }
            i += 1;
        }
        None
    }

    /// Replaces the peer at a place of the table by one for the same
    /// thread.
    fn set_peer(&mut self, place: usize, peer: Peer)
        requires
            old(self).wf(),
            place < old(self).peer_table@.len(),
            peer.wf(),
            peer.thread == old(self).peer_table@[place as int].thread,
        ensures
            final(self).wf(),
            final(self)@ == old(self)@.with_peer(peer.thread, peer@),
            final(self).task_id == old(self).task_id,
    {
        self.peer_table.set(place, peer);
        proof {
            assert(self.wf()) by {
                assert forall|i: int, j: int|
                    0 <= i < j < self.peer_table@.len() implies self.peer_table@[i].thread
                    != self.peer_table@[j].thread by {
                    assert(old(self).peer_table@[i].thread != old(self).peer_table@[j].thread);
                }
                assert forall|i: int| 0 <= i < self.peer_table@.len() implies (
                #[trigger] self.peer_table@[i]).wf() by {
                    if i != place {
                        assert(old(self).peer_table@[i].wf());
                    }
                }
            }
            let after = old(self)@.with_peer(peer.thread, peer@);
            assert(self@.order =~= after.order);
            assert(self@.peers =~= after.peers) by {
                assert forall|thread: ThreadId| self@.peers.contains_key(thread)
                    == after.peers.contains_key(thread) by {
                    if self@.peers.contains_key(thread) {
                        let i = choose|i: int|
                            0 <= i < self.peer_table@.len() && self.peer_table@[i].thread
                                == thread;
                        assert(old(self).peer_table@[i].thread == thread);
                    }
                    if old(self)@.peers.contains_key(thread) {
                        let i = choose|i: int|
                            0 <= i < old(self).peer_table@.len() && old(self).peer_table@[i].thread
                                == thread;
                        assert(self.peer_table@[i].thread == thread);
                    }
                    if thread == peer.thread {
                        assert(self.peer_table@[place as int].thread == thread);
                    }
                }
                assert forall|thread: ThreadId| self@.peers.contains_key(thread) implies
                    self@.peers[thread] == after.peers[thread] by {
                    let i = choose|i: int|
                        0 <= i < self.peer_table@.len() && self.peer_table@[i].thread == thread;
                    self.lemma_peer_at(i);
                    if i != place {
                        assert(old(self).peer_table@[i].thread == thread);
                        old(self).lemma_peer_at(i);
                    }
                }
            }
        }
    }

    /// Takes the peer at a place out of the table; an empty one for the
    /// same thread stands there meanwhile.
    fn take_peer(&mut self, place: usize) -> (peer: Peer)
        requires
            old(self).wf(),
            place < old(self).peer_table@.len(),
        ensures
            final(self).wf(),
            final(self).task_id == old(self).task_id,
            final(self).peer_table@.len() == old(self).peer_table@.len(),
            final(self).peer_table@[place as int].thread == peer.thread,
            peer == old(self).peer_table@[place as int],
            peer.wf(),
            peer@ == old(self)@.peers[peer.thread],
            forall|i: int|
                0 <= i < final(self).peer_table@.len() && i != place ==> final(self).peer_table@[i]
                    == old(self).peer_table@[i],
            forall|other: PeerView| #[trigger]
                final(self)@.with_peer(peer.thread, other) == old(self)@.with_peer(
                    peer.thread,
                    other,
                ),
    {
        let thread = self.peer_table[place].thread;
        let mut peer = Peer { thread, poll_list: Vec::new(), pending_set: Vec::new() };
        self.peer_table.set_and_swap(place, &mut peer);
        proof {
            assert forall|i: int, j: int|
                0 <= i < j < self.peer_table@.len() implies self.peer_table@[i].thread
                != self.peer_table@[j].thread by {
                assert(old(self).peer_table@[i].thread != old(self).peer_table@[j].thread);
            }
            assert forall|i: int| 0 <= i < self.peer_table@.len() implies (
            #[trigger] self.peer_table@[i]).wf() by {
                if i != place {
                    assert(old(self).peer_table@[i].wf());
                }
            }
            assert(old(self).peer_table@[place as int].wf());
            old(self).lemma_peer_at(place as int);
            assert(self@.order =~= old(self)@.order);
            assert forall|other: PeerView|
                self@.with_peer(peer.thread, other) == old(self)@.with_peer(
                    peer.thread,
                    other,
                ) by {
                let left = self@.with_peer(peer.thread, other);
                let right = old(self)@.with_peer(peer.thread, other);
                assert forall|thread: ThreadId| left.peers.contains_key(thread)
                    == right.peers.contains_key(thread) by {
                    if self@.peers.contains_key(thread) {
                        let i = choose|i: int|
                            0 <= i < self.peer_table@.len() && self.peer_table@[i].thread
                                == thread;
                        assert(old(self).peer_table@[i].thread == thread);
                    }
                    if old(self)@.peers.contains_key(thread) {
                        let i = choose|i: int|
                            0 <= i < old(self).peer_table@.len() && old(self).peer_table@[i].thread
                                == thread;
                        assert(self.peer_table@[i].thread == thread);
                    }
                }
                assert forall|thread: ThreadId| left.peers.contains_key(thread) implies
                    left.peers[thread] == right.peers[thread] by {
                    if thread != peer.thread {
                        let i = choose|i: int|
                            0 <= i < self.peer_table@.len() && self.peer_table@[i].thread
                                == thread;
                        self.lemma_peer_at(i);
                        assert(old(self).peer_table@[i].thread == thread);
                        old(self).lemma_peer_at(i);
                    }
                }
                assert(left.peers =~= right.peers);
            }
        }
        peer
    }

    /// Registers a worker thread, with nothing ready and nothing waiting.
    /// A thread that is registered already stays as it is.
    pub fn register(&mut self, thread: ThreadId)
        requires
            old(self).wf(),
        ensures
            final(self).wf(),
            final(self)@ == old(self)@.registered(thread),
    {
        if self.find_peer(thread).is_none() {
            self.peer_table.push(Peer { thread, poll_list: Vec::new(), pending_set: Vec::new() });
            proof {
                let last = self.peer_table@.len() - 1;
                assert(self.wf()) by {
                    assert forall|i: int, j: int|
                        0 <= i < j < self.peer_table@.len() implies self.peer_table@[i].thread
                        != self.peer_table@[j].thread by {
                        if j < last {
                            assert(old(self).peer_table@[i].thread != old(self).peer_table@[j].thread);
                        } else {
                            assert(old(self).peer_table@[i].thread == self.peer_table@[i].thread);
                        }
                    }
                    assert forall|i: int| 0 <= i < self.peer_table@.len() implies (
                    #[trigger] self.peer_table@[i]).wf() by {
                        if i < last {
                            assert(old(self).peer_table@[i].wf());
                        }
                    }
                }
                let after = old(self)@.registered(thread);
                assert(self@.order =~= after.order);
                assert forall|other: ThreadId| self@.peers.contains_key(other)
                    == after.peers.contains_key(other) by {
                    if self@.peers.contains_key(other) {
                        let i = choose|i: int|
                            0 <= i < self.peer_table@.len() && self.peer_table@[i].thread == other;
                        if i < last {
                            assert(old(self).peer_table@[i].thread == other);
                        }
                    }
                    if old(self)@.peers.contains_key(other) {
                        let i = choose|i: int|
                            0 <= i < old(self).peer_table@.len() && old(self).peer_table@[i].thread
                                == other;
                        assert(self.peer_table@[i].thread == other);
                    }
                    if other == thread {
                        assert(self.peer_table@[last].thread == other);
                    }
                }
                assert forall|other: ThreadId| self@.peers.contains_key(other) implies
                    self@.peers[other] == after.peers[other] by {
                    let i = choose|i: int|
                        0 <= i < self.peer_table@.len() && self.peer_table@[i].thread == other;
                    self.lemma_peer_at(i);
                    if i < last {
                        assert(old(self).peer_table@[i].thread == other);
                        old(self).lemma_peer_at(i);
                    } else {
                        assert(self.peer_table@[last]@.pending_set =~= Set::empty());
                    }
                }
                assert(self@.peers =~= after.peers);
            }
        }
    }

    /// The threads to unpark after a task became ready: all of them, in the
    /// order in which they were registered.
    pub fn activative_peer(&self) -> (threads: Vec<ThreadId>)
        requires
            self.wf(),
        ensures
            threads@ == self@.order,
    {
        let mut threads: Vec<ThreadId> = Vec::new();
        let mut i: usize = 0;
        while i < self.peer_table.len()
            invariant
                i <= self.peer_table.len(),
                self@.order.len() == self.peer_table@.len(),
                threads@ == self@.order.take(i as int),
            decreases self.peer_table.len() - i,
        {
            threads.push(self.peer_table[i].thread);
            proof {
                assert(self@.order.take(i + 1) =~= self@.order.take(i as int).push(
                    self.peer_table@[i as int].thread,
                ));
            }
            i += 1;
        }
        proof {
            assert(self@.order.take(i as int) =~= self@.order);
        }
        threads
    }

    /// Mints a task for the closure and makes it ready on the thread. The
    /// caller then unparks the threads that `activative_peer` names. The
    /// thread must be registered; `try_spawn` takes any thread.
    pub fn spawn(&mut self, thread: ThreadId, closure: Address) -> (task: Task)
        requires
            old(self).wf(),
            old(self)@.knows(thread),
        ensures
            final(self).wf(),
            task == (old(self)@.task_id, closure),
            final(self)@ == old(self)@.spawned(thread, closure),
    {
        match self.try_spawn(thread, closure) {
            Ok(task) => task,
            Err(_) => unreached(),
        }
    }

    /// Mints a task for the closure, as `spawn` does.
    ///
    /// Fails with `UnknownThread` where the thread is not registered; the
    /// scheduler is then unchanged.
    pub fn try_spawn(&mut self, thread: ThreadId, closure: Address) -> (task: Result<Task, Fault>)
        requires
            old(self).wf(),
        ensures
            final(self).wf(),
            match task {
                Ok(task) => {
                    &&& old(self)@.knows(thread)
                    &&& task == (old(self)@.task_id, closure)
                    &&& final(self)@ == old(self)@.spawned(thread, closure)
                },
                Err(fault) => {
                    &&& !old(self)@.knows(thread)
                    &&& fault == Fault::UnknownThread
                    &&& final(self)@ == old(self)@
                },
            },
    {
        let place = match self.find_peer(thread) {
            None => {
                return Err(Fault::UnknownThread);
            },
            Some(place) => place,
        };
        let task: Task = (self.task_id, closure);
        let mut peer = self.take_peer(place);
        peer.poll_list.push(task);
        self.set_peer(place, peer);
        self.task_id = if self.task_id == u32::MAX {
            0
        } else {
            self.task_id + 1
        };
        Ok(task)
    }

    /// Lets the task wait on the thread until it is woken there. The
    /// thread must be registered; `try_suspend` takes any thread.
    pub fn suspend(&mut self, thread: ThreadId, task: Task)
        requires
            old(self).wf(),
            old(self)@.knows(thread),
        ensures
            final(self).wf(),
            final(self)@ == old(self)@.suspended(thread, task),
    {
        match self.try_suspend(thread, task) {
            Ok(_) => {},
            Err(_) => unreached(),
        }
    }

    /// Lets the task wait on the thread, as `suspend` does.
    ///
    /// Fails with `UnknownThread` where the thread is not registered; the
    /// scheduler is then unchanged.
    pub fn try_suspend(&mut self, thread: ThreadId, task: Task) -> (done: Result<(), Fault>)
        requires
            old(self).wf(),
        ensures
            final(self).wf(),
            match done {
                Ok(_) => old(self)@.knows(thread) && final(self)@ == old(self)@.suspended(
                    thread,
                    task,
                ),
                Err(fault) => {
                    &&& !old(self)@.knows(thread)
                    &&& fault == Fault::UnknownThread
                    &&& final(self)@ == old(self)@
                },
            },
    {
        let place = match self.find_peer(thread) {
            None => {
                return Err(Fault::UnknownThread);
            },
            Some(place) => place,
        };
        let mut peer = self.take_peer(place);
        peer.suspend(task);
        self.set_peer(place, peer);
        Ok(())
    }

    /// Wakes the task on the thread: a task that waits there becomes ready,
    /// and the caller then unparks the threads that `activative_peer`
    /// names. A wake of a task that does not wait there changes nothing.
    /// The result says whether the task was made ready. The thread must be
    /// registered; `try_wake` takes any thread.
    pub fn wake(&mut self, thread: ThreadId, task: Task) -> (woken: bool)
        requires
            old(self).wf(),
            old(self)@.knows(thread),
        ensures
            final(self).wf(),
            woken == old(self)@.peers[thread].pending_set.contains(task),
            final(self)@ == old(self)@.woken(thread, task),
    {
        match self.try_wake(thread, task) {
            Ok(woken) => woken,
            Err(_) => unreached(),
        }
    }

    /// Wakes the task on the thread, as `wake` does.
    ///
    /// Fails with `UnknownThread` where the thread is not registered; the
    /// scheduler is then unchanged.
    pub fn try_wake(&mut self, thread: ThreadId, task: Task) -> (woken: Result<bool, Fault>)
        requires
            old(self).wf(),
        ensures
            final(self).wf(),
            match woken {
                Ok(woken) => {
                    &&& old(self)@.knows(thread)
                    &&& woken == old(self)@.peers[thread].pending_set.contains(task)
                    &&& final(self)@ == old(self)@.woken(thread, task)
                },
                Err(fault) => {
                    &&& !old(self)@.knows(thread)
                    &&& fault == Fault::UnknownThread
                    &&& final(self)@ == old(self)@
                },
            },
    {
        let place = match self.find_peer(thread) {
            None => {
                return Err(Fault::UnknownThread);
            },
            Some(place) => place,
        };
        let mut peer = self.take_peer(place);
        let woken = peer.wake(task);
        self.set_peer(place, peer);
        proof {
            if !woken {
                assert(self@.peers =~= old(self)@.peers);
            }
        }
        Ok(woken)
    }

    /// The place of the first peer, other than that of `thread`, that has a
    /// task ready.
    fn find_ready(&self, thread: ThreadId) -> (place: Option<usize>)
        requires
            self.wf(),
        ensures
            match place {
                Some(i) => {
                    &&& i < self.peer_table@.len()
                    &&& self.peer_table@[i as int].poll_list@.len() > 0
                    &&& first_ready(self@.order, self@.peers, thread) == Some(
                        self.peer_table@[i as int].thread,
                    )
                },
                None => first_ready(self@.order, self@.peers, thread) is None,
            },
    {
        let mut i: usize = 0;
        proof {
            assert(self@.order.skip(0) =~= self@.order);
        }
        while i < self.peer_table.len()
            invariant
                self.wf(),
                i <= self.peer_table.len(),
                self@.order.len() == self.peer_table@.len(),
                first_ready(self@.order, self@.peers, thread) == first_ready(
                    self@.order.skip(i as int),
                    self@.peers,
                    thread,
                ),
            decreases self.peer_table.len() - i,
        {
            proof {
                self.lemma_peer_at(i as int);
                assert(self@.order.skip(i as int)[0] == self.peer_table@[i as int].thread);
                assert(self@.order.skip(i as int).skip(1) =~= self@.order.skip(i + 1));
            }
            if self.peer_table[i].thread != thread && self.peer_table[i].poll_list.len() > 0 {
                return Some(i);
            }
            i += 1;
        }
        None
    }

    /// Takes a task for the thread to poll: the one that became ready last
    /// on the thread itself, else the one that became ready last on the
    /// first other thread that has a task ready. Without any task ready the
    /// result is `None`, and the caller parks the thread and tries again.
    /// The thread must be registered; `try_fetch` takes any thread.
    pub fn fetch(&mut self, thread: ThreadId) -> (task: Option<Task>)
        requires
            old(self).wf(),
            old(self)@.knows(thread),
        ensures
            final(self).wf(),
            final(self)@ == old(self)@.fetched(thread),
            task == match old(self)@.source(thread) {
                Some(source) => Some(old(self)@.peers[source].poll_list.last()),
                None => None,
            },
    {
        match self.try_fetch(thread) {
            Ok(task) => task,
            Err(_) => unreached(),
        }
    }

    /// Takes a task for the thread to poll, as `fetch` does.
    ///
    /// Fails with `UnknownThread` where the thread is not registered; the
    /// scheduler is then unchanged.
    pub fn try_fetch(&mut self, thread: ThreadId) -> (task: Result<Option<Task>, Fault>)
        requires
            old(self).wf(),
        ensures
            final(self).wf(),
            match task {
                Ok(task) => {
                    &&& old(self)@.knows(thread)
                    &&& final(self)@ == old(self)@.fetched(thread)
                    &&& task == match old(self)@.source(thread) {
                        Some(source) => Some(old(self)@.peers[source].poll_list.last()),
                        None => None,
                    }
                },
                Err(fault) => {
                    &&& !old(self)@.knows(thread)
                    &&& fault == Fault::UnknownThread
                    &&& final(self)@ == old(self)@
                },
            },
    {
        let own = match self.find_peer(thread) {
            None => {
                return Err(Fault::UnknownThread);
            },
            Some(own) => own,
        };
        proof {
            self.lemma_peer_at(own as int);
        }
        let place = if self.peer_table[own].poll_list.len() > 0 {
            own
        } else {
            match self.find_ready(thread) {
                None => {
                    return Ok(None);
                },
                Some(place) => place,
            }
        };
        proof {
            self.lemma_peer_at(place as int);
        }
        let mut peer = self.take_peer(place);
        let task = peer.poll_list.pop();
        self.set_peer(place, peer);
        Ok(task)
    }
}

/// A wake of one task on one thread, to be used once.
pub struct Waker {
    thread: ThreadId,
    task: Task,
}

impl Waker {
    /// The thread on which the task is woken.
    pub closed spec fn thread(&self) -> ThreadId {
        self.thread
    }

    /// The task that is woken.
    pub closed spec fn task(&self) -> Task {
        self.task
    }

    /// Wakes the task, as `Portal::wake` does. The result says whether the
    /// task was made ready; the caller then unparks the threads. The thread
    /// must be registered; `try_wake` takes any.
    pub fn wake(self, portal: &mut Portal) -> (woken: bool)
        requires
            old(portal).wf(),
            old(portal)@.knows(self.thread()),
        ensures
            final(portal).wf(),
            woken == old(portal)@.peers[self.thread()].pending_set.contains(self.task()),
            final(portal)@ == old(portal)@.woken(self.thread(), self.task()),
    {
        portal.wake(self.thread, self.task)
    }

    /// Wakes the task, as `Portal::try_wake` does.
    pub fn try_wake(self, portal: &mut Portal) -> (woken: Result<bool, Fault>)
        requires
            old(portal).wf(),
        ensures
            final(portal).wf(),
            match woken {
                Ok(woken) => {
                    &&& old(portal)@.knows(self.thread())
                    &&& woken == old(portal)@.peers[self.thread()].pending_set.contains(self.task())
                    &&& final(portal)@ == old(portal)@.woken(self.thread(), self.task())
                },
                Err(fault) => {
                    &&& !old(portal)@.knows(self.thread())
                    &&& fault == Fault::UnknownThread
                    &&& final(portal)@ == old(portal)@
                },
            },
    {
        portal.try_wake(self.thread, self.task)
    }
}

impl Portal {
    /// A wake of the task on the thread, to be used once, later.
    pub fn waker(&self, id: ThreadId, task: Task) -> (waker: Waker)
        ensures
            waker.thread() == id,
            waker.task() == task,
    {
        Waker { thread: id, task }
    }
}

impl Default for Portal {
    fn default() -> (portal: Self)
        ensures
            portal.wf(),
            portal@ == (PortalView { order: Seq::empty(), peers: Map::empty(), task_id: 0 }),
    {
        Self::new()
    }
}

} // verus!
