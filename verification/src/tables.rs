use crate::collector::{Address, EnumerateReference};
use crate::objects::Shape;
use crate::TaskId;
use vstd::prelude::*;

verus! {

/// What one task heap holds: the objects by address, and the last serial
/// number that the heap has handed out.
pub struct HeapView<L> {
    pub storage: Map<Address, Shape<L>>,
    pub allocate_number: u32,
}

/// What a collector holds: the heaps of the live tasks, the two epoch
/// tables, and the tasks that have yet to collect in this epoch.
pub struct Tables<L> {
    pub heaps: Map<TaskId, HeapView<L>>,
    pub transfer: Map<Address, Shape<L>>,
    pub limbo: Map<Address, Shape<L>>,
    pub witness: Set<TaskId>,
}

impl<L: EnumerateReference> Tables<L> {
    /// No heap, empty epoch tables, nobody to wait for.
    pub open spec fn empty() -> Self {
        Tables {
            heaps: Map::empty(),
            transfer: Map::empty(),
            limbo: Map::empty(),
            witness: Set::empty(),
        }
    }

    /// Whether the task has a heap.
    pub open spec fn live(self, id: TaskId) -> bool {
        self.heaps.contains_key(id)
    }

    /// Whether the heap of the task holds the address.
    pub open spec fn holds(self, id: TaskId, address: Address) -> bool {
        self.live(id) && self.heaps[id].storage.contains_key(address)
    }

    /// The tables after `id` got an empty heap, unless it had a heap before.
    pub open spec fn spawned(self, id: TaskId) -> Self {
        if self.live(id) {
            self
        } else {
            Tables {
                heaps: self.heaps.insert(
                    id,
                    HeapView { storage: Map::empty(), allocate_number: 0 },
                ),
                ..self
            }
        }
    }

    /// Whether the heap of the task can hand out one more address.
    pub open spec fn can_allocate(self, id: TaskId) -> bool {
        self.live(id) && self.heaps[id].allocate_number < u32::MAX
    }

    /// The address that the next allocation in the heap of `id` returns.
    pub open spec fn next_address(self, id: TaskId) -> Address {
        (id, (self.heaps[id].allocate_number + 1) as u32)
    }

    /// The tables after `object` was allocated in the heap of `id`.
    pub open spec fn allocated(self, id: TaskId, object: Shape<L>) -> Self {
        let address = self.next_address(id);
        Tables {
            heaps: self.heaps.insert(
                id,
                HeapView {
                    storage: self.heaps[id].storage.insert(address, object),
                    allocate_number: address.1,
                },
            ),
            ..self
        }
    }

    /// What a lookup finds outside the heap of the task that asks: the heap
    /// of the task that allocated the address comes first, then the transfer
    /// table, then the limbo table.
    pub open spec fn remote(self, address: Address) -> Option<Shape<L>> {
        if self.holds(address.0, address) {
            Some(self.heaps[address.0].storage[address])
        } else if self.transfer.contains_key(address) {
            Some(self.transfer[address])
        } else if self.limbo.contains_key(address) {
            Some(self.limbo[address])
        } else {
            None
        }
    }

    /// What task `id` finds at the address: its own heap comes first.
    pub open spec fn resolve(self, id: TaskId, address: Address) -> Option<Shape<L>> {
        if !self.live(id) {
            None
        } else if self.heaps[id].storage.contains_key(address) {
            Some(self.heaps[id].storage[address])
        } else {
            self.remote(address)
        }
    }

    /// Whether a read of the address by task `id` leaves a copy in the heap
    /// of `id`: the object was found in another live heap or in the
    /// transfer table.
    pub open spec fn caches(self, id: TaskId, address: Address) -> bool {
        &&& self.live(id)
        &&& !self.heaps[id].storage.contains_key(address)
        &&& (self.holds(address.0, address) || self.transfer.contains_key(address))
    }

    /// The tables after task `id` has read the address.
    pub open spec fn inspected(self, id: TaskId, address: Address) -> Self {
        if self.caches(id, address) {
            Tables {
                heaps: self.heaps.insert(
                    id,
                    HeapView {
                        storage: self.heaps[id].storage.insert(
                            address,
                            self.remote(address).unwrap(),
                        ),
                        ..self.heaps[id]
                    },
                ),
                ..self
            }
        } else {
            self
        }
    }

    /// The tables after `object` took the place of what the heap of the
    /// allocating task held at the address.
    pub open spec fn replaced(self, address: Address, object: Shape<L>) -> Self {
        Tables {
            heaps: self.heaps.insert(
                address.0,
                HeapView {
                    storage: self.heaps[address.0].storage.insert(address, object),
                    ..self.heaps[address.0]
                },
            ),
            ..self
        }
    }

    /// Whether the object that task `id` finds at `from` refers to `to`.
    pub open spec fn edge(self, id: TaskId, from: Address, to: Address) -> bool {
        match self.resolve(id, from) {
            Some(object) => object.references().contains(to),
            None => false,
        }
    }

    /// Whether `path` starts at a root and follows references as task `id`
    /// finds them.
    pub open spec fn is_path(self, id: TaskId, roots: Seq<Address>, path: Seq<Address>) -> bool {
        &&& path.len() > 0
        &&& roots.contains(path[0])
        &&& forall|i: int| 0 < i < path.len() ==> #[trigger] self.edge(id, path[i - 1], path[i])
    }

    /// Whether the address is a root or can be reached from one.
    pub open spec fn reachable(self, id: TaskId, roots: Seq<Address>, address: Address) -> bool {
        exists|path: Seq<Address>| #[trigger] self.is_path(id, roots, path) && path.last() == address
    }

    /// Whether task `id` finds an object at every address reachable from
    /// the roots.
    pub open spec fn traversable(self, id: TaskId, roots: Seq<Address>) -> bool {
        forall|address: Address| #[trigger]
            self.reachable(id, roots, address) ==> self.resolve(id, address) is Some
    }

    /// What the heap of `id` holds after a collection from the roots: the
    /// reachable addresses, each with the object found there.
    pub open spec fn kept(self, id: TaskId, roots: Seq<Address>) -> Map<Address, Shape<L>> {
        Map::new(
            |address: Address| self.reachable(id, roots, address),
            |address: Address| self.resolve(id, address).unwrap(),
        )
    }

    /// What a collection from the roots takes out of the heap of `id`: the
    /// entries that are not reachable.
    pub open spec fn discarded(self, id: TaskId, roots: Seq<Address>) -> Map<Address, Shape<L>> {
        self.heaps[id].storage.restrict(
            Set::new(|address: Address| !self.reachable(id, roots, address)),
        )
    }

    /// The tables after the heap of `id` was collected from the roots: the
    /// heap holds what is reachable, the transfer table has taken what was
    /// discarded, and `id` has witnessed the epoch.
    pub open spec fn collected(self, id: TaskId, roots: Seq<Address>) -> Self {
        Tables {
            heaps: self.heaps.insert(
                id,
                HeapView { storage: self.kept(id, roots), ..self.heaps[id] },
            ),
            transfer: self.transfer.union_prefer_right(self.discarded(id, roots)),
            limbo: self.limbo,
            witness: self.witness.remove(id),
        }
    }

    /// The tables after task `id` has ended: all of its heap went to the
    /// transfer table, and the heap is gone.
    pub open spec fn joined(self, id: TaskId) -> Self {
        Tables {
            heaps: self.heaps.remove(id),
            transfer: self.transfer.union_prefer_right(self.heaps[id].storage),
            limbo: self.limbo,
            witness: self.witness.remove(id),
        }
    }

    /// The tables after an attempt to advance the epoch: while a task has
    /// yet to collect nothing changes; else the limbo table is dropped, the
    /// transfer table becomes the limbo table, and `witness` names the
    /// tasks to wait for.
    pub open spec fn rotated(self, witness: Set<TaskId>) -> Self {
        if self.witness.is_empty() {
            Tables { heaps: self.heaps, transfer: Map::empty(), limbo: self.transfer, witness }
        } else {
            self
        }
    }
}

impl<L: EnumerateReference> Tables<L> {
    /// A root is reachable.
    pub proof fn lemma_root_reachable(self, id: TaskId, roots: Seq<Address>, root: Address)
        requires
            roots.contains(root),
        ensures
            self.reachable(id, roots, root),
    {
        let path = seq![root];
        assert(self.is_path(id, roots, path));
        assert(path.last() == root);
    }

    /// What a reachable object refers to is reachable.
    pub proof fn lemma_reachable_step(
        self,
        id: TaskId,
        roots: Seq<Address>,
        from: Address,
        to: Address,
    )
        requires
            self.reachable(id, roots, from),
            self.edge(id, from, to),
        ensures
            self.reachable(id, roots, to),
    {
        let path = choose|path: Seq<Address>| #[trigger]
            self.is_path(id, roots, path) && path.last() == from;
        let longer = path.push(to);
        assert forall|i: int| 0 < i < longer.len() implies #[trigger] self.edge(
            id,
            longer[i - 1],
            longer[i],
        ) by {
            if i < path.len() {
                assert(self.edge(id, path[i - 1], path[i]));
            }
        }
        assert(self.is_path(id, roots, longer));
        assert(longer.last() == to);
    }

    /// A set that holds the roots and, with an address, what the object
    /// there refers to, holds the end of every path.
    pub proof fn lemma_closed_set_holds_path(
        self,
        id: TaskId,
        roots: Seq<Address>,
        closed: Set<Address>,
        path: Seq<Address>,
    )
        requires
            forall|root: Address| roots.contains(root) ==> closed.contains(root),
            forall|from: Address, to: Address|
                closed.contains(from) && #[trigger] self.edge(id, from, to) ==> closed.contains(
                    to,
                ),
            self.is_path(id, roots, path),
        ensures
            closed.contains(path.last()),
        decreases path.len(),
    {
        if path.len() > 1 {
            let shorter = path.drop_last();
            assert forall|i: int| 0 < i < shorter.len() implies #[trigger] self.edge(
                id,
                shorter[i - 1],
                shorter[i],
            ) by {
                assert(self.edge(id, path[i - 1], path[i]));
            }
            assert(shorter[0] == path[0]);
            self.lemma_closed_set_holds_path(id, roots, closed, shorter);
            assert(self.edge(id, path[path.len() - 2], path[path.len() - 1]));
        }
    }

    /// Without roots nothing is reachable.
    pub proof fn lemma_no_root_nothing_reachable(self, id: TaskId, address: Address)
        ensures
            !self.reachable(id, Seq::empty(), address),
    {
        assert forall|path: Seq<Address>| !#[trigger] self.is_path(id, Seq::empty(), path) by {
            if path.len() > 0 {
                assert(!Seq::<Address>::empty().contains(path[0]));
            }
        }
    }

    /// For the task whose heap was taken out of the table, a lookup is one
    /// in that heap, then one outside of it.
    pub proof fn lemma_resolve_detached(self, id: TaskId, address: Address)
        requires
            self.live(id),
        ensures
            self.resolve(id, address) == if self.heaps[id].storage.contains_key(address) {
                Some(self.heaps[id].storage[address])
            } else {
                (Tables { heaps: self.heaps.remove(id), ..self }).remote(address)
            },
    {
    }
}

impl<L: EnumerateReference> Tables<L> {
    /// After a collection, the collecting task finds at every address that
    /// was reachable from the roots the object that it found there before.
    pub proof fn lemma_collect_keeps_reachable(
        self,
        id: TaskId,
        roots: Seq<Address>,
        address: Address,
    )
        requires
            self.live(id),
            self.traversable(id, roots),
            self.reachable(id, roots, address),
        ensures
            self.collected(id, roots).holds(id, address),
            self.collected(id, roots).resolve(id, address) is Some,
            self.collected(id, roots).resolve(id, address) == self.resolve(id, address),
    {
    }

    /// After a collection, every address that the heap held and that was
    /// not reachable from the roots is in the transfer table, with the
    /// object that the heap held there.
    pub proof fn lemma_collect_transfers_unreachable(
        self,
        id: TaskId,
        roots: Seq<Address>,
        address: Address,
    )
        requires
            self.holds(id, address),
            !self.reachable(id, roots, address),
        ensures
            !self.collected(id, roots).holds(id, address),
            self.collected(id, roots).transfer.contains_key(address),
            self.collected(id, roots).transfer[address] == self.heaps[id].storage[address],
            self.collected(id, roots).resolve(id, address) is Some,
            address.0 == id ==> self.collected(id, roots).resolve(id, address) == Some(
                self.heaps[id].storage[address],
            ),
    {
    }

    /// After a collection, a task reads at a discarded address the very
    /// object that the collected heap held there, unless the reader's own
    /// heap or the heap of the task that allocated the address holds the
    /// address too.
    pub proof fn lemma_collect_discarded_is_read(
        self,
        id: TaskId,
        roots: Seq<Address>,
        address: Address,
        reader: TaskId,
    )
        requires
            self.holds(id, address),
            !self.reachable(id, roots, address),
            self.live(reader),
            reader == id || !self.holds(reader, address),
            address.0 == id || !self.holds(address.0, address),
        ensures
            self.collected(id, roots).resolve(reader, address) == Some(
                self.heaps[id].storage[address],
            ),
    {
    }

    /// Only a change of epoch takes an address out of the transfer table:
    /// spawning, allocating, reading, replacing, collecting and joining
    /// leave every address of the transfer table in it.
    pub proof fn lemma_transfer_keeps_addresses(
        self,
        address: Address,
        id: TaskId,
        at: Address,
        object: Shape<L>,
        roots: Seq<Address>,
    )
        requires
            self.transfer.contains_key(address),
        ensures
            self.spawned(id).transfer.contains_key(address),
            self.allocated(id, object).transfer.contains_key(address),
            self.inspected(id, at).transfer.contains_key(address),
            self.replaced(at, object).transfer.contains_key(address),
            self.collected(id, roots).transfer.contains_key(address),
            self.joined(id).transfer.contains_key(address),
            !self.witness.is_empty() ==> self.rotated(Set::empty()).transfer.contains_key(address),
    {
    }

    /// One change of epoch after a collection, a discarded address is still
    /// found, now in the limbo table.
    pub proof fn lemma_discarded_in_limbo_after_rotation(
        self,
        id: TaskId,
        roots: Seq<Address>,
        address: Address,
        witness: Set<TaskId>,
    )
        requires
            self.holds(id, address),
            !self.reachable(id, roots, address),
            self.collected(id, roots).witness.is_empty(),
        ensures
            self.collected(id, roots).rotated(witness).limbo.contains_key(address),
            self.collected(id, roots).rotated(witness).limbo[address]
                == self.heaps[id].storage[address],
    {
    }

    /// Two changes of epoch after a collection, an address that the
    /// collection discarded, and that no other heap holds, is found by no
    /// task. Both changes take place: the collection left no task to wait
    /// for, and the first change named none.
    pub proof fn lemma_discarded_gone_after_two_rotations(
        self,
        id: TaskId,
        roots: Seq<Address>,
        address: Address,
        first: Set<TaskId>,
        second: Set<TaskId>,
        reader: TaskId,
    )
        requires
            self.holds(id, address),
            !self.reachable(id, roots, address),
            forall|other: TaskId| other != id ==> !self.holds(other, address),
            self.collected(id, roots).witness.is_empty(),
            first.is_empty(),
        ensures
            self.collected(id, roots).rotated(first).rotated(second).resolve(reader, address)
                is None,
    {
        let collected = self.collected(id, roots);
        let once = collected.rotated(first);
        let twice = once.rotated(second);
        assert(once.transfer =~= Map::empty());
        assert(twice.limbo =~= Map::empty());
        assert(twice.transfer =~= Map::empty());
        assert(twice.heaps == collected.heaps);
        assert(!collected.holds(id, address));
        if reader != id {
            assert(!self.holds(reader, address));
        }
        if address.0 != id {
            assert(!self.holds(address.0, address));
        }
    }

    /// A task finds the object that it has just allocated at the address
    /// that the allocation returned, and everything else where it was.
    pub proof fn lemma_allocate_then_resolve(self, id: TaskId, object: Shape<L>, other: Address)
        requires
            self.live(id),
        ensures
            self.allocated(id, object).resolve(id, self.next_address(id)) == Some(object),
            self.allocated(id, object).caches(id, self.next_address(id)) == false,
            other != self.next_address(id) ==> self.allocated(id, object).resolve(id, other)
                == self.resolve(id, other),
    {
    }

    /// A read changes nothing of what any task finds at any address.
    pub proof fn lemma_inspect_keeps_resolution(
        self,
        id: TaskId,
        address: Address,
        reader: TaskId,
        other: Address,
    )
        ensures
            self.inspected(id, address).resolve(reader, other) == self.resolve(reader, other),
    {
    }

    /// Joining a task is collecting its heap without roots, then removing
    /// the heap.
    pub proof fn lemma_join_collects_without_roots(self, id: TaskId)
        requires
            self.live(id),
        ensures
            self.traversable(id, Seq::empty()),
            self.joined(id) == (Tables {
                heaps: self.collected(id, Seq::empty()).heaps.remove(id),
                ..self.collected(id, Seq::empty())
            }),
    {
        assert forall|address: Address| !self.reachable(id, Seq::empty(), address) by {
            self.lemma_no_root_nothing_reachable(id, address);
        }
        assert(self.discarded(id, Seq::empty()) =~= self.heaps[id].storage);
        assert(self.collected(id, Seq::empty()).heaps.remove(id) =~= self.heaps.remove(id));
    }
}

impl<L: EnumerateReference> Tables<L> {
    /// Whether some table holds the address: a heap, the transfer table or
    /// the limbo table.
    pub open spec fn mentions(self, address: Address) -> bool {
        ||| exists|id: TaskId| self.holds(id, address)
        ||| self.transfer.contains_key(address)
        ||| self.limbo.contains_key(address)
    }

    /// Whether every address of a live task that some table holds has a
    /// serial number that the heap of the task has handed out.
    pub open spec fn serials_spent(self) -> bool {
        forall|address: Address|
            self.live(address.0) && #[trigger] self.mentions(address) ==> address.1
                <= self.heaps[address.0].allocate_number
    }

    /// While serial numbers are spent, an allocation returns an address
    /// that no table holds, and serial numbers stay spent.
    pub proof fn lemma_allocate_is_fresh(self, id: TaskId, object: Shape<L>)
        requires
            self.serials_spent(),
            self.can_allocate(id),
        ensures
            !self.mentions(self.next_address(id)),
            self.next_address(id).1 > self.heaps[id].allocate_number,
            self.allocated(id, object).serials_spent(),
    {
        let fresh = self.next_address(id);
        let after = self.allocated(id, object);
        assert forall|address: Address|
            after.live(address.0) && #[trigger] after.mentions(address) implies address.1
            <= after.heaps[address.0].allocate_number by {
            if address != fresh {
                if exists|other: TaskId| after.holds(other, address) {
                    let other = choose|other: TaskId| after.holds(other, address);
                    assert(self.holds(other, address));
                }
                assert(self.mentions(address));
            }
        }
    }

    /// Serial numbers stay spent through a read, a replacement, a
    /// collection, a join of a task and a change of epoch, and through the
    /// spawning of a task of which no table holds an address.
    pub proof fn lemma_serials_stay_spent(
        self,
        id: TaskId,
        at: Address,
        object: Shape<L>,
        roots: Seq<Address>,
        witness: Set<TaskId>,
    )
        requires
            self.serials_spent(),
        ensures
            self.inspected(id, at).serials_spent(),
            self.holds(at.0, at) ==> self.replaced(at, object).serials_spent(),
            self.live(id) && self.traversable(id, roots) ==> self.collected(id, roots).serials_spent(),
            self.live(id) ==> self.joined(id).serials_spent(),
            self.rotated(witness).serials_spent(),
            (self.live(id) || forall|address: Address| address.0 == id ==> !self.mentions(address))
                ==> self.spawned(id).serials_spent(),
    {
        let read = self.inspected(id, at);
        assert forall|address: Address|
            read.live(address.0) && #[trigger] read.mentions(address) implies address.1
            <= read.heaps[address.0].allocate_number by {
            if exists|other: TaskId| read.holds(other, address) {
                let other = choose|other: TaskId| read.holds(other, address);
                if !self.holds(other, address) {
                    assert(address == at);
                    assert(self.holds(at.0, at) || self.transfer.contains_key(at));
                }
            }
            assert(self.mentions(address));
        }
        if self.holds(at.0, at) {
            let replaced = self.replaced(at, object);
            assert forall|address: Address|
                replaced.live(address.0) && #[trigger] replaced.mentions(address) implies address.1
                <= replaced.heaps[address.0].allocate_number by {
                if exists|other: TaskId| replaced.holds(other, address) {
                    let other = choose|other: TaskId| replaced.holds(other, address);
                    if !self.holds(other, address) {
                        assert(address == at);
                    }
                }
                assert(self.mentions(address));
            }
        }
        if self.live(id) && self.traversable(id, roots) {
            let collected = self.collected(id, roots);
            assert forall|address: Address|
                collected.live(address.0) && #[trigger] collected.mentions(address) implies address.1
                <= collected.heaps[address.0].allocate_number by {
                if exists|other: TaskId| collected.holds(other, address) {
                    let other = choose|other: TaskId| collected.holds(other, address);
                    if other == id {
                        assert(self.reachable(id, roots, address));
                        assert(self.resolve(id, address) is Some);
                        if !self.heaps[id].storage.contains_key(address) {
                            assert(self.remote(address) is Some);
                        } else {
                            assert(self.holds(id, address));
                        }
                    } else {
                        assert(self.holds(other, address));
                    }
                } else if collected.transfer.contains_key(address) {
                    if !self.transfer.contains_key(address) {
                        assert(self.holds(id, address));
                    }
                }
                assert(self.mentions(address));
            }
        }
        if self.live(id) {
            let joined = self.joined(id);
            assert forall|address: Address|
                joined.live(address.0) && #[trigger] joined.mentions(address) implies address.1
                <= joined.heaps[address.0].allocate_number by {
                if exists|other: TaskId| joined.holds(other, address) {
                    let other = choose|other: TaskId| joined.holds(other, address);
                    assert(self.holds(other, address));
                } else if joined.transfer.contains_key(address) {
                    if !self.transfer.contains_key(address) {
                        assert(self.holds(id, address));
                    }
                }
                assert(self.mentions(address));
            }
        }
        let rotated = self.rotated(witness);
        assert forall|address: Address|
            rotated.live(address.0) && #[trigger] rotated.mentions(address) implies address.1
            <= rotated.heaps[address.0].allocate_number by {
            if exists|other: TaskId| rotated.holds(other, address) {
                let other = choose|other: TaskId| rotated.holds(other, address);
                assert(self.holds(other, address));
            }
            assert(self.mentions(address));
        }
        if self.live(id) || forall|address: Address| address.0 == id ==> !self.mentions(address) {
            let spawned = self.spawned(id);
            assert forall|address: Address|
                spawned.live(address.0) && #[trigger] spawned.mentions(address) implies address.1
                <= spawned.heaps[address.0].allocate_number by {
                if exists|other: TaskId| spawned.holds(other, address) {
                    let other = choose|other: TaskId| spawned.holds(other, address);
                    assert(self.holds(other, address));
                }
                assert(self.mentions(address));
            }
        }
    }
}

impl<L: EnumerateReference> Tables<L> {
    /// While serial numbers are spent, the address that the next allocation
    /// of a task returns is none at which any task finds an object.
    pub proof fn lemma_resolved_is_not_next(self, reader: TaskId, address: Address, id: TaskId)
        requires
            self.serials_spent(),
            self.can_allocate(id),
            self.resolve(reader, address) is Some,
        ensures
            address != self.next_address(id),
            self.mentions(address),
    {
        if self.heaps[reader].storage.contains_key(address) {
            assert(self.holds(reader, address));
        } else if self.holds(address.0, address) {
        }
        assert(self.mentions(address));
    }
}

} // verus!
