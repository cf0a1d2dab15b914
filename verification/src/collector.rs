use crate::fault::Fault;
use crate::objects::{Object, Shape};
use crate::tables::{HeapView, Tables};
use crate::{GeneralInterface, TaskId};
use std::collections::{HashMap, HashSet};
use std::sync::Arc;
use vstd::prelude::*;

verus! {

/// Handle on a heap value: the task whose heap allocated it, and the serial
/// number it got there.
pub type Address = (TaskId, u32);

/// The capability that the collector asks of every heap value: to name the
/// addresses it refers to.
pub trait EnumerateReference {
    /// The addresses that the value refers to, in order.
    spec fn references(&self) -> Seq<Address>;

    /// Lists the addresses that the value refers to.
    fn enumerate_reference(&self) -> (list: Vec<Address>)
        ensures
            list@ == self.references(),
    ;
}

/// A shared, read-only handle on a heap value.
pub struct Shared<L>(Arc<Object<L>>);

impl<L> View for Shared<L> {
    type V = Shape<L>;

    closed spec fn view(&self) -> Shape<L> {
        self.0@
    }
}

impl<L> Shared<L> {
    /// The value behind the handle.
    pub fn object(&self) -> (object: &Object<L>)
        ensures
            object@ == self@,
    {
        &*self.0
    }
}

/// An exclusive handle on a heap value: nobody else holds the value.
pub struct Owned<L>(Object<L>);

impl<L> View for Owned<L> {
    type V = Shape<L>;

    closed spec fn view(&self) -> Shape<L> {
        self.0@
    }
}

impl<L> Owned<L> {
    /// Wraps a value that nobody else holds.
    pub fn new(object: Object<L>) -> (owned: Self)
        ensures
            owned@ == object@,
    {
        Owned(object)
    }

    /// The value behind the handle.
    pub fn object(&self) -> (object: &Object<L>)
        ensures
            object@ == self@,
    {
        &self.0
    }

    /// Wraps a value of one of the runtime's shapes.
    pub fn from_shape<T: GeneralInterface<L>>(shape: T) -> (owned: Self)
        ensures
            owned@ == shape.shape(),
    {
        Owned(shape.upcast())
    }

    /// Gives the value up.
    pub fn into_object(self) -> (object: Object<L>)
        ensures
            object@ == self@,
    {
        self.0
    }
}

/// `Arc::clone`: the new handle points to the same value.
#[verifier::external_body]
fn share<L>(handle: &Arc<Object<L>>) -> (shared: Arc<Object<L>>)
    ensures
        shared == *handle,
{
    handle.clone()
}

/// `Arc::try_unwrap`: either the value comes out of the handle, or the
/// handle comes back as it was. Which of the two, the count of handles
/// decides; nothing is claimed of it.
#[verifier::external_body]
fn unwrap_unique<L>(handle: Arc<Object<L>>) -> (unwrapped: Result<Object<L>, Arc<Object<L>>>)
    ensures
        match unwrapped {
            Ok(object) => object == *handle,
            Err(shared) => shared == handle,
        },
{
    Arc::try_unwrap(handle)
}

/// The key under which a table files an address.
spec fn address_key(address: Address) -> u64 {
    (address.0 as u64 * 0x1_0000_0000 + address.1 as u64) as u64
}

/// Distinct addresses have distinct keys.
proof fn lemma_address_key_injective(a: Address, b: Address)
    ensures
        address_key(a) == address_key(b) <==> a == b,
{
}

fn key_of(address: Address) -> (key: u64)
    ensures
        key == address_key(address),
{
    let task: u64 = address.0 as u64;
    let serial: u64 = address.1 as u64;
    task * 0x1_0000_0000 + serial
}

/// Objects by address.
struct Table<L> {
    map: HashMap<u64, Arc<Object<L>>>,
}

impl<L> View for Table<L> {
    type V = Map<Address, Shape<L>>;

    closed spec fn view(&self) -> Map<Address, Shape<L>> {
        Map::new(
            |address: Address| self.map@.contains_key(address_key(address)),
            |address: Address| self.map@[address_key(address)]@,
        )
    }
}

impl<L> Table<L> {
    fn new() -> (table: Self)
        ensures
            table@ == Map::<Address, Shape<L>>::empty(),
    {
        let table = Table { map: HashMap::new() };
        assert(table@ =~= Map::<Address, Shape<L>>::empty());
        table
    }

    /// The number of entries.
    spec fn count(&self) -> nat {
        self.map@.len()
    }

    fn len(&self) -> (len: usize)
        ensures
            len == self.count(),
    {
        self.map.len()
    }

    fn contains(&self, address: Address) -> (found: bool)
        ensures
            found == self@.contains_key(address),
    {
        self.map.contains_key(&key_of(address))
    }

    fn get(&self, address: Address) -> (found: Option<Arc<Object<L>>>)
        ensures
            found is Some == self@.contains_key(address),
            found matches Some(object) ==> object@ == self@[address],
    {
        match self.map.get(&key_of(address)) {
            Some(object) => Some(share(object)),
            None => None,
        }
    }

    fn insert(&mut self, address: Address, object: Arc<Object<L>>)
        ensures
            final(self)@ == old(self)@.insert(address, object@),
            !old(self)@.contains_key(address) ==> final(self).count() == old(self).count() + 1,
    {
        self.map.insert(key_of(address), object);
        proof {
            assert forall|other: Address| other != address implies address_key(other)
                != address_key(address) by {
                lemma_address_key_injective(other, address);
            }
            assert(self@ =~= old(self)@.insert(address, object@));
        }
    }

    fn remove(&mut self, address: Address) -> (removed: Option<Arc<Object<L>>>)
        ensures
            final(self)@ == old(self)@.remove(address),
            removed is Some == old(self)@.contains_key(address),
            removed matches Some(object) ==> object@ == old(self)@[address],
    {
        let removed = self.map.remove(&key_of(address));
        proof {
            assert forall|other: Address| other != address implies address_key(other)
                != address_key(address) by {
                lemma_address_key_injective(other, address);
            }
            assert(self@ =~= old(self)@.remove(address));
        }
        removed
    }
}

/// One task heap.
struct Heap<L> {
    storage: Table<L>,
    /// Every address of `storage`; an address may stand here more than once.
    roster: Vec<Address>,
    allocate_number: u32,
}

impl<L> View for Heap<L> {
    type V = HeapView<L>;

    closed spec fn view(&self) -> HeapView<L> {
        HeapView { storage: self.storage@, allocate_number: self.allocate_number }
    }
}

impl<L> Heap<L> {
    spec fn wf(&self) -> bool {
        forall|address: Address| #[trigger]
            self.storage@.contains_key(address) ==> self.roster@.contains(address)
    }

    fn new() -> (heap: Self)
        ensures
            heap.wf(),
            heap@ == (HeapView::<L> { storage: Map::empty(), allocate_number: 0 }),
    {
        Heap { storage: Table::new(), roster: Vec::new(), allocate_number: 0 }
    }

    /// Files the object under the address.
    fn store(&mut self, address: Address, object: Arc<Object<L>>)
        requires
            old(self).wf(),
        ensures
            final(self).wf(),
            final(self)@ == (HeapView {
                storage: old(self)@.storage.insert(address, object@),
                ..old(self)@
            }),
            !old(self)@.storage.contains_key(address) ==> final(self).storage.count() == old(self).storage.count() + 1,
    {
        let known = self.storage.contains(address);
        self.storage.insert(address, object);
        if !known {
            self.roster.push(address);
        }
        proof {
            assert forall|other: Address| #[trigger]
                self.storage@.contains_key(other) implies self.roster@.contains(other) by {
                if other == address {
                    if known {
                        assert(old(self).roster@.contains(other));
                    } else {
                        assert(self.roster@[self.roster@.len() - 1] == address);
                    }
                } else {
                    assert(old(self).storage@.contains_key(other));
                    let i = choose|i: int|
                        0 <= i < old(self).roster@.len() && old(self).roster@[i] == other;
                    if !known {
                        assert(self.roster@[i] == other);
                    }
                }
            }
        }
    }

    /// Ends a replacement at `address`, whose object was taken out of the
    /// storage and handed to `Arc::try_unwrap`. Where the object came out,
    /// `owned` takes its place; where the handle came back, it returns to
    /// its place.
    fn settle(
        &mut self,
        address: Address,
        owned: Owned<L>,
        unwrapped: Result<Object<L>, Arc<Object<L>>>,
    ) -> (previous: Result<Owned<L>, Fault>)
        requires
            old(self).wf(),
        ensures
            final(self).wf(),
            match unwrapped {
                Ok(object) => previous matches Ok(taken) && taken@ == object@ && final(self)@ == (
                HeapView {
                    storage: old(self)@.storage.insert(address, owned@),
                    ..old(self)@
                }),
                Err(shared) => previous == Err::<Owned<L>, Fault>(Fault::Aliased) && final(self)@
                    == (HeapView {
                    storage: old(self)@.storage.insert(address, shared@),
                    ..old(self)@
                }),
            },
    {
        match unwrapped {
            Ok(object) => {
                self.store(address, Arc::new(owned.0));
                Ok(Owned(object))
            },
            Err(shared) => {
                self.store(address, shared);
                Err(Fault::Aliased)
            },
        }
    }
}

/// The heaps of the live tasks and the two epoch tables.
pub struct Collector<L> {
    heap_table: HashMap<TaskId, Heap<L>>,
    limbo_table: Table<L>,
    witness_set: HashSet<TaskId>,
    transfer_table: Table<L>,
}

impl<L> View for Collector<L> {
    type V = Tables<L>;

    closed spec fn view(&self) -> Tables<L> {
        Tables {
            heaps: Map::new(
                |id: TaskId| self.heap_table@.contains_key(id),
                |id: TaskId| self.heap_table@[id]@,
            ),
            transfer: self.transfer_table@,
            limbo: self.limbo_table@,
            witness: self.witness_set@,
        }
    }
}

impl<L: EnumerateReference> Collector<L> {
    /// The invariant of the collector's representation. Every function of
    /// the collector keeps it.
    pub closed spec fn wf(&self) -> bool {
        forall|id: TaskId| #[trigger]
            self.heap_table@.contains_key(id) ==> self.heap_table@[id].wf()
    }

    /// A collector without heaps, with empty epoch tables.
    pub fn new() -> (collector: Self)
        ensures
            collector.wf(),
            collector@ == Tables::<L>::empty(),
    {
        let collector = Collector {
            heap_table: HashMap::new(),
            limbo_table: Table::new(),
            witness_set: HashSet::new(),
            transfer_table: Table::new(),
        };
        assert(collector@.heaps =~= Map::empty());
        collector
    }

    /// Whether the task has a heap.
    pub fn is_live(&self, id: TaskId) -> (live: bool)
        ensures
            live == self@.live(id),
    {
        self.heap_table.contains_key(&id)
    }

    /// Whether the heap of the task holds the address.
    pub fn heap_holds(&self, id: TaskId, address: Address) -> (held: bool)
        ensures
            held == self@.holds(id, address),
    {
        match self.heap_table.get(&id) {
            Some(heap) => heap.storage.contains(address),
            None => false,
        }
    }

    /// Whether the transfer table holds the address.
    pub fn transfer_holds(&self, address: Address) -> (held: bool)
        ensures
            held == self@.transfer.contains_key(address),
    {
        self.transfer_table.contains(address)
    }

    /// Whether the limbo table holds the address.
    pub fn limbo_holds(&self, address: Address) -> (held: bool)
        ensures
            held == self@.limbo.contains_key(address),
    {
        self.limbo_table.contains(address)
    }

    /// Whether the task has yet to collect before the epoch can advance.
    pub fn awaits(&self, id: TaskId) -> (awaited: bool)
        ensures
            awaited == self@.witness.contains(id),
    {
        self.witness_set.contains(&id)
    }

    /// Gives the task an empty heap. A task that has a heap keeps it.
    pub fn spawn(&mut self, id: TaskId)
        requires
            old(self).wf(),
        ensures
            final(self).wf(),
            final(self)@ == old(self)@.spawned(id),
    {
        if !self.heap_table.contains_key(&id) {
            self.heap_table.insert(id, Heap::new());
            assert(self@.heaps =~= old(self)@.heaps.insert(
                id,
                HeapView { storage: Map::empty(), allocate_number: 0 },
            ));
        }
    }

    /// Puts a heap that was taken out of the table back under its task.
    fn restore(&mut self, id: TaskId, heap: Heap<L>)
        requires
            old(self).wf(),
            heap.wf(),
        ensures
            final(self).wf(),
            final(self)@ == (Tables { heaps: old(self)@.heaps.insert(id, heap@), ..old(self)@ }),
    {
        self.heap_table.insert(id, heap);
        assert(self@.heaps =~= old(self)@.heaps.insert(id, heap@));
    }

    /// Takes the heap of a task out of the table.
    fn detach(&mut self, id: TaskId) -> (heap: Option<Heap<L>>)
        requires
            old(self).wf(),
        ensures
            final(self).wf(),
            final(self)@ == (Tables { heaps: old(self)@.heaps.remove(id), ..old(self)@ }),
            heap is Some == old(self)@.live(id),
            heap matches Some(h) ==> h.wf() && h@ == old(self)@.heaps[id],
    {
        let heap = self.heap_table.remove(&id);
        assert(self@.heaps =~= old(self)@.heaps.remove(id));
        heap
    }

    /// Moves the object into the heap of the task, under the next address
    /// of that heap. The task must have a heap that has a serial number
    /// left; `try_allocate` takes any task.
    pub fn allocate(&mut self, id: TaskId, owned: Owned<L>) -> (address: Address)
        requires
            old(self).wf(),
            old(self)@.can_allocate(id),
        ensures
            final(self).wf(),
            address == old(self)@.next_address(id),
            final(self)@ == old(self)@.allocated(id, owned@),
    {
        match self.try_allocate(id, owned) {
            Ok(address) => address,
            Err(_) => unreached(),
        }
    }

    /// Moves the object into the heap of the task, as `allocate` does.
    ///
    /// Fails with `NoHeap` where the task has no heap, and with `Exhausted`
    /// where the heap has handed out its last serial number; the tables
    /// are then unchanged.
    pub fn try_allocate(&mut self, id: TaskId, owned: Owned<L>) -> (address: Result<Address, Fault>)
        requires
            old(self).wf(),
        ensures
            final(self).wf(),
            match address {
                Ok(address) => {
                    &&& old(self)@.can_allocate(id)
                    &&& address == old(self)@.next_address(id)
                    &&& final(self)@ == old(self)@.allocated(id, owned@)
                },
                Err(fault) => {
                    &&& final(self)@ == old(self)@
                    &&& !old(self)@.can_allocate(id)
                    &&& fault == if old(self)@.live(id) {
                        Fault::Exhausted
                    } else {
                        Fault::NoHeap
                    }
                },
            },
    {
        match self.detach(id) {
            None => {
                assert(self@.heaps =~= old(self)@.heaps);
                Err(Fault::NoHeap)
            },
            Some(mut heap) => {
                if heap.allocate_number == u32::MAX {
                    self.restore(id, heap);
                    assert(self@.heaps =~= old(self)@.heaps);
                    Err(Fault::Exhausted)
                } else {
                    let address: Address = (id, heap.allocate_number + 1);
                    heap.allocate_number = address.1;
                    heap.store(address, Arc::new(owned.0));
                    self.restore(id, heap);
                    assert(self@.heaps =~= old(self)@.allocated(id, owned@).heaps);
                    Ok(address)
                }
            },
        }
    }

    /// Looks an address up outside the heap of the task that asks: in the
    /// heap of the task that allocated it, then in the transfer table, then
    /// in the limbo table. The flag says whether the reader keeps a copy.
    fn remote(&self, address: Address) -> (found: Option<(Arc<Object<L>>, bool)>)
        ensures
            match found {
                Some((object, cache)) => {
                    &&& self@.remote(address) == Some(object@)
                    &&& cache == (self@.holds(address.0, address)
                        || self@.transfer.contains_key(address))
                },
                None => self@.remote(address) is None,
            },
    {
        if let Some(heap) = self.heap_table.get(&address.0) {
            if let Some(object) = heap.storage.get(address) {
                return Some((object, true));
            }
        }
        if let Some(object) = self.transfer_table.get(address) {
            return Some((object, true));
        }
        match self.limbo_table.get(address) {
            Some(object) => Some((object, false)),
            None => None,
        }
    }

    /// Looks an address up for the owner of `heap`: in `heap` first, then
    /// as `remote` does. Nothing is cached.
    fn inspect_internal(&self, address: Address, heap: &Heap<L>) -> (found: Option<
        (Arc<Object<L>>, bool),
    >)
        ensures
            match found {
                Some((object, cache)) => {
                    &&& Some(object@) == (if heap@.storage.contains_key(address) {
                        Some(heap@.storage[address])
                    } else {
                        self@.remote(address)
                    })
                    &&& cache == (!heap@.storage.contains_key(address) && (self@.holds(
                        address.0,
                        address,
                    ) || self@.transfer.contains_key(address)))
                },
                None => !heap@.storage.contains_key(address) && self@.remote(address) is None,
            },
    {
        match heap.storage.get(address) {
            Some(object) => Some((object, false)),
            None => self.remote(address),
        }
    }

    /// Reads the object at the address for task `id`: from the heap of
    /// `id`, else from the heap of the task that allocated it, else from
    /// the transfer table, else from the limbo table. An object found in
    /// another heap or in the transfer table is also filed in the heap of
    /// `id`. The task must have a heap, and one of the tables must hold the
    /// address; `try_inspect` takes any task and address.
    pub fn inspect(&mut self, id: TaskId, address: Address) -> (shared: Shared<L>)
        requires
            old(self).wf(),
            old(self)@.resolve(id, address) is Some,
        ensures
            final(self).wf(),
            final(self)@ == old(self)@.inspected(id, address),
            old(self)@.resolve(id, address) == Some(shared@),
    {
        match self.try_inspect(id, address) {
            Ok(shared) => shared,
            Err(_) => unreached(),
        }
    }

    /// Reads the object at the address for task `id`, as `inspect` does.
    ///
    /// Fails with `NoHeap` where `id` has no heap, and with `Missing` where
    /// no table holds the address; the tables are then unchanged.
    pub fn try_inspect(&mut self, id: TaskId, address: Address) -> (shared: Result<Shared<L>, Fault>)
        requires
            old(self).wf(),
        ensures
            final(self).wf(),
            final(self)@ == old(self)@.inspected(id, address),
            match shared {
                Ok(shared) => old(self)@.resolve(id, address) == Some(shared@),
                Err(fault) => {
                    &&& old(self)@.resolve(id, address) is None
                    &&& fault == if old(self)@.live(id) {
                        Fault::Missing
                    } else {
                        Fault::NoHeap
                    }
                },
            },
    {
        let found = match self.heap_table.get(&id) {
            None => {
                return Err(Fault::NoHeap);
            },
            Some(heap) => self.inspect_internal(address, heap),
        };
        match found {
            None => Err(Fault::Missing),
            Some((object, cache)) => {
                if cache {
                    let copy = share(&object);
                    let detached = self.detach(id);
                    let mut heap = detached.unwrap();
                    heap.store(address, copy);
                    self.restore(id, heap);
                    assert(self@.heaps =~= old(self)@.inspected(id, address).heaps);
                }
                Ok(Shared(object))
            },
        }
    }

    /// Puts `owned` in the place of the object at the address, in the heap
    /// of the task that allocated the address, and returns the object that
    /// was there. That heap must hold the address; `try_replace_owned`
    /// takes any address.
    ///
    /// Fails with `Aliased` if a second handle on the object exists, and
    /// succeeds if none does; after the failure the tables are unchanged.
    pub fn replace_owned(&mut self, address: Address, owned: Owned<L>) -> (previous: Result<
        Owned<L>,
        Fault,
    >)
        requires
            old(self).wf(),
            old(self)@.holds(address.0, address),
        ensures
            final(self).wf(),
            match previous {
                Ok(previous) => {
                    &&& previous@ == old(self)@.heaps[address.0].storage[address]
                    &&& final(self)@ == old(self)@.replaced(address, owned@)
                },
                Err(fault) => fault == Fault::Aliased && final(self)@ == old(self)@,
            },
    {
        self.try_replace_owned(address, owned)
    }

    /// Puts `owned` in the place of the object at the address, as
    /// `replace_owned` does.
    ///
    /// Fails with `NoHeap` where the task that allocated the address has no
    /// heap and with `Missing` where its heap does not hold the address.
    /// Where it holds the address, the call fails with `Aliased` if a
    /// second handle on the object exists, and succeeds if none does. After
    /// a failure the tables are unchanged.
    pub fn try_replace_owned(&mut self, address: Address, owned: Owned<L>) -> (previous: Result<
        Owned<L>,
        Fault,
    >)
        requires
            old(self).wf(),
        ensures
            final(self).wf(),
            match previous {
                Ok(previous) => {
                    &&& old(self)@.holds(address.0, address)
                    &&& previous@ == old(self)@.heaps[address.0].storage[address]
                    &&& final(self)@ == old(self)@.replaced(address, owned@)
                },
                Err(fault) => {
                    &&& final(self)@ == old(self)@
                    &&& fault == if !old(self)@.live(address.0) {
                        Fault::NoHeap
                    } else if !old(self)@.holds(address.0, address) {
                        Fault::Missing
                    } else {
                        Fault::Aliased
                    }
                },
            },
    {
        match self.detach(address.0) {
            None => {
                assert(self@.heaps =~= old(self)@.heaps);
                Err(Fault::NoHeap)
            },
            Some(mut heap) => {
                let ghost before = heap@;
                match heap.storage.remove(address) {
                    None => {
                        self.restore(address.0, heap);
                        assert(heap@.storage =~= before.storage);
                        assert(self@.heaps =~= old(self)@.heaps);
                        Err(Fault::Missing)
                    },
                    Some(object) => {
                        assert(heap.wf()) by {
                            assert forall|other: Address| #[trigger]
                                heap.storage@.contains_key(other) implies heap.roster@.contains(
                                other,
                            ) by {
                                assert(before.storage.contains_key(other));
                            }
                        }
                        let previous = heap.settle(address, owned, unwrap_unique(object));
                        self.restore(address.0, heap);
                        proof {
                            if previous is Ok {
                                assert(heap@.storage =~= before.storage.insert(address, owned@));
                                assert(self@.heaps =~= old(self)@.replaced(address, owned@).heaps);
                            } else {
                                assert(heap@.storage =~= before.storage);
                                assert(self@.heaps =~= old(self)@.heaps);
                            }
                        }
                        previous
                    },
                }
            },
        }
    }
}

/// Pushes onto `gray` the references that `kept` does not hold.
fn push_unseen<L>(gray: &mut Vec<Address>, references: &Vec<Address>, kept: &Table<L>)
    ensures
        forall|address: Address|
            old(gray)@.contains(address) ==> #[trigger] final(gray)@.contains(address),
        forall|address: Address|
            references@.contains(address) ==> kept@.contains_key(address)
                || #[trigger] final(gray)@.contains(address),
        forall|address: Address| #[trigger]
            final(gray)@.contains(address) ==> old(gray)@.contains(address)
                || references@.contains(address),
{
    let mut i: usize = 0;
    while i < references.len()
        invariant
            i <= references.len(),
            forall|address: Address|
                old(gray)@.contains(address) ==> #[trigger] gray@.contains(address),
            forall|j: int|
                0 <= j < i ==> kept@.contains_key(#[trigger] references@[j]) || gray@.contains(
                    references@[j],
                ),
            forall|address: Address| #[trigger]
                gray@.contains(address) ==> old(gray)@.contains(address) || references@.contains(
                    address,
                ),
        decreases references.len() - i,
    {
        let reference = references[i];
        let ghost before = gray@;
        if !kept.contains(reference) {
            gray.push(reference);
            proof {
                assert(gray@[gray@.len() - 1] == reference);
                assert forall|address: Address| before.contains(address) implies #[trigger] gray@.contains(
                    address,
                ) by {
                    let k = choose|k: int| 0 <= k < before.len() && before[k] == address;
                    assert(gray@[k] == address);
                }
                assert forall|address: Address| #[trigger] gray@.contains(address) implies before.contains(
                    address,
                ) || address == reference by {
                    let k = choose|k: int| 0 <= k < gray@.len() && gray@[k] == address;
                    if k < before.len() {
                        assert(before[k] == address);
                    }
                }
            }
        }
        i += 1;
    }
    proof {
        assert forall|address: Address| references@.contains(address) implies kept@.contains_key(
            address,
        ) || #[trigger] gray@.contains(address) by {
            let j = choose|j: int| 0 <= j < references@.len() && references@[j] == address;
            assert(kept@.contains_key(references@[j]) || gray@.contains(references@[j]));
        }
    }
}

impl<L: EnumerateReference> Collector<L> {
    /// Walks from the roots through the objects that the owner of `heap`
    /// finds, and builds the heap of what it reached. `tables` is the
    /// collector before `heap` was taken out of it under `id`.
    fn traverse(
        &self,
        id: TaskId,
        heap: &Heap<L>,
        root_list: &[Address],
        Ghost(tables): Ghost<Tables<L>>,
    ) -> (kept: Option<Heap<L>>)
        requires
            self.wf(),
            tables.live(id),
            tables.heaps[id] == heap@,
            self@ == (Tables { heaps: tables.heaps.remove(id), ..tables }),
        ensures
            kept is Some == tables.traversable(id, root_list@),
            kept matches Some(kept) ==> {
                &&& kept.wf()
                &&& kept@.storage == tables.kept(id, root_list@)
                &&& kept@.allocate_number == heap@.allocate_number
            },
    {
        let ghost roots = root_list@;
        let mut gray = crate::objects::copy_addresses(root_list);
        let mut kept: Heap<L> = Heap::new();
        kept.allocate_number = heap.allocate_number;
        proof {
            assert forall|i: int| 0 <= i < gray@.len() implies tables.reachable(
                id,
                roots,
                #[trigger] gray@[i],
            ) by {
                assert(roots.contains(gray@[i]));
                tables.lemma_root_reachable(id, roots, gray@[i]);
            }
        }
        while gray.len() > 0
            invariant
                self.wf(),
                tables.live(id),
                tables.heaps[id] == heap@,
                self@ == (Tables { heaps: tables.heaps.remove(id), ..tables }),
                roots == root_list@,
                kept.wf(),
                kept@.allocate_number == heap@.allocate_number,
                forall|address: Address| #[trigger]
                    kept@.storage.contains_key(address) ==> tables.reachable(id, roots, address)
                        && tables.resolve(id, address) == Some(kept@.storage[address]),
                forall|i: int|
                    0 <= i < gray@.len() ==> tables.reachable(id, roots, #[trigger] gray@[i]),
                forall|root: Address|
                    roots.contains(root) ==> kept@.storage.contains_key(root) || #[trigger] gray@.contains(
                        root,
                    ),
                forall|from: Address, to: Address|
                    kept@.storage.contains_key(from) && #[trigger] tables.edge(id, from, to)
                        ==> kept@.storage.contains_key(to) || gray@.contains(to),
            decreases usize::MAX - kept.storage.count(), gray.len(),
        {
            let ghost gray_before = gray@;
            let ghost kept_before = kept@.storage;
            let count = kept.storage.len();
            let address = gray.pop().unwrap();
            proof {
                assert(gray_before[gray_before.len() - 1] == address);
                assert(tables.reachable(id, roots, address));
                assert forall|other: Address| gray_before.contains(other) implies other == address
                    || #[trigger] gray@.contains(other) by {
                    let k = choose|k: int| 0 <= k < gray_before.len() && gray_before[k] == other;
                    if k < gray@.len() {
                        assert(gray@[k] == other);
                    }
                }
            }
            if !kept.storage.contains(address) {
                match self.inspect_internal(address, heap) {
                    None => {
                        proof {
                            tables.lemma_resolve_detached(id, address);
                            assert(tables.resolve(id, address) is None);
                        }
                        return None;
                    },
                    Some((object, _)) => {
                        let references = object.enumerate_reference();
                        proof {
                            tables.lemma_resolve_detached(id, address);
                            assert(tables.resolve(id, address) == Some(object@));
                            assert(references@ == object@.references());
                        }
                        kept.store(address, object);
                        let ghost gray_popped = gray@;
                        push_unseen(&mut gray, &references, &kept.storage);
                        let grown = kept.storage.len();
                        proof {
                            assert(grown == count + 1);
                            assert forall|i: int| 0 <= i < gray@.len() implies tables.reachable(
                                id,
                                roots,
                                #[trigger] gray@[i],
                            ) by {
                                let other = gray@[i];
                                assert(gray@.contains(other));
                                if gray_popped.contains(other) {
                                    let k = choose|k: int|
                                        0 <= k < gray_popped.len() && gray_popped[k] == other;
                                    assert(tables.reachable(id, roots, gray_popped[k]));
                                } else {
                                    assert(references@.contains(other));
                                    assert(tables.edge(id, address, other));
                                    tables.lemma_reachable_step(id, roots, address, other);
                                }
                            }
                            assert forall|from: Address, to: Address|
                                kept@.storage.contains_key(from) && #[trigger] tables.edge(
                                    id,
                                    from,
                                    to,
                                ) implies kept@.storage.contains_key(to) || gray@.contains(to) by {
                                if from == address {
                                    assert(references@.contains(to));
                                } else {
                                    assert(kept_before.contains_key(from));
                                    if !kept_before.contains_key(to) {
                                        assert(gray_before.contains(to));
                                    }
                                }
                            }
                            assert forall|root: Address|
                                roots.contains(root) implies kept@.storage.contains_key(root)
                                || #[trigger] gray@.contains(root) by {
                                if !kept_before.contains_key(root) {
                                    assert(gray_before.contains(root));
                                }
                            }
                        }
                    },
                }
            }
        }
        proof {
            let closed = kept@.storage.dom();
            assert forall|address: Address| #[trigger]
                tables.reachable(id, roots, address) implies closed.contains(address) by {
                let path = choose|path: Seq<Address>| #[trigger]
                    tables.is_path(id, roots, path) && path.last() == address;
                assert forall|root: Address| roots.contains(root) implies closed.contains(root) by {
                    assert(kept@.storage.contains_key(root) || gray@.contains(root));
                }
                tables.lemma_closed_set_holds_path(id, roots, closed, path);
            }
            assert(kept@.storage =~= tables.kept(id, roots));
        }
        Some(kept)
    }

    /// Copies into the transfer table the entries of `heap` that `kept`
    /// does not hold.
    fn discard(&mut self, heap: &Heap<L>, kept: &Table<L>)
        requires
            old(self).wf(),
            heap.wf(),
        ensures
            final(self).wf(),
            final(self)@ == (Tables {
                transfer: old(self)@.transfer.union_prefer_right(
                    heap@.storage.restrict(
                        Set::new(|address: Address| !kept@.contains_key(address)),
                    ),
                ),
                ..old(self)@
            }),
    {
        let ghost before = self.transfer_table@;
        let mut i: usize = 0;
        while i < heap.roster.len()
            invariant
                i <= heap.roster.len(),
                self.wf(),
                self.heap_table == old(self).heap_table,
                self.limbo_table == old(self).limbo_table,
                self.witness_set == old(self).witness_set,
                self.transfer_table@ == before.union_prefer_right(
                    heap@.storage.restrict(
                        Set::new(
                            |address: Address|
                                !kept@.contains_key(address) && heap.roster@.take(i as int).contains(
                                    address,
                                ),
                        ),
                    ),
                ),
            decreases heap.roster.len() - i,
        {
            let address = heap.roster[i];
            if !kept.contains(address) {
                if let Some(object) = heap.storage.get(address) {
                    self.transfer_table.insert(address, object);
                }
            }
            proof {
                let shorter = heap.roster@.take(i as int);
                let longer = heap.roster@.take(i + 1);
                assert(longer =~= shorter.push(address));
                assert forall|other: Address| longer.contains(other) <==> shorter.contains(other)
                    || other == address by {
                    if shorter.contains(other) {
                        let k = choose|k: int| 0 <= k < shorter.len() && shorter[k] == other;
                        assert(longer[k] == other);
                    }
                    if other == address {
                        assert(longer[i as int] == other);
                    }
                    if longer.contains(other) {
                        let k = choose|k: int| 0 <= k < longer.len() && longer[k] == other;
                        if k < i {
                            assert(shorter[k] == other);
                        }
                    }
                }
                assert(self.transfer_table@ =~= before.union_prefer_right(
                    heap@.storage.restrict(
                        Set::new(
                            |address: Address|
                                !kept@.contains_key(address) && longer.contains(address),
                        ),
                    ),
                ));
            }
            i += 1;
        }
        proof {
            assert(heap.roster@.take(i as int) =~= heap.roster@);
            assert(self.transfer_table@ =~= old(self)@.transfer.union_prefer_right(
                heap@.storage.restrict(Set::new(|address: Address| !kept@.contains_key(address))),
            ));
        }
    }

    /// Collects the heap of `id`: what can be reached from the roots, as
    /// `id` finds it, becomes the heap; the entries of the old heap that
    /// cannot be reached go to the transfer table; `id` leaves the witness
    /// set. Reads during the walk file nothing in the heap. The task must
    /// have a heap, and a table must hold every reachable address;
    /// `try_copy_collect` takes any task and roots.
    pub fn copy_collect(&mut self, id: TaskId, root_list: &[Address])
        requires
            old(self).wf(),
            old(self)@.live(id),
            old(self)@.traversable(id, root_list@),
        ensures
            final(self).wf(),
            final(self)@ == old(self)@.collected(id, root_list@),
    {
        match self.try_copy_collect(id, root_list) {
            Ok(_) => {},
            Err(_) => unreached(),
        }
    }

    /// Collects the heap of `id`, as `copy_collect` does.
    ///
    /// Fails with `NoHeap` where `id` has no heap, and with `Missing` where
    /// a reachable address is held by no table; the tables are then
    /// unchanged.
    pub fn try_copy_collect(&mut self, id: TaskId, root_list: &[Address]) -> (done: Result<
        (),
        Fault,
    >)
        requires
            old(self).wf(),
        ensures
            final(self).wf(),
            match done {
                Ok(_) => {
                    &&& old(self)@.live(id)
                    &&& old(self)@.traversable(id, root_list@)
                    &&& final(self)@ == old(self)@.collected(id, root_list@)
                },
                Err(fault) => {
                    &&& final(self)@ == old(self)@
                    &&& !(old(self)@.live(id) && old(self)@.traversable(id, root_list@))
                    &&& fault == if old(self)@.live(id) {
                        Fault::Missing
                    } else {
                        Fault::NoHeap
                    }
                },
            },
    {
        let heap = match self.detach(id) {
            None => {
                assert(self@.heaps =~= old(self)@.heaps);
                return Err(Fault::NoHeap);
            },
            Some(heap) => heap,
        };
        match self.traverse(id, &heap, root_list, Ghost(old(self)@)) {
            None => {
                self.restore(id, heap);
                assert(self@.heaps =~= old(self)@.heaps);
                Err(Fault::Missing)
            },
            Some(kept) => {
                self.discard(&heap, &kept.storage);
                self.restore(id, kept);
                self.witness_set.remove(&id);
                proof {
                    let after = old(self)@.collected(id, root_list@);
                    assert(self@.heaps =~= after.heaps);
                    assert(heap@.storage.restrict(
                        Set::new(|address: Address| !kept.storage@.contains_key(address)),
                    ) =~= old(self)@.discarded(id, root_list@));
                    assert(self@.transfer =~= after.transfer);
                }
                Ok(())
            },
        }
    }

    /// Ends task `id`: collects its heap without roots, so that all of it
    /// goes to the transfer table, and removes the heap. The task must have
    /// a heap; `try_join` takes any task.
    pub fn join(&mut self, id: TaskId)
        requires
            old(self).wf(),
            old(self)@.live(id),
        ensures
            final(self).wf(),
            final(self)@ == old(self)@.joined(id),
    {
        match self.try_join(id) {
            Ok(_) => {},
            Err(_) => unreached(),
        }
    }

    /// Ends task `id`, as `join` does.
    ///
    /// Fails with `NoHeap` where `id` has no heap; the tables are then
    /// unchanged.
    pub fn try_join(&mut self, id: TaskId) -> (done: Result<(), Fault>)
        requires
            old(self).wf(),
        ensures
            final(self).wf(),
            match done {
                Ok(_) => old(self)@.live(id) && final(self)@ == old(self)@.joined(id),
                Err(fault) => {
                    &&& !old(self)@.live(id)
                    &&& fault == Fault::NoHeap
                    &&& final(self)@ == old(self)@
                },
            },
    {
        let roots: Vec<Address> = Vec::new();
        proof {
            assert(roots@ =~= Seq::empty());
            assert forall|address: Address| !old(self)@.reachable(id, roots@, address) by {
                old(self)@.lemma_no_root_nothing_reachable(id, address);
            }
        }
        match self.try_copy_collect(id, roots.as_slice()) {
            Ok(_) => {
                let ghost collected = self@;
                let _ = self.detach(id);
                proof {
                    assert(self@.heaps == collected.heaps.remove(id));
                    assert(collected.heaps == old(self)@.collected(id, roots@).heaps);
                    assert(self@.heaps =~= old(self)@.joined(id).heaps);
                    assert(old(self)@.discarded(id, roots@) =~= old(self)@.heaps[id].storage);
                }
                Ok(())
            },
            Err(fault) => Err(fault),
        }
    }

    /// Advances the epoch if every task of the witness set has collected:
    /// the limbo table is dropped, the transfer table becomes the limbo
    /// table, and the witness set becomes what `witness_set` returns. While
    /// a task has yet to collect, nothing changes and `witness_set` is not
    /// called.
    pub fn epoch_change<F: FnOnce() -> HashSet<TaskId>>(&mut self, witness_set: F)
        requires
            old(self).wf(),
            old(self)@.witness.is_empty() ==> witness_set.requires(()),
        ensures
            final(self).wf(),
            !old(self)@.witness.is_empty() ==> final(self)@ == old(self)@,
            old(self)@.witness.is_empty() ==> exists|witness: HashSet<TaskId>|
                witness_set.ensures((), witness) && #[trigger] old(self)@.rotated(witness@)
                    == final(self)@,
    {
        if !self.witness_set.is_empty() {
            return ;
        }
        core::mem::swap(&mut self.limbo_table, &mut self.transfer_table);
        self.transfer_table = Table::new();
        let witness = witness_set();
        let ghost chosen = witness;
        self.witness_set = witness;
        proof {
            assert(old(self)@.rotated(chosen@) == self@);
        }
    }
}

impl<L: EnumerateReference> Default for Collector<L> {
    fn default() -> (collector: Self)
        ensures
            collector.wf(),
            collector@ == Tables::<L>::empty(),
    {
        Self::new()
    }
}

} // verus!
