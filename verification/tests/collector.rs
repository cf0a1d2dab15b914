use coroutine_vm::collector::{Address, Collector, Owned};
use coroutine_vm::fault::Fault;
use coroutine_vm::objects::{Closure, Dispatch, LeafObject, List, Object, Ready};
use std::collections::HashSet;

#[derive(Debug, Clone, Copy, PartialEq, Eq)]
struct I32(i32);
impl LeafObject for I32 {}

fn leaf(value: i32) -> Owned<I32> {
    Owned::new(Object::Host(I32(value)))
}

fn list(items: Vec<Address>) -> Owned<I32> {
    Owned::new(Object::List(List(items)))
}

fn no_witness() -> HashSet<u32> {
    HashSet::new()
}

fn read_int(collector: &mut Collector<I32>, id: u32, address: Address) -> i32 {
    let shared = collector.try_inspect(id, address).unwrap();
    shared.object().host().unwrap().0
}

#[test]
fn new_collector_has_no_heap() {
    let collector: Collector<I32> = Collector::new();
    assert!(!collector.is_live(0));
    assert!(!collector.transfer_holds((0, 1)));
    assert!(!collector.limbo_holds((0, 1)));
    assert!(!collector.awaits(0));
}

#[test]
fn allocate_hands_out_increasing_serials() {
    let mut collector = Collector::new();
    collector.spawn(3);
    assert!(collector.is_live(3));
    assert_eq!(collector.try_allocate(3, leaf(10)), Ok((3, 1)));
    assert_eq!(collector.try_allocate(3, leaf(20)), Ok((3, 2)));
    assert_eq!(collector.try_allocate(3, leaf(30)), Ok((3, 3)));
    assert!(collector.heap_holds(3, (3, 2)));
    assert_eq!(read_int(&mut collector, 3, (3, 1)), 10);
    assert_eq!(read_int(&mut collector, 3, (3, 2)), 20);
    assert_eq!(read_int(&mut collector, 3, (3, 3)), 30);
}

#[test]
fn allocate_without_heap_fails() {
    let mut collector = Collector::new();
    assert_eq!(collector.try_allocate(3, leaf(10)), Err(Fault::NoHeap));
    assert!(!collector.is_live(3));
}

#[test]
fn spawn_keeps_a_live_heap() {
    let mut collector = Collector::new();
    collector.spawn(1);
    let a = collector.try_allocate(1, leaf(5)).unwrap();
    collector.spawn(1);
    assert!(collector.heap_holds(1, a));
    assert_eq!(collector.try_allocate(1, leaf(6)), Ok((1, 2)));
}

#[test]
fn inspect_fails_without_heap_and_on_missing_address() {
    let mut collector: Collector<I32> = Collector::new();
    assert_eq!(collector.try_inspect(1, (1, 1)).err(), Some(Fault::NoHeap));
    collector.spawn(1);
    assert_eq!(collector.try_inspect(1, (1, 1)).err(), Some(Fault::Missing));
    assert_eq!(collector.try_inspect(1, (2, 1)).err(), Some(Fault::Missing));
}

#[test]
fn inspect_of_another_heap_caches_the_object() {
    let mut collector = Collector::new();
    collector.spawn(1);
    collector.spawn(2);
    let a = collector.try_allocate(1, leaf(77)).unwrap();
    assert!(!collector.heap_holds(2, a));
    assert_eq!(read_int(&mut collector, 2, a), 77);
    assert!(collector.heap_holds(2, a));
    assert!(collector.heap_holds(1, a));
    // the object is shared by two heaps now: it cannot be replaced
    assert_eq!(collector.replace_owned(a, leaf(0)).err(), Some(Fault::Aliased));
    assert_eq!(read_int(&mut collector, 1, a), 77);
}

#[test]
fn inspect_of_the_transfer_table_caches_and_of_limbo_does_not() {
    let mut collector = Collector::new();
    collector.spawn(1);
    collector.spawn(2);
    let a = collector.try_allocate(1, leaf(1)).unwrap();
    let b = collector.try_allocate(1, leaf(2)).unwrap();
    collector.try_copy_collect(1, &[]).unwrap();
    assert!(collector.transfer_holds(a));
    assert_eq!(read_int(&mut collector, 2, a), 1);
    assert!(collector.heap_holds(2, a));
    collector.epoch_change(no_witness);
    assert!(collector.limbo_holds(b));
    assert!(!collector.transfer_holds(b));
    assert_eq!(read_int(&mut collector, 2, b), 2);
    assert!(!collector.heap_holds(2, b));
}

#[test]
fn replace_returns_the_previous_object() {
    let mut collector = Collector::new();
    collector.spawn(1);
    let a = collector.try_allocate(1, leaf(20)).unwrap();
    let previous = collector.replace_owned(a, leaf(42)).unwrap();
    assert_eq!(previous.object().host(), Some(&I32(20)));
    assert_eq!(previous.into_object().host(), Some(&I32(20)));
    assert_eq!(read_int(&mut collector, 1, a), 42);
}

#[test]
fn replace_fails_without_heap_and_on_missing_address() {
    let mut collector = Collector::new();
    assert_eq!(
        collector.try_replace_owned((1, 1), leaf(0)).err(),
        Some(Fault::NoHeap)
    );
    collector.spawn(1);
    assert_eq!(
        collector.try_replace_owned((1, 1), leaf(0)).err(),
        Some(Fault::Missing)
    );
    assert!(!collector.heap_holds(1, (1, 1)));
}

#[test]
fn replace_fails_while_a_shared_handle_is_held() {
    let mut collector = Collector::new();
    collector.spawn(1);
    let a = collector.try_allocate(1, leaf(20)).unwrap();
    let shared = collector.try_inspect(1, a).unwrap();
    assert_eq!(collector.replace_owned(a, leaf(42)).err(), Some(Fault::Aliased));
    assert_eq!(shared.object().host(), Some(&I32(20)));
    drop(shared);
    assert!(collector.replace_owned(a, leaf(42)).is_ok());
    assert_eq!(read_int(&mut collector, 1, a), 42);
}

#[test]
fn copy_collect_cycles() {
    let mut collector = Collector::new();
    collector.spawn(1);
    let a = collector.try_allocate(1, list(vec![])).unwrap();
    let b = collector.try_allocate(1, list(vec![a])).unwrap();
    collector.replace_owned(a, list(vec![b])).unwrap();
    collector.try_copy_collect(1, &[]).unwrap();
    assert!(!collector.heap_holds(1, a));
    assert!(!collector.heap_holds(1, b));
    assert!(collector.transfer_holds(a));
    assert!(collector.transfer_holds(b));
    assert!(collector.is_live(1));
}

#[test]
fn copy_collect_keeps_a_cycle_that_is_reachable() {
    let mut collector = Collector::new();
    collector.spawn(1);
    let a = collector.try_allocate(1, list(vec![])).unwrap();
    let b = collector.try_allocate(1, list(vec![a])).unwrap();
    collector.replace_owned(a, list(vec![b, b, a])).unwrap();
    let c = collector.try_allocate(1, leaf(3)).unwrap();
    collector.try_copy_collect(1, &[a, a]).unwrap();
    assert!(collector.heap_holds(1, a));
    assert!(collector.heap_holds(1, b));
    assert!(!collector.heap_holds(1, c));
    assert!(!collector.transfer_holds(a));
    assert!(!collector.transfer_holds(b));
    assert!(collector.transfer_holds(c));
    // what was kept has one handle again
    assert!(collector.replace_owned(b, list(vec![])).is_ok());
}

#[test]
fn copy_collect_follows_closures_and_ready() {
    let mut collector = Collector::new();
    collector.spawn(1);
    let x = collector.try_allocate(1, leaf(1)).unwrap();
    let y = collector.try_allocate(1, leaf(2)).unwrap();
    let z = collector.try_allocate(1, leaf(3)).unwrap();
    let closure = collector
        .try_allocate(
            1,
            Owned::new(Object::Closure(Closure {
                dispatch: Dispatch {
                    module_id: String::from("m"),
                    symbol: String::from("s"),
                },
                capture_list: vec![x],
            })),
        )
        .unwrap();
    let ready = collector
        .try_allocate(1, Owned::new(Object::Ready(Ready(y))))
        .unwrap();
    collector.try_copy_collect(1, &[closure, ready]).unwrap();
    assert!(collector.heap_holds(1, x));
    assert!(collector.heap_holds(1, y));
    assert!(collector.heap_holds(1, closure));
    assert!(collector.heap_holds(1, ready));
    assert!(!collector.heap_holds(1, z));
    assert!(collector.transfer_holds(z));
    assert_eq!(read_int(&mut collector, 1, x), 1);
}

#[test]
fn copy_collect_copies_what_it_reaches_in_other_tables() {
    let mut collector = Collector::new();
    collector.spawn(1);
    collector.spawn(2);
    let far = collector.try_allocate(2, leaf(9)).unwrap();
    let near = collector.try_allocate(1, list(vec![far])).unwrap();
    collector.try_copy_collect(1, &[near]).unwrap();
    assert!(collector.heap_holds(1, near));
    assert!(collector.heap_holds(1, far));
    assert!(collector.heap_holds(2, far));
    assert!(!collector.transfer_holds(far));
}

#[test]
fn copy_collect_fails_on_a_dangling_reference() {
    let mut collector = Collector::new();
    collector.spawn(1);
    let a = collector.try_allocate(1, list(vec![(9, 9)])).unwrap();
    let b = collector.try_allocate(1, leaf(1)).unwrap();
    assert_eq!(collector.try_copy_collect(1, &[a]), Err(Fault::Missing));
    assert!(collector.heap_holds(1, a));
    assert!(collector.heap_holds(1, b));
    assert!(!collector.transfer_holds(b));
    assert_eq!(collector.try_copy_collect(2, &[]), Err(Fault::NoHeap));
}

#[test]
fn unreachable_objects_fall_out_after_two_epochs() {
    let mut collector = Collector::new();
    collector.spawn(1);
    let kept = collector.try_allocate(1, leaf(1)).unwrap();
    let lost = collector.try_allocate(1, leaf(2)).unwrap();
    collector.try_copy_collect(1, &[kept]).unwrap();
    assert!(collector.try_inspect(1, kept).is_ok());
    assert!(collector.transfer_holds(lost));
    collector.epoch_change(no_witness);
    assert!(!collector.transfer_holds(lost));
    assert!(collector.limbo_holds(lost));
    collector.epoch_change(no_witness);
    assert!(!collector.transfer_holds(lost));
    assert!(!collector.limbo_holds(lost));
    assert_eq!(collector.try_inspect(1, lost).err(), Some(Fault::Missing));
    assert_eq!(read_int(&mut collector, 1, kept), 1);
}

#[test]
fn epoch_waits_for_the_witness_set() {
    let mut collector = Collector::new();
    collector.spawn(1);
    collector.spawn(2);
    let a = collector.try_allocate(1, leaf(1)).unwrap();
    collector.try_copy_collect(1, &[]).unwrap();
    collector.epoch_change(|| [1u32, 2u32].into_iter().collect());
    assert!(collector.limbo_holds(a));
    assert!(collector.awaits(1));
    assert!(collector.awaits(2));
    // nothing moves while 1 and 2 have yet to collect
    let b = collector.try_allocate(2, leaf(2)).unwrap();
    collector.try_copy_collect(2, &[]).unwrap();
    assert!(!collector.awaits(2));
    assert!(collector.transfer_holds(b));
    collector.epoch_change(no_witness);
    assert!(collector.limbo_holds(a));
    assert!(collector.transfer_holds(b));
    collector.try_copy_collect(1, &[]).unwrap();
    assert!(!collector.awaits(1));
    collector.epoch_change(no_witness);
    assert!(!collector.limbo_holds(a));
    assert!(collector.limbo_holds(b));
    assert!(!collector.transfer_holds(b));
}

#[test]
fn join_moves_the_heap_to_the_transfer_table() {
    let mut collector = Collector::new();
    collector.spawn(1);
    let a = collector.try_allocate(1, leaf(1)).unwrap();
    let b = collector.try_allocate(1, list(vec![a])).unwrap();
    assert_eq!(collector.try_join(1), Ok(()));
    assert!(!collector.is_live(1));
    assert!(collector.transfer_holds(a));
    assert!(collector.transfer_holds(b));
    assert_eq!(collector.try_join(1), Err(Fault::NoHeap));
    // another task still finds the objects
    collector.spawn(2);
    assert_eq!(read_int(&mut collector, 2, a), 1);
}

#[test]
fn operations_on_live_tasks_and_held_addresses() {
    let mut collector = Collector::new();
    collector.spawn(1);
    collector.spawn(2);
    let a = collector.allocate(1, leaf(1));
    let b = collector.allocate(1, list(vec![a]));
    let c = collector.allocate(1, leaf(3));
    assert_eq!((a, b, c), ((1, 1), (1, 2), (1, 3)));
    assert_eq!(collector.inspect(1, a).object().host(), Some(&I32(1)));
    assert_eq!(collector.inspect(2, c).object().host(), Some(&I32(3)));
    assert!(collector.heap_holds(2, c));
    collector.copy_collect(1, &[b]);
    assert!(collector.heap_holds(1, a));
    assert!(collector.heap_holds(1, b));
    assert!(!collector.heap_holds(1, c));
    assert!(collector.transfer_holds(c));
    collector.join(1);
    assert!(!collector.is_live(1));
    assert!(collector.transfer_holds(a));
    assert!(collector.transfer_holds(b));
    match collector.inspect(2, b).object() {
        Object::List(list) => assert_eq!(list.0, vec![a]),
        _ => panic!("not a list"),
    }
}
