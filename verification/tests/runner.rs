use coroutine_vm::collector::{Collector, Owned};
use coroutine_vm::fault::Fault;
use coroutine_vm::interpreter::{ByteCode, Context, Module, OperateContext, Operator};
use coroutine_vm::closure::Primitive;
use coroutine_vm::objects::{Closure, Dispatch, LeafObject, List, Object, Ready};
use coroutine_vm::portal::Portal;
use coroutine_vm::runner::{Poll, Runner};
use std::sync::atomic::{AtomicBool, Ordering};
use std::sync::Arc;

#[derive(Debug, Clone)]
struct Notify(Arc<AtomicBool>);
impl LeafObject for Notify {}

struct PushLiteral(Object<Notify>);
impl Operator<Notify> for PushLiteral {
    fn operate(&self, context: &mut Context<Notify>) -> Result<(), Fault> {
        let literal = context.allocate(Owned::new(self.0.clone()))?;
        context.push_result(literal);
        Ok(())
    }
}

struct NotifyPoll;
impl Operator<Notify> for NotifyPoll {
    fn operate(&self, context: &mut Context<Notify>) -> Result<(), Fault> {
        let notify = context.get_argument(0)?;
        let signal = {
            let notify = context.inspect(notify)?;
            match notify.object().host() {
                Some(notify) => notify.0.load(Ordering::SeqCst),
                None => return Err(Fault::Downcast),
            }
        };
        let result = if signal {
            let unit = context.allocate(Owned::new(Object::List(List(Vec::new()))))?;
            Object::Ready(Ready(unit))
        } else {
            Object::Pending
        };
        let result = context.allocate(Owned::new(result))?;
        context.push_result(result);
        Ok(())
    }
}

fn user_module() -> String {
    String::from("user")
}

fn poll_symbol() -> String {
    String::from("(poll)")
}

fn poll_closure(capture_list: Vec<(u32, u32)>) -> Owned<Notify> {
    Owned::new(Object::Closure(Closure {
        dispatch: Dispatch {
            module_id: user_module(),
            symbol: poll_symbol(),
        },
        capture_list,
    }))
}

#[test]
fn no_task() {
    let mut runner: Runner<Notify> = Runner::new();
    let mut portal = Portal::new();
    let mut collector: Collector<Notify> = Collector::new();
    portal.register(7);
    assert_eq!(
        runner.poll_one(&mut portal, &mut collector, 7, 1000),
        Ok(Poll::Idle)
    );
    assert_eq!(
        runner.try_poll_one(&mut portal, &mut collector, 8, 1000),
        Err(Fault::UnknownThread)
    );
}

#[test]
fn always_ready_coroutine_completes_in_one_poll() {
    let mut runner: Runner<Notify> = Runner::new();
    runner.load_module(Module {
        id: user_module(),
        symbol_table: vec![(poll_symbol(), 0)],
        program: vec![
            ByteCode::Unpack,
            ByteCode::AssertFloating(0),
            ByteCode::Operate(0, Box::new(PushLiteral(Object::List(List(Vec::new()))))),
            ByteCode::Operate(1, Box::new(Primitive::ReadyNew)),
            ByteCode::Return(1),
        ],
    });
    let mut portal = Portal::new();
    let mut collector: Collector<Notify> = Collector::new();
    portal.register(1);
    // the first task gets identity 0: its closure waits for it in heap 0
    collector.spawn(0);
    let closure = collector.try_allocate(0, poll_closure(Vec::new())).unwrap();
    let task = portal.try_spawn(1, closure).unwrap();
    assert_eq!(task, (0, closure));
    let poll = runner
        .poll_one(&mut portal, &mut collector, 1, 1000)
        .unwrap();
    let value = match poll {
        Poll::Completed(ended, value) => {
            assert_eq!(ended, task);
            value
        }
        other => panic!("not completed: {:?}", other),
    };
    // the task has joined: its heap is gone, its objects are in transfer
    assert!(!collector.is_live(0));
    assert!(collector.transfer_holds(closure));
    assert!(collector.transfer_holds(value));
    collector.spawn(9);
    match collector.try_inspect(9, value).unwrap().object() {
        Object::List(list) => assert!(list.0.is_empty()),
        _ => panic!("not the unit"),
    }
    assert_eq!(portal.try_fetch(1), Ok(None));
    assert_eq!(portal.try_wake(1, task), Ok(false));
}

#[test]
fn ready_on_notify() {
    let mut runner: Runner<Notify> = Runner::new();
    runner.load_module(Module {
        id: user_module(),
        symbol_table: vec![(poll_symbol(), 0)],
        program: vec![
            // notify
            ByteCode::Unpack,
            ByteCode::AssertFloating(1),
            // notify slot
            ByteCode::Operate(1, Box::new(NotifyPoll)),
            // notify slot notify
            ByteCode::Copy(2),
            // slot, then what the closure captures for the next poll
            ByteCode::Return(2),
        ],
    });
    let mut portal = Portal::new();
    let mut collector: Collector<Notify> = Collector::new();
    portal.register(1);
    collector.spawn(0);
    let flag = Arc::new(AtomicBool::new(false));
    let notify = collector
        .try_allocate(0, Owned::new(Object::Host(Notify(flag.clone()))))
        .unwrap();
    let closure = collector.try_allocate(0, poll_closure(vec![notify])).unwrap();
    let task = portal.try_spawn(1, closure).unwrap();
    for _ in 0..3 {
        assert_eq!(
            runner.poll_one(&mut portal, &mut collector, 1, 1000),
            Ok(Poll::Suspended(task))
        );
        // the checkpoint has kept the capture
        match collector.try_inspect(0, closure).unwrap().object() {
            Object::Closure(closure) => assert_eq!(closure.capture_list, vec![notify]),
            _ => panic!("not a closure"),
        }
        assert_eq!(Arc::strong_count(&flag), 2);
        assert_eq!(
            runner.poll_one(&mut portal, &mut collector, 1, 1000),
            Ok(Poll::Idle)
        );
        assert!(portal.wake(1, task));
    }
    flag.store(true, Ordering::SeqCst);
    let poll = runner
        .poll_one(&mut portal, &mut collector, 1, 1000)
        .unwrap();
    match poll {
        Poll::Completed(ended, value) => {
            assert_eq!(ended, task);
            collector.spawn(9);
            match collector.try_inspect(9, value).unwrap().object() {
                Object::List(list) => assert!(list.0.is_empty()),
                _ => panic!("not the unit"),
            }
        }
        other => panic!("not completed: {:?}", other),
    }
    assert!(!collector.is_live(0));
}

#[test]
fn a_poll_can_be_resumed_when_the_budget_runs_out() {
    let mut runner: Runner<Notify> = Runner::new();
    runner.load_module(Module {
        id: user_module(),
        symbol_table: vec![(poll_symbol(), 0)],
        program: vec![
            ByteCode::Unpack,
            ByteCode::Operate(0, Box::new(PushLiteral(Object::Pending))),
            ByteCode::Return(1),
        ],
    });
    let mut portal = Portal::new();
    let mut collector: Collector<Notify> = Collector::new();
    portal.register(1);
    collector.spawn(0);
    let closure = collector.try_allocate(0, poll_closure(Vec::new())).unwrap();
    let task = portal.try_spawn(1, closure).unwrap();
    assert_eq!(
        runner.try_poll_one(&mut portal, &mut collector, 1, 4),
        Ok(Poll::Unfinished(task))
    );
    assert_eq!(
        runner.resume(&mut portal, &mut collector, 1, task, 0),
        Ok(Poll::Unfinished(task))
    );
    assert_eq!(
        runner.resume(&mut portal, &mut collector, 1, task, 100),
        Ok(Poll::Suspended(task))
    );
    assert_eq!(portal.try_wake(1, task), Ok(true));
}

#[test]
fn finish_refuses_what_is_no_poll_result() {
    let mut runner: Runner<Notify> = Runner::new();
    let mut portal = Portal::new();
    let mut collector: Collector<Notify> = Collector::new();
    portal.register(1);
    collector.spawn(0);
    let closure = collector.try_allocate(0, poll_closure(Vec::new())).unwrap();
    // nothing was run: the stack does not hold the flag and the slot
    assert_eq!(
        runner.finish(&mut portal, &mut collector, 1, (0, closure)),
        Err(Fault::BadPoll)
    );
}

#[test]
fn a_poll_of_a_closure_without_module_fails() {
    let mut runner: Runner<Notify> = Runner::new();
    let mut portal = Portal::new();
    let mut collector: Collector<Notify> = Collector::new();
    portal.register(1);
    collector.spawn(0);
    let closure = collector.try_allocate(0, poll_closure(Vec::new())).unwrap();
    portal.try_spawn(1, closure).unwrap();
    assert_eq!(
        runner.try_poll_one(&mut portal, &mut collector, 1, 1000),
        Err(Fault::UnknownModule)
    );
}

#[test]
fn a_stolen_task_is_suspended_on_the_thread_that_polled_it() {
    let module = || Module {
        id: user_module(),
        symbol_table: vec![(poll_symbol(), 0)],
        program: vec![
            ByteCode::Unpack,
            ByteCode::AssertFloating(1),
            ByteCode::Operate(1, Box::new(NotifyPoll)),
            ByteCode::Copy(2),
            ByteCode::Return(2),
        ],
    };
    let mut first: Runner<Notify> = Runner::new();
    let mut second: Runner<Notify> = Runner::new();
    first.load_module(module());
    second.load_module(module());
    let mut portal = Portal::new();
    let mut collector: Collector<Notify> = Collector::new();
    portal.register(1);
    portal.register(2);
    collector.spawn(0);
    let flag = Arc::new(AtomicBool::new(false));
    let notify = collector
        .try_allocate(0, Owned::new(Object::Host(Notify(flag.clone()))))
        .unwrap();
    let closure = collector.try_allocate(0, poll_closure(vec![notify])).unwrap();
    let task = portal.try_spawn(1, closure).unwrap();
    assert_eq!(
        second.try_poll_one(&mut portal, &mut collector, 2, 1000),
        Ok(Poll::Suspended(task))
    );
    assert_eq!(
        first.try_poll_one(&mut portal, &mut collector, 1, 1000),
        Ok(Poll::Idle)
    );
    // the task waits on thread 2, where it was polled
    assert_eq!(portal.try_wake(1, task), Ok(false));
    assert_eq!(portal.try_wake(2, task), Ok(true));
    flag.store(true, Ordering::SeqCst);
    match first.try_poll_one(&mut portal, &mut collector, 1, 1000) {
        Ok(Poll::Completed(ended, _)) => assert_eq!(ended, task),
        other => panic!("not completed: {:?}", other),
    }
}

#[test]
fn always_ready_with_the_operators_of_the_runtime_only() {
    let mut runner: Runner<Notify> = Runner::new();
    runner.load_module(Module {
        id: user_module(),
        symbol_table: vec![(poll_symbol(), 0)],
        program: vec![
            ByteCode::Unpack,
            ByteCode::PackFloating(0),
            ByteCode::Primitive(1, Primitive::ReadyNew),
            ByteCode::Return(1),
        ],
    });
    let mut portal = Portal::new();
    let mut collector: Collector<Notify> = Collector::new();
    portal.register(1);
    collector.spawn(0);
    let closure = collector.allocate(0, poll_closure(Vec::new()));
    let task = portal.spawn(1, closure);
    // closure, pack, dispatch, unit, slot, pack, flag: the unit is the fourth
    assert_eq!(
        runner.poll_one(&mut portal, &mut collector, 1, 100),
        Ok(Poll::Completed(task, (0, 4)))
    );
    assert!(!collector.is_live(0));
    assert!(collector.transfer_holds((0, 4)));
    assert_eq!(portal.fetch(1), None);
    assert!(!portal.wake(1, task));
    collector.spawn(9);
    match collector.inspect(9, (0, 4)).object() {
        Object::List(list) => assert!(list.0.is_empty()),
        _ => panic!("not the unit"),
    }
}
