use coroutine_vm::closure::Primitive;
use coroutine_vm::collector::{Collector, Owned};
use coroutine_vm::fault::Fault;
use coroutine_vm::interpreter::{ByteCode, Context, Interpreter, Module, OperateContext, Operator};
use coroutine_vm::objects::{
    Closure, ClosureMeta, Dispatch, LeafObject, List, Object, Ready,
};
use coroutine_vm::runner::{CollectorInterface, TaskCollector};
use coroutine_vm::GeneralInterface;

#[derive(Debug, Clone, Copy, PartialEq, Eq)]
struct I32(i32);
impl LeafObject for I32 {}

fn main_module() -> String {
    String::from("main")
}

fn start_symbol() -> String {
    String::from("start")
}

fn start_dispatch() -> Dispatch {
    Dispatch {
        module_id: main_module(),
        symbol: start_symbol(),
    }
}

fn task_collector() -> TaskCollector<I32> {
    let mut collector = Collector::new();
    collector.spawn(0);
    TaskCollector::new(collector, 0)
}

fn run(interp: &mut Interpreter<I32>, collector: &mut TaskCollector<I32>) -> Result<(), Fault> {
    while interp.has_step() {
        interp.try_step(collector)?;
    }
    Ok(())
}

struct PushLiteral(Object<I32>);
impl Operator<I32> for PushLiteral {
    fn operate(&self, context: &mut Context<I32>) -> Result<(), Fault> {
        let literal = context.allocate(Owned::new(self.0.clone()))?;
        context.push_result(literal);
        Ok(())
    }
}

fn push_literal(literal: Object<I32>) -> ByteCode<I32> {
    ByteCode::Operate(0, Box::new(PushLiteral(literal)))
}

fn push_i32(value: i32) -> ByteCode<I32> {
    push_literal(Object::Host(I32(value)))
}

struct AssertTop(I32);
impl Operator<I32> for AssertTop {
    fn operate(&self, context: &mut Context<I32>) -> Result<(), Fault> {
        let top = context.get_argument(0)?;
        let top = context.inspect(top)?;
        assert_eq!(top.object().host(), Some(&self.0));
        Ok(())
    }
}

fn assert_top(expect: I32) -> ByteCode<I32> {
    ByteCode::Operate(1, Box::new(AssertTop(expect)))
}

fn read_i32(context: &mut Context<I32>, index: u8) -> Result<I32, Fault> {
    let address = context.get_argument(index)?;
    let shared = context.inspect(address)?;
    match shared.object().host() {
        Some(value) => Ok(*value),
        None => Err(Fault::Downcast),
    }
}

struct AddTwo;
impl Operator<I32> for AddTwo {
    fn operate(&self, context: &mut Context<I32>) -> Result<(), Fault> {
        let int_a = read_i32(context, 0)?;
        let int_b = read_i32(context, 1)?;
        let int_c = context.allocate(Owned::new(Object::Host(I32(int_a.0 + int_b.0))))?;
        context.push_result(int_c);
        Ok(())
    }
}

fn primitive(n: u8, primitive: Primitive) -> ByteCode<I32> {
    primitive.instruction(n)
}

fn load(program: Vec<ByteCode<I32>>, symbols: Vec<(String, usize)>) -> Interpreter<I32> {
    let mut interp = Interpreter::new();
    interp.load_module(Module {
        id: main_module(),
        symbol_table: symbols,
        program,
    });
    interp.push_call(start_dispatch(), 0);
    interp
}

// `operate_apply` leaves the dispatch on top of the capture pack; the
// caller's own argument and the dispatch are brought into place with `Copy`.
#[test]
fn add_two_closure() {
    let closure_symbol = || String::from("(closure)");
    let mut interp = load(
        vec![
            // [add two]
            push_literal(Object::Closure(Closure {
                dispatch: Dispatch {
                    module_id: main_module(),
                    symbol: closure_symbol(),
                },
                capture_list: Vec::new(),
            })),
            // [add two] 2
            push_i32(2),
            // [add two] [capture pack]
            ByteCode::PackFloating(1),
            // [add two]* [capture pack]
            primitive(2, Primitive::ClosureCapture),
            // .. [add two]
            ByteCode::Copy(2),
            // .. [add two] [capture pack] [dispatch]
            primitive(1, Primitive::ClosureApply),
            // .. [capture pack] [dispatch] 1
            push_i32(1),
            // .. [capture pack] [dispatch] 1 | [capture pack] 1 [dispatch]
            ByteCode::Copy(3),
            ByteCode::Copy(2),
            ByteCode::Copy(4),
            // [add two](1)
            ByteCode::Call(2),
            ByteCode::AssertFloating(1),
            assert_top(I32(3)),
            // [add two]
            ByteCode::Copy(5),
            primitive(1, Primitive::ClosureApply),
            push_i32(40),
            ByteCode::Copy(3),
            ByteCode::Copy(2),
            ByteCode::Copy(4),
            ByteCode::Call(2),
            assert_top(I32(42)),
            ByteCode::Return(0),
            // (closure): [capture pack] variable
            // [capture pack] variable [capture pack]
            ByteCode::Copy(2),
            ByteCode::Unpack,
            ByteCode::AssertFloating(3),
            ByteCode::Operate(2, Box::new(AddTwo)),
            ByteCode::Return(1),
        ],
        vec![(start_symbol(), 0), (closure_symbol(), 22)],
    );
    let mut collector = task_collector();
    run(&mut interp, &mut collector).unwrap();
}

#[test]
fn always_ready() {
    let poll_symbol = String::from("(poll)");
    let mut interp = load(
        vec![
            // closure
            push_literal(Object::Closure(Closure {
                dispatch: Dispatch {
                    module_id: main_module(),
                    symbol: poll_symbol.clone(),
                },
                capture_list: Vec::new(),
            })),
            // closure, capture pack
            ByteCode::PackFloating(1),
            // closure*, capture pack
            primitive(2, Primitive::ClosureCapture),
            // .. closure
            ByteCode::Copy(2),
            // .. closure, capture pack, dispatch
            primitive(1, Primitive::ClosureApply),
            // .. closure | capture pack, result
            ByteCode::Call(1),
            // capture pack, result, closure
            ByteCode::Copy(3),
            // capture pack, result, closure, capture pack
            ByteCode::Copy(3),
            // closure*
            primitive(2, Primitive::ClosureCapture),
            // result
            ByteCode::Copy(3),
            ByteCode::Return(1),
            // (poll)
            ByteCode::Unpack,
            ByteCode::AssertFloating(0),
            push_literal(Object::List(List(Vec::new()))),
            primitive(1, Primitive::ReadyNew),
            ByteCode::PackFloating(2),
            ByteCode::Copy(2),
            ByteCode::Return(2),
        ],
        vec![(start_symbol(), 0), (poll_symbol.clone(), 11)],
    );
    let mut collector = task_collector();
    run(&mut interp, &mut collector).unwrap();
    let result_list = interp.reset();
    assert_eq!(result_list.len(), 1);
    let result = collector.inspect(result_list[0]).unwrap();
    assert!(<Ready as GeneralInterface<I32>>::downcast(result.object()).is_some());
}

#[test]
fn new_then_apply_hands_out_captures_and_dispatch() {
    let target = Dispatch {
        module_id: String::from("elsewhere"),
        symbol: String::from("entry"),
    };
    let mut interp = load(
        vec![
            push_literal(Object::ClosureMeta(ClosureMeta {
                dispatch: target.clone(),
                n_capture: 2,
            })),
            push_i32(7),
            push_i32(8),
            // meta 7 8 closure
            primitive(3, Primitive::ClosureNew),
            // meta 7 8 closure pack dispatch
            primitive(1, Primitive::ClosureApply),
            ByteCode::Return(6),
        ],
        vec![(start_symbol(), 0)],
    );
    let mut collector = task_collector();
    run(&mut interp, &mut collector).unwrap();
    let stack = interp.reset();
    assert_eq!(stack.len(), 6);
    let closure = collector.inspect(stack[3]).unwrap();
    match closure.object() {
        Object::Closure(closure) => {
            assert_eq!(closure.capture_list, vec![stack[1], stack[2]]);
            assert_eq!(closure.dispatch.symbol, "entry");
        }
        _ => panic!("not a closure"),
    }
    let pack = collector.inspect(stack[4]).unwrap();
    match pack.object() {
        Object::List(list) => assert_eq!(list.0, vec![stack[1], stack[2]]),
        _ => panic!("not a list"),
    }
    let dispatch = collector.inspect(stack[5]).unwrap();
    match dispatch.object() {
        Object::Dispatch(dispatch) => {
            assert_eq!(dispatch.module_id, "elsewhere");
            assert_eq!(dispatch.symbol, "entry");
        }
        _ => panic!("not a dispatch"),
    }
}

#[test]
fn new_fails_without_meta_or_captures() {
    // nothing on the stack
    let mut interp = load(
        vec![primitive(0, Primitive::ClosureNew)],
        vec![(start_symbol(), 0)],
    );
    let mut collector = task_collector();
    assert_eq!(run(&mut interp, &mut collector), Err(Fault::StackUnderflow));
    // argument 0 is no ClosureMeta
    let mut interp = load(
        vec![push_i32(1), primitive(1, Primitive::ClosureNew)],
        vec![(start_symbol(), 0)],
    );
    assert_eq!(run(&mut interp, &mut collector), Err(Fault::Downcast));
    // one capture is missing
    let mut interp = load(
        vec![
            push_literal(Object::ClosureMeta(ClosureMeta {
                dispatch: start_dispatch(),
                n_capture: 2,
            })),
            push_i32(7),
            primitive(2, Primitive::ClosureNew),
        ],
        vec![(start_symbol(), 0)],
    );
    assert_eq!(run(&mut interp, &mut collector), Err(Fault::StackUnderflow));
}

#[test]
fn apply_fails_on_what_is_no_closure() {
    let mut interp = load(
        vec![push_i32(1), primitive(1, Primitive::ClosureApply)],
        vec![(start_symbol(), 0)],
    );
    let mut collector = task_collector();
    assert_eq!(run(&mut interp, &mut collector), Err(Fault::Downcast));
    assert_eq!(interp.variables().len(), 1);
}

#[test]
fn capture_replaces_the_capture_list() {
    let mut interp = load(
        vec![
            push_literal(Object::Closure(Closure {
                dispatch: start_dispatch(),
                capture_list: vec![(0, 99)],
            })),
            push_i32(5),
            push_i32(6),
            ByteCode::PackFloating(1),
            primitive(2, Primitive::ClosureCapture),
            ByteCode::Return(2),
        ],
        vec![(start_symbol(), 0)],
    );
    let mut collector = task_collector();
    run(&mut interp, &mut collector).unwrap();
    let stack = interp.reset();
    assert_eq!(stack.len(), 2);
    let closure = collector.inspect(stack[0]).unwrap();
    match closure.object() {
        Object::Closure(closure) => assert_eq!(closure.capture_list, vec![(0, 2), (0, 3)]),
        _ => panic!("not a closure"),
    }
}

#[test]
fn capture_puts_back_what_is_no_closure() {
    let mut interp = load(
        vec![
            push_i32(5),
            ByteCode::PackFloating(1),
            primitive(2, Primitive::ClosureCapture),
        ],
        vec![(start_symbol(), 0)],
    );
    let mut collector = task_collector();
    assert_eq!(run(&mut interp, &mut collector), Err(Fault::Downcast));
    let stack = interp.variables();
    let first = collector.inspect(stack[0]).unwrap();
    assert_eq!(first.object().host(), Some(&I32(5)));
}

#[test]
fn capture_fails_on_a_shared_closure() {
    let mut interp = load(
        vec![
            push_literal(Object::Closure(Closure {
                dispatch: start_dispatch(),
                capture_list: Vec::new(),
            })),
            ByteCode::PackFloating(1),
            primitive(2, Primitive::ClosureCapture),
        ],
        vec![(start_symbol(), 0)],
    );
    let mut collector = task_collector();
    interp.step(&mut collector).unwrap();
    let held = collector.inspect(interp.variables()[0]).unwrap();
    assert_eq!(run(&mut interp, &mut collector), Err(Fault::Aliased));
    assert!(<Closure as GeneralInterface<I32>>::downcast(held.object()).is_some());
}

#[test]
fn poll_checkpoints_on_pending_and_passes_on_ready() {
    // closure, slot, pack -> flag
    let mut interp = load(
        vec![
            push_literal(Object::Closure(Closure {
                dispatch: start_dispatch(),
                capture_list: Vec::new(),
            })),
            push_literal(Object::Pending),
            push_i32(1),
            ByteCode::PackFloating(2),
            primitive(3, Primitive::ClosurePoll),
            ByteCode::Return(4),
        ],
        vec![(start_symbol(), 0)],
    );
    let mut collector = task_collector();
    run(&mut interp, &mut collector).unwrap();
    let stack = interp.reset();
    assert!(matches!(
        collector.inspect(stack[3]).unwrap().object(),
        Object::False
    ));
    assert!(matches!(
        collector.inspect(stack[1]).unwrap().object(),
        Object::Pending
    ));
    match collector.inspect(stack[0]).unwrap().object() {
        Object::Closure(closure) => assert_eq!(closure.capture_list, vec![(0, 3)]),
        _ => panic!("not a closure"),
    }

    let mut interp = load(
        vec![
            push_literal(Object::Closure(Closure {
                dispatch: start_dispatch(),
                capture_list: Vec::new(),
            })),
            push_i32(9),
            primitive(1, Primitive::ReadyNew),
            push_i32(1),
            ByteCode::PackFloating(3),
            // closure value slot pack: the operator reads the top three
            ByteCode::Copy(4),
            ByteCode::Copy(3),
            ByteCode::Copy(3),
            primitive(3, Primitive::ClosurePoll),
            ByteCode::Return(8),
        ],
        vec![(start_symbol(), 0)],
    );
    run(&mut interp, &mut collector).unwrap();
    let stack = interp.reset();
    assert!(matches!(
        collector.inspect(stack[7]).unwrap().object(),
        Object::True
    ));
    match collector.inspect(stack[2]).unwrap().object() {
        Object::Ready(ready) => assert_eq!(ready.0, stack[1]),
        _ => panic!("not a ready"),
    }
    match collector.inspect(stack[0]).unwrap().object() {
        Object::Closure(closure) => assert!(closure.capture_list.is_empty()),
        _ => panic!("not a closure"),
    }
}

#[test]
fn poll_fails_on_a_slot_that_is_neither() {
    let mut interp = load(
        vec![
            push_literal(Object::Closure(Closure {
                dispatch: start_dispatch(),
                capture_list: Vec::new(),
            })),
            push_i32(9),
            ByteCode::PackFloating(2),
            primitive(3, Primitive::ClosurePoll),
        ],
        vec![(start_symbol(), 0)],
    );
    let mut collector = task_collector();
    assert_eq!(run(&mut interp, &mut collector), Err(Fault::Downcast));
}

#[test]
fn ready_new_wraps_its_argument() {
    let mut interp = load(
        vec![
            push_i32(9),
            primitive(1, Primitive::ReadyNew),
            ByteCode::Return(2),
        ],
        vec![(start_symbol(), 0)],
    );
    let mut collector = task_collector();
    run(&mut interp, &mut collector).unwrap();
    let stack = interp.reset();
    match collector.inspect(stack[1]).unwrap().object() {
        Object::Ready(ready) => assert_eq!(ready.0, stack[0]),
        _ => panic!("not a ready"),
    }
}

#[test]
fn shapes_go_up_and_down() {
    let object: Object<I32> = List(vec![(1, 2)]).upcast();
    assert_eq!(
        <List as GeneralInterface<I32>>::downcast(&object).map(|list| list.0.clone()),
        Some(vec![(1, 2)])
    );
    assert!(<Closure as GeneralInterface<I32>>::downcast(&object).is_none());
    assert!(object.host().is_none());
    let object: Object<I32> = Object::Host(I32(4));
    assert_eq!(object.host(), Some(&I32(4)));
    assert!(<List as GeneralInterface<I32>>::downcast(&object).is_none());
}

#[test]
fn a_primitive_runs_by_value_and_as_an_operator() {
    let by_value: ByteCode<I32> = Primitive::ReadyNew.instruction(1);
    assert!(matches!(
        by_value,
        ByteCode::Primitive(1, Primitive::ReadyNew)
    ));
    let mut interp = load(
        vec![
            push_i32(9),
            ByteCode::Primitive(1, Primitive::ReadyNew),
            ByteCode::Operate(1, Box::new(Primitive::ReadyNew)),
            ByteCode::Return(3),
        ],
        vec![(start_symbol(), 0)],
    );
    let mut collector = task_collector();
    run(&mut interp, &mut collector).unwrap();
    let stack = interp.reset();
    match collector.inspect(stack[1]).unwrap().object() {
        Object::Ready(ready) => assert_eq!(ready.0, stack[0]),
        _ => panic!("not a ready"),
    }
    match collector.inspect(stack[2]).unwrap().object() {
        Object::Ready(ready) => assert_eq!(ready.0, stack[1]),
        _ => panic!("not a ready"),
    }
    // too few arguments
    let mut interp = load(
        vec![ByteCode::Primitive(1, Primitive::ReadyNew)],
        vec![(start_symbol(), 0)],
    );
    assert_eq!(run(&mut interp, &mut collector), Err(Fault::StackUnderflow));
}
