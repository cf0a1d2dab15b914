use coroutine_vm::collector::{Collector, Owned};
use coroutine_vm::fault::Fault;
use coroutine_vm::interpreter::{ByteCode, Context, Interpreter, Module, OperateContext, Operator};
use coroutine_vm::objects::{Dispatch, LeafObject, Object};
use coroutine_vm::runner::{CollectorInterface, TaskCollector};

#[derive(Debug, Clone, Copy, PartialEq, Eq)]
struct I32(i32);
impl LeafObject for I32 {}

fn main_module() -> String {
    String::from("main")
}

fn start_symbol() -> String {
    String::from("start")
}

fn start_dispatch() -> Dispatch {
    Dispatch {
        module_id: main_module(),
        symbol: start_symbol(),
    }
}

fn task_collector() -> TaskCollector<I32> {
    let mut collector = Collector::new();
    collector.spawn(0);
    TaskCollector::new(collector, 0)
}

fn run(interp: &mut Interpreter<I32>, collector: &mut TaskCollector<I32>) {
    while interp.has_step() {
        interp.step(collector).unwrap();
    }
}

struct PushLiteral(Object<I32>);
impl Operator<I32> for PushLiteral {
    fn operate(&self, context: &mut Context<I32>) -> Result<(), Fault> {
        let literal = context.allocate(Owned::new(self.0.clone()))?;
        context.push_result(literal);
        Ok(())
    }
}

fn push_literal(literal: Object<I32>) -> ByteCode<I32> {
    ByteCode::Operate(0, Box::new(PushLiteral(literal)))
}

fn push_i32(value: i32) -> ByteCode<I32> {
    push_literal(Object::Host(I32(value)))
}

struct AssertTop(I32);
impl Operator<I32> for AssertTop {
    fn operate(&self, context: &mut Context<I32>) -> Result<(), Fault> {
        let top = context.get_argument(0)?;
        let top = context.inspect(top)?;
        assert_eq!(top.object().host(), Some(&self.0));
        Ok(())
    }
}

fn assert_top(expect: I32) -> ByteCode<I32> {
    ByteCode::Operate(1, Box::new(AssertTop(expect)))
}

fn read_i32(context: &mut Context<I32>, index: u8) -> Result<I32, Fault> {
    let address = context.get_argument(index)?;
    let shared = context.inspect(address)?;
    match shared.object().host() {
        Some(value) => Ok(*value),
        None => Err(Fault::Downcast),
    }
}

struct AddTwoI32;
impl Operator<I32> for AddTwoI32 {
    fn operate(&self, context: &mut Context<I32>) -> Result<(), Fault> {
        let int_a = read_i32(context, 0)?;
        let int_b = read_i32(context, 1)?;
        let int_c = context.allocate(Owned::new(Object::Host(I32(int_a.0 + int_b.0))))?;
        context.push_result(int_c);
        Ok(())
    }
}

struct AddI32InPlace;
impl Operator<I32> for AddI32InPlace {
    fn operate(&self, context: &mut Context<I32>) -> Result<(), Fault> {
        let int_a = read_i32(context, 0)?;
        let int_b = read_i32(context, 1)?;
        let int_c = I32(int_a.0 + int_b.0);
        let int_b = context.get_argument(1)?;
        context.replace(int_b, Owned::new(Object::Host(int_c)))?;
        Ok(())
    }
}

struct EqTwoI32;
impl Operator<I32> for EqTwoI32 {
    fn operate(&self, context: &mut Context<I32>) -> Result<(), Fault> {
        let int_a = read_i32(context, 0)?;
        let int_b = read_i32(context, 1)?;
        let result = if int_a == int_b {
            Object::True
        } else {
            Object::False
        };
        let result = context.allocate(Owned::new(result))?;
        context.push_result(result);
        Ok(())
    }
}

#[test]
fn simple_step() {
    let mut interp: Interpreter<I32> = Interpreter::new();
    interp.load_module(Module {
        id: main_module(),
        program: vec![ByteCode::Return(0)],
        symbol_table: vec![(start_symbol(), 0)],
    });
    interp.push_call(start_dispatch(), 0);
    assert!(interp.has_step());
    let mut collector = task_collector();
    interp.step(&mut collector).unwrap();
    assert!(!interp.has_step());
}

#[test]
fn add_two_i32() {
    let mut interp = Interpreter::new();
    interp.load_module(Module {
        id: main_module(),
        symbol_table: vec![(start_symbol(), 0)],
        program: vec![
            push_i32(20),
            push_i32(22),
            ByteCode::Operate(2, Box::new(AddTwoI32)),
            assert_top(I32(42)),
            ByteCode::Return(0),
        ],
    });
    interp.push_call(start_dispatch(), 0);
    let mut collector = task_collector();
    run(&mut interp, &mut collector);
}

#[test]
fn add_i32_in_place() {
    let mut interp = Interpreter::new();
    interp.load_module(Module {
        id: main_module(),
        symbol_table: vec![(start_symbol(), 0)],
        program: vec![
            push_i32(20),
            push_i32(22),
            ByteCode::Operate(2, Box::new(AddI32InPlace)),
            assert_top(I32(42)),
            ByteCode::Copy(2),
            assert_top(I32(20)),
            ByteCode::Return(0),
        ],
    });
    interp.push_call(start_dispatch(), 0);
    let mut collector = task_collector();
    run(&mut interp, &mut collector);
}

#[test]
fn fib_10() {
    let mut interp = Interpreter::new();
    interp.load_module(Module {
        id: main_module(),
        symbol_table: vec![(start_symbol(), 0)],
        program: vec![
            push_i32(10), // n
            push_i32(-1), // _
            push_i32(0),  // b
            push_i32(1),  // a
            push_i32(1),  // 1
            push_i32(1),  // i
            push_i32(-1), // _
            // 'loop: T i' 1 a' a ? n => _ i 1 a b _ n
            // i _ i 1 a b _ n
            ByteCode::Copy(2),
            // n i _ i 1 a b
            ByteCode::Copy(8),
            // ? n i _ i 1 a b
            ByteCode::Operate(2, Box::new(EqTwoI32)),
            // goto 'end
            ByteCode::Jump(8),
            // a ? n i _ i 1 a b
            ByteCode::Copy(7),
            // b a ? n i _ i 1
            ByteCode::Copy(9),
            // a' a ? n i _ i 1
            ByteCode::Operate(2, Box::new(AddI32InPlace)),
            // 1 a' a ? n i
            ByteCode::Copy(8),
            // i 1 a' a ? n
            ByteCode::Copy(6),
            // i' 1 a' a ? n
            ByteCode::Operate(2, Box::new(AddI32InPlace)),
            // T i' 1 a' b ? n
            push_literal(Object::True),
            // goto 'loop
            ByteCode::Jump(-12),
            // 'end: ? n i _ i 1 a
            ByteCode::Copy(7),
            assert_top(I32(55)),
            ByteCode::Return(0),
        ],
    });
    interp.push_call(start_dispatch(), 0);
    let mut collector = task_collector();
    run(&mut interp, &mut collector);
}

#[test]
fn fib_10_recursive() {
    let mut interp = Interpreter::new();
    let fib_symbol = String::from("fib");
    let fib_dispatch = Dispatch {
        module_id: main_module(),
        symbol: fib_symbol.clone(),
    };
    interp.load_module(Module {
        id: main_module(),
        symbol_table: vec![(start_symbol(), 0), (fib_symbol.clone(), 6)],
        program: vec![
            push_i32(10),
            push_literal(Object::Dispatch(fib_dispatch.clone())),
            ByteCode::Call(1),
            ByteCode::AssertFloating(1),
            assert_top(I32(55)),
            ByteCode::Return(0),
            // fib
            // n
            ByteCode::AssertFloating(1),
            // 1 n
            push_i32(1),
            // ? 1 n
            ByteCode::Operate(2, Box::new(EqTwoI32)),
            // goto '1
            ByteCode::Jump(19),
            // n ? 1
            ByteCode::Copy(3),
            // 2 n
            push_i32(2),
            // ? 2 n
            ByteCode::Operate(2, Box::new(EqTwoI32)),
            // goto '2
            ByteCode::Jump(15),
            // -1 ? 2 n
            push_i32(-1),
            // n -1
            ByteCode::Copy(4),
            // n' n
            ByteCode::Operate(2, Box::new(AddTwoI32)),
            push_literal(Object::Dispatch(fib_dispatch.clone())),
            ByteCode::Call(1),
            ByteCode::AssertFloating(1),
            // -2 fib(n') n
            push_i32(-2),
            // n -2 fib(n')
            ByteCode::Copy(3),
            // n'' n -2 fib(n')
            ByteCode::Operate(2, Box::new(AddTwoI32)),
            push_literal(Object::Dispatch(fib_dispatch.clone())),
            // fib(n'') n -2 fib(n')
            ByteCode::Call(1),
            ByteCode::AssertFloating(1),
            // fib(n') fib(n'')
            ByteCode::Copy(4),
            ByteCode::Operate(2, Box::new(AddTwoI32)),
            ByteCode::Return(1),
            // '1 '2
            push_i32(1),
            ByteCode::Return(1),
        ],
    });
    interp.push_call(start_dispatch(), 0);
    let mut collector = task_collector();
    run(&mut interp, &mut collector);
}

fn load(program: Vec<ByteCode<I32>>) -> Interpreter<I32> {
    let mut interp = Interpreter::new();
    interp.load_module(Module {
        id: main_module(),
        symbol_table: vec![(start_symbol(), 0)],
        program,
    });
    interp.push_call(start_dispatch(), 0);
    interp
}

fn steps(
    interp: &mut Interpreter<I32>,
    collector: &mut TaskCollector<I32>,
    n: usize,
) -> Result<(), Fault> {
    for _ in 0..n {
        interp.try_step(collector)?;
    }
    Ok(())
}

#[test]
fn step_without_frame_or_instruction_fails() {
    let mut interp: Interpreter<I32> = Interpreter::new();
    let mut collector = task_collector();
    assert_eq!(interp.try_step(&mut collector), Err(Fault::NoFrame));
    let mut interp = load(vec![push_i32(1)]);
    assert_eq!(interp.try_step(&mut collector), Ok(()));
    assert_eq!(interp.try_step(&mut collector), Err(Fault::ProgramEnd));
    assert_eq!(interp.depth(), 1);
    assert_eq!(interp.variables().len(), 1);
}

#[test]
fn push_call_refuses_unknown_targets() {
    let mut interp: Interpreter<I32> = Interpreter::new();
    assert_eq!(
        interp.try_push_call(start_dispatch(), 0),
        Err(Fault::UnknownModule)
    );
    interp.load_module(Module {
        id: main_module(),
        symbol_table: vec![(start_symbol(), 0)],
        program: vec![ByteCode::Return(0)],
    });
    assert_eq!(
        interp.try_push_call(
            Dispatch {
                module_id: main_module(),
                symbol: String::from("other"),
            },
            0
        ),
        Err(Fault::UnknownSymbol)
    );
    assert_eq!(
        interp.try_push_call(start_dispatch(), 1),
        Err(Fault::StackUnderflow)
    );
    assert!(!interp.has_step());
    interp.push_variable((0, 1));
    assert_eq!(interp.try_push_call(start_dispatch(), 1), Ok(()));
    assert_eq!(interp.depth(), 1);
}

#[test]
fn later_symbol_entries_and_reloaded_modules_count() {
    let mut interp: Interpreter<I32> = Interpreter::new();
    interp.load_module(Module {
        id: main_module(),
        symbol_table: vec![(start_symbol(), 0)],
        program: vec![ByteCode::AssertFloating(5)],
    });
    interp.load_module(Module {
        id: main_module(),
        symbol_table: vec![(start_symbol(), 0), (start_symbol(), 1)],
        program: vec![ByteCode::AssertFloating(5), ByteCode::Return(0)],
    });
    interp.push_call(start_dispatch(), 0);
    let mut collector = task_collector();
    assert_eq!(interp.try_step(&mut collector), Ok(()));
    assert!(!interp.has_step());
}

#[test]
fn copy_counts_from_the_top() {
    let mut interp = load(vec![
        push_i32(1),
        push_i32(2),
        ByteCode::Copy(1),
        ByteCode::Copy(3),
        ByteCode::Return(4),
    ]);
    let mut collector = task_collector();
    run(&mut interp, &mut collector);
    assert_eq!(interp.reset(), vec![(0, 1), (0, 2), (0, 2), (0, 1)]);
}

#[test]
fn copy_underflows() {
    let mut collector = task_collector();
    let mut interp = load(vec![push_i32(1), ByteCode::Copy(0)]);
    assert_eq!(steps(&mut interp, &mut collector, 2), Err(Fault::StackUnderflow));
    let mut interp = load(vec![push_i32(1), ByteCode::Copy(2)]);
    assert_eq!(steps(&mut interp, &mut collector, 2), Err(Fault::StackUnderflow));
    assert_eq!(interp.variables().len(), 1);
}

#[test]
fn operate_underflows_without_running_the_operator() {
    let mut interp = load(vec![ByteCode::Operate(1, Box::new(AddTwoI32))]);
    let mut collector = task_collector();
    assert_eq!(interp.try_step(&mut collector), Err(Fault::StackUnderflow));
    // an operator that fails keeps the frame at its instruction
    let mut interp = load(vec![push_literal(Object::True), assert_top(I32(1))]);
    interp.step(&mut collector).unwrap();
    let mut interp2 = load(vec![
        push_literal(Object::True),
        ByteCode::Operate(1, Box::new(AddTwoI32)),
    ]);
    assert_eq!(steps(&mut interp2, &mut collector, 2), Err(Fault::Downcast));
    assert_eq!(interp2.try_step(&mut collector), Err(Fault::Downcast));
    assert_eq!(interp.depth(), 1);
}

#[test]
fn jump_faults() {
    let mut collector = task_collector();
    let mut interp = load(vec![ByteCode::Jump(0)]);
    assert_eq!(interp.try_step(&mut collector), Err(Fault::StackUnderflow));
    let mut interp = load(vec![push_i32(1), ByteCode::Jump(0)]);
    assert_eq!(steps(&mut interp, &mut collector, 2), Err(Fault::JumpNonBoolean));
    let mut interp = load(vec![push_literal(Object::True), ByteCode::Jump(1)]);
    assert_eq!(steps(&mut interp, &mut collector, 2), Err(Fault::JumpRange));
    let mut interp = load(vec![push_literal(Object::True), ByteCode::Jump(-3)]);
    assert_eq!(steps(&mut interp, &mut collector, 2), Err(Fault::JumpRange));
    let mut interp = load(vec![push_literal(Object::True), ByteCode::Jump(-128)]);
    assert_eq!(steps(&mut interp, &mut collector, 2), Err(Fault::JumpRange));
    // a jump on `False` goes on, whatever the offset
    let mut interp = load(vec![
        push_literal(Object::False),
        ByteCode::Jump(100),
        ByteCode::Return(0),
    ]);
    assert_eq!(steps(&mut interp, &mut collector, 3), Ok(()));
    assert!(!interp.has_step());
    // a jump to the first instruction is in range
    let mut interp = load(vec![push_literal(Object::True), ByteCode::Jump(-2)]);
    assert_eq!(steps(&mut interp, &mut collector, 4), Ok(()));
    assert_eq!(interp.variables().len(), 2);
}

#[test]
fn jump_on_a_missing_address_fails() {
    let mut interp = load(vec![ByteCode::Jump(0)]);
    interp.push_variable((5, 5));
    let mut collector = task_collector();
    assert_eq!(interp.try_step(&mut collector), Err(Fault::Missing));
    let mut nowhere: TaskCollector<I32> = TaskCollector::new(Collector::new(), 0);
    assert_eq!(interp.try_step(&mut nowhere), Err(Fault::NoHeap));
}

#[test]
fn call_faults() {
    let mut collector = task_collector();
    let mut interp = load(vec![ByteCode::Call(0)]);
    assert_eq!(interp.try_step(&mut collector), Err(Fault::StackUnderflow));
    let mut interp = load(vec![push_i32(1), ByteCode::Call(0)]);
    assert_eq!(steps(&mut interp, &mut collector, 2), Err(Fault::Downcast));
    let mut interp = load(vec![
        push_literal(Object::Dispatch(start_dispatch())),
        ByteCode::Call(1),
    ]);
    assert_eq!(steps(&mut interp, &mut collector, 2), Err(Fault::StackUnderflow));
    let mut interp = load(vec![
        push_literal(Object::Dispatch(Dispatch {
            module_id: String::from("nowhere"),
            symbol: start_symbol(),
        })),
        ByteCode::Call(0),
    ]);
    assert_eq!(steps(&mut interp, &mut collector, 2), Err(Fault::UnknownModule));
    let mut interp = load(vec![
        push_literal(Object::Dispatch(Dispatch {
            module_id: main_module(),
            symbol: String::from("nothing"),
        })),
        ByteCode::Call(0),
    ]);
    assert_eq!(steps(&mut interp, &mut collector, 2), Err(Fault::UnknownSymbol));
    assert_eq!(interp.depth(), 1);
    assert_eq!(interp.variables().len(), 1);
}

#[test]
fn return_hands_the_top_values_to_the_caller() {
    let mut interp: Interpreter<I32> = Interpreter::new();
    interp.load_module(Module {
        id: main_module(),
        symbol_table: vec![(start_symbol(), 0), (String::from("callee"), 6)],
        program: vec![
            push_i32(1),
            push_i32(2),
            push_i32(3),
            push_literal(Object::Dispatch(Dispatch {
                module_id: main_module(),
                symbol: String::from("callee"),
            })),
            // arguments: 2 3
            ByteCode::Call(2),
            ByteCode::AssertFloating(2),
            // callee: 2 3 -> 2 3 4 5, returns 4 5
            push_i32(4),
            push_i32(5),
            ByteCode::AssertFloating(4),
            ByteCode::Return(2),
        ],
    });
    interp.push_call(start_dispatch(), 0);
    let mut collector = task_collector();
    steps(&mut interp, &mut collector, 5).unwrap();
    assert_eq!(interp.depth(), 2);
    assert_eq!(interp.variables(), vec![(0, 1), (0, 2), (0, 3)]);
    steps(&mut interp, &mut collector, 4).unwrap();
    assert_eq!(interp.depth(), 1);
    assert_eq!(interp.variables(), vec![(0, 1), (0, 5), (0, 6)]);
    assert_eq!(interp.try_step(&mut collector), Ok(()));
}

#[test]
fn return_from_the_outermost_frame_leaves_the_results_only() {
    let mut interp = load(vec![
        push_i32(1),
        push_i32(2),
        push_i32(3),
        ByteCode::Return(2),
    ]);
    let mut collector = task_collector();
    run(&mut interp, &mut collector);
    assert_eq!(interp.variables(), vec![(0, 2), (0, 3)]);
    let mut interp = load(vec![push_i32(1), ByteCode::Return(2)]);
    assert_eq!(steps(&mut interp, &mut collector, 2), Err(Fault::StackUnderflow));
    assert_eq!(interp.depth(), 1);
}

#[test]
fn assert_floating_checks_the_count() {
    let mut interp = load(vec![
        push_i32(1),
        ByteCode::AssertFloating(1),
        ByteCode::AssertFloating(2),
    ]);
    let mut collector = task_collector();
    assert_eq!(steps(&mut interp, &mut collector, 2), Ok(()));
    assert_eq!(interp.try_step(&mut collector), Err(Fault::AssertFloating));
}

#[test]
fn pack_then_unpack_restores_the_stack() {
    let mut interp = load(vec![
        push_i32(1),
        push_i32(2),
        push_i32(3),
        ByteCode::PackFloating(1),
        ByteCode::Unpack,
        ByteCode::Return(3),
    ]);
    let mut collector = task_collector();
    steps(&mut interp, &mut collector, 3).unwrap();
    let before = interp.variables();
    interp.step(&mut collector).unwrap();
    let packed = interp.variables();
    assert_eq!(packed, vec![(0, 1), (0, 4)]);
    match collector.inspect(packed[1]).unwrap().object() {
        Object::List(list) => assert_eq!(list.0, vec![(0, 2), (0, 3)]),
        _ => panic!("not a list"),
    }
    interp.step(&mut collector).unwrap();
    assert_eq!(interp.variables(), before);
}

#[test]
fn pack_and_unpack_faults() {
    let mut collector = task_collector();
    let mut interp = load(vec![push_i32(1), ByteCode::PackFloating(2)]);
    assert_eq!(steps(&mut interp, &mut collector, 2), Err(Fault::StackUnderflow));
    let mut interp = load(vec![ByteCode::Unpack]);
    assert_eq!(interp.try_step(&mut collector), Err(Fault::StackUnderflow));
    let mut interp = load(vec![push_i32(1), ByteCode::Unpack]);
    assert_eq!(steps(&mut interp, &mut collector, 2), Err(Fault::Downcast));
    let mut interp = load(vec![ByteCode::PackFloating(0)]);
    let mut nowhere: TaskCollector<I32> = TaskCollector::new(Collector::new(), 0);
    assert_eq!(interp.try_step(&mut nowhere), Err(Fault::NoHeap));
}

#[test]
fn unpack_of_a_list_below_the_base() {
    let mut collector = task_collector();
    let mut filler = load(vec![
        push_i32(1),
        push_i32(2),
        ByteCode::PackFloating(0),
        ByteCode::PackFloating(1),
        ByteCode::Return(2),
    ]);
    run(&mut filler, &mut collector);
    let lists = filler.reset();
    let (full, empty) = (lists[0], lists[1]);
    match collector.inspect(full).unwrap().object() {
        Object::List(list) => assert_eq!(list.0, vec![(0, 1), (0, 2)]),
        _ => panic!("not a list"),
    }
    let below = |list: (u32, u32)| {
        let mut interp: Interpreter<I32> = Interpreter::new();
        interp.load_module(Module {
            id: main_module(),
            symbol_table: vec![(start_symbol(), 0)],
            program: vec![ByteCode::Unpack, ByteCode::AssertFloating(1)],
        });
        interp.push_variable(list);
        interp.push_call(start_dispatch(), 1);
        interp
    };
    // the empty list would leave the stack shorter than the base
    let mut interp = below(empty);
    assert_eq!(interp.try_step(&mut collector), Err(Fault::StackUnderflow));
    assert_eq!(interp.variables(), vec![empty]);
    // a list that fills the stack up to the base and beyond is unpacked
    let mut interp = below(full);
    assert_eq!(interp.try_step(&mut collector), Ok(()));
    assert_eq!(interp.variables(), vec![(0, 1), (0, 2)]);
    assert_eq!(interp.try_step(&mut collector), Ok(()));
}

#[test]
fn garbage_collect_keeps_what_the_stack_reaches() {
    let mut interp = load(vec![
        push_i32(1),
        push_i32(2),
        push_i32(3),
        ByteCode::PackFloating(1),
        ByteCode::Return(1),
    ]);
    let mut collector = task_collector();
    run(&mut interp, &mut collector);
    assert_eq!(interp.variables(), vec![(0, 4)]);
    interp.garbage_collect(&mut collector);
    assert_eq!(interp.try_garbage_collect(&mut collector), Ok(()));
    assert_eq!(collector.task_id(), 0);
    let collector = collector.into_collector();
    assert!(collector.heap_holds(0, (0, 4)));
    assert!(collector.heap_holds(0, (0, 2)));
    assert!(collector.heap_holds(0, (0, 3)));
    assert!(!collector.heap_holds(0, (0, 1)));
    assert!(collector.transfer_holds((0, 1)));
}
