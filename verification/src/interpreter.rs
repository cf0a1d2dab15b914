use crate::closure::Primitive;
use crate::collector::{Address, EnumerateReference, Owned, Shared};
use crate::fault::Fault;
use crate::objects::{copy_addresses, Dispatch, DispatchView, List, ModuleId, Object, Shape};
use crate::runner::{CollectorInterface, TaskCollector};
use crate::tables::Tables;
use crate::TaskId;
use vstd::prelude::*;

verus! {

/// The instructions of the bytecode.
#[verifier::reject_recursive_types(L)]
pub enum ByteCode<L: EnumerateReference> {
    /// Push the variable `k` positions below the top; 1 duplicates the top.
    Copy(u8),
    /// Run an operator on the top `n` variables; it may push results.
    Operate(u8, Box<dyn Operator<L>>),
    /// Run an operator of the runtime on the top `n` variables.
    Primitive(u8, Primitive),
    /// Move the program counter by the offset if the top is `True`, go on
    /// if it is `False`. The top stays.
    Jump(i8),
    /// Pop a `Dispatch` and enter it with the next `n` variables as its
    /// floating variables.
    Call(u8),
    /// Leave the frame and hand the top `r` variables to the caller.
    Return(u8),
    /// Check the number of floating variables.
    AssertFloating(u8),
    /// Replace the floating variables beyond the first `n` by one `List`.
    PackFloating(u8),
    /// Pop a `List` and push what it holds.
    Unpack,
}

/// What an operator sees and can do: read its arguments, push results, and
/// read, replace and allocate objects.
pub trait OperateContext<L: EnumerateReference> {
    /// The invariant of the representation.
    spec fn wf(&self) -> bool;

    /// Reads the object at the address.
    fn inspect(&mut self, address: Address) -> (shared: Result<Shared<L>, Fault>)
        requires
            old(self).wf(),
        ensures
            final(self).wf(),
    ;

    /// Puts `owned` in the place of the object at the address and returns
    /// the object that was there.
    fn replace(&mut self, address: Address, owned: Owned<L>) -> (previous: Result<Owned<L>, Fault>)
        requires
            old(self).wf(),
        ensures
            final(self).wf(),
    ;

    /// Moves the object into the heap and returns its address.
    fn allocate(&mut self, owned: Owned<L>) -> (address: Result<Address, Fault>)
        requires
            old(self).wf(),
        ensures
            final(self).wf(),
    ;

    /// The argument at the index; index 0 is the deepest one.
    fn get_argument(&self, index: u8) -> (address: Result<Address, Fault>)
        requires
            self.wf(),
    ;

    /// Pushes a result onto the variable stack.
    fn push_result(&mut self, address: Address)
        requires
            old(self).wf(),
        ensures
            final(self).wf(),
    ;
}

/// The state that an operator works on: the variable stack with the place
/// where the arguments start, and the collector of the running task.
pub struct Context<L> {
    collector: TaskCollector<L>,
    variable_stack: Vec<Address>,
    argument_offset: usize,
}

impl<L: EnumerateReference> Context<L> {
    /// The tables of the collector.
    pub closed spec fn tables(&self) -> Tables<L> {
        self.collector.tables()
    }

    /// The running task.
    pub closed spec fn task(&self) -> TaskId {
        self.collector.task()
    }

    /// The variable stack, deepest variable first.
    pub closed spec fn stack(&self) -> Seq<Address> {
        self.variable_stack@
    }

    /// The position of the first argument on the variable stack.
    pub closed spec fn offset(&self) -> nat {
        self.argument_offset as nat
    }

    /// The context as contracts see it.
    pub open spec fn scene(&self) -> Scene<L> {
        Scene {
            stack: self.stack(),
            offset: self.offset(),
            tables: self.tables(),
            task: self.task(),
        }
    }

    /// Whether this context can have come from `before` through an
    /// operator: the task and the arguments are the same, and results were
    /// pushed, nothing else.
    pub open spec fn extends(&self, before: &Self) -> bool {
        &&& self.task() == before.task()
        &&& self.offset() == before.offset()
        &&& before.stack().is_prefix_of(self.stack())
    }

    /// Whether this context differs from `before` in the tables at most.
    pub open spec fn same_stack(&self, before: &Self) -> bool {
        &&& self.task() == before.task()
        &&& self.offset() == before.offset()
        &&& self.stack() == before.stack()
    }
}

/// What a context stands for in contracts: the variable stack, the position
/// of the first argument on it, the tables of the collector, and the
/// running task.
pub struct Scene<L> {
    pub stack: Seq<Address>,
    pub offset: nat,
    pub tables: Tables<L>,
    pub task: TaskId,
}

impl<L: EnumerateReference> Scene<L> {
    /// The argument at the index, or the fault of a stack that ends before
    /// it.
    pub open spec fn argument(self, index: int) -> Result<Address, Fault> {
        if 0 <= index && self.offset + index < self.stack.len() {
            Ok(self.stack[self.offset + index])
        } else {
            Err(Fault::StackUnderflow)
        }
    }

    /// The arguments from index `from` up to, not including, index `to`.
    pub open spec fn arguments(self, from: int, to: int) -> Seq<Address> {
        self.stack.subrange(self.offset + from, self.offset + to)
    }

    /// A read of the address: what is found, and the scene after it.
    pub open spec fn read(self, address: Address) -> Result<(Shape<L>, Self), Fault> {
        match self.tables.resolve(self.task, address) {
            Some(found) => Ok(
                (found, Scene { tables: self.tables.inspected(self.task, address), ..self }),
            ),
            None => Err(miss(self.tables, self.task)),
        }
    }

    /// An allocation of the object: its address, and the scene after it.
    pub open spec fn allocate(self, object: Shape<L>) -> Result<(Address, Self), Fault> {
        if self.tables.can_allocate(self.task) {
            Ok(
                (
                    self.tables.next_address(self.task),
                    Scene { tables: self.tables.allocated(self.task, object), ..self },
                ),
            )
        } else {
            Err(full(self.tables, self.task))
        }
    }

    /// A replacement at the address: what was there, and the scene after
    /// it. `unshared` says whether the object that was there had one handle
    /// only.
    pub open spec fn replace(self, address: Address, object: Shape<L>, unshared: bool) -> Result<
        (Shape<L>, Self),
        Fault,
    > {
        if !self.tables.live(address.0) {
            Err(Fault::NoHeap)
        } else if !self.tables.holds(address.0, address) {
            Err(Fault::Missing)
        } else if !unshared {
            Err(Fault::Aliased)
        } else {
            Ok(
                (
                    self.tables.heaps[address.0].storage[address],
                    Scene { tables: self.tables.replaced(address, object), ..self },
                ),
            )
        }
    }

    /// The scene with one more result on the stack.
    pub open spec fn push(self, address: Address) -> Self {
        Scene { stack: self.stack.push(address), ..self }
    }

    /// An allocation of the object whose address is pushed as a result.
    pub open spec fn produce(self, object: Shape<L>) -> (Result<(), Fault>, Self) {
        match self.allocate(object) {
            Ok((address, next)) => (Ok(()), next.push(address)),
            Err(fault) => (Err(fault), self),
        }
    }
}

impl<L: EnumerateReference> OperateContext<L> for Context<L> {
    closed spec fn wf(&self) -> bool {
        self.collector.wf() && self.argument_offset <= self.variable_stack@.len()
    }

    /// As `Collector::try_inspect` for the running task.
    fn inspect(&mut self, address: Address) -> (shared: Result<Shared<L>, Fault>)
        ensures
            match shared {
                Ok(shared) => old(self).scene().read(address) == Ok::<(Shape<L>, Scene<L>), Fault>(
                    (shared@, final(self).scene()),
                ),
                Err(fault) => old(self).scene().read(address) == Err::<(Shape<L>, Scene<L>), Fault>(
                    fault,
                ) && final(self).scene() == old(self).scene(),
            },
    {
        self.collector.inspect(address)
    }

    /// As `Collector::try_replace_owned`. Where the heap of the task that
    /// allocated the address holds it, the call fails with `Aliased` if a
    /// second handle exists on the object that is there.
    fn replace(&mut self, address: Address, owned: Owned<L>) -> (previous: Result<Owned<L>, Fault>)
        ensures
            exists|unshared: bool|
                match previous {
                    Ok(previous) => #[trigger] old(self).scene().replace(address, owned@, unshared)
                        == Ok::<(Shape<L>, Scene<L>), Fault>((previous@, final(self).scene())),
                    Err(fault) => old(self).scene().replace(address, owned@, unshared) == Err::<
                        (Shape<L>, Scene<L>),
                        Fault,
                    >(fault) && final(self).scene() == old(self).scene(),
                },
    {
        let previous = self.collector.replace(address, owned);
        proof {
            let unshared = !(previous matches Err(Fault::Aliased));
            assert(match previous {
                Ok(previous) => old(self).scene().replace(address, owned@, unshared) == Ok::<
                    (Shape<L>, Scene<L>),
                    Fault,
                >((previous@, self.scene())),
                Err(fault) => old(self).scene().replace(address, owned@, unshared) == Err::<
                    (Shape<L>, Scene<L>),
                    Fault,
                >(fault) && self.scene() == old(self).scene(),
            });
        }
        previous
    }

    /// As `Collector::try_allocate` for the running task.
    fn allocate(&mut self, owned: Owned<L>) -> (address: Result<Address, Fault>)
        ensures
            match address {
                Ok(address) => old(self).scene().allocate(owned@) == Ok::<(Address, Scene<L>), Fault>(
                    (address, final(self).scene()),
                ),
                Err(fault) => old(self).scene().allocate(owned@) == Err::<(Address, Scene<L>), Fault>(
                    fault,
                ) && final(self).scene() == old(self).scene(),
            },
    {
        self.collector.allocate(owned)
    }

    /// Fails with `StackUnderflow` where the stack ends before the index.
    fn get_argument(&self, index: u8) -> (address: Result<Address, Fault>)
        ensures
            address == self.scene().argument(index as int),
    {
        let index: usize = index as usize;
        if index < self.variable_stack.len() - self.argument_offset {
            Ok(self.variable_stack[self.argument_offset + index])
        } else {
            Err(Fault::StackUnderflow)
        }
    }

    fn push_result(&mut self, address: Address)
        ensures
            final(self).scene() == old(self).scene().push(address),
    {
        self.variable_stack.push(address);
    }
}

/// An operation of the embedding program or of the runtime that bytecode
/// runs through `Operate`. It reads its arguments from the context and may
/// push any number of results.
pub trait Operator<L: EnumerateReference> {
    /// What is known of the operation: whether it can have ended with
    /// `done` and left `after` when it was run on `before`. An operator
    /// that says nothing here can end in any way.
    open spec fn effect(&self, before: Scene<L>, done: Result<(), Fault>, after: Scene<L>) -> bool {
        true
    }

    /// Runs the operation. Whatever it does, it leaves the variables that
    /// were on the stack in place.
    fn operate(&self, context: &mut Context<L>) -> (done: Result<(), Fault>)
        requires
            old(context).wf(),
        ensures
            final(context).wf(),
            final(context).extends(old(context)),
            self.effect(old(context).scene(), done, final(context).scene()),
    ;
}

/// Where a symbol table sends a symbol: to the index of the last entry
/// that names it.
pub open spec fn lookup_symbol(table: Seq<(String, usize)>, symbol: Seq<char>) -> Option<usize>
    decreases table.len(),
{
    if table.len() == 0 {
        None
    } else if table.last().0@ == symbol {
        Some(table.last().1)
    } else {
        lookup_symbol(table.drop_last(), symbol)
    }
}

/// A unit of bytecode: a program, and the symbols under which places in it
/// can be entered. Where two entries of the table name one symbol, the
/// later one counts.
#[verifier::reject_recursive_types(L)]
pub struct Module<L: EnumerateReference> {
    pub id: ModuleId,
    pub program: Vec<ByteCode<L>>,
    pub symbol_table: Vec<(String, usize)>,
}

impl<L: EnumerateReference> Module<L> {
    /// The program index that the symbol stands for.
    pub open spec fn entry(&self, symbol: Seq<char>) -> Option<usize> {
        lookup_symbol(self.symbol_table@, symbol)
    }

    /// Looks the symbol up.
    pub fn find_symbol(&self, symbol: &String) -> (index: Option<usize>)
        ensures
            index == self.entry(symbol@),
    {
        let mut i: usize = self.symbol_table.len();
        proof {
            assert(self.symbol_table@.take(i as int) =~= self.symbol_table@);
        }
        while i > 0
            invariant
                i <= self.symbol_table.len(),
                lookup_symbol(self.symbol_table@, symbol@) == lookup_symbol(
                    self.symbol_table@.take(i as int),
                    symbol@,
                ),
            decreases i,
        {
            let ghost prefix = self.symbol_table@.take(i as int);
            i -= 1;
            proof {
                assert(prefix.last() == self.symbol_table@[i as int]);
                assert(prefix.drop_last() =~= self.symbol_table@.take(i as int));
            }
            if self.symbol_table[i].0.eq(symbol) {
                return Some(self.symbol_table[i].1);
            }
        }
        None
    }
}

/// What a frame of the call stack stands for in contracts: the module and
/// the index of the next instruction, and the length that the variable
/// stack had below the frame's floating variables when it was entered.
pub struct FrameView {
    pub module_id: Seq<char>,
    pub pc: nat,
    pub stack_size: nat,
}

/// What an interpreter stands for in contracts, but for its modules: the
/// variable stack, deepest variable first, and the call stack, outermost
/// frame first.
pub struct Machine {
    pub stack: Seq<Address>,
    pub frames: Seq<FrameView>,
}

impl Machine {
    /// The length of the variable stack below the floating variables: that
    /// of the current frame, or 0 outside of all frames.
    pub open spec fn base(self) -> nat {
        if self.frames.len() > 0 {
            self.frames.last().stack_size
        } else {
            0
        }
    }

    /// The number of floating variables.
    pub open spec fn floating(self) -> int {
        self.stack.len() - self.base()
    }

    /// The variable on top of the stack.
    pub open spec fn top(self) -> Address {
        self.stack.last()
    }

    /// The machine with the current frame at another instruction.
    pub open spec fn moved(self, pc: int) -> Machine {
        Machine {
            frames: self.frames.update(
                self.frames.len() - 1,
                FrameView { pc: pc as nat, ..self.frames.last() },
            ),
            ..self
        }
    }

    /// The machine with the current frame at the next instruction.
    pub open spec fn advanced(self) -> Machine {
        self.moved(self.frames.last().pc as int + 1)
    }

    /// The machine with one more variable on the stack.
    pub open spec fn pushed(self, address: Address) -> Machine {
        Machine { stack: self.stack.push(address), ..self }
    }

    /// The machine with one more frame.
    pub open spec fn entered(self, module_id: Seq<char>, pc: nat, stack_size: nat) -> Machine {
        Machine { frames: self.frames.push(FrameView { module_id, pc, stack_size }), ..self }
    }

    /// After `Copy(k)`.
    pub open spec fn copied(self, k: int) -> Machine {
        self.pushed(self.stack[self.stack.len() - k]).advanced()
    }

    /// After `Call(n)` of the entry at `pc` of the module: the dispatch is
    /// popped and the caller moves on; caller and callee both have the
    /// stack below the `n` arguments as their base.
    pub open spec fn called(self, module_id: Seq<char>, pc: nat, n: int) -> Machine {
        let stack = self.stack.drop_last();
        let stack_size = (stack.len() - n) as nat;
        let caller = FrameView {
            pc: self.frames.last().pc + 1,
            stack_size,
            ..self.frames.last()
        };
        Machine { stack, frames: self.frames.update(self.frames.len() - 1, caller) }.entered(
            module_id,
            pc,
            stack_size,
        )
    }

    /// The base of the frame below the current one, or 0 if there is none.
    pub open spec fn caller_base(self) -> nat {
        Machine { stack: self.stack, frames: self.frames.drop_last() }.base()
    }

    /// After `Return(r)`: the frame is gone, and of the variables above the
    /// caller's base the top `r` are left.
    pub open spec fn returned(self, r: int) -> Machine {
        Machine {
            stack: self.stack.take(self.caller_base() as int) + self.stack.skip(
                self.stack.len() - r,
            ),
            frames: self.frames.drop_last(),
        }
    }

    /// What `PackFloating(n)` packs: the floating variables beyond the
    /// first `n`.
    pub open spec fn pack(self, n: int) -> Seq<Address> {
        self.stack.skip(self.base() + n)
    }

    /// After `PackFloating(n)`, the list being at `list`.
    pub open spec fn packed(self, n: int, list: Address) -> Machine {
        Machine { stack: self.stack.take(self.base() + n).push(list), ..self }.advanced()
    }

    /// After `Unpack` of a list that holds `items`.
    pub open spec fn unpacked(self, items: Seq<Address>) -> Machine {
        Machine { stack: self.stack.drop_last() + items, ..self }.advanced()
    }
}

/// How a step ends: with or without a fault, and in which state.
pub struct Outcome<L> {
    pub done: Result<(), Fault>,
    pub machine: Machine,
    pub tables: Tables<L>,
}

/// The fault of a read that finds nothing.
pub open spec fn miss<L: EnumerateReference>(tables: Tables<L>, id: TaskId) -> Fault {
    if tables.live(id) {
        Fault::Missing
    } else {
        Fault::NoHeap
    }
}

/// The fault of an allocation that cannot be made.
pub open spec fn full<L: EnumerateReference>(tables: Tables<L>, id: TaskId) -> Fault {
    if tables.live(id) {
        Fault::Exhausted
    } else {
        Fault::NoHeap
    }
}

struct Frame {
    module: usize,
    pc: usize,
    stack_size: usize,
}

/// The interpreter of one worker: the loaded modules, the variable stack
/// and the call stack.
#[verifier::reject_recursive_types(L)]
pub struct Interpreter<L: EnumerateReference> {
    module_table: Vec<Module<L>>,
    variable_stack: Vec<Address>,
    call_stack: Vec<Frame>,
}

impl<L: EnumerateReference> View for Interpreter<L> {
    type V = Machine;

    closed spec fn view(&self) -> Machine {
        Machine {
            stack: self.variable_stack@,
            frames: Seq::new(
                self.call_stack@.len(),
                |i: int|
                    FrameView {
                        module_id: self.module_table@[self.call_stack@[i].module as int].id@,
                        pc: self.call_stack@[i].pc as nat,
                        stack_size: self.call_stack@[i].stack_size as nat,
                    },
            ),
        }
    }
}

/// Appends the items to the stack.
fn push_all(stack: &mut Vec<Address>, items: &[Address])
    ensures
        final(stack)@ == old(stack)@ + items@,
{
    let mut i: usize = 0;
    while i < items.len()
        invariant
            i <= items.len(),
            stack@ == old(stack)@ + items@.take(i as int),
        decreases items.len() - i,
    {
        stack.push(items[i]);
        proof {
            assert(items@.take(i + 1) =~= items@.take(i as int).push(items@[i as int]));
            assert(stack@ =~= old(stack)@ + items@.take(i + 1));
        }
        i += 1;
    }
    proof {
        assert(items@.take(items@.len() as int) =~= items@);
    }
}

/// Copies the stack from the index on.
fn copy_from(stack: &Vec<Address>, from: usize) -> (copy: Vec<Address>)
    requires
        from <= stack@.len(),
    ensures
        copy@ == stack@.skip(from as int),
{
    let mut copy: Vec<Address> = Vec::new();
    let mut i: usize = from;
    while i < stack.len()
        invariant
            from <= i <= stack@.len(),
            copy@ == stack@.subrange(from as int, i as int),
        decreases stack.len() - i,
    {
        copy.push(stack[i]);
        proof {
            assert(stack@.subrange(from as int, i + 1) =~= stack@.subrange(
                from as int,
                i as int,
            ).push(stack@[i as int]));
        }
        i += 1;
    }
    proof {
        assert(stack@.subrange(from as int, stack@.len() as int) =~= stack@.skip(from as int));
    }
    copy
}

impl<L: EnumerateReference> Interpreter<L> {
    /// The invariant of the interpreter's representation. Every function of
    /// the interpreter keeps it. It includes that the variable stack is at
    /// least as long as the base of the current frame.
    pub closed spec fn wf(&self) -> bool {
        &&& self.wf_frames()
        &&& self.call_stack@.len() > 0 ==> self.call_stack@.last().stack_size
            <= self.variable_stack@.len()
    }

    /// No two modules have one name, and every frame runs a module of the
    /// table.
    spec fn wf_frames(&self) -> bool {
        &&& forall|i: int, j: int|
            0 <= i < j < self.module_table@.len() ==> self.module_table@[i].id@
                != self.module_table@[j].id@
        &&& forall|i: int|
            0 <= i < self.call_stack@.len() ==> (#[trigger] self.call_stack@[i]).module
                < self.module_table@.len()
    }

    /// The module that is loaded under the identifier.
    pub closed spec fn loaded(&self, id: Seq<char>) -> Option<Module<L>> {
        if exists|i: int| 0 <= i < self.module_table@.len() && self.module_table@[i].id@ == id {
            Some(
                self.module_table@[choose|i: int|
                    0 <= i < self.module_table@.len() && self.module_table@[i].id@ == id],
            )
        } else {
            None
        }
    }

    /// The program that the current frame runs, if there is a frame.
    pub open spec fn program(&self) -> Option<Seq<ByteCode<L>>> {
        if self@.frames.len() == 0 {
            None
        } else {
            match self.loaded(self@.frames.last().module_id) {
                Some(module) => Some(module.program@),
                None => None,
            }
        }
    }

    /// The instruction that the next step runs, if there is one.
    pub open spec fn instruction(&self) -> Option<ByteCode<L>> {
        match self.program() {
            Some(program) => if self@.frames.last().pc < program.len() {
                Some(program[self@.frames.last().pc as int])
            } else {
                None
            },
            None => None,
        }
    }

    /// Where a dispatch leads: the program index of its symbol in its
    /// module, or the fault of the missing module or symbol.
    pub open spec fn resolve(&self, dispatch: DispatchView) -> Result<usize, Fault> {
        match self.loaded(dispatch.module_id) {
            None => Err(Fault::UnknownModule),
            Some(module) => match module.entry(dispatch.symbol) {
                None => Err(Fault::UnknownSymbol),
                Some(pc) => Ok(pc),
            },
        }
    }

    /// A step that ends in a fault leaves the interpreter as it was.
    pub open spec fn fails(&self, fault: Fault, tables: Tables<L>) -> Outcome<L> {
        Outcome { done: Err(fault), machine: self@, tables }
    }

    /// How a step that runs `Jump(offset)` ends, after the top was read and
    /// `found` there.
    pub open spec fn jump(&self, offset: int, found: Shape<L>, tables: Tables<L>) -> Outcome<L> {
        let target = self@.frames.last().pc + 1 + offset;
        match found {
            Shape::True => if 0 <= target < self.program().unwrap().len() {
                Outcome { done: Ok(()), machine: self@.moved(target), tables }
            } else {
                self.fails(Fault::JumpRange, tables)
            },
            Shape::False => Outcome { done: Ok(()), machine: self@.advanced(), tables },
            _ => self.fails(Fault::JumpNonBoolean, tables),
        }
    }

    /// How a step that runs `Call(n)` ends, after the top was read and
    /// `found` there.
    pub open spec fn call(&self, n: int, found: Shape<L>, tables: Tables<L>) -> Outcome<L> {
        match found {
            Shape::Dispatch(dispatch) => if n > self@.stack.len() - 1 {
                self.fails(Fault::StackUnderflow, tables)
            } else {
                match self.resolve(dispatch) {
                    Err(fault) => self.fails(fault, tables),
                    Ok(pc) => Outcome {
                        done: Ok(()),
                        machine: self@.called(dispatch.module_id, pc as nat, n),
                        tables,
                    },
                }
            },
            _ => self.fails(Fault::Downcast, tables),
        }
    }

    /// How a step that runs `Unpack` ends, after the top was read and
    /// `found` there. A list that would leave the stack shorter than the
    /// base of the frame is not unpacked.
    pub open spec fn unpack(&self, found: Shape<L>, tables: Tables<L>) -> Outcome<L> {
        match found {
            Shape::List(items) => if self@.stack.len() - 1 + items.len() < self@.base() {
                self.fails(Fault::StackUnderflow, tables)
            } else {
                Outcome { done: Ok(()), machine: self@.unpacked(items), tables }
            },
            _ => self.fails(Fault::Downcast, tables),
        }
    }

    /// How a step that runs the instruction for task `id` ends. Of an
    /// `Operate` and of a `Primitive` this says nothing: `steps_to` says
    /// how the operator decides.
    pub open spec fn outcome(&self, instruction: ByteCode<L>, tables: Tables<L>, id: TaskId)
        -> Outcome<L> {
        let machine = self@;
        let read = tables.inspected(id, machine.top());
        match instruction {
            ByteCode::Copy(k) => if 1 <= k <= machine.stack.len() {
                Outcome { done: Ok(()), machine: machine.copied(k as int), tables }
            } else {
                self.fails(Fault::StackUnderflow, tables)
            },
            ByteCode::Return(r) => if machine.caller_base() + r <= machine.stack.len() {
                Outcome { done: Ok(()), machine: machine.returned(r as int), tables }
            } else {
                self.fails(Fault::StackUnderflow, tables)
            },
            ByteCode::AssertFloating(m) => if machine.floating() == m {
                Outcome { done: Ok(()), machine: machine.advanced(), tables }
            } else {
                self.fails(Fault::AssertFloating, tables)
            },
            ByteCode::PackFloating(n) => if machine.floating() < n {
                self.fails(Fault::StackUnderflow, tables)
            } else if !tables.can_allocate(id) {
                self.fails(full(tables, id), tables)
            } else {
                Outcome {
                    done: Ok(()),
                    machine: machine.packed(n as int, tables.next_address(id)),
                    tables: tables.allocated(id, Shape::List(machine.pack(n as int))),
                }
            },
            ByteCode::Operate(_, _) | ByteCode::Primitive(_, _) => self.fails(
                Fault::Downcast,
                tables,
            ),
            _ => if machine.stack.len() == 0 {
                self.fails(Fault::StackUnderflow, tables)
            } else {
                match tables.resolve(id, machine.top()) {
                    None => self.fails(miss(tables, id), tables),
                    Some(found) => match instruction {
                        ByteCode::Jump(offset) => self.jump(offset as int, found, read),
                        ByteCode::Call(n) => self.call(n as int, found, read),
                        _ => self.unpack(found, read),
                    },
                }
            },
        }
    }

    /// The variable stack is never shorter than the base of the current
    /// frame, and every frame runs a module that is loaded.
    pub proof fn lemma_frames_in_bounds(&self)
        requires
            self.wf(),
        ensures
            self@.base() <= self@.stack.len(),
            self@.floating() >= 0,
            forall|i: int|
                0 <= i < self@.frames.len() ==> self.loaded(
                    (#[trigger] self@.frames[i]).module_id,
                ) is Some,
    {
        assert forall|i: int| 0 <= i < self@.frames.len() implies self.loaded(
            (#[trigger] self@.frames[i]).module_id,
        ) is Some by {
            self.lemma_loaded_at(self.call_stack@[i].module as int);
        }
    }

    /// Whether the two interpreters have the same modules loaded.
    pub open spec fn same_modules(&self, other: &Self) -> bool {
        forall|id: Seq<char>| #[trigger] self.loaded(id) == other.loaded(id)
    }

    /// An interpreter without modules, with empty stacks.
    pub fn new() -> (interpreter: Self)
        ensures
            interpreter.wf(),
            interpreter@ == (Machine { stack: Seq::empty(), frames: Seq::empty() }),
            forall|id: Seq<char>| interpreter.loaded(id) is None,
    {
        let interpreter = Interpreter {
            module_table: Vec::new(),
            variable_stack: Vec::new(),
            call_stack: Vec::new(),
        };
        assert(interpreter@.frames =~= Seq::empty());
        interpreter
    }

    /// The place of the module with the identifier in the table.
    fn find_module(&self, id: &String) -> (place: Option<usize>)
        requires
            self.wf(),
        ensures
            match place {
                Some(i) => i < self.module_table@.len() && self.module_table@[i as int].id@
                    == id@ && self.loaded(id@) == Some(self.module_table@[i as int]),
                None => self.loaded(id@) is None,
            },
    {
        let mut i: usize = 0;
        while i < self.module_table.len()
            invariant
                self.wf(),
                i <= self.module_table.len(),
                forall|j: int| 0 <= j < i ==> self.module_table@[j].id@ != id@,
            decreases self.module_table.len() - i,
        {
            if self.module_table[i].id.eq(id) {
                proof {
                    let chosen = choose|k: int|
                        0 <= k < self.module_table@.len() && self.module_table@[k].id@ == id@;
                    if chosen > i {
                        assert(self.module_table@[i as int].id@ != self.module_table@[chosen].id@);
                    }
                    assert(chosen == i);
                }
                return Some(i);
            }
            i += 1;
        }
        None
    }
}

impl<L: EnumerateReference> Interpreter<L> {
    /// A module of the table is the one that is loaded under its name.
    proof fn lemma_loaded_at(&self, place: int)
        requires
            self.wf_frames(),
            0 <= place < self.module_table@.len(),
        ensures
            self.loaded(self.module_table@[place].id@) == Some(self.module_table@[place]),
    {
        let id = self.module_table@[place].id@;
        let chosen = choose|k: int|
            0 <= k < self.module_table@.len() && self.module_table@[k].id@ == id;
        if chosen < place {
            assert(self.module_table@[chosen].id@ != self.module_table@[place].id@);
        }
        if place < chosen {
            assert(self.module_table@[place].id@ != self.module_table@[chosen].id@);
        }
    }

    /// Loads the module. It takes the place of a module that was loaded
    /// under the same identifier; frames that run that module go on in the
    /// new program.
    pub fn load_module(&mut self, module: Module<L>)
        requires
            old(self).wf(),
        ensures
            final(self).wf(),
            final(self)@ == old(self)@,
            final(self).loaded(module.id@) == Some(module),
            forall|id: Seq<char>| id != module.id@ ==> final(self).loaded(id) == old(self).loaded(id),
    {
        let ghost name = module.id@;
        match self.find_module(&module.id) {
            Some(place) => {
                self.module_table.set(place, module);
                proof {
                    assert(self.wf()) by {
                        assert forall|i: int, j: int|
                            0 <= i < j < self.module_table@.len() implies self.module_table@[i].id@
                            != self.module_table@[j].id@ by {
                            assert(old(self).module_table@[i].id@ != old(self).module_table@[j].id@);
                        }
                    }
                    self.lemma_loaded_at(place as int);
                    assert forall|id: Seq<char>| id != name implies self.loaded(id) == old(self).loaded(id) by {
                        self.lemma_same_names(old(self), id, place as int);
                    }
                    assert(self@.frames =~= old(self)@.frames);
                }
            },
            None => {
                self.module_table.push(module);
                proof {
                    let last = self.module_table@.len() - 1;
                    assert(self.wf()) by {
                        assert forall|i: int, j: int|
                            0 <= i < j < self.module_table@.len() implies self.module_table@[i].id@
                            != self.module_table@[j].id@ by {
                            if j < last {
                                assert(old(self).module_table@[i].id@ != old(self).module_table@[j].id@);
                            } else {
                                assert(old(self).module_table@[i].id@ != name);
                            }
                        }
                    }
                    self.lemma_loaded_at(last);
                    assert forall|id: Seq<char>| id != name implies self.loaded(id) == old(self).loaded(id) by {
                        self.lemma_same_names(old(self), id, last);
                    }
                    assert(self@.frames =~= old(self)@.frames);
                }
            },
        }
    }

    /// Two tables that agree but at one place, whose module has another
    /// name than `id`, have the same module loaded under `id`. The place
    /// may be one past the end of the shorter table.
    proof fn lemma_same_names(&self, other: &Self, id: Seq<char>, place: int)
        requires
            self.wf(),
            other.wf(),
            0 <= place < self.module_table@.len(),
            self.module_table@[place].id@ != id,
            other.module_table@.len() == self.module_table@.len() || (other.module_table@.len()
                == place && self.module_table@.len() == place + 1),
            place < other.module_table@.len() ==> other.module_table@[place].id@ != id,
            forall|i: int|
                0 <= i < other.module_table@.len() && i != place ==> self.module_table@[i]
                    == other.module_table@[i],
        ensures
            self.loaded(id) == other.loaded(id),
    {
        if exists|i: int| 0 <= i < self.module_table@.len() && self.module_table@[i].id@ == id {
            let i = choose|i: int|
                0 <= i < self.module_table@.len() && self.module_table@[i].id@ == id;
            assert(i != place);
            assert(i < other.module_table@.len());
            assert(other.module_table@[i].id@ == id);
            self.lemma_loaded_at(i);
            other.lemma_loaded_at(i);
        } else {
            if exists|i: int|
                0 <= i < other.module_table@.len() && other.module_table@[i].id@ == id {
                let i = choose|i: int|
                    0 <= i < other.module_table@.len() && other.module_table@[i].id@ == id;
                assert(self.module_table@[i].id@ == id);
            }
        }
    }

    /// Whether the call stack holds a frame, so that a step can be made.
    pub fn has_step(&self) -> (more: bool)
        ensures
            more == (self@.frames.len() > 0),
    {
        self.call_stack.len() > 0
    }

    /// A copy of the variable stack, deepest variable first.
    pub fn variables(&self) -> (variables: Vec<Address>)
        ensures
            variables@ == self@.stack,
    {
        copy_addresses(self.variable_stack.as_slice())
    }

    /// The number of frames on the call stack.
    pub fn depth(&self) -> (depth: usize)
        ensures
            depth == self@.frames.len(),
    {
        self.call_stack.len()
    }

    /// Pushes a variable onto the variable stack.
    pub fn push_variable(&mut self, address: Address)
        requires
            old(self).wf(),
        ensures
            final(self).wf(),
            final(self).same_modules(old(self)),
            final(self)@ == old(self)@.pushed(address),
    {
        self.variable_stack.push(address);
        assert(self@.frames =~= old(self)@.frames);
    }

    /// Ends a run: empties both stacks and returns the variables that were
    /// on the variable stack, deepest first.
    pub fn reset(&mut self) -> (variables: Vec<Address>)
        requires
            old(self).wf(),
        ensures
            final(self).wf(),
            final(self).same_modules(old(self)),
            variables@ == old(self)@.stack,
            final(self)@ == (Machine { stack: Seq::empty(), frames: Seq::empty() }),
    {
        let mut variables: Vec<Address> = Vec::new();
        core::mem::swap(&mut variables, &mut self.variable_stack);
        self.call_stack.clear();
        assert(self@.frames =~= Seq::empty());
        variables
    }

    /// Enters the dispatch: pushes a frame that starts at the program index
    /// of the symbol and has `stack_size` as its base. The dispatch must
    /// lead to a symbol of a loaded module, and the variable stack must not
    /// be shorter than `stack_size`; `try_push_call` takes any dispatch and
    /// base.
    pub fn push_call(&mut self, dispatch: Dispatch, stack_size: usize)
        requires
            old(self).wf(),
            old(self).resolve(dispatch@) is Ok,
            stack_size <= old(self)@.stack.len(),
        ensures
            final(self).wf(),
            final(self).same_modules(old(self)),
            final(self)@ == old(self)@.entered(
                dispatch@.module_id,
                old(self).resolve(dispatch@).unwrap() as nat,
                stack_size as nat,
            ),
    {
        match self.try_push_call(dispatch, stack_size) {
            Ok(_) => {},
            Err(_) => unreached(),
        }
    }

    /// Enters the dispatch, as `push_call` does.
    ///
    /// Fails with `UnknownModule` or `UnknownSymbol` where the dispatch
    /// leads nowhere, else with `StackUnderflow` where the variable stack
    /// is shorter than `stack_size`; the interpreter is then unchanged.
    pub fn try_push_call(&mut self, dispatch: Dispatch, stack_size: usize) -> (done: Result<
        (),
        Fault,
    >)
        requires
            old(self).wf(),
        ensures
            final(self).wf(),
            final(self).same_modules(old(self)),
            match old(self).resolve(dispatch@) {
                Err(fault) => done == Err::<(), Fault>(fault) && final(self)@ == old(self)@,
                Ok(pc) => if stack_size <= old(self)@.stack.len() {
                    done == Ok::<(), Fault>(()) && final(self)@ == old(self)@.entered(
                        dispatch@.module_id,
                        pc as nat,
                        stack_size as nat,
                    )
                } else {
                    done == Err::<(), Fault>(Fault::StackUnderflow) && final(self)@ == old(self)@
                },
            },
    {
        let module = match self.find_module(&dispatch.module_id) {
            None => {
                return Err(Fault::UnknownModule);
            },
            Some(module) => module,
        };
        let pc = match self.module_table[module].find_symbol(&dispatch.symbol) {
            None => {
                return Err(Fault::UnknownSymbol);
            },
            Some(pc) => pc,
        };
        if stack_size > self.variable_stack.len() {
            return Err(Fault::StackUnderflow);
        }
        self.call_stack.push(Frame { module, pc, stack_size });
        proof {
            assert(self@.frames =~= old(self)@.entered(
                dispatch@.module_id,
                pc as nat,
                stack_size as nat,
            ).frames);
        }
        Ok(())
    }

    /// Moves the current frame to the instruction at `pc`.
    fn move_to(&mut self, pc: usize)
        requires
            old(self).wf(),
            old(self)@.frames.len() > 0,
        ensures
            final(self).wf(),
            final(self).same_modules(old(self)),
            final(self)@ == old(self)@.moved(pc as int),
    {
        let depth = self.call_stack.len();
        let module = self.call_stack[depth - 1].module;
        let stack_size = self.call_stack[depth - 1].stack_size;
        self.call_stack.set(depth - 1, Frame { module, pc, stack_size });
        proof {
            assert(self@.frames =~= old(self)@.moved(pc as int).frames);
        }
    }
}

impl<L: EnumerateReference> Interpreter<L> {
    /// The program of the current frame is that of the frame's module.
    proof fn lemma_program(&self)
        requires
            self.wf(),
            self.call_stack@.len() > 0,
        ensures
            self@.frames.len() == self.call_stack@.len(),
            self.program() == Some(
                self.module_table@[self.call_stack@.last().module as int].program@,
            ),
            self@.frames.last().pc == self.call_stack@.last().pc,
            self@.frames.last().stack_size == self.call_stack@.last().stack_size,
            self@.base() == self.call_stack@.last().stack_size,
            self@.caller_base() == if self.call_stack@.len() > 1 {
                self.call_stack@[self.call_stack@.len() - 2].stack_size as nat
            } else {
                0
            },
    {
        self.lemma_loaded_at(self.call_stack@.last().module as int);
    }

    /// Takes the variable stack and the collector back from the context of
    /// an operator that has ended with `done`, and moves on to the next
    /// instruction unless the operator failed.
    fn close_context(
        &mut self,
        collector: &mut TaskCollector<L>,
        context: Context<L>,
        done: Result<(), Fault>,
        Ghost(before): Ghost<Machine>,
    )
        requires
            context.wf(),
            old(self).wf_frames(),
            old(self)@.frames == before.frames,
            old(self).call_stack@.len() > 0,
            old(self).call_stack@.last().stack_size <= context.stack().len(),
            old(self).call_stack@.last().pc < usize::MAX,
        ensures
            final(self).wf(),
            final(self).same_modules(old(self)),
            final(collector).wf(),
            final(collector).tables() == context.tables(),
            final(collector).task() == context.task(),
            final(self)@.stack == context.stack(),
            final(self)@.frames == if done is Ok {
                before.advanced().frames
            } else {
                before.frames
            },
    {
        let mut context = context;
        core::mem::swap(&mut context.variable_stack, &mut self.variable_stack);
        core::mem::swap(&mut context.collector, collector);
        proof {
            self.lemma_same_table(old(self));
        }
        let ghost swapped = *self;
        if done.is_ok() {
            let depth = self.call_stack.len();
            let pc = self.call_stack[depth - 1].pc;
            self.move_to(pc + 1);
            proof {
                assert forall|id: Seq<char>| #[trigger] self.loaded(id) == old(self).loaded(id) by {
                    assert(swapped.loaded(id) == old(self).loaded(id));
                }
            }
        }
    }

    /// Interpreters with one module table have the same modules loaded.
    proof fn lemma_same_table(&self, other: &Self)
        requires
            self.module_table == other.module_table,
        ensures
            self.same_modules(other),
    {
        assert forall|id: Seq<char>| #[trigger] self.loaded(id) == other.loaded(id) by {
        }
    }
}

impl<L: EnumerateReference> Interpreter<L> {
    /// What an operator sees that runs on the top `n` variables for `task`.
    pub open spec fn operands(&self, n: int, tables: Tables<L>, task: TaskId) -> Scene<L> {
        Scene { stack: self@.stack, offset: (self@.stack.len() - n) as nat, tables, task }
    }

    /// What holds of a step that runs any operator on the top `n`
    /// variables: with fewer variables on the stack it fails with
    /// `StackUnderflow` and changes nothing; else the operator only adds to
    /// the stack, and the frame moves on unless the operator failed.
    pub open spec fn operates_to(
        &self,
        n: int,
        tables: Tables<L>,
        done: Result<(), Fault>,
        after: &Self,
        after_tables: Tables<L>,
    ) -> bool {
        if n > self@.stack.len() {
            &&& done == Err::<(), Fault>(Fault::StackUnderflow)
            &&& after@ == self@
            &&& after_tables == tables
        } else {
            &&& self@.stack.is_prefix_of(after@.stack)
            &&& after@.frames == if done is Ok {
                self@.advanced().frames
            } else {
                self@.frames
            }
        }
    }

    /// Whether a step that this interpreter makes for `task`, with the
    /// tables as they are, can end with `done`, as the interpreter `after`
    /// and with the tables `after_tables`.
    ///
    /// Without a frame the step fails with `NoFrame`, with the program
    /// counter past the end of the program with `ProgramEnd`. `outcome`
    /// says how every instruction but `Operate` ends; after a fault the
    /// interpreter is as it was. `Operate(n, ..)` and `Primitive(n, ..)` fail
    /// with `StackUnderflow` where the stack holds fewer than `n` variables.
    /// Else the operator runs on the stack and the tables as they are, with
    /// the top `n` variables as its arguments, and the step ends as the
    /// operator does: with its result, its stack and its tables. The step
    /// moves on to the next instruction unless the operator failed.
    pub open spec fn steps_to(
        &self,
        tables: Tables<L>,
        task: TaskId,
        done: Result<(), Fault>,
        after: &Self,
        after_tables: Tables<L>,
    ) -> bool {
        &&& after.same_modules(self)
        &&& match self.instruction() {
            None => {
                &&& done == Err::<(), Fault>(
                    if self@.frames.len() == 0 {
                        Fault::NoFrame
                    } else {
                        Fault::ProgramEnd
                    },
                )
                &&& after@ == self@
                &&& after_tables == tables
            },
            Some(ByteCode::Operate(n, operator)) => self.operates_to(
                n as int,
                tables,
                done,
                after,
                after_tables,
            ) && (n <= self@.stack.len() ==> operator.effect(
                self.operands(n as int, tables, task),
                done,
                Scene {
                    stack: after@.stack,
                    tables: after_tables,
                    ..self.operands(n as int, tables, task)
                },
            )),
            Some(ByteCode::Primitive(n, primitive)) => self.operates_to(
                n as int,
                tables,
                done,
                after,
                after_tables,
            ) && (n <= self@.stack.len() ==> Operator::<L>::effect(
                &primitive,
                self.operands(n as int, tables, task),
                done,
                Scene {
                    stack: after@.stack,
                    tables: after_tables,
                    ..self.operands(n as int, tables, task)
                },
            )),
            Some(instruction) => {
                let outcome = self.outcome(instruction, tables, task);
                &&& done == outcome.done
                &&& after@ == outcome.machine
                &&& after_tables == outcome.tables
            },
        }
    }

    /// Whether the interpreter faults on none of the conditions that are
    /// its own to test, when it makes a step for `task`: there is an
    /// instruction to run, the stack holds the arguments of an operator,
    /// and any other instruction ends without a fault, as `outcome` says.
    pub open spec fn can_step(&self, tables: Tables<L>, task: TaskId) -> bool {
        match self.instruction() {
            None => false,
            Some(ByteCode::Operate(n, _)) => n <= self@.stack.len(),
            Some(ByteCode::Primitive(n, _)) => n <= self@.stack.len(),
            Some(instruction) => self.outcome(instruction, tables, task).done is Ok,
        }
    }

    /// Runs the instruction at the program counter of the current frame for
    /// the task of `collector`, as `steps_to` says. The interpreter must be
    /// able to make the step, as `can_step` says; `try_step` takes it in
    /// any state. The one fault left is that of an operator.
    pub fn step(&mut self, collector: &mut TaskCollector<L>) -> (done: Result<(), Fault>)
        requires
            old(self).wf(),
            old(collector).wf(),
            old(self).can_step(old(collector).tables(), old(collector).task()),
        ensures
            final(self).wf(),
            final(collector).wf(),
            final(collector).task() == old(collector).task(),
            old(self).steps_to(
                old(collector).tables(),
                old(collector).task(),
                done,
                final(self),
                final(collector).tables(),
            ),
            done is Err ==> old(self).instruction().unwrap() is Operate || old(self).instruction().unwrap() is Primitive,
    {
        self.try_step(collector)
    }

    /// Runs the instruction at the program counter of the current frame for
    /// the task of `collector`, as `steps_to` says, faults included.
    pub fn try_step(&mut self, collector: &mut TaskCollector<L>) -> (done: Result<(), Fault>)
        requires
            old(self).wf(),
            old(collector).wf(),
        ensures
            final(self).wf(),
            final(collector).wf(),
            final(collector).task() == old(collector).task(),
            old(self).steps_to(
                old(collector).tables(),
                old(collector).task(),
                done,
                final(self),
                final(collector).tables(),
            ),
    {
        let depth = self.call_stack.len();
        if depth == 0 {
            return Err(Fault::NoFrame);
        }
        proof {
            self.lemma_program();
        }
        let module = self.call_stack[depth - 1].module;
        let pc = self.call_stack[depth - 1].pc;
        let base = self.call_stack[depth - 1].stack_size;
        let length = self.variable_stack.len();
        let program_length = self.module_table[module].program.len();
        if pc >= program_length {
            return Err(Fault::ProgramEnd);
        }
        let ghost machine = self@;
        match &self.module_table[module].program[pc] {
            ByteCode::Copy(k) => {
                let k: usize = *k as usize;
                if k < 1 || k > length {
                    return Err(Fault::StackUnderflow);
                }
                let variable = self.variable_stack[length - k];
                self.push_variable(variable);
                self.move_to(pc + 1);
                Ok(())
            },
            ByteCode::Operate(n, operator) => {
                let n: usize = *n as usize;
                if n > length {
                    return Err(Fault::StackUnderflow);
                }
                let mut context = Context {
                    collector: TaskCollector::detached(),
                    variable_stack: Vec::new(),
                    argument_offset: length - n,
                };
                core::mem::swap(&mut context.variable_stack, &mut self.variable_stack);
                core::mem::swap(&mut context.collector, collector);
                let done = operator.operate(&mut context);
                proof {
                    self.lemma_same_table(old(self));
                }
                self.close_context(collector, context, done, Ghost(machine));
                proof {
                    assert forall|id: Seq<char>| #[trigger]
                        self.loaded(id) == old(self).loaded(id) by {
                    }
                }
                done
            },
            ByteCode::Primitive(n, primitive) => {
                let n: usize = *n as usize;
                if n > length {
                    return Err(Fault::StackUnderflow);
                }
                let mut context = Context {
                    collector: TaskCollector::detached(),
                    variable_stack: Vec::new(),
                    argument_offset: length - n,
                };
                core::mem::swap(&mut context.variable_stack, &mut self.variable_stack);
                core::mem::swap(&mut context.collector, collector);
                let done = primitive.operate(&mut context);
                proof {
                    self.lemma_same_table(old(self));
                }
                self.close_context(collector, context, done, Ghost(machine));
                proof {
                    assert forall|id: Seq<char>| #[trigger]
                        self.loaded(id) == old(self).loaded(id) by {
                    }
                }
                done
            },
            ByteCode::Jump(offset) => {
                let offset: i8 = *offset;
                if length == 0 {
                    return Err(Fault::StackUnderflow);
                }
                let top = self.variable_stack[length - 1];
                let shared = match collector.inspect(top) {
                    Err(fault) => {
                        return Err(fault);
                    },
                    Ok(shared) => shared,
                };
                match shared.object() {
                    Object::True => {
                        if offset >= 0 {
                            let forth: usize = offset as usize;
                            if forth >= program_length - pc - 1 {
                                return Err(Fault::JumpRange);
                            }
                            self.move_to(pc + 1 + forth);
                        } else {
                            let back: usize = (-(offset as i16)) as usize;
                            if back > pc + 1 {
                                return Err(Fault::JumpRange);
                            }
                            self.move_to(pc + 1 - back);
                        }
                        Ok(())
                    },
                    Object::False => {
                        self.move_to(pc + 1);
                        Ok(())
                    },
                    _ => Err(Fault::JumpNonBoolean),
                }
            },
            ByteCode::Call(n) => {
                let n: usize = *n as usize;
                if length == 0 {
                    return Err(Fault::StackUnderflow);
                }
                let top = self.variable_stack[length - 1];
                let shared = match collector.inspect(top) {
                    Err(fault) => {
                        return Err(fault);
                    },
                    Ok(shared) => shared,
                };
                match shared.object() {
                    Object::Dispatch(dispatch) => {
                        if n > length - 1 {
                            return Err(Fault::StackUnderflow);
                        }
                        let callee = match self.find_module(&dispatch.module_id) {
                            None => {
                                return Err(Fault::UnknownModule);
                            },
                            Some(callee) => callee,
                        };
                        let entry = match self.module_table[callee].find_symbol(&dispatch.symbol) {
                            None => {
                                return Err(Fault::UnknownSymbol);
                            },
                            Some(entry) => entry,
                        };
                        let stack_size: usize = length - 1 - n;
                        self.variable_stack.pop();
                        self.call_stack.set(depth - 1, Frame { module, pc: pc + 1, stack_size });
                        self.call_stack.push(Frame { module: callee, pc: entry, stack_size });
                        proof {
                            self.lemma_same_table(old(self));
                            assert(self@.stack =~= machine.stack.drop_last());
                            assert(self@.frames =~= machine.called(
                                dispatch@.module_id,
                                entry as nat,
                                n as int,
                            ).frames);
                        }
                        Ok(())
                    },
                    _ => Err(Fault::Downcast),
                }
            },
            ByteCode::Return(r) => {
                let r: usize = *r as usize;
                let caller_base: usize = if depth > 1 {
                    self.call_stack[depth - 2].stack_size
                } else {
                    0
                };
                if r > length || caller_base > length - r {
                    return Err(Fault::StackUnderflow);
                }
                let results = copy_from(&self.variable_stack, length - r);
                self.variable_stack.truncate(caller_base);
                push_all(&mut self.variable_stack, results.as_slice());
                self.call_stack.pop();
                proof {
                    self.lemma_same_table(old(self));
                    assert(self@.stack =~= machine.returned(r as int).stack);
                    assert(self@.frames =~= machine.returned(r as int).frames);
                }
                Ok(())
            },
            ByteCode::AssertFloating(m) => {
                let m: usize = *m as usize;
                if length - base != m {
                    return Err(Fault::AssertFloating);
                }
                self.move_to(pc + 1);
                Ok(())
            },
            ByteCode::PackFloating(n) => {
                let n: usize = *n as usize;
                if length - base < n {
                    return Err(Fault::StackUnderflow);
                }
                let list = copy_from(&self.variable_stack, base + n);
                let address = match collector.allocate(Owned::new(Object::List(List(list)))) {
                    Err(fault) => {
                        return Err(fault);
                    },
                    Ok(address) => address,
                };
                self.variable_stack.truncate(base + n);
                self.variable_stack.push(address);
                proof {
                    assert(self@.frames =~= machine.frames);
                }
                self.move_to(pc + 1);
                proof {
                    assert(self@.stack =~= machine.packed(n as int, address).stack);
                }
                Ok(())
            },
            ByteCode::Unpack => {
                if length == 0 {
                    return Err(Fault::StackUnderflow);
                }
                let top = self.variable_stack[length - 1];
                let shared = match collector.inspect(top) {
                    Err(fault) => {
                        return Err(fault);
                    },
                    Ok(shared) => shared,
                };
                match shared.object() {
                    Object::List(list) => {
                        if length - 1 < base && list.0.len() < base - (length - 1) {
                            return Err(Fault::StackUnderflow);
                        }
                        self.variable_stack.pop();
                        push_all(&mut self.variable_stack, list.0.as_slice());
                        proof {
                            assert(self@.frames =~= machine.frames);
                        }
                        self.move_to(pc + 1);
                        proof {
                            assert(self@.stack =~= machine.unpacked(list@).stack);
                        }
                        Ok(())
                    },
                    _ => Err(Fault::Downcast),
                }
            },
        }
    }

    /// Collects the heap of the task of `collector` with the variable stack
    /// as the roots, as `Collector::copy_collect` does. The task must have
    /// a heap, and a table must hold every address that the stack reaches;
    /// `try_garbage_collect` takes any state.
    pub fn garbage_collect(&self, collector: &mut TaskCollector<L>)
        requires
            self.wf(),
            old(collector).wf(),
            old(collector).tables().live(old(collector).task()),
            old(collector).tables().traversable(old(collector).task(), self@.stack),
        ensures
            final(collector).wf(),
            final(collector).task() == old(collector).task(),
            final(collector).tables() == old(collector).tables().collected(
                old(collector).task(),
                self@.stack,
            ),
    {
        match self.try_garbage_collect(collector) {
            Ok(_) => {},
            Err(_) => unreached(),
        }
    }

    /// Collects the heap of the task of `collector` with the variable stack
    /// as the roots, as `Collector::try_copy_collect` does.
    pub fn try_garbage_collect(&self, collector: &mut TaskCollector<L>) -> (done: Result<(), Fault>)
        requires
            self.wf(),
            old(collector).wf(),
        ensures
            final(collector).wf(),
            final(collector).task() == old(collector).task(),
            match done {
                Ok(_) => {
                    &&& old(collector).tables().live(old(collector).task())
                    &&& old(collector).tables().traversable(old(collector).task(), self@.stack)
                    &&& final(collector).tables() == old(collector).tables().collected(
                        old(collector).task(),
                        self@.stack,
                    )
                },
                Err(fault) => {
                    &&& final(collector).tables() == old(collector).tables()
                    &&& !(old(collector).tables().live(old(collector).task()) && old(collector).tables().traversable(old(collector).task(), self@.stack))
                    &&& fault == miss(old(collector).tables(), old(collector).task())
                },
            },
    {
        collector.collect(self.variable_stack.as_slice())
    }
}

impl Machine {
    /// A `Return(r)` that does not underflow leaves exactly `r` floating
    /// variables to the frame it returns to: the top `r` variables, in
    /// their order. Returning from the outermost frame leaves them as the
    /// whole stack.
    pub proof fn lemma_return_leaves_results(self, r: int)
        requires
            self.frames.len() > 0,
            0 <= r,
            self.caller_base() + r <= self.stack.len(),
        ensures
            self.returned(r).frames == self.frames.drop_last(),
            self.returned(r).floating() == r,
            self.returned(r).stack.skip(self.returned(r).base() as int) == self.stack.skip(
                self.stack.len() - r,
            ),
            self.frames.len() == 1 ==> self.returned(r).stack == self.stack.skip(
                self.stack.len() - r,
            ),
    {
        let after = self.returned(r);
        assert(after.base() == self.caller_base());
        assert(after.stack.skip(after.base() as int) =~= self.stack.skip(self.stack.len() - r));
        if self.frames.len() == 1 {
            assert(after.stack =~= self.stack.skip(self.stack.len() - r));
        }
    }

    /// `Unpack` of what `PackFloating(n)` has packed puts the variables
    /// back on the stack as they were.
    pub proof fn lemma_unpack_restores_packed(self, n: int, list: Address)
        requires
            self.frames.len() > 0,
            0 <= n <= self.floating(),
        ensures
            self.packed(n, list).floating() == n + 1,
            self.packed(n, list).top() == list,
            self.packed(n, list).unpacked(self.pack(n)).stack == self.stack,
            self.packed(n, list).unpacked(self.pack(n)).frames == self.advanced().advanced().frames,
    {
        let packed = self.packed(n, list);
        assert(packed.unpacked(self.pack(n)).stack =~= self.stack);
        assert(packed.unpacked(self.pack(n)).frames =~= self.advanced().advanced().frames);
    }
}

impl<L: EnumerateReference> Interpreter<L> {
    /// A step that runs `Return(r)` without a fault leaves exactly `r`
    /// floating variables, and the stack holds nothing else where the
    /// frame was the outermost one.
    pub proof fn lemma_return_step(
        &self,
        r: u8,
        tables: Tables<L>,
        task: TaskId,
        after: &Self,
        after_tables: Tables<L>,
    )
        requires
            self.instruction() == Some(ByteCode::<L>::Return(r)),
            self.steps_to(tables, task, Ok(()), after, after_tables),
        ensures
            after@.floating() == r,
            after@.frames == self@.frames.drop_last(),
            self@.frames.len() == 1 ==> after@.stack.len() == r,
            after_tables == tables,
    {
        self@.lemma_return_leaves_results(r as int);
    }

    /// Where a step that runs `PackFloating(n)` ends without a fault, a
    /// step that then runs `Unpack` ends without a fault too, with the
    /// variable stack as it was before the two steps.
    pub proof fn lemma_pack_then_unpack(
        &self,
        n: u8,
        tables: Tables<L>,
        task: TaskId,
        packed: &Self,
        packed_tables: Tables<L>,
        done: Result<(), Fault>,
        after: &Self,
        after_tables: Tables<L>,
    )
        requires
            self.instruction() == Some(ByteCode::<L>::PackFloating(n)),
            self.steps_to(tables, task, Ok(()), packed, packed_tables),
            packed.instruction() == Some(ByteCode::<L>::Unpack),
            packed.steps_to(packed_tables, task, done, after, after_tables),
        ensures
            done == Ok::<(), Fault>(()),
            after@.stack == self@.stack,
            after@.frames == self@.advanced().advanced().frames,
    {
        let list = tables.next_address(task);
        self@.lemma_unpack_restores_packed(n as int, list);
        tables.lemma_allocate_then_resolve(task, Shape::List(self@.pack(n as int)), list);
        assert(packed_tables.resolve(task, list) == Some(Shape::<L>::List(self@.pack(n as int))));
    }
}

impl<L: EnumerateReference> Interpreter<L> {
    /// Whether a run of at most `budget` steps that this interpreter makes
    /// for `task`, with the tables as they are, can end with `finished`, as
    /// the interpreter `after` and with the tables `after_tables`. A run
    /// makes steps, each as `steps_to` says, until the call stack is empty,
    /// the budget is spent or a step fails. It ends with the fault of the
    /// step that failed, else with whether the call stack is empty.
    pub open spec fn runs_to(
        &self,
        tables: Tables<L>,
        task: TaskId,
        budget: nat,
        finished: Result<bool, Fault>,
        after: &Self,
        after_tables: Tables<L>,
    ) -> bool
        decreases budget,
    {
        if budget == 0 || self@.frames.len() == 0 {
            &&& finished == Ok::<bool, Fault>(self@.frames.len() == 0)
            &&& after@ == self@
            &&& after.same_modules(self)
            &&& after_tables == tables
        } else {
            exists|done: Result<(), Fault>, next: Self, next_tables: Tables<L>|
                #![trigger self.steps_to(tables, task, done, &next, next_tables)]
                self.steps_to(tables, task, done, &next, next_tables) && match done {
                    Err(fault) => {
                        &&& finished == Err::<bool, Fault>(fault)
                        &&& after@ == next@
                        &&& after.same_modules(&next)
                        &&& after_tables == next_tables
                    },
                    Ok(_) => next.runs_to(
                        next_tables,
                        task,
                        (budget - 1) as nat,
                        finished,
                        after,
                        after_tables,
                    ),
                }
        }
    }

    /// Makes steps for the task of `collector` until the call stack is
    /// empty, at most `budget` of them, as `runs_to` says. The result says
    /// whether the call stack is empty; a step that fails ends the run with
    /// its fault.
    pub fn run(&mut self, collector: &mut TaskCollector<L>, budget: usize) -> (finished: Result<
        bool,
        Fault,
    >)
        requires
            old(self).wf(),
            old(collector).wf(),
        ensures
            final(self).wf(),
            final(collector).wf(),
            final(collector).task() == old(collector).task(),
            old(self).runs_to(
                old(collector).tables(),
                old(collector).task(),
                budget as nat,
                finished,
                final(self),
                final(collector).tables(),
            ),
    {
        let ghost task = collector.task();
        let mut left: usize = budget;
        let mut fault: Option<Fault> = None;
        while left > 0 && self.has_step() && fault.is_none()
            invariant
                self.wf(),
                collector.wf(),
                collector.task() == task,
                task == old(collector).task(),
                left <= budget,
                fault matches Some(found) ==> old(self).runs_to(
                    old(collector).tables(),
                    task,
                    budget as nat,
                    Err::<bool, Fault>(found),
                    self,
                    collector.tables(),
                ),
                fault is None ==> forall|finished: Result<bool, Fault>, after: Self, after_tables: Tables<L>|
                    #![trigger self.runs_to(collector.tables(), task, left as nat, finished, &after, after_tables)]
                    self.runs_to(collector.tables(), task, left as nat, finished, &after, after_tables)
                        ==> old(self).runs_to(
                        old(collector).tables(),
                        task,
                        budget as nat,
                        finished,
                        &after,
                        after_tables,
                    ),
            decreases left, if fault is None { 1int } else { 0int },
        {
            let ghost current = *self;
            let ghost tables = collector.tables();
            let ghost before: nat = left as nat;
            let done = self.try_step(collector);
            left -= 1;
            let ghost next = *self;
            let ghost next_tables = collector.tables();
            proof {
                assert(current.steps_to(tables, task, done, &next, next_tables));
                assert((before - 1) as nat == left as nat);
            }
            match done {
                Ok(_) => {
                    proof {
                        assert forall|finished: Result<bool, Fault>, after: Self, after_tables: Tables<L>|
                            #![trigger self.runs_to(collector.tables(), task, left as nat, finished, &after, after_tables)]
                            self.runs_to(
                                collector.tables(),
                                task,
                                left as nat,
                                finished,
                                &after,
                                after_tables,
                            ) implies old(self).runs_to(
                            old(collector).tables(),
                            task,
                            budget as nat,
                            finished,
                            &after,
                            after_tables,
                        ) by {
                            assert(next.runs_to(
                                next_tables,
                                task,
                                (before - 1) as nat,
                                finished,
                                &after,
                                after_tables,
                            ));
                            assert(current.runs_to(
                                tables,
                                task,
                                before,
                                finished,
                                &after,
                                after_tables,
                            ));
                        }
                    }
                },
                Err(found) => {
                    fault = Some(found);
                    proof {
                        assert(current.runs_to(
                            tables,
                            task,
                            before,
                            Err::<bool, Fault>(found),
                            &next,
                            next_tables,
                        ));
                    }
                },
            }
        }
        match fault {
            Some(fault) => Err(fault),
            None => {
                let finished = !self.has_step();
                proof {
                    assert(self.runs_to(
                        collector.tables(),
                        task,
                        left as nat,
                        Ok::<bool, Fault>(finished),
                        self,
                        collector.tables(),
                    ));
                }
                Ok(finished)
            },
        }
    }
}

impl<L: EnumerateReference> Interpreter<L> {
    /// A run with a budget and a frame starts with a step: the step's
    /// fault ends the run, else the run goes on from where the step ended,
    /// with one step less to make. The result names how the step ended.
    pub proof fn lemma_run_starts_with_step(
        &self,
        tables: Tables<L>,
        task: TaskId,
        budget: nat,
        finished: Result<bool, Fault>,
        after: &Self,
        after_tables: Tables<L>,
    ) -> (step: (Result<(), Fault>, Self, Tables<L>))
        requires
            budget > 0,
            self@.frames.len() > 0,
            self.runs_to(tables, task, budget, finished, after, after_tables),
        ensures
            self.steps_to(tables, task, step.0, &step.1, step.2),
            match step.0 {
                Err(fault) => {
                    &&& finished == Err::<bool, Fault>(fault)
                    &&& after@ == step.1@
                    &&& after.same_modules(&step.1)
                    &&& after_tables == step.2
                },
                Ok(_) => step.1.runs_to(
                    step.2,
                    task,
                    (budget - 1) as nat,
                    finished,
                    after,
                    after_tables,
                ),
            },
    {
        let (done, next, next_tables) = choose|
            done: Result<(), Fault>,
            next: Self,
            next_tables: Tables<L>,
        |
            #![trigger self.steps_to(tables, task, done, &next, next_tables)]
            self.steps_to(tables, task, done, &next, next_tables) && match done {
                Err(fault) => {
                    &&& finished == Err::<bool, Fault>(fault)
                    &&& after@ == next@
                    &&& after.same_modules(&next)
                    &&& after_tables == next_tables
                },
                Ok(_) => next.runs_to(
                    next_tables,
                    task,
                    (budget - 1) as nat,
                    finished,
                    after,
                    after_tables,
                ),
            };
        (done, next, next_tables)
    }
}

impl<L: EnumerateReference> Default for Interpreter<L> {
    fn default() -> (interpreter: Self)
        ensures
            interpreter.wf(),
            interpreter@ == (Machine { stack: Seq::empty(), frames: Seq::empty() }),
            forall|id: Seq<char>| interpreter.loaded(id) is None,
    {
        Self::new()
    }
}

} // verus!
