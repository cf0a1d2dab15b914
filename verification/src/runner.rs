use crate::closure::Primitive;
use crate::collector::{Address, Collector, EnumerateReference, Owned, Shared};
use crate::fault::Fault;
use crate::interpreter::{
    lookup_symbol, ByteCode, FrameView, Interpreter, Machine, Module, Scene,
};
use crate::objects::{Dispatch, DispatchView, ModuleId, Object, Shape};
use crate::portal::{Portal, PortalView, Task, ThreadId};
use crate::tables::Tables;
use crate::TaskId;
use vstd::prelude::*;

verus! {

/// What the interpreter and the operators ask of a collector: to read,
/// replace and allocate objects on behalf of one task.
pub trait CollectorInterface<L: EnumerateReference> {
    /// The invariant of the representation.
    spec fn wf(&self) -> bool;

    /// Reads the object at the address.
    fn inspect(&mut self, address: Address) -> (shared: Result<Shared<L>, Fault>)
        requires
            old(self).wf(),
        ensures
            final(self).wf(),
    ;

    /// Puts `owned` in the place of the object at the address and returns
    /// the object that was there.
    fn replace(&mut self, address: Address, owned: Owned<L>) -> (previous: Result<Owned<L>, Fault>)
        requires
            old(self).wf(),
        ensures
            final(self).wf(),
    ;

    /// Moves the object into the heap and returns its address.
    fn allocate(&mut self, owned: Owned<L>) -> (address: Result<Address, Fault>)
        requires
            old(self).wf(),
        ensures
            final(self).wf(),
    ;
}

/// A collector as one task sees it.
pub struct TaskCollector<L> {
    collector: Collector<L>,
    task_id: TaskId,
}

impl<L: EnumerateReference> TaskCollector<L> {
    /// The tables of the collector.
    pub closed spec fn tables(&self) -> Tables<L> {
        self.collector@
    }

    /// The task on whose behalf the collector is used.
    pub closed spec fn task(&self) -> TaskId {
        self.task_id
    }

    /// Lets `task_id` use the collector.
    pub fn new(collector: Collector<L>, task_id: TaskId) -> (view: Self)
        requires
            collector.wf(),
        ensures
            view.wf(),
            view.tables() == collector@,
            view.task() == task_id,
    {
        TaskCollector { collector, task_id }
    }

    /// A view for task 0 of a collector of its own, without heaps.
    pub(crate) fn detached() -> (view: Self)
        ensures
            view.wf(),
    {
        TaskCollector { collector: Collector::new(), task_id: 0 }
    }

    /// Collects the heap of the task from the roots, as
    /// `Collector::try_copy_collect` does.
    pub fn collect(&mut self, root_list: &[Address]) -> (done: Result<(), Fault>)
        requires
            old(self).wf(),
        ensures
            final(self).wf(),
            final(self).task() == old(self).task(),
            match done {
                Ok(_) => {
                    &&& old(self).tables().live(old(self).task())
                    &&& old(self).tables().traversable(old(self).task(), root_list@)
                    &&& final(self).tables() == old(self).tables().collected(
                        old(self).task(),
                        root_list@,
                    )
                },
                Err(fault) => {
                    &&& final(self).tables() == old(self).tables()
                    &&& !(old(self).tables().live(old(self).task()) && old(self).tables().traversable(old(self).task(), root_list@))
                    &&& fault == if old(self).tables().live(old(self).task()) {
                        Fault::Missing
                    } else {
                        Fault::NoHeap
                    }
                },
            },
    {
        self.collector.try_copy_collect(self.task_id, root_list)
    }

    /// The task on whose behalf the collector is used.
    pub fn task_id(&self) -> (id: TaskId)
        ensures
            id == self.task(),
    {
        self.task_id
    }

    /// Gives the collector back.
    pub fn into_collector(self) -> (collector: Collector<L>)
        requires
            self.wf(),
        ensures
            collector.wf(),
            collector@ == self.tables(),
    {
        self.collector
    }
}

impl<L: EnumerateReference> CollectorInterface<L> for TaskCollector<L> {
    closed spec fn wf(&self) -> bool {
        self.collector.wf()
    }

    /// As `Collector::try_inspect` for the task.
    fn inspect(&mut self, address: Address) -> (shared: Result<Shared<L>, Fault>)
        ensures
            final(self).task() == old(self).task(),
            final(self).tables() == old(self).tables().inspected(old(self).task(), address),
            match shared {
                Ok(shared) => old(self).tables().resolve(old(self).task(), address) == Some(
                    shared@,
                ),
                Err(fault) => {
                    &&& old(self).tables().resolve(old(self).task(), address) is None
                    &&& fault == if old(self).tables().live(old(self).task()) {
                        Fault::Missing
                    } else {
                        Fault::NoHeap
                    }
                },
            },
    {
        self.collector.try_inspect(self.task_id, address)
    }

    /// As `Collector::try_replace_owned`.
    fn replace(&mut self, address: Address, owned: Owned<L>) -> (previous: Result<Owned<L>, Fault>)
        ensures
            final(self).task() == old(self).task(),
            match previous {
                Ok(previous) => {
                    &&& old(self).tables().holds(address.0, address)
                    &&& previous@ == old(self).tables().heaps[address.0].storage[address]
                    &&& final(self).tables() == old(self).tables().replaced(address, owned@)
                },
                Err(fault) => {
                    &&& final(self).tables() == old(self).tables()
                    &&& fault == if !old(self).tables().live(address.0) {
                        Fault::NoHeap
                    } else if !old(self).tables().holds(address.0, address) {
                        Fault::Missing
                    } else {
                        Fault::Aliased
                    }
                },
            },
    {
        self.collector.try_replace_owned(address, owned)
    }

    /// As `Collector::try_allocate` for the task.
    fn allocate(&mut self, owned: Owned<L>) -> (address: Result<Address, Fault>)
        ensures
            final(self).task() == old(self).task(),
            match address {
                Ok(address) => {
                    &&& old(self).tables().can_allocate(old(self).task())
                    &&& address == old(self).tables().next_address(old(self).task())
                    &&& final(self).tables() == old(self).tables().allocated(
                        old(self).task(),
                        owned@,
                    )
                },
                Err(fault) => {
                    &&& final(self).tables() == old(self).tables()
                    &&& !old(self).tables().can_allocate(old(self).task())
                    &&& fault == if old(self).tables().live(old(self).task()) {
                        Fault::Exhausted
                    } else {
                        Fault::NoHeap
                    }
                },
            },
    {
        self.collector.try_allocate(self.task_id, owned)
    }
}

/// How a poll of the runner ended.
#[derive(Debug, Clone, Copy, PartialEq, Eq)]
pub enum Poll {
    /// No task is ready: the thread parks and polls again.
    Idle,
    /// The step budget ran out while the task was running; `resume` goes
    /// on with it.
    Unfinished(Task),
    /// The coroutine is pending; the task waits to be woken.
    Suspended(Task),
    /// The coroutine is ready with the value at the address; the task has
    /// ended and its heap is gone.
    Completed(Task, Address),
}

/// One worker: an interpreter that polls the tasks which the scheduler
/// hands out.
#[verifier::reject_recursive_types(L)]
pub struct Runner<L: EnumerateReference> {
    interp: Interpreter<L>,
}

impl<L: EnumerateReference> Runner<L> {
    /// The invariant of the runner's representation.
    pub closed spec fn wf(&self) -> bool {
        self.interp.wf()
    }

    /// The interpreter of the runner.
    pub closed spec fn interpreter(&self) -> Interpreter<L> {
        self.interp
    }

    /// The routine that polls a task: it applies the closure, calls it with
    /// the captures as the one argument, packs what the call returned
    /// beyond the poll slot, lets `Closure::operate_poll` decide, and
    /// returns the flag and the slot.
    pub open spec fn routine() -> Seq<ByteCode<L>> {
        seq![
            ByteCode::AssertFloating(1),
            ByteCode::Primitive(1, Primitive::ClosureApply),
            ByteCode::Call(1),
            ByteCode::PackFloating(1),
            ByteCode::Primitive(3, Primitive::ClosurePoll),
            ByteCode::Copy(3),
            ByteCode::Return(2),
        ]
    }

    /// Whether the module holds the poll routine, entered at its start.
    pub open spec fn is_poll_module(module: Module<L>) -> bool {
        &&& module.id@ == Self::poll_routine().module_id
        &&& module.program@ == Self::routine()
        &&& module.entry(Self::poll_routine().symbol) == Some(0usize)
    }

    /// The entry point of the poll routine.
    pub open spec fn poll_routine() -> DispatchView {
        DispatchView { module_id: "//task.toplevel"@, symbol: "(start)"@ }
    }

    /// The name of the module that holds the poll routine.
    pub fn module_id() -> (id: ModuleId)
        ensures
            id@ == Self::poll_routine().module_id,
    {
        "//task.toplevel".to_owned()
    }

    /// The symbol under which the poll routine starts.
    pub fn start_symbol() -> (symbol: String)
        ensures
            symbol@ == Self::poll_routine().symbol,
    {
        "(start)".to_owned()
    }

    /// A runner whose interpreter has the poll routine loaded, with
    /// `Closure::operate_apply` and `Closure::operate_poll` as its two
    /// operators, and nothing else.
    pub fn new() -> (runner: Self)
        ensures
            runner.wf(),
            runner.interpreter()@ == (Machine { stack: Seq::empty(), frames: Seq::empty() }),
            runner.interpreter().loaded(Self::poll_routine().module_id) matches Some(module)
                && Self::is_poll_module(module),
            forall|id: Seq<char>|
                id != Self::poll_routine().module_id ==> runner.interpreter().loaded(id) is None,
    {
        let mut interp: Interpreter<L> = Interpreter::new();
        let mut program: Vec<ByteCode<L>> = Vec::new();
        program.push(ByteCode::AssertFloating(1));
        program.push(Primitive::ClosureApply.instruction(1));
        program.push(ByteCode::Call(1));
        program.push(ByteCode::PackFloating(1));
        program.push(Primitive::ClosurePoll.instruction(3));
        program.push(ByteCode::Copy(3));
        program.push(ByteCode::Return(2));
        let mut symbol_table: Vec<(String, usize)> = Vec::new();
        symbol_table.push((Self::start_symbol(), 0));
        let module = Module { id: Self::module_id(), program, symbol_table };
        proof {
            assert(module.symbol_table@.drop_last() =~= Seq::empty());
            assert(lookup_symbol(module.symbol_table@, "(start)"@) == Some(0usize));
            assert(module.program@ =~= Self::routine());
        }
        let ghost loaded = module;
        interp.load_module(module);
        let runner = Runner { interp };
        proof {
            assert(runner.interpreter().loaded("//task.toplevel"@) == Some(loaded));
        }
        runner
    }

    /// Loads a module of the embedding program into the interpreter.
    pub fn load_module(&mut self, module: Module<L>)
        requires
            old(self).wf(),
        ensures
            final(self).wf(),
            final(self).interpreter()@ == old(self).interpreter()@,
            final(self).interpreter().loaded(module.id@) == Some(module),
            forall|id: Seq<char>|
                id != module.id@ ==> final(self).interpreter().loaded(id) == old(self).interpreter().loaded(id),
    {
        self.interp.load_module(module);
    }

    /// How `begin` ends for the task, and with which stacks: the closure of
    /// the task is the one variable, and the poll routine is entered with
    /// the closure as its floating variable, unless it is no longer loaded
    /// under its name.
    pub open spec fn begun(&self, task: Task) -> (Result<(), Fault>, Machine) {
        let pushed = Machine { stack: seq![task.1], frames: Seq::empty() };
        match self.interpreter().resolve(Self::poll_routine()) {
            Err(fault) => (Err(fault), pushed),
            Ok(pc) => (Ok(()), pushed.entered(Self::poll_routine().module_id, pc as nat, 0)),
        }
    }

    /// Starts a poll of the task: the task gets a heap unless it has one,
    /// the stacks are emptied, and the poll routine is entered as `begun`
    /// says.
    pub fn begin(&mut self, collector: &mut Collector<L>, task: Task) -> (done: Result<(), Fault>)
        requires
            old(self).wf(),
            old(collector).wf(),
        ensures
            final(self).wf(),
            final(collector).wf(),
            final(collector)@ == old(collector)@.spawned(task.0),
            final(self).interpreter().same_modules(&old(self).interpreter()),
            (done, final(self).interpreter()@) == old(self).begun(task),
    {
        collector.spawn(task.0);
        let _ = self.interp.reset();
        let ghost emptied = self.interp;
        self.interp.push_variable(task.1);
        let ghost pushed = self.interp;
        let dispatch = Dispatch { module_id: Self::module_id(), symbol: Self::start_symbol() };
        let done = self.interp.try_push_call(dispatch, 0);
        proof {
            let name = Self::poll_routine().module_id;
            assert(dispatch@ == Self::poll_routine());
            assert(pushed@.stack =~= seq![task.1]);
            assert(pushed@ == (Machine { stack: seq![task.1], frames: Seq::empty() }));
            assert(emptied.loaded(name) == old(self).interp.loaded(name));
            assert(pushed.loaded(name) == emptied.loaded(name));
            assert(pushed.resolve(Self::poll_routine()) == old(self).interp.resolve(
                Self::poll_routine(),
            ));
            assert((done, self.interp@) == old(self).begun(task));
            assert forall|id: Seq<char>| #[trigger]
                self.interp.loaded(id) == old(self).interp.loaded(id) by {
                assert(emptied.loaded(id) == old(self).interp.loaded(id));
                assert(pushed.loaded(id) == emptied.loaded(id));
            }
        }
        done
    }

    /// Makes steps for the task until the call stack is empty, at most
    /// `budget` of them, as `Interpreter::run` does.
    pub fn run(&mut self, collector: &mut Collector<L>, id: TaskId, budget: usize) -> (finished:
        Result<bool, Fault>)
        requires
            old(self).wf(),
            old(collector).wf(),
        ensures
            final(self).wf(),
            final(collector).wf(),
            old(self).interpreter().runs_to(
                old(collector)@,
                id,
                budget as nat,
                finished,
                &final(self).interpreter(),
                final(collector)@,
            ),
    {
        let mut view = TaskCollector { collector: Collector::new(), task_id: id };
        core::mem::swap(&mut view.collector, collector);
        let finished = self.interp.run(&mut view, budget);
        core::mem::swap(&mut view.collector, collector);
        finished
    }

    /// What `finish` returns and what it does to the scheduler and to the
    /// collector, for the variables that the run left on the stack. They
    /// must be two, the flag and the poll slot. Where the slot holds
    /// `Pending` the task is suspended on the thread; where it holds a
    /// `Ready` the task is joined and has completed with the value of the
    /// `Ready`.
    pub open spec fn finished(
        stack: Seq<Address>,
        portal: PortalView,
        tables: Tables<L>,
        thread: ThreadId,
        task: Task,
    ) -> (Result<Poll, Fault>, PortalView, Tables<L>) {
        if stack.len() != 2 {
            (Err(Fault::BadPoll), portal, tables)
        } else {
            let read = tables.inspected(task.0, stack[1]);
            match tables.resolve(task.0, stack[1]) {
                None => (Err(crate::interpreter::miss(tables, task.0)), portal, tables),
                Some(Shape::Pending) => if portal.knows(thread) {
                    (Ok(Poll::Suspended(task)), portal.suspended(thread, task), read)
                } else {
                    (Err(Fault::UnknownThread), portal, read)
                },
                Some(Shape::Ready(value)) => (
                    Ok(Poll::Completed(task, value)),
                    portal,
                    read.joined(task.0),
                ),
                Some(_) => (Err(Fault::BadPoll), portal, read),
            }
        }
    }

    /// Ends a poll whose run has finished, as `finished` says, and empties
    /// the stacks of the interpreter.
    ///
    /// Fails with `BadPoll` where the variables are not two or the slot
    /// holds neither `Pending` nor a `Ready`, as `Collector::try_inspect`
    /// does where the slot cannot be read, and as `Portal::try_suspend` does for
    /// a thread that is not registered.
    pub fn finish(
        &mut self,
        portal: &mut Portal,
        collector: &mut Collector<L>,
        thread: ThreadId,
        task: Task,
    ) -> (poll: Result<Poll, Fault>)
        requires
            old(self).wf(),
            old(portal).wf(),
            old(collector).wf(),
        ensures
            final(self).wf(),
            final(portal).wf(),
            final(collector).wf(),
            final(self).interpreter().same_modules(&old(self).interpreter()),
            final(self).interpreter()@ == (Machine { stack: Seq::empty(), frames: Seq::empty() }),
            (poll, final(portal)@, final(collector)@) == Self::finished(
                old(self).interpreter()@.stack,
                old(portal)@,
                old(collector)@,
                thread,
                task,
            ),
    {
        let variables = self.interp.reset();
        if variables.len() != 2 {
            return Err(Fault::BadPoll);
        }
        let slot = variables[1];
        let shared = match collector.try_inspect(task.0, slot) {
            Err(fault) => {
                return Err(fault);
            },
            Ok(shared) => shared,
        };
        match shared.object() {
            Object::Pending => match portal.try_suspend(thread, task) {
                Err(fault) => Err(fault),
                Ok(_) => Ok(Poll::Suspended(task)),
            },
            Object::Ready(ready) => {
                let value = ready.0;
                match collector.try_join(task.0) {
                    Err(fault) => Err(fault),
                    Ok(_) => Ok(Poll::Completed(task, value)),
                }
            },
            _ => Err(Fault::BadPoll),
        }
    }

    /// Whether `resume` of the task on the thread, from the interpreter
    /// `start` and with the scheduler and the tables as they are, can end
    /// with `poll`, as the interpreter `after` and with the scheduler and
    /// the tables as given. The interpreter runs with the budget, as
    /// `Interpreter::runs_to` says. A run that fails ends the poll with its
    /// fault; one that the budget ended leaves the task `Unfinished`; one
    /// that finished ends as `finished` says, with empty stacks.
    pub open spec fn resumes_to(
        start: &Interpreter<L>,
        portal: PortalView,
        tables: Tables<L>,
        thread: ThreadId,
        task: Task,
        budget: nat,
        poll: Result<Poll, Fault>,
        after: &Interpreter<L>,
        after_portal: PortalView,
        after_tables: Tables<L>,
    ) -> bool {
        exists|finished: Result<bool, Fault>, ran: Interpreter<L>, ran_tables: Tables<L>|
            #![trigger start.runs_to(tables, task.0, budget, finished, &ran, ran_tables)]
            start.runs_to(tables, task.0, budget, finished, &ran, ran_tables) && after.same_modules(
                &ran,
            ) && match finished {
                Err(fault) => {
                    &&& poll == Err::<Poll, Fault>(fault)
                    &&& after@ == ran@
                    &&& after_portal == portal
                    &&& after_tables == ran_tables
                },
                Ok(false) => {
                    &&& poll == Ok::<Poll, Fault>(Poll::Unfinished(task))
                    &&& after@ == ran@
                    &&& after_portal == portal
                    &&& after_tables == ran_tables
                },
                Ok(true) => {
                    &&& after@ == (Machine { stack: Seq::empty(), frames: Seq::empty() })
                    &&& (poll, after_portal, after_tables) == Self::finished(
                        ran@.stack,
                        portal,
                        ran_tables,
                        thread,
                        task,
                    )
                },
            }
    }

    /// Goes on with a task whose poll has begun: runs it with the budget
    /// and, if the run finished, ends the poll, as `resumes_to` says.
    pub fn resume(
        &mut self,
        portal: &mut Portal,
        collector: &mut Collector<L>,
        thread: ThreadId,
        task: Task,
        budget: usize,
    ) -> (poll: Result<Poll, Fault>)
        requires
            old(self).wf(),
            old(portal).wf(),
            old(collector).wf(),
        ensures
            final(self).wf(),
            final(portal).wf(),
            final(collector).wf(),
            Self::resumes_to(
                &old(self).interpreter(),
                old(portal)@,
                old(collector)@,
                thread,
                task,
                budget as nat,
                poll,
                &final(self).interpreter(),
                final(portal)@,
                final(collector)@,
            ),
    {
        let finished = self.run(collector, task.0, budget);
        let ghost ran = self.interp;
        let ghost ran_tables = collector@;
        proof {
            assert(old(self).interp.runs_to(
                old(collector)@,
                task.0,
                budget as nat,
                finished,
                &ran,
                ran_tables,
            ));
        }
        match finished {
            Err(fault) => Err(fault),
            Ok(false) => Ok(Poll::Unfinished(task)),
            Ok(true) => self.finish(portal, collector, thread, task),
        }
    }

    /// Whether `poll_one` for the thread, with the scheduler and the
    /// tables as they are, can end with `poll`, as the interpreter `after`
    /// and with the scheduler and the tables as given. For a thread that
    /// is not registered the poll fails with `UnknownThread`, and without a
    /// task ready it is `Idle`; nothing has changed then. Else the task
    /// that `Portal::try_fetch` hands out is begun, as `begun` says, and resumed
    /// with the budget, as `resumes_to` says.
    pub open spec fn polls_to(
        &self,
        portal: PortalView,
        tables: Tables<L>,
        thread: ThreadId,
        budget: nat,
        poll: Result<Poll, Fault>,
        after: &Interpreter<L>,
        after_portal: PortalView,
        after_tables: Tables<L>,
    ) -> bool {
        let unchanged = after@ == self.interpreter()@ && after.same_modules(&self.interpreter())
            && after_portal == portal && after_tables == tables;
        if !portal.knows(thread) {
            poll == Err::<Poll, Fault>(Fault::UnknownThread) && unchanged
        } else {
            match portal.source(thread) {
                None => poll == Ok::<Poll, Fault>(Poll::Idle) && unchanged,
                Some(source) => {
                    let task = portal.peers[source].poll_list.last();
                    match self.begun(task).0 {
                        Err(fault) => {
                            &&& poll == Err::<Poll, Fault>(fault)
                            &&& after@ == self.begun(task).1
                            &&& after.same_modules(&self.interpreter())
                            &&& after_portal == portal.fetched(thread)
                            &&& after_tables == tables.spawned(task.0)
                        },
                        Ok(_) => exists|start: Interpreter<L>|
                            #![trigger start.same_modules(&self.interpreter())]
                            start@ == self.begun(task).1 && start.same_modules(&self.interpreter())
                                && Self::resumes_to(
                                &start,
                                portal.fetched(thread),
                                tables.spawned(task.0),
                                thread,
                                task,
                                budget,
                                poll,
                                after,
                                after_portal,
                                after_tables,
                            ),
                    }
                },
            }
        }
    }

    /// Polls one task for the thread, as `polls_to` says: fetches it from
    /// the scheduler, begins the poll, and goes on as `resume` does. The
    /// thread must be registered and the poll routine loaded under its
    /// name; `try_poll_one` takes any state. The faults left are those of
    /// the steps of the task, and `BadPoll` for what the task returned.
    pub fn poll_one(
        &mut self,
        portal: &mut Portal,
        collector: &mut Collector<L>,
        thread: ThreadId,
        budget: usize,
    ) -> (poll: Result<Poll, Fault>)
        requires
            old(self).wf(),
            old(portal).wf(),
            old(collector).wf(),
            old(portal)@.knows(thread),
            old(self).interpreter().resolve(Self::poll_routine()) is Ok,
        ensures
            final(self).wf(),
            final(portal).wf(),
            final(collector).wf(),
            old(self).polls_to(
                old(portal)@,
                old(collector)@,
                thread,
                budget as nat,
                poll,
                &final(self).interpreter(),
                final(portal)@,
                final(collector)@,
            ),
            old(portal)@.source(thread) is None ==> poll == Ok::<Poll, Fault>(Poll::Idle),
    {
        self.try_poll_one(portal, collector, thread, budget)
    }

    /// Polls one task for the thread, as `polls_to` says, faults included.
    pub fn try_poll_one(
        &mut self,
        portal: &mut Portal,
        collector: &mut Collector<L>,
        thread: ThreadId,
        budget: usize,
    ) -> (poll: Result<Poll, Fault>)
        requires
            old(self).wf(),
            old(portal).wf(),
            old(collector).wf(),
        ensures
            final(self).wf(),
            final(portal).wf(),
            final(collector).wf(),
            old(self).polls_to(
                old(portal)@,
                old(collector)@,
                thread,
                budget as nat,
                poll,
                &final(self).interpreter(),
                final(portal)@,
                final(collector)@,
            ),
    {
        let task = match portal.try_fetch(thread) {
            Err(fault) => {
                return Err(fault);
            },
            Ok(None) => {
                return Ok(Poll::Idle);
            },
            Ok(Some(task)) => task,
        };
        match self.begin(collector, task) {
            Err(fault) => Err(fault),
            Ok(_) => {
                let ghost start = self.interp;
                let poll = self.resume(portal, collector, thread, task, budget);
                proof {
                    assert(start.same_modules(&old(self).interpreter()));
                }
                poll
            },
        }
    }
}

impl<L: EnumerateReference> Runner<L> {
    /// How a poll ends once the closure of the task has returned to the
    /// poll routine. `start` stands in the routine behind its `Call`, with
    /// the closure, the poll slot and the variables to resume with on the
    /// stack; serial numbers are spent. Where the slot holds a `Ready` and
    /// the heap of the task can allocate twice, a run of four steps or more
    /// finishes; where the slot holds `Pending`, take a run of four steps
    /// or more that did not fail. Then the run has finished with a flag and
    /// the slot on the stack, the slot holds what it held, and `finished`
    /// decides by it: on `Pending` the closure has the variables as its
    /// capture list, the flag is a `False`, and the task is suspended on a
    /// registered thread and not joined; on a `Ready` the flag is a `True`
    /// and the task is joined and completes with the value of the `Ready`.
    pub proof fn lemma_poll_ends(
        start: &Interpreter<L>,
        tables: Tables<L>,
        task: Task,
        closure: Address,
        slot: Address,
        rest: Seq<Address>,
        budget: nat,
        finished: Result<bool, Fault>,
        after: &Interpreter<L>,
        after_tables: Tables<L>,
        portal: PortalView,
        thread: ThreadId,
    )
        requires
            start.loaded(Self::poll_routine().module_id) is Some,
            Self::is_poll_module(start.loaded(Self::poll_routine().module_id).unwrap()),
            start@.frames == seq![
                FrameView { module_id: Self::poll_routine().module_id, pc: 3, stack_size: 1 },
            ],
            start@.stack == seq![closure, slot] + rest,
            tables.serials_spent(),
            tables.live(task.0),
            tables.resolve(task.0, slot) is Some,
            tables.resolve(task.0, slot).unwrap() is Ready ==> tables.heaps[task.0].allocate_number
                + 2 <= u32::MAX,
            tables.resolve(task.0, slot).unwrap() is Pending ==> finished is Ok,
            tables.resolve(task.0, slot).unwrap() is Pending || tables.resolve(
                task.0,
                slot,
            ).unwrap() is Ready,
            budget >= 4,
            start.runs_to(tables, task.0, budget, finished, after, after_tables),
        ensures
            finished == Ok::<bool, Fault>(true),
            after@.frames.len() == 0,
            after@.stack.len() == 2,
            after@.stack[1] == slot,
            after_tables.live(task.0),
            after_tables.resolve(task.0, slot) == tables.resolve(task.0, slot),
            match tables.resolve(task.0, slot).unwrap() {
                Shape::Ready(value) => {
                    &&& after_tables.resolve(task.0, after@.stack[0]) == Some(Shape::<L>::True)
                    &&& Self::finished(after@.stack, portal, after_tables, thread, task) == (
                        Ok::<Poll, Fault>(Poll::Completed(task, value)),
                        portal,
                        after_tables.inspected(task.0, slot).joined(task.0),
                    )
                },
                _ => {
                    &&& after_tables.resolve(task.0, after@.stack[0]) == Some(Shape::<L>::False)
                    &&& after_tables.holds(closure.0, closure)
                    &&& after_tables.heaps[closure.0].storage[closure] matches Shape::Closure(kept)
                        && kept.capture_list == rest
                    &&& portal.knows(thread) ==> Self::finished(
                        after@.stack,
                        portal,
                        after_tables,
                        thread,
                        task,
                    ) == (
                        Ok::<Poll, Fault>(Poll::Suspended(task)),
                        portal.suspended(thread, task),
                        after_tables.inspected(task.0, slot),
                    )
                },
            },
    {
        let id = task.0;
        let name = Self::poll_routine().module_id;
        let module = start.loaded(name).unwrap();
        let found = tables.resolve(id, slot).unwrap();
        // the list is packed
        assert(start.program() == Some(module.program@));
        assert(start.instruction() == Some(ByteCode::<L>::PackFloating(1)));
        let packed = start.lemma_run_starts_with_step(
            tables,
            id,
            budget,
            finished,
            after,
            after_tables,
        );
        assert(start@.pack(1) =~= rest);
        assert(tables.can_allocate(id));
        let pack = tables.next_address(id);
        tables.lemma_allocate_is_fresh(id, Shape::List(rest));
        tables.lemma_allocate_then_resolve(id, Shape::List(rest), slot);
        tables.lemma_resolved_is_not_next(id, slot, id);
        assert(packed.0 == Ok::<(), Fault>(()));
        assert(packed.1@.stack =~= seq![closure, slot, pack]);
        assert(packed.1@.frames =~= seq![FrameView { module_id: name, pc: 4, stack_size: 1 }]);
        assert(packed.2.resolve(id, slot) == Some(found));
        assert(packed.2.resolve(id, pack) == Some(Shape::<L>::List(rest)));
        // the operator decides
        assert(packed.1.loaded(name) == start.loaded(name));
        assert(packed.1.program() == Some(module.program@));
        assert(packed.1.instruction() == Some(
            ByteCode::<L>::Primitive(3, Primitive::ClosurePoll),
        ));
        let polled = packed.1.lemma_run_starts_with_step(
            packed.2,
            id,
            (budget - 1) as nat,
            finished,
            after,
            after_tables,
        );
        let scene = packed.1.operands(3, packed.2, id);
        let decided = Scene { stack: polled.1@.stack, tables: polled.2, ..scene };
        let (first, second) = choose|first: bool, second: bool|
            (polled.0, decided) == #[trigger] scene.closure_poll(first, second);
        scene.lemma_poll_decides(first, second);
        assert(polled.0 is Ok);
        let flag = polled.1@.stack[3];
        assert(polled.1@.stack =~= seq![closure, slot, pack, flag]);
        assert(polled.1@.frames =~= seq![FrameView { module_id: name, pc: 5, stack_size: 1 }]);
        // the slot is copied
        assert(polled.1.loaded(name) == packed.1.loaded(name));
        assert(polled.1.program() == Some(module.program@));
        assert(polled.1.instruction() == Some(ByteCode::<L>::Copy(3)));
        let copied = polled.1.lemma_run_starts_with_step(
            polled.2,
            id,
            (budget - 2) as nat,
            finished,
            after,
            after_tables,
        );
        assert(copied.0 == Ok::<(), Fault>(()));
        assert(copied.1@.stack =~= seq![closure, slot, pack, flag, slot]);
        assert(copied.1@.frames =~= seq![FrameView { module_id: name, pc: 6, stack_size: 1 }]);
        // the flag and the slot are returned
        assert(copied.1.loaded(name) == polled.1.loaded(name));
        assert(copied.1.program() == Some(module.program@));
        assert(copied.1.instruction() == Some(ByteCode::<L>::Return(2)));
        let returned = copied.1.lemma_run_starts_with_step(
            copied.2,
            id,
            (budget - 3) as nat,
            finished,
            after,
            after_tables,
        );
        assert(copied.1@.frames.drop_last() =~= Seq::empty());
        assert(copied.1@.caller_base() == 0);
        assert(returned.0 == Ok::<(), Fault>(()));
        assert(returned.1@.stack =~= seq![flag, slot]);
        assert(returned.1@.frames =~= Seq::empty());
        assert(after@ == returned.1@);
        assert(after_tables == polled.2);
        after_tables.lemma_inspect_keeps_resolution(id, slot, id, slot);
    }
}

impl<L: EnumerateReference> Runner<L> {
    /// How a poll enters the closure of the task. `start` stands at the
    /// start of the poll routine with the closure as its one variable, the
    /// closure is found to be one, its dispatch leads to `entry`, and the
    /// heap of the task can allocate twice. Then a run of three steps or
    /// more goes on from the interpreter and the tables that the result
    /// names: the routine waits behind its `Call`, the frame of the closure
    /// stands at `entry`, and its one floating variable is a list of what
    /// the closure has captured.
    pub proof fn lemma_poll_enters(
        start: &Interpreter<L>,
        tables: Tables<L>,
        id: TaskId,
        closure: Address,
        entry: usize,
        budget: nat,
        finished: Result<bool, Fault>,
        after: &Interpreter<L>,
        after_tables: Tables<L>,
    ) -> (entered: (Interpreter<L>, Tables<L>))
        requires
            start.loaded(Self::poll_routine().module_id) is Some,
            Self::is_poll_module(start.loaded(Self::poll_routine().module_id).unwrap()),
            start@.frames == seq![
                FrameView { module_id: Self::poll_routine().module_id, pc: 0, stack_size: 0 },
            ],
            start@.stack == seq![closure],
            tables.live(id),
            tables.heaps[id].allocate_number + 2 <= u32::MAX,
            tables.resolve(id, closure) is Some,
            tables.resolve(id, closure).unwrap() is Closure,
            start.resolve(tables.resolve(id, closure).unwrap()->Closure_0.dispatch) == Ok::<
                usize,
                Fault,
            >(entry),
            budget >= 3,
            start.runs_to(tables, id, budget, finished, after, after_tables),
        ensures
            entered.0.same_modules(start),
            entered.0@.stack.len() == 2,
            entered.0@.stack[0] == closure,
            entered.0@.frames == seq![
                FrameView { module_id: Self::poll_routine().module_id, pc: 3, stack_size: 1 },
                FrameView {
                    module_id: tables.resolve(id, closure).unwrap()->Closure_0.dispatch.module_id,
                    pc: entry as nat,
                    stack_size: 1,
                },
            ],
            entered.1.live(id),
            entered.1.resolve(id, entered.0@.stack[1]) == Some(
                Shape::<L>::List(tables.resolve(id, closure).unwrap()->Closure_0.capture_list),
            ),
            tables.serials_spent() ==> entered.1.resolve(id, closure) == tables.resolve(
                id,
                closure,
            ),
            entered.1.heaps[id].allocate_number == tables.heaps[id].allocate_number + 2,
            tables.serials_spent() ==> entered.1.serials_spent(),
            entered.0.runs_to(entered.1, id, (budget - 3) as nat, finished, after, after_tables),
    {
        let name = Self::poll_routine().module_id;
        let module = start.loaded(name).unwrap();
        let found = tables.resolve(id, closure).unwrap()->Closure_0;
        // the closure is the one floating variable
        assert(start.program() == Some(module.program@));
        assert(start.instruction() == Some(ByteCode::<L>::AssertFloating(1)));
        let checked = start.lemma_run_starts_with_step(
            tables,
            id,
            budget,
            finished,
            after,
            after_tables,
        );
        assert(checked.0 == Ok::<(), Fault>(()));
        assert(checked.1@.frames =~= seq![FrameView { module_id: name, pc: 1, stack_size: 0 }]);
        // the closure is applied
        assert(checked.1.loaded(name) == start.loaded(name));
        assert(checked.1.program() == Some(module.program@));
        assert(checked.1.instruction() == Some(
            ByteCode::<L>::Primitive(1, Primitive::ClosureApply),
        ));
        let applied = checked.1.lemma_run_starts_with_step(
            checked.2,
            id,
            (budget - 1) as nat,
            finished,
            after,
            after_tables,
        );
        let scene = checked.1.operands(1, checked.2, id);
        assert(scene.argument(0) == Ok::<Address, Fault>(closure));
        let read = scene.read(closure).unwrap().1;
        tables.lemma_inspect_keeps_resolution(id, closure, id, closure);
        let pack = read.tables.next_address(id);
        let packed = read.allocate(Shape::List(found.capture_list)).unwrap().1;
        read.tables.lemma_allocate_then_resolve(id, Shape::List(found.capture_list), closure);
        let dispatch = packed.tables.next_address(id);
        let done = packed.allocate(Shape::Dispatch(found.dispatch)).unwrap().1;
        packed.tables.lemma_allocate_then_resolve(id, Shape::Dispatch(found.dispatch), pack);
        packed.tables.lemma_allocate_then_resolve(id, Shape::Dispatch(found.dispatch), closure);
        assert(applied.0 == Ok::<(), Fault>(()));
        assert(applied.1@.stack =~= seq![closure, pack, dispatch]);
        assert(applied.1@.frames =~= seq![FrameView { module_id: name, pc: 2, stack_size: 0 }]);
        assert(applied.2 == done.tables);
        if tables.serials_spent() {
            tables.lemma_serials_stay_spent(id, closure, Shape::True, Seq::empty(), Set::empty());
            read.tables.lemma_allocate_is_fresh(id, Shape::List(found.capture_list));
            read.tables.lemma_resolved_is_not_next(id, closure, id);
            packed.tables.lemma_allocate_is_fresh(id, Shape::Dispatch(found.dispatch));
            packed.tables.lemma_resolved_is_not_next(id, closure, id);
            done.tables.lemma_serials_stay_spent(
                id,
                dispatch,
                Shape::True,
                Seq::empty(),
                Set::empty(),
            );
        }
        // the dispatch is called
        assert(applied.1.loaded(name) == checked.1.loaded(name));
        assert(applied.1.program() == Some(module.program@));
        assert(applied.1.instruction() == Some(ByteCode::<L>::Call(1)));
        let called = applied.1.lemma_run_starts_with_step(
            applied.2,
            id,
            (budget - 2) as nat,
            finished,
            after,
            after_tables,
        );
        assert(applied.1.loaded(found.dispatch.module_id) == start.loaded(
            found.dispatch.module_id,
        )) by {
            assert(checked.1.loaded(found.dispatch.module_id) == start.loaded(
                found.dispatch.module_id,
            ));
        }
        assert(applied.1.resolve(found.dispatch) == Ok::<usize, Fault>(entry));
        assert(called.0 == Ok::<(), Fault>(()));
        assert(called.1@.stack =~= seq![closure, pack]);
        assert(called.1@.frames =~= seq![
            FrameView { module_id: name, pc: 3, stack_size: 1 },
            FrameView { module_id: found.dispatch.module_id, pc: entry as nat, stack_size: 1 },
        ]);
        done.tables.lemma_inspect_keeps_resolution(id, dispatch, id, pack);
        done.tables.lemma_inspect_keeps_resolution(id, dispatch, id, closure);
        assert forall|name: Seq<char>| #[trigger] called.1.loaded(name) == start.loaded(name) by {
            assert(checked.1.loaded(name) == start.loaded(name));
            assert(applied.1.loaded(name) == checked.1.loaded(name));
            assert(called.1.loaded(name) == applied.1.loaded(name));
        }
        (called.1, called.2)
    }
}

impl<L: EnumerateReference> Runner<L> {
    /// A poll of a registered thread that has a task to fetch, by a runner
    /// that has the poll routine loaded, is a run from where `begun` says,
    /// ended as `resumes_to` says. The result names the interpreter at the
    /// start of the run, how the run finished, and the interpreter and the
    /// tables at its end.
    pub proof fn lemma_poll_is_a_run(
        &self,
        portal: PortalView,
        tables: Tables<L>,
        thread: ThreadId,
        budget: nat,
        poll: Result<Poll, Fault>,
        after: &Interpreter<L>,
        after_portal: PortalView,
        after_tables: Tables<L>,
    ) -> (run: (Interpreter<L>, Result<bool, Fault>, Interpreter<L>, Tables<L>))
        requires
            portal.knows(thread),
            portal.source(thread) is Some,
            self.begun(portal.peers[portal.source(thread).unwrap()].poll_list.last()).0 is Ok,
            self.polls_to(portal, tables, thread, budget, poll, after, after_portal, after_tables),
        ensures
            ({
                let task = portal.peers[portal.source(thread).unwrap()].poll_list.last();
                &&& run.0@ == self.begun(task).1
                &&& run.0.same_modules(&self.interpreter())
                &&& run.0.runs_to(tables.spawned(task.0), task.0, budget, run.1, &run.2, run.3)
                &&& after.same_modules(&run.2)
                &&& match run.1 {
                    Err(fault) => {
                        &&& poll == Err::<Poll, Fault>(fault)
                        &&& after@ == run.2@
                        &&& after_portal == portal.fetched(thread)
                        &&& after_tables == run.3
                    },
                    Ok(false) => {
                        &&& poll == Ok::<Poll, Fault>(Poll::Unfinished(task))
                        &&& after@ == run.2@
                        &&& after_portal == portal.fetched(thread)
                        &&& after_tables == run.3
                    },
                    Ok(true) => {
                        &&& after@ == (Machine { stack: Seq::empty(), frames: Seq::empty() })
                        &&& (poll, after_portal, after_tables) == Self::finished(
                            run.2@.stack,
                            portal.fetched(thread),
                            run.3,
                            thread,
                            task,
                        )
                    },
                }
            }),
    {
        let task = portal.peers[portal.source(thread).unwrap()].poll_list.last();
        let fetched = portal.fetched(thread);
        let spawned = tables.spawned(task.0);
        let start = choose|start: Interpreter<L>|
            #![trigger start.same_modules(&self.interpreter())]
            start@ == self.begun(task).1 && start.same_modules(&self.interpreter())
                && Self::resumes_to(
                &start,
                fetched,
                spawned,
                thread,
                task,
                budget,
                poll,
                after,
                after_portal,
                after_tables,
            );
        let (finished, ran, ran_tables) = choose|
            finished: Result<bool, Fault>,
            ran: Interpreter<L>,
            ran_tables: Tables<L>,
        |
            #![trigger start.runs_to(spawned, task.0, budget, finished, &ran, ran_tables)]
            start.runs_to(spawned, task.0, budget, finished, &ran, ran_tables) && after.same_modules(
                &ran,
            ) && match finished {
                Err(fault) => {
                    &&& poll == Err::<Poll, Fault>(fault)
                    &&& after@ == ran@
                    &&& after_portal == fetched
                    &&& after_tables == ran_tables
                },
                Ok(false) => {
                    &&& poll == Ok::<Poll, Fault>(Poll::Unfinished(task))
                    &&& after@ == ran@
                    &&& after_portal == fetched
                    &&& after_tables == ran_tables
                },
                Ok(true) => {
                    &&& after@ == (Machine { stack: Seq::empty(), frames: Seq::empty() })
                    &&& (poll, after_portal, after_tables) == Self::finished(
                        ran@.stack,
                        fetched,
                        ran_tables,
                        thread,
                        task,
                    )
                },
            };
        (start, finished, ran, ran_tables)
    }
}

} // verus!
