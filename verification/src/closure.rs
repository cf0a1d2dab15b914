use crate::collector::{Address, EnumerateReference, Owned};
use crate::fault::Fault;
use crate::interpreter::{ByteCode, Context, OperateContext, Operator, Scene};
use crate::objects::{copy_addresses, Closure, ClosureView, List, Object, Ready, Shape};
use vstd::prelude::*;

verus! {

impl<L: EnumerateReference> Scene<L> {
    /// What `Ready::operate_new` does: it wraps argument 0 in a `Ready` and
    /// pushes the address of that.
    pub open spec fn ready_new(self) -> (Result<(), Fault>, Self) {
        match self.argument(0) {
            Err(fault) => (Err(fault), self),
            Ok(value) => self.produce(Shape::Ready(value)),
        }
    }

    /// What `Closure::operate_new` does: argument 0 is a `ClosureMeta`; the
    /// arguments that follow it, as many as it says, become the capture
    /// list of a new closure with its dispatch, whose address is pushed.
    pub open spec fn closure_new(self) -> (Result<(), Fault>, Self) {
        match self.argument(0) {
            Err(fault) => (Err(fault), self),
            Ok(meta) => match self.read(meta) {
                Err(fault) => (Err(fault), self),
                Ok((Shape::ClosureMeta(meta), next)) => if next.offset + meta.n_capture
                    >= next.stack.len() {
                    (Err(Fault::StackUnderflow), next)
                } else {
                    next.produce(
                        Shape::Closure(
                            ClosureView {
                                dispatch: meta.dispatch,
                                capture_list: next.arguments(1, 1 + meta.n_capture as int),
                            },
                        ),
                    )
                },
                Ok((_, next)) => (Err(Fault::Downcast), next),
            },
        }
    }

    /// What `Closure::operate_apply` does: argument 0 is a closure; a list
    /// of its captures is allocated, then its dispatch, and the two
    /// addresses are pushed in that order.
    pub open spec fn closure_apply(self) -> (Result<(), Fault>, Self) {
        match self.argument(0) {
            Err(fault) => (Err(fault), self),
            Ok(closure) => match self.read(closure) {
                Err(fault) => (Err(fault), self),
                Ok((Shape::Closure(closure), next)) => match next.allocate(
                    Shape::List(closure.capture_list),
                ) {
                    Err(fault) => (Err(fault), next),
                    Ok((pack, packed)) => match packed.allocate(Shape::Dispatch(closure.dispatch)) {
                        Err(fault) => (Err(fault), packed),
                        Ok((dispatch, done)) => (Ok(()), done.push(pack).push(dispatch)),
                    },
                },
                Ok((_, next)) => (Err(Fault::Downcast), next),
            },
        }
    }

    /// How the closure at `closure` gets the list at `pack` as its capture
    /// list. The list is read; the closure is taken out of its place, where
    /// an `Intermediate` stands meanwhile, and put back with the new
    /// captures. What is not a closure is put back as it was, and the fault
    /// is `Downcast`. `first` and `second` say whether the object that each
    /// of the two replacements took out had one handle only.
    pub open spec fn checkpoint(
        self,
        closure: Address,
        pack: Address,
        first: bool,
        second: bool,
    ) -> (Result<(), Fault>, Self) {
        match self.read(pack) {
            Err(fault) => (Err(fault), self),
            Ok((Shape::List(items), next)) => match next.replace(
                closure,
                Shape::Intermediate,
                first,
            ) {
                Err(fault) => (Err(fault), next),
                Ok((Shape::Closure(previous), taken)) => match taken.replace(
                    closure,
                    Shape::Closure(ClosureView { capture_list: items, ..previous }),
                    second,
                ) {
                    Err(fault) => (Err(fault), taken),
                    Ok((_, done)) => (Ok(()), done),
                },
                Ok((previous, taken)) => match taken.replace(closure, previous, second) {
                    Err(fault) => (Err(fault), taken),
                    Ok((_, restored)) => (Err(Fault::Downcast), restored),
                },
            },
            Ok((_, next)) => (Err(Fault::Downcast), next),
        }
    }

    /// What `Closure::operate_capture` does: the closure at argument 0 gets
    /// the list at argument 1 as its capture list, as `checkpoint` says.
    pub open spec fn closure_capture(self, first: bool, second: bool) -> (Result<(), Fault>, Self) {
        match self.argument(0) {
            Err(fault) => (Err(fault), self),
            Ok(closure) => match self.argument(1) {
                Err(fault) => (Err(fault), self),
                Ok(pack) => self.checkpoint(closure, pack, first, second),
            },
        }
    }

    /// What `Closure::operate_poll` does with the closure at argument 0,
    /// the poll slot at argument 1 and the list at argument 2. Where the
    /// slot holds `Pending`, the closure gets the list as its capture list,
    /// as `checkpoint` says, and the address of a `False` is pushed. Where
    /// it holds a `Ready`, the slot keeps it and the address of a `True` is
    /// pushed.
    pub open spec fn closure_poll(self, first: bool, second: bool) -> (Result<(), Fault>, Self) {
        match self.argument(0) {
            Err(fault) => (Err(fault), self),
            Ok(closure) => match self.argument(1) {
                Err(fault) => (Err(fault), self),
                Ok(slot) => match self.argument(2) {
                    Err(fault) => (Err(fault), self),
                    Ok(pack) => match self.read(slot) {
                        Err(fault) => (Err(fault), self),
                        Ok((Shape::Pending, next)) => {
                            let (done, after) = next.checkpoint(closure, pack, first, second);
                            if done is Ok {
                                after.produce(Shape::False)
                            } else {
                                (done, after)
                            }
                        },
                        Ok((Shape::Ready(_), next)) => next.produce(Shape::True),
                        Ok((_, next)) => (Err(Fault::Downcast), next),
                    },
                },
            },
        }
    }
}

/// Allocates the object and pushes its address as a result.
pub fn produce<L: EnumerateReference>(context: &mut Context<L>, object: Object<L>) -> (done: Result<
    (),
    Fault,
>)
    requires
        old(context).wf(),
    ensures
        final(context).wf(),
        final(context).extends(old(context)),
        (done, final(context).scene()) == old(context).scene().produce(object@),
{
    match context.allocate(Owned::new(object)) {
        Err(fault) => Err(fault),
        Ok(address) => {
            context.push_result(address);
            Ok(())
        },
    }
}

/// Gives the closure at `closure` the list at `pack` as its capture list.
fn checkpoint<L: EnumerateReference>(context: &mut Context<L>, closure: Address, pack: Address) -> (done:
    Result<(), Fault>)
    requires
        old(context).wf(),
    ensures
        final(context).wf(),
        final(context).same_stack(old(context)),
        exists|first: bool, second: bool|
            (done, final(context).scene()) == #[trigger] old(context).scene().checkpoint(
                closure,
                pack,
                first,
                second,
            ),
{
    let ghost start = context.scene();
    let items = match context.inspect(pack) {
        Err(fault) => {
            assert((Err::<(), Fault>(fault), context.scene()) == start.checkpoint(
                closure,
                pack,
                true,
                true,
            ));
            return Err(fault);
        },
        Ok(shared) => match shared.object() {
            Object::List(list) => copy_addresses(list.0.as_slice()),
            _ => {
                assert((Err::<(), Fault>(Fault::Downcast), context.scene()) == start.checkpoint(
                    closure,
                    pack,
                    true,
                    true,
                ));
                return Err(Fault::Downcast);
            },
        },
    };
    let previous = match context.replace(closure, Owned::new(Object::Intermediate)) {
        Err(fault) => {
            assert((Err::<(), Fault>(fault), context.scene()) == start.checkpoint(
                closure,
                pack,
                fault != Fault::Aliased,
                true,
            ));
            return Err(fault);
        },
        Ok(previous) => previous,
    };
    let (updated, closed): (Object<L>, bool) = match previous.into_object() {
        Object::Closure(previous) => (
            Object::Closure(Closure { dispatch: previous.dispatch, capture_list: items }),
            true,
        ),
        other => (other, false),
    };
    match context.replace(closure, Owned::new(updated)) {
        Err(fault) => {
            assert((Err::<(), Fault>(fault), context.scene()) == start.checkpoint(
                closure,
                pack,
                true,
                fault != Fault::Aliased,
            ));
            Err(fault)
        },
        Ok(_) => {
            if closed {
                assert((Ok::<(), Fault>(()), context.scene()) == start.checkpoint(
                    closure,
                    pack,
                    true,
                    true,
                ));
                Ok(())
            } else {
                assert((Err::<(), Fault>(Fault::Downcast), context.scene()) == start.checkpoint(
                    closure,
                    pack,
                    true,
                    true,
                ));
                Err(Fault::Downcast)
            }
        },
    }
}

impl Ready {
    /// Operator with one argument and one result: a `Ready` that wraps the
    /// argument.
    pub fn operate_new<L: EnumerateReference>(context: &mut Context<L>) -> (done: Result<(), Fault>)
        requires
            old(context).wf(),
        ensures
            final(context).wf(),
            final(context).extends(old(context)),
            (done, final(context).scene()) == old(context).scene().ready_new(),
    {
        let value = match context.get_argument(0) {
            Err(fault) => {
                return Err(fault);
            },
            Ok(value) => value,
        };
        produce(context, Object::Ready(Ready(value)))
    }
}

impl Closure {
    /// Operator that builds a closure. Argument 0 is a `ClosureMeta`, the
    /// arguments that follow are the variables to capture, as many as the
    /// `ClosureMeta` says. The one result is the closure.
    pub fn operate_new<L: EnumerateReference>(context: &mut Context<L>) -> (done: Result<(), Fault>)
        requires
            old(context).wf(),
        ensures
            final(context).wf(),
            final(context).extends(old(context)),
            (done, final(context).scene()) == old(context).scene().closure_new(),
    {
        let meta = match context.get_argument(0) {
            Err(fault) => {
                return Err(fault);
            },
            Ok(meta) => meta,
        };
        let shared = match context.inspect(meta) {
            Err(fault) => {
                return Err(fault);
            },
            Ok(shared) => shared,
        };
        let (dispatch, n_capture) = match shared.object() {
            Object::ClosureMeta(meta) => (meta.dispatch.duplicate(), meta.n_capture),
            _ => {
                return Err(Fault::Downcast);
            },
        };
        let ghost next = context.scene();
        let ghost start = old(context).scene();
        let mut capture_list: Vec<Address> = Vec::new();
        let mut i: u8 = 0;
        while i < n_capture
            invariant
                i <= n_capture,
                context.wf(),
                context.scene() == next,
                context.extends(old(context)),
                start == old(context).scene(),
                start.argument(0) == Ok::<Address, Fault>(meta),
                start.read(meta) matches Ok((Shape::ClosureMeta(found), after)) && after == next
                    && found.n_capture == n_capture && found.dispatch == dispatch@,
                capture_list@ == next.arguments(1, 1 + i),
                next.offset + i < next.stack.len(),
            decreases n_capture - i,
        {
            match context.get_argument(i + 1) {
                Err(fault) => {
                    return Err(fault);
                },
                Ok(capture) => {
                    capture_list.push(capture);
                    proof {
                        assert(next.arguments(1, 1 + i + 1) =~= next.arguments(1, 1 + i).push(
                            capture,
                        ));
                    }
                },
            }
            i += 1;
        }
        produce(context, Object::Closure(Closure { dispatch, capture_list }))
    }

    /// Operator that prepares a call of a closure. Argument 0 is the
    /// closure. The two results are a `List` of its captures and, on top,
    /// its `Dispatch`.
    pub fn operate_apply<L: EnumerateReference>(context: &mut Context<L>) -> (done: Result<(), Fault>)
        requires
            old(context).wf(),
        ensures
            final(context).wf(),
            final(context).extends(old(context)),
            (done, final(context).scene()) == old(context).scene().closure_apply(),
    {
        let closure = match context.get_argument(0) {
            Err(fault) => {
                return Err(fault);
            },
            Ok(closure) => closure,
        };
        let shared = match context.inspect(closure) {
            Err(fault) => {
                return Err(fault);
            },
            Ok(shared) => shared,
        };
        let (dispatch, capture_list) = match shared.object() {
            Object::Closure(closure) => (
                closure.dispatch.duplicate(),
                copy_addresses(closure.capture_list.as_slice()),
            ),
            _ => {
                return Err(Fault::Downcast);
            },
        };
        let pack = match context.allocate(Owned::new(Object::List(List(capture_list)))) {
            Err(fault) => {
                return Err(fault);
            },
            Ok(pack) => pack,
        };
        let dispatch = match context.allocate(Owned::new(Object::Dispatch(dispatch))) {
            Err(fault) => {
                return Err(fault);
            },
            Ok(dispatch) => dispatch,
        };
        context.push_result(pack);
        context.push_result(dispatch);
        Ok(())
    }

    /// Operator without result that changes what a closure has captured.
    /// Argument 0 is the closure, argument 1 a `List` of the new captures.
    /// Each of the two replacements that it makes fails with `Aliased` if
    /// a second handle exists on the object that it takes out.
    pub fn operate_capture<L: EnumerateReference>(context: &mut Context<L>) -> (done: Result<
        (),
        Fault,
    >)
        requires
            old(context).wf(),
        ensures
            final(context).wf(),
            final(context).extends(old(context)),
            exists|first: bool, second: bool|
                (done, final(context).scene()) == #[trigger] old(context).scene().closure_capture(
                    first,
                    second,
                ),
    {
        let ghost start = context.scene();
        let closure = match context.get_argument(0) {
            Err(fault) => {
                assert((Err::<(), Fault>(fault), context.scene()) == start.closure_capture(
                    true,
                    true,
                ));
                return Err(fault);
            },
            Ok(closure) => closure,
        };
        let pack = match context.get_argument(1) {
            Err(fault) => {
                assert((Err::<(), Fault>(fault), context.scene()) == start.closure_capture(
                    true,
                    true,
                ));
                return Err(fault);
            },
            Ok(pack) => pack,
        };
        let done = checkpoint(context, closure, pack);
        proof {
            let (first, second) = choose|first: bool, second: bool|
                (done, context.scene()) == #[trigger] start.checkpoint(
                    closure,
                    pack,
                    first,
                    second,
                );
            assert((done, context.scene()) == start.closure_capture(first, second));
        }
        done
    }

    /// Operator that ends a poll of a coroutine. Argument 0 is the closure
    /// of the coroutine, argument 1 the poll slot, argument 2 a `List` of
    /// the variables to resume with. On `Pending` in the slot the closure
    /// gets the list as its capture list and the result is a `False`; on a
    /// `Ready` the slot keeps it and the result is a `True`.
    pub fn operate_poll<L: EnumerateReference>(context: &mut Context<L>) -> (done: Result<(), Fault>)
        requires
            old(context).wf(),
        ensures
            final(context).wf(),
            final(context).extends(old(context)),
            exists|first: bool, second: bool|
                (done, final(context).scene()) == #[trigger] old(context).scene().closure_poll(
                    first,
                    second,
                ),
    {
        let ghost start = context.scene();
        let closure = match context.get_argument(0) {
            Err(fault) => {
                assert((Err::<(), Fault>(fault), context.scene()) == start.closure_poll(true, true));
                return Err(fault);
            },
            Ok(closure) => closure,
        };
        let slot = match context.get_argument(1) {
            Err(fault) => {
                assert((Err::<(), Fault>(fault), context.scene()) == start.closure_poll(true, true));
                return Err(fault);
            },
            Ok(slot) => slot,
        };
        let pack = match context.get_argument(2) {
            Err(fault) => {
                assert((Err::<(), Fault>(fault), context.scene()) == start.closure_poll(true, true));
                return Err(fault);
            },
            Ok(pack) => pack,
        };
        let pending = match context.inspect(slot) {
            Err(fault) => {
                assert((Err::<(), Fault>(fault), context.scene()) == start.closure_poll(true, true));
                return Err(fault);
            },
            Ok(shared) => match shared.object() {
                Object::Pending => true,
                Object::Ready(_) => false,
                _ => {
                    assert((Err::<(), Fault>(Fault::Downcast), context.scene())
                        == start.closure_poll(true, true));
                    return Err(Fault::Downcast);
                },
            },
        };
        let ghost next = context.scene();
        if pending {
            let done = checkpoint(context, closure, pack);
            let ghost (first, second) = choose|first: bool, second: bool|
                (done, context.scene()) == #[trigger] next.checkpoint(closure, pack, first, second);
            if done.is_err() {
                assert((done, context.scene()) == start.closure_poll(first, second));
                return done;
            }
            let done = produce(context, Object::False);
            assert((done, context.scene()) == start.closure_poll(first, second));
            done
        } else {
            let done = produce(context, Object::True);
            assert((done, context.scene()) == start.closure_poll(true, true));
            done
        }
    }
}

/// The operators of the runtime, to be run through `Operate`.
#[derive(Debug, Clone, Copy, PartialEq, Eq)]
pub enum Primitive {
    /// `Closure::operate_new`
    ClosureNew,
    /// `Closure::operate_apply`
    ClosureApply,
    /// `Closure::operate_capture`
    ClosureCapture,
    /// `Closure::operate_poll`
    ClosurePoll,
    /// `Ready::operate_new`
    ReadyNew,
}

impl Primitive {
    /// The instruction that runs the operator on the top `n` variables.
    pub fn instruction<L: EnumerateReference>(self, n: u8) -> (instruction: ByteCode<L>)
        ensures
            instruction == ByteCode::<L>::Primitive(n, self),
    {
        ByteCode::Primitive(n, self)
    }
}

impl<L: EnumerateReference> Operator<L> for Primitive {
    /// Each operator does what the function of its name does.
    open spec fn effect(&self, before: Scene<L>, done: Result<(), Fault>, after: Scene<L>) -> bool {
        match self {
            Primitive::ClosureNew => (done, after) == before.closure_new(),
            Primitive::ClosureApply => (done, after) == before.closure_apply(),
            Primitive::ClosureCapture => exists|first: bool, second: bool|
                (done, after) == #[trigger] before.closure_capture(first, second),
            Primitive::ClosurePoll => exists|first: bool, second: bool|
                (done, after) == #[trigger] before.closure_poll(first, second),
            Primitive::ReadyNew => (done, after) == before.ready_new(),
        }
    }

    fn operate(&self, context: &mut Context<L>) -> (done: Result<(), Fault>) {
        match self {
            Primitive::ClosureNew => Closure::operate_new(context),
            Primitive::ClosureApply => Closure::operate_apply(context),
            Primitive::ClosureCapture => Closure::operate_capture(context),
            Primitive::ClosurePoll => Closure::operate_poll(context),
            Primitive::ReadyNew => Ready::operate_new(context),
        }
    }
}

impl<L: EnumerateReference> Scene<L> {
    /// Building a closure and then applying it hands out what went in.
    /// Where `operate_new` has built a closure from a `ClosureMeta` and the
    /// captures that follow it, and `operate_apply` then runs on that
    /// closure alone, it pushes the address of a list that holds those
    /// captures in their order, and on top of it the address of the
    /// dispatch of the `ClosureMeta`.
    pub proof fn lemma_apply_of_new(self, meta: crate::objects::ClosureMetaView)
        requires
            self.argument(0) matches Ok(address) && self.tables.resolve(self.task, address)
                == Some(Shape::<L>::ClosureMeta(meta)),
            self.closure_new().0 is Ok,
            (Scene {
                offset: self.stack.len(),
                ..self.closure_new().1
            }).closure_apply().0 is Ok,
        ensures
            ({
                let built = self.closure_new().1;
                let applied = (Scene { offset: self.stack.len(), ..built }).closure_apply().1;
                let pack = applied.stack[applied.stack.len() - 2];
                let dispatch = applied.stack[applied.stack.len() - 1];
                &&& built.stack.len() == self.stack.len() + 1
                &&& applied.stack.len() == self.stack.len() + 3
                &&& applied.stack.take(built.stack.len() as int) == built.stack
                &&& applied.tables.resolve(self.task, pack) == Some(
                    Shape::<L>::List(self.arguments(1, 1 + meta.n_capture as int)),
                )
                &&& applied.tables.resolve(self.task, dispatch) == Some(
                    Shape::<L>::Dispatch(meta.dispatch),
                )
            }),
    {
        let address = self.argument(0).unwrap();
        let read = self.read(address).unwrap().1;
        let captures = self.arguments(1, 1 + meta.n_capture as int);
        let closure = Shape::<L>::Closure(
            ClosureView { dispatch: meta.dispatch, capture_list: captures },
        );
        assert(read.arguments(1, 1 + meta.n_capture as int) == captures);
        let at = read.tables.next_address(self.task);
        let built = self.closure_new().1;
        assert(built.stack == self.stack.push(at));
        read.tables.lemma_allocate_then_resolve(self.task, closure, at);
        let applying = Scene { offset: self.stack.len(), ..built };
        assert(applying.argument(0) == Ok::<Address, Fault>(at));
        let seen = applying.read(at).unwrap().1;
        assert(seen.tables == built.tables);
        let pack = seen.tables.next_address(self.task);
        let packed = seen.allocate(Shape::List(captures)).unwrap().1;
        let dispatch = packed.tables.next_address(self.task);
        let done = packed.allocate(Shape::Dispatch(meta.dispatch)).unwrap().1;
        seen.tables.lemma_allocate_then_resolve(self.task, Shape::List(captures), pack);
        packed.tables.lemma_allocate_then_resolve(self.task, Shape::Dispatch(meta.dispatch), pack);
        let applied = applying.closure_apply().1;
        assert(applied.stack == built.stack.push(pack).push(dispatch));
        assert(applied.stack.take(built.stack.len() as int) =~= built.stack);
    }
}

impl<L: EnumerateReference> Scene<L> {
    /// What `operate_poll` has done where it did not fail, run on exactly
    /// three arguments while serial numbers are spent. The stack has one
    /// more variable, a `True` where the slot holds a `Ready` and a `False`
    /// where it holds `Pending`, and the slot holds what it held. On
    /// `Pending` the closure has the items of the list as its capture list.
    /// On a `Ready` the operator does not fail while the heap of the task
    /// can allocate.
    pub proof fn lemma_poll_decides(self, first: bool, second: bool)
        requires
            self.stack.len() == self.offset + 3,
            self.tables.serials_spent(),
            self.tables.live(self.task),
            self.tables.resolve(self.task, self.stack[self.offset as int + 1]) matches Some(found) && (
            found is Pending || found is Ready),
        ensures
            ({
                let (done, after) = self.closure_poll(first, second);
                let closure = self.stack[self.offset as int];
                let slot = self.stack[self.offset as int + 1];
                let pack = self.stack[self.offset as int + 2];
                let found = self.tables.resolve(self.task, slot).unwrap();
                &&& (found is Ready && self.tables.can_allocate(self.task)) ==> done is Ok
                &&& done is Ok ==> {
                    &&& after.stack.len() == self.stack.len() + 1
                    &&& after.stack.take(self.stack.len() as int) == self.stack
                    &&& after.offset == self.offset
                    &&& after.task == self.task
                    &&& after.tables.live(self.task)
                    &&& after.tables.serials_spent()
                    &&& after.tables.resolve(self.task, slot) == Some(found)
                    &&& after.tables.resolve(self.task, after.stack.last()) == Some(
                        if found is Ready {
                            Shape::<L>::True
                        } else {
                            Shape::<L>::False
                        },
                    )
                    &&& found is Pending ==> {
                        let items = self.tables.resolve(self.task, pack).unwrap()->List_0;
                        let previous = self.tables.heaps[closure.0].storage[closure]->Closure_0;
                        &&& self.tables.resolve(self.task, pack) == Some(Shape::<L>::List(items))
                        &&& self.tables.holds(closure.0, closure)
                        &&& self.tables.heaps[closure.0].storage[closure] == Shape::<L>::Closure(
                            previous,
                        )
                        &&& after.tables.holds(closure.0, closure)
                        &&& after.tables.heaps[closure.0].storage[closure] == Shape::<L>::Closure(
                            ClosureView { capture_list: items, ..previous },
                        )
                    }
                }
            }),
    {
        let (done, after) = self.closure_poll(first, second);
        let closure = self.stack[self.offset as int];
        let slot = self.stack[self.offset as int + 1];
        let pack = self.stack[self.offset as int + 2];
        let found = self.tables.resolve(self.task, slot).unwrap();
        let id = self.task;
        assert(self.argument(0) == Ok::<Address, Fault>(closure));
        assert(self.argument(1) == Ok::<Address, Fault>(slot));
        assert(self.argument(2) == Ok::<Address, Fault>(pack));
        let next = self.read(slot).unwrap().1;
        self.tables.lemma_serials_stay_spent(id, slot, Shape::True, Seq::empty(), Set::empty());
        assert(next.tables.serials_spent());
        self.tables.lemma_inspect_keeps_resolution(id, slot, id, slot);
        assert(next.tables.resolve(id, slot) == Some(found));
        if found is Ready {
            if next.tables.can_allocate(id) {
                let flag = next.tables.next_address(id);
                next.tables.lemma_resolved_is_not_next(id, slot, id);
                next.tables.lemma_allocate_is_fresh(id, Shape::True);
                next.tables.lemma_allocate_then_resolve(id, Shape::True, slot);
                assert(after.stack == self.stack.push(flag));
                assert(after.stack.take(self.stack.len() as int) =~= self.stack);
            }
        } else {
            let (checked, kept) = next.checkpoint(closure, pack, first, second);
            if checked is Ok {
                self.tables.lemma_inspect_keeps_resolution(id, slot, id, pack);
                let items = next.tables.resolve(id, pack).unwrap()->List_0;
                let read = next.read(pack).unwrap().1;
                next.tables.lemma_serials_stay_spent(
                    id,
                    pack,
                    Shape::True,
                    Seq::empty(),
                    Set::empty(),
                );
                next.tables.lemma_inspect_keeps_resolution(id, pack, id, slot);
                assert(read.tables.resolve(id, slot) == Some(found));
                let previous = read.tables.heaps[closure.0].storage[closure]->Closure_0;
                let taken = read.replace(closure, Shape::Intermediate, first).unwrap().1;
                read.tables.lemma_serials_stay_spent(
                    id,
                    closure,
                    Shape::Intermediate,
                    Seq::empty(),
                    Set::empty(),
                );
                let updated = Shape::<L>::Closure(
                    ClosureView { capture_list: items, ..previous },
                );
                taken.tables.lemma_serials_stay_spent(
                    id,
                    closure,
                    updated,
                    Seq::empty(),
                    Set::empty(),
                );
                assert(kept == taken.replace(closure, updated, second).unwrap().1);
                assert(kept.tables.serials_spent());
                assert(kept.tables.resolve(id, slot) == Some(found));
                assert(kept.tables.holds(closure.0, closure));
                assert(kept.tables.live(id));
                if kept.tables.can_allocate(id) {
                    let flag = kept.tables.next_address(id);
                    kept.tables.lemma_resolved_is_not_next(id, slot, id);
                    kept.tables.lemma_resolved_is_not_next(closure.0, closure, id);
                    kept.tables.lemma_allocate_is_fresh(id, Shape::False);
                    kept.tables.lemma_allocate_then_resolve(id, Shape::False, slot);
                    assert(after.stack == self.stack.push(flag));
                    assert(after.stack.take(self.stack.len() as int) =~= self.stack);
                    assert(self.tables.holds(closure.0, closure));
                    assert(self.tables.heaps[closure.0].storage[closure] == Shape::<L>::Closure(
                        previous,
                    ));
                }
            }
        }
    }
}

} // verus!
