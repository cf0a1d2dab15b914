use vstd::prelude::*;

verus! {

/// The fatal conditions of the runtime. Each one ends the current task; none
/// is recovered from inside the runtime.
#[derive(Debug, Clone, Copy, PartialEq, Eq, Structural)]
pub enum Fault {
    /// An object does not have the shape that the operation expects.
    Downcast,
    /// An address is held by no table that the lookup consults.
    Missing,
    /// No heap exists for the task.
    NoHeap,
    /// The task's heap has handed out its last serial number.
    Exhausted,
    /// The outgoing object of a replacement is still shared.
    Aliased,
    /// The variable stack holds fewer entries than the operation consumes.
    StackUnderflow,
    /// The number of floating variables differs from the asserted one.
    AssertFloating,
    /// The variable tested by a jump is neither `True` nor `False`.
    JumpNonBoolean,
    /// The target of a jump lies outside the program of the module.
    JumpRange,
    /// No module is loaded under the identifier of a dispatch.
    UnknownModule,
    /// The module of a dispatch does not export the symbol.
    UnknownSymbol,
    /// A step was asked for while the call stack was empty.
    NoFrame,
    /// The program counter has run past the end of the program.
    ProgramEnd,
    /// The scheduler has no peer under the identifier of a thread.
    UnknownThread,
    /// A poll has ended with something else than the flag and the slot, or
    /// with a slot that is neither `Pending` nor a `Ready`.
    BadPoll,
}

} // verus!
