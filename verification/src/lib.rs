//! A small runtime for a dynamically typed bytecode language built around
//! closures and poll-style coroutines: a multi-heap copying collector, a
//! stack interpreter, the closure primitives, and a cooperative scheduler.

pub mod closure;
pub mod collector;
pub mod fault;
pub mod interpreter;
pub mod objects;
pub mod portal;
pub mod runner;
pub mod tables;

use crate::objects::{Object, Shape};
use vstd::prelude::*;

verus! {

/// Identity of a schedulable task; also names the task's heap.
pub type TaskId = u32;

/// What the shapes of the runtime have in common: each can become a heap
/// value, and a heap value can be asked whether it is of the shape.
pub trait GeneralInterface<L>: Sized {
    /// The heap value that this one becomes.
    spec fn shape(&self) -> Shape<L>;

    /// Makes a heap value of this one.
    fn upcast(self) -> (object: Object<L>)
        ensures
            object@ == self.shape(),
    ;

    /// This shape's view of a heap value, if the value has the shape.
    fn downcast(object: &Object<L>) -> (value: Option<&Self>)
        ensures
            value matches Some(value) ==> value.shape() == object@,
    ;
}

} // verus!
