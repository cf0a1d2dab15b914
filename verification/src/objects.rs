use crate::collector::{Address, EnumerateReference};
use crate::GeneralInterface;
use vstd::prelude::*;

verus! {

/// Name under which a module is loaded.
pub type ModuleId = String;

/// Copies a list of addresses.
pub fn copy_addresses(list: &[Address]) -> (copy: Vec<Address>)
    ensures
        copy@ == list@,
{
    let mut copy: Vec<Address> = Vec::new();
    let mut i: usize = 0;
    while i < list.len()
        invariant
            i <= list.len(),
            copy@ == list@.take(i as int),
        decreases list.len() - i,
    {
        copy.push(list[i]);
        proof {
            assert(list@.take(i + 1) =~= list@.take(i as int).push(list@[i as int]));
        }
        i += 1;
    }
    proof {
        assert(list@.take(list@.len() as int) =~= list@);
    }
    copy
}

/// Placeholder that occupies a slot while its object is taken out to be
/// changed. It holds no references.
#[derive(Debug, Clone, Copy, PartialEq, Eq)]
pub struct Intermediate;

impl EnumerateReference for Intermediate {
    open spec fn references(&self) -> Seq<Address> {
        Seq::empty()
    }

    fn enumerate_reference(&self) -> (list: Vec<Address>) {
        Vec::new()
    }
}

/// Marker for objects without outbound references.
pub trait LeafObject {

}

impl<T: LeafObject> EnumerateReference for T {
    open spec fn references(&self) -> Seq<Address> {
        Seq::empty()
    }

    fn enumerate_reference(&self) -> (list: Vec<Address>) {
        Vec::new()
    }
}

/// The boolean marker on which a jump is taken.
#[derive(Debug, Clone, Copy, PartialEq, Eq)]
pub struct True;

impl LeafObject for True {

}

/// The boolean marker on which a jump falls through.
#[derive(Debug, Clone, Copy, PartialEq, Eq)]
pub struct False;

impl LeafObject for False {

}

/// An ordered sequence of addresses.
#[derive(Debug, Clone)]
pub struct List(pub Vec<Address>);

impl View for List {
    type V = Seq<Address>;

    open spec fn view(&self) -> Seq<Address> {
        self.0@
    }
}

impl EnumerateReference for List {
    open spec fn references(&self) -> Seq<Address> {
        self.0@
    }

    fn enumerate_reference(&self) -> (list: Vec<Address>) {
        copy_addresses(self.0.as_slice())
    }
}

/// What a `Dispatch` stands for in contracts.
pub struct DispatchView {
    pub module_id: Seq<char>,
    pub symbol: Seq<char>,
}

/// A named entry point: a symbol of a module.
#[derive(Debug, Clone)]
pub struct Dispatch {
    pub module_id: ModuleId,
    pub symbol: String,
}

impl View for Dispatch {
    type V = DispatchView;

    open spec fn view(&self) -> DispatchView {
        DispatchView { module_id: self.module_id@, symbol: self.symbol@ }
    }
}

impl LeafObject for Dispatch {

}

impl Dispatch {
    /// A second handle on the same entry point.
    pub fn duplicate(&self) -> (copy: Dispatch)
        ensures
            copy@ == self@,
    {
        Dispatch { module_id: self.module_id.clone(), symbol: self.symbol.clone() }
    }
}

/// What a `ClosureMeta` stands for in contracts.
pub struct ClosureMetaView {
    pub dispatch: DispatchView,
    pub n_capture: nat,
}

/// Bytecode literal that says how to build a closure: its entry point and
/// the number of variables it captures.
#[derive(Debug, Clone)]
pub struct ClosureMeta {
    pub dispatch: Dispatch,
    pub n_capture: u8,
}

impl View for ClosureMeta {
    type V = ClosureMetaView;

    open spec fn view(&self) -> ClosureMetaView {
        ClosureMetaView { dispatch: self.dispatch@, n_capture: self.n_capture as nat }
    }
}

impl LeafObject for ClosureMeta {

}

/// What a `Closure` stands for in contracts.
pub struct ClosureView {
    pub dispatch: DispatchView,
    pub capture_list: Seq<Address>,
}

/// A callable: an entry point together with the addresses it has captured.
#[derive(Debug, Clone)]
pub struct Closure {
    pub dispatch: Dispatch,
    pub capture_list: Vec<Address>,
}

impl View for Closure {
    type V = ClosureView;

    open spec fn view(&self) -> ClosureView {
        ClosureView { dispatch: self.dispatch@, capture_list: self.capture_list@ }
    }
}

impl EnumerateReference for Closure {
    open spec fn references(&self) -> Seq<Address> {
        self.capture_list@
    }

    fn enumerate_reference(&self) -> (list: Vec<Address>) {
        copy_addresses(self.capture_list.as_slice())
    }
}

/// Marker of a coroutine that has not completed.
#[derive(Debug, Clone, Copy, PartialEq, Eq)]
pub struct Pending;

impl LeafObject for Pending {

}

/// Marker of a coroutine that has completed with the value at the address.
#[derive(Debug, Clone, Copy, PartialEq, Eq)]
pub struct Ready(pub Address);

impl View for Ready {
    type V = Address;

    open spec fn view(&self) -> Address {
        self.0
    }
}

impl EnumerateReference for Ready {
    open spec fn references(&self) -> Seq<Address> {
        seq![self.0]
    }

    fn enumerate_reference(&self) -> (list: Vec<Address>) {
        let mut list: Vec<Address> = Vec::new();
        list.push(self.0);
        list
    }
}

/// What a heap value stands for in contracts: its shape and what the shape
/// holds. `Host` carries a value of the embedding program.
pub enum Shape<L> {
    Intermediate,
    True,
    False,
    List(Seq<Address>),
    Dispatch(DispatchView),
    ClosureMeta(ClosureMetaView),
    Closure(ClosureView),
    Pending,
    Ready(Address),
    Host(L),
}

impl<L: EnumerateReference> Shape<L> {
    /// The addresses that a value of this shape refers to, in order.
    pub open spec fn references(self) -> Seq<Address> {
        match self {
            Shape::List(list) => list,
            Shape::Closure(closure) => closure.capture_list,
            Shape::Ready(value) => seq![value],
            Shape::Host(host) => host.references(),
            _ => Seq::empty(),
        }
    }
}

/// A heap value: one of the shapes that the runtime interprets, or a value
/// of the embedding program.
#[derive(Debug, Clone)]
pub enum Object<L> {
    Intermediate,
    True,
    False,
    List(List),
    Dispatch(Dispatch),
    ClosureMeta(ClosureMeta),
    Closure(Closure),
    Pending,
    Ready(Ready),
    Host(L),
}

impl<L> View for Object<L> {
    type V = Shape<L>;

    open spec fn view(&self) -> Shape<L> {
        match self {
            Object::Intermediate => Shape::Intermediate,
            Object::True => Shape::True,
            Object::False => Shape::False,
            Object::List(list) => Shape::List(list@),
            Object::Dispatch(dispatch) => Shape::Dispatch(dispatch@),
            Object::ClosureMeta(meta) => Shape::ClosureMeta(meta@),
            Object::Closure(closure) => Shape::Closure(closure@),
            Object::Pending => Shape::Pending,
            Object::Ready(ready) => Shape::Ready(ready@),
            Object::Host(host) => Shape::Host(*host),
        }
    }
}

impl<L: EnumerateReference> EnumerateReference for Object<L> {
    open spec fn references(&self) -> Seq<Address> {
        self@.references()
    }

    fn enumerate_reference(&self) -> (list: Vec<Address>) {
        match self {
            Object::List(list) => list.enumerate_reference(),
            Object::Closure(closure) => closure.enumerate_reference(),
            Object::Ready(ready) => ready.enumerate_reference(),
            Object::Host(host) => host.enumerate_reference(),
            _ => Vec::new(),
        }
    }
}

impl<L> GeneralInterface<L> for Intermediate {
    open spec fn shape(&self) -> Shape<L> {
        Shape::Intermediate
    }

    fn upcast(self) -> (object: Object<L>) {
        Object::Intermediate
    }

    fn downcast(object: &Object<L>) -> (value: Option<&Self>)
        ensures
            value is Some == (object@ is Intermediate),
    {
        match object {
            Object::Intermediate => Some(&Intermediate),
            _ => None,
        }
    }
}

impl<L> GeneralInterface<L> for True {
    open spec fn shape(&self) -> Shape<L> {
        Shape::True
    }

    fn upcast(self) -> (object: Object<L>) {
        Object::True
    }

    fn downcast(object: &Object<L>) -> (value: Option<&Self>)
        ensures
            value is Some == (object@ is True),
    {
        match object {
            Object::True => Some(&True),
            _ => None,
        }
    }
}

impl<L> GeneralInterface<L> for False {
    open spec fn shape(&self) -> Shape<L> {
        Shape::False
    }

    fn upcast(self) -> (object: Object<L>) {
        Object::False
    }

    fn downcast(object: &Object<L>) -> (value: Option<&Self>)
        ensures
            value is Some == (object@ is False),
    {
        match object {
            Object::False => Some(&False),
            _ => None,
        }
    }
}

impl<L> GeneralInterface<L> for Pending {
    open spec fn shape(&self) -> Shape<L> {
        Shape::Pending
    }

    fn upcast(self) -> (object: Object<L>) {
        Object::Pending
    }

    fn downcast(object: &Object<L>) -> (value: Option<&Self>)
        ensures
            value is Some == (object@ is Pending),
    {
        match object {
            Object::Pending => Some(&Pending),
            _ => None,
        }
    }
}

impl<L> GeneralInterface<L> for List {
    open spec fn shape(&self) -> Shape<L> {
        Shape::List(self@)
    }

    fn upcast(self) -> (object: Object<L>) {
        Object::List(self)
    }

    fn downcast(object: &Object<L>) -> (value: Option<&Self>)
        ensures
            value is Some == (object@ is List),
    {
        match object {
            Object::List(list) => Some(list),
            _ => None,
        }
    }
}

impl<L> GeneralInterface<L> for Dispatch {
    open spec fn shape(&self) -> Shape<L> {
        Shape::Dispatch(self@)
    }

    fn upcast(self) -> (object: Object<L>) {
        Object::Dispatch(self)
    }

    fn downcast(object: &Object<L>) -> (value: Option<&Self>)
        ensures
            value is Some == (object@ is Dispatch),
    {
        match object {
            Object::Dispatch(dispatch) => Some(dispatch),
            _ => None,
        }
    }
}

impl<L> GeneralInterface<L> for ClosureMeta {
    open spec fn shape(&self) -> Shape<L> {
        Shape::ClosureMeta(self@)
    }

    fn upcast(self) -> (object: Object<L>) {
        Object::ClosureMeta(self)
    }

    fn downcast(object: &Object<L>) -> (value: Option<&Self>)
        ensures
            value is Some == (object@ is ClosureMeta),
    {
        match object {
            Object::ClosureMeta(meta) => Some(meta),
            _ => None,
        }
    }
}

impl<L> GeneralInterface<L> for Closure {
    open spec fn shape(&self) -> Shape<L> {
        Shape::Closure(self@)
    }

    fn upcast(self) -> (object: Object<L>) {
        Object::Closure(self)
    }

    fn downcast(object: &Object<L>) -> (value: Option<&Self>)
        ensures
            value is Some == (object@ is Closure),
    {
        match object {
            Object::Closure(closure) => Some(closure),
            _ => None,
        }
    }
}

impl<L> GeneralInterface<L> for Ready {
    open spec fn shape(&self) -> Shape<L> {
        Shape::Ready(self@)
    }

    fn upcast(self) -> (object: Object<L>) {
        Object::Ready(self)
    }

    fn downcast(object: &Object<L>) -> (value: Option<&Self>)
        ensures
            value is Some == (object@ is Ready),
    {
        match object {
            Object::Ready(ready) => Some(ready),
            _ => None,
        }
    }
}

impl<L> Object<L> {
    /// The value of the embedding program that the heap value carries, if
    /// it carries one.
    pub fn host(&self) -> (host: Option<&L>)
        ensures
            host is Some == (self@ is Host),
            host matches Some(host) ==> self@ == Shape::Host(*host),
    {
        match self {
            Object::Host(host) => Some(host),
            _ => None,
        }
    }
}

} // verus!
