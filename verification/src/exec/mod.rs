//! The context of execution: the heap, the realm, and the counter that
//! gives symbols their identity.

use vstd::prelude::*;
use crate::builtins::object::gcobject::{CellView, GcObject, Heap};
use crate::builtins::object::{Object, ObjectData, ObjectDataView, ObjectView};
use crate::builtins::property::{PropertyKey, PropertyKeyView, PropertyView};
use crate::builtins::value::{ResultValue, Value, ValueView};
use crate::environment::{LexicalEnvironment, LexicalEnvironmentView};
use crate::keyed::{find, lemma_put, put};
use crate::realm::Realm;

pub mod new;

verus! {

/// What the context is to a contract.
#[verifier::ext_equal]
pub struct InterpreterView {
    /// The cells of the heap, by the place of their handles.
    pub heap: Seq<CellView>,
    /// The scope frames and their stack.
    pub environment: LexicalEnvironmentView,
    /// The global object.
    pub global: ValueView,
    /// The hash that the next symbol gets.
    pub symbol_count: u32,
}

/// The error object that a type error throws: an object of the error kind
/// whose `name` is `TypeError` and whose `message` is the one given.
pub open spec fn type_error(message: Seq<char>) -> ObjectView {
    ObjectView::empty(ObjectDataView::Error, ValueView::Null).insert(
        PropertyKeyView::String("name"@),
        PropertyView::field(ValueView::String("TypeError"@)),
    ).insert(
        PropertyKeyView::String("message"@),
        PropertyView::field(ValueView::String(message)),
    )
}

/// A type error is a valid object, and its message is found under
/// `message`.
pub proof fn lemma_type_error(message: Seq<char>)
    ensures
        type_error(message).wf(),
        type_error(message).data is Error,
        type_error(message).get(PropertyKeyView::String("message"@)) == Some(
            PropertyView::field(ValueView::String(message)),
        ),
        type_error(message).get(PropertyKeyView::String("name"@)) == Some(
            PropertyView::field(ValueView::String("TypeError"@)),
        ),
{
    reveal_strlit("name");
    reveal_strlit("message");
    let empty = ObjectView::empty(ObjectDataView::Error, ValueView::Null);
    let name = PropertyView::field(ValueView::String("TypeError"@));
    let text = PropertyView::field(ValueView::String(message));
    assert("name"@ != "message"@) by {
        assert("name"@.len() == 4);
        assert("message"@.len() == 7);
    }
    lemma_put(empty.strings, "name"@, name);
    let named = put(empty.strings, "name"@, name);
    lemma_put(named, "message"@, text);
    assert(find(put(named, "message"@, text), "name"@) == find(named, "name"@));
}

impl InterpreterView {
    /// Every cell and every frame is valid.
    pub open spec fn wf(self) -> bool {
        &&& forall|i: int| 0 <= i < self.heap.len() ==> (#[trigger] self.heap[i]).wf()
        &&& self.environment.wf()
    }

    /// The context after an object was allocated.
    pub open spec fn allocated(self, object: ObjectView) -> InterpreterView {
        InterpreterView { heap: self.heap.push(CellView::fresh(object)), ..self }
    }

    /// The context after a type error with the message was made: the
    /// error object is the newest object of the heap.
    pub open spec fn raised(self, message: Seq<char>) -> InterpreterView {
        self.allocated(type_error(message))
    }

    /// The context with another heap.
    pub open spec fn with_heap(self, heap: Seq<CellView>) -> InterpreterView {
        InterpreterView { heap, ..self }
    }

    /// The context with other frames.
    pub open spec fn with_environment(self, environment: LexicalEnvironmentView) -> InterpreterView {
        InterpreterView { environment, ..self }
    }
}

/// The counter that gives the symbols of one context their hashes. It only
/// counts up, so no hash is given twice.
#[derive(Debug, PartialEq, Eq)]
pub struct SymbolCount {
    next: u32,
}

impl View for SymbolCount {
    type V = u32;

    closed spec fn view(&self) -> u32 {
        self.next
    }
}

impl SymbolCount {
    /// A counter that has given no hash yet.
    pub fn new() -> (count: Self)
        ensures
            count@ == 0,
    {
        SymbolCount { next: 0 }
    }

    /// The number of hashes that the counter can still give out.
    pub fn remaining(&self) -> (left: u32)
        ensures
            left == u32::MAX - self@,
    {
        u32::MAX - self.next
    }

    /// Gives out the next hash.
    pub fn generate_hash(&mut self) -> (hash: u32)
        requires
            old(self)@ < u32::MAX,
        ensures
            hash == old(self)@,
            final(self)@ == hash + 1,
    {
        let hash = self.next;
        self.next = hash + 1;
        hash
    }
}

/// The context of execution.
#[derive(Debug)]
pub struct Interpreter {
    /// The heap of the objects.
    pub heap: Heap,
    /// The global object and the scope frames.
    pub realm: Realm,
    /// The counter of the symbols.
    pub symbol_count: SymbolCount,
}

impl View for Interpreter {
    type V = InterpreterView;

    open spec fn view(&self) -> InterpreterView {
        InterpreterView {
            heap: self.heap@,
            environment: self.realm.environment@,
            global: self.realm.global_obj@,
            symbol_count: self.symbol_count@,
        }
    }
}

impl Interpreter {
    /// Whether the context is valid: every cell and every frame is.
    pub open spec fn wf(&self) -> bool {
        self@.wf()
    }

    /// A context with a global object, which has no property, and nothing
    /// else: no frame, and no symbol made yet.
    pub fn new() -> (interpreter: Self)
        ensures
            interpreter.wf(),
            interpreter@.heap == seq![
                CellView::fresh(ObjectView::empty(ObjectDataView::Ordinary, ValueView::Null)),
            ],
            interpreter@.global == ValueView::Object(0),
            interpreter@.environment.records.len() == 0,
            interpreter@.environment.stack.len() == 0,
            interpreter@.symbol_count == 0,
    {
        let mut heap = Heap::new();
        let global = GcObject::new(Object::default(), &mut heap);
        Interpreter {
            heap,
            realm: Realm { global_obj: Value::Object(global), environment: LexicalEnvironment::new() },
            symbol_count: SymbolCount::new(),
        }
    }

    /// The global object.
    pub fn global(&self) -> (global: &Value)
        ensures
            global@ == self@.global,
    {
        &self.realm.global_obj
    }

    /// Gives out a hash that no symbol of this context has: the hashes come
    /// out in ascending order.
    pub fn generate_hash(&mut self) -> (hash: u32)
        requires
            old(self)@.symbol_count < u32::MAX,
        ensures
            hash == old(self)@.symbol_count,
            final(self)@ == (InterpreterView { symbol_count: (hash + 1) as u32, ..old(self)@ }),
    {
        self.symbol_count.generate_hash()
    }

    /// Makes the error object of a type error with the given message.
    pub fn construct_type_error(&mut self, message: &str) -> (error: Value)
        requires
            old(self).wf(),
        ensures
            final(self).wf(),
            error@ == ValueView::Object(old(self)@.heap.len() as int),
            final(self)@ == old(self)@.raised(message@),
    {
        let mut object = Object::with_prototype(Value::Null, ObjectData::Error);
        object.insert_field(PropertyKey::string("name"), Value::string("TypeError"));
        object.insert_field(PropertyKey::string("message"), Value::string(message));
        let handle = GcObject::new(object, &mut self.heap);
        Value::Object(handle)
    }

    /// Throws a type error with the given message.
    pub fn throw_type_error(&mut self, message: &str) -> (thrown: ResultValue)
        requires
            old(self).wf(),
        ensures
            final(self).wf(),
            thrown is Err,
            thrown->Err_0@ == ValueView::Object(old(self)@.heap.len() as int),
            final(self)@ == old(self)@.raised(message@),
    {
        Err(self.construct_type_error(message))
    }
}

} // verus!
