//! Values of the language.

use vstd::prelude::*;
use crate::builtins::object::gcobject::{BorrowError, CellView, GcObject, Heap};
use crate::builtins::object::{Object, ObjectDataView, ObjectView};
use crate::builtins::property::{Property, PropertyKey, PropertyKeyView, PropertyView};
use crate::builtins::symbol::{Symbol, SymbolView};

verus! {

/// What a value is to a contract.
#[verifier::ext_equal]
pub enum ValueView {
    Undefined,
    Null,
    Boolean(bool),
    Integer(i32),
    String(Seq<char>),
    Symbol(SymbolView),
    /// An object, by the place of its cell in the heap.
    Object(int),
}

/// A value of the language.
#[derive(Debug, PartialEq, Eq)]
pub enum Value {
    /// `undefined`
    Undefined,
    /// `null`
    Null,
    /// `true` or `false`
    Boolean(bool),
    /// A 32-bit integer.
    Integer(i32),
    /// A string.
    String(String),
    /// A symbol.
    Symbol(Symbol),
    /// An object, by its handle.
    Object(GcObject),
}

/// What a call, a construction or a host function gives back: a value, or
/// the value that was thrown.
pub type ResultValue = Result<Value, Value>;

impl View for Value {
    type V = ValueView;

    open spec fn view(&self) -> ValueView {
        match self {
            Value::Undefined => ValueView::Undefined,
            Value::Null => ValueView::Null,
            Value::Boolean(flag) => ValueView::Boolean(*flag),
            Value::Integer(number) => ValueView::Integer(*number),
            Value::String(text) => ValueView::String(text@),
            Value::Symbol(symbol) => ValueView::Symbol(symbol@),
            Value::Object(object) => ValueView::Object(object@),
        }
    }
}

impl Clone for Value {
    fn clone(&self) -> (copy: Self)
        ensures
            copy == *self,
    {
        match self {
            Value::Undefined => Value::Undefined,
            Value::Null => Value::Null,
            Value::Boolean(flag) => Value::Boolean(*flag),
            Value::Integer(number) => Value::Integer(*number),
            Value::String(text) => Value::String(text.clone()),
            Value::Symbol(symbol) => Value::Symbol(symbol.clone()),
            Value::Object(object) => Value::Object(*object),
        }
    }
}

/// What a sequence of values is to a contract.
pub open spec fn value_views(values: Seq<Value>) -> Seq<ValueView> {
    Seq::new(values.len(), |i: int| values[i]@)
}

/// What a result is to a contract.
pub open spec fn result_view(result: ResultValue) -> Result<ValueView, ValueView> {
    match result {
        Ok(value) => Ok(value@),
        Err(thrown) => Err(thrown@),
    }
}

impl Value {
    /// The `undefined` value.
    pub fn undefined() -> (value: Self)
        ensures
            value == Value::Undefined,
    {
        Value::Undefined
    }

    /// The `null` value.
    pub fn null() -> (value: Self)
        ensures
            value == Value::Null,
    {
        Value::Null
    }

    /// The string value that holds `text`.
    pub fn string(text: &str) -> (value: Self)
        ensures
            value@ == ValueView::String(text@),
    {
        Value::String(text.to_owned())
    }

    /// The value that is the object of the handle.
    pub fn object(handle: GcObject) -> (value: Self)
        ensures
            value@ == ValueView::Object(handle@),
    {
        Value::Object(handle)
    }

    /// The symbol value that holds `symbol`.
    pub fn symbol(symbol: Symbol) -> (value: Self)
        ensures
            value == Value::Symbol(symbol),
    {
        Value::Symbol(symbol)
    }

    /// Whether the value is `undefined`.
    pub fn is_undefined(&self) -> (undefined: bool)
        ensures
            undefined == (self@ is Undefined),
    {
        match self {
            Value::Undefined => true,
            _ => false,
        }
    }

    /// Whether the value is an object.
    pub fn is_object(&self) -> (object: bool)
        ensures
            object == (self@ is Object),
    {
        match self {
            Value::Object(_) => true,
            _ => false,
        }
    }

    /// The handle of the object, if the value is one.
    pub fn as_object(&self) -> (object: Option<GcObject>)
        ensures
            match object {
                Some(handle) => self@ == ValueView::Object(handle@),
                None => !(self@ is Object),
            },
    {
        match self {
            Value::Object(handle) => Some(*handle),
            _ => None,
        }
    }
}

/// The property that an object has under a key, its own or that of the
/// nearest object on its prototype chain that has one. The chain ends at
/// the first link that is no object of the heap. `fuel` bounds the number
/// of objects that are asked, so a chain that runs in a circle ends too.
pub open spec fn get_property(
    heap: Seq<CellView>,
    object: int,
    key: PropertyKeyView,
    fuel: nat,
) -> Option<PropertyView>
    decreases fuel,
{
    if fuel == 0 || !(0 <= object < heap.len()) {
        None
    } else {
        match heap[object].object.get(key) {
            Some(property) => Some(property),
            None => match heap[object].object.prototype {
                ValueView::Object(parent) => get_property(heap, parent, key, (fuel - 1) as nat),
                _ => None,
            },
        }
    }
}

/// No object that `get_property` asks is held by a writer.
pub open spec fn can_read(heap: Seq<CellView>, object: int, key: PropertyKeyView, fuel: nat) -> bool
    decreases fuel,
{
    if fuel == 0 || !(0 <= object < heap.len()) {
        true
    } else {
        &&& !heap[object].writing
        &&& match heap[object].object.get(key) {
            Some(_) => true,
            None => match heap[object].object.prototype {
                ValueView::Object(parent) => can_read(heap, parent, key, (fuel - 1) as nat),
                _ => true,
            },
        }
    }
}

/// What reading a field of a value yields: the value of the data property
/// that the value has under the key, itself or through its prototype
/// chain; `undefined` where it has none, where the property is an
/// accessor, and where the value is no object.
pub open spec fn get_field(heap: Seq<CellView>, value: ValueView, key: PropertyKeyView) -> ValueView {
    match value {
        ValueView::Object(object) => match get_property(heap, object, key, heap.len()) {
            Some(property) => property.value(),
            None => ValueView::Undefined,
        },
        _ => ValueView::Undefined,
    }
}

/// Whether a field of a value can be read: no object that is asked for it
/// is held by a writer.
pub open spec fn can_read_field(heap: Seq<CellView>, value: ValueView, key: PropertyKeyView) -> bool {
    match value {
        ValueView::Object(object) => can_read(heap, object, key, heap.len()),
        _ => true,
    }
}

/// Nobody holds a cell of the heap as a writer.
pub open spec fn no_writer(heap: Seq<CellView>) -> bool {
    forall|i: int| 0 <= i < heap.len() ==> !(#[trigger] heap[i]).writing
}

/// Where nobody holds a cell as a writer, every property can be read.
pub proof fn lemma_no_writer_can_read(
    heap: Seq<CellView>,
    object: int,
    key: PropertyKeyView,
    fuel: nat,
)
    requires
        no_writer(heap),
    ensures
        can_read(heap, object, key, fuel),
    decreases fuel,
{
    if fuel > 0 && 0 <= object < heap.len() {
        match heap[object].object.prototype {
            ValueView::Object(parent) => {
                lemma_no_writer_can_read(heap, parent, key, (fuel - 1) as nat);
            },
            _ => {},
        }
    }
}

/// The prototype that the objects of a kind get: what the global object
/// holds under the name of the kind, and that under `prototype`.
pub open spec fn intrinsic_prototype(heap: Seq<CellView>, global: ValueView, kind: Seq<char>) -> ValueView {
    get_field(
        heap,
        get_field(heap, global, PropertyKeyView::String(kind)),
        PropertyKeyView::String("prototype"@),
    )
}

impl Value {
    /// The prototype that the objects of a kind get: what the global
    /// object holds under the name of the kind, and that under
    /// `prototype`. Nobody may hold an object as a writer meanwhile.
    pub fn intrinsic_prototype(global: &Value, kind: &str, heap: &Heap) -> (prototype: Value)
        requires
            heap.wf(),
            no_writer(heap@),
        ensures
            prototype@ == intrinsic_prototype(heap@, global@, kind@),
    {
        let key = PropertyKey::string(kind);
        proof {
            if let ValueView::Object(object) = global@ {
                lemma_no_writer_can_read(heap@, object, key@, heap@.len());
            }
        }
        let constructor = global.get_field(&key, heap);
        let inner = PropertyKey::string("prototype");
        proof {
            if let ValueView::Object(object) = constructor@ {
                lemma_no_writer_can_read(heap@, object, inner@, heap@.len());
            }
        }
        constructor.get_field(&inner, heap)
    }

    /// Makes an ordinary object without properties in the heap. With a
    /// global object its prototype link is what the global object holds
    /// under `Object`, and that under `prototype`; without one it is
    /// `null`.
    pub fn new_object(global: Option<&Value>, heap: &mut Heap) -> (object: Value)
        requires
            old(heap).wf(),
            global is Some ==> no_writer(old(heap)@),
        ensures
            final(heap).wf(),
            object@ == ValueView::Object(old(heap)@.len() as int),
            final(heap)@ == old(heap)@.push(
                CellView::fresh(
                    ObjectView::empty(
                        ObjectDataView::Ordinary,
                        match global {
                            Some(global) => intrinsic_prototype(old(heap)@, global@, "Object"@),
                            None => ValueView::Null,
                        },
                    ),
                ),
            ),
    {
        let prototype = match global {
            Some(global) => Value::intrinsic_prototype(global, "Object", heap),
            None => Value::Null,
        };
        Value::Object(GcObject::new(Object::create(prototype), heap))
    }

    /// The property that the value has under the key, its own or one
    /// that it has through its prototype chain.
    pub fn get_property(&self, key: &PropertyKey, heap: &Heap) -> (found: Option<Property>)
        requires
            heap.wf(),
            can_read_field(heap@, self@, key@),
        ensures
            match found {
                Some(property) => self@ is Object && get_property(
                    heap@,
                    self@->Object_0,
                    key@,
                    heap@.len(),
                ) == Some(property@),
                None => self@ is Object ==> get_property(
                    heap@,
                    self@->Object_0,
                    key@,
                    heap@.len(),
                ) is None,
            },
    {
        let mut current: GcObject = match self {
            Value::Object(object) => *object,
            _ => {
                return None;
            },
        };
        let ghost start = current@;
        let mut fuel: usize = heap.len();
        while fuel > 0 && heap.holds(current)
            invariant
                heap.wf(),
                self@ == ValueView::Object(start),
                fuel <= heap@.len(),
                can_read(heap@, current@, key@, fuel as nat),
                get_property(heap@, start, key@, heap@.len()) == get_property(
                    heap@,
                    current@,
                    key@,
                    fuel as nat,
                ),
            decreases fuel,
        {
            let object = current.peek(heap);
            assert(heap@[current@].wf());
            match object.get_own_property(key) {
                Some(property) => {
                    return Some(property.clone());
                },
                None => {},
            }
            match object.prototype() {
                Value::Object(parent) => {
                    current = *parent;
                    fuel = fuel - 1;
                },
                _ => {
                    return None;
                },
            }
        }
        None
    }

    /// The property that the value has under the key, its own or one
    /// that it has through its prototype chain, unless a writer holds an
    /// object that has to be asked: then the error says so.
    pub fn try_get_property(&self, key: &PropertyKey, heap: &Heap) -> (found: Result<
        Option<Property>,
        BorrowError,
    >)
        requires
            heap.wf(),
        ensures
            found is Err <==> !can_read_field(heap@, self@, key@),
            match found {
                Ok(Some(property)) => self@ is Object && get_property(
                    heap@,
                    self@->Object_0,
                    key@,
                    heap@.len(),
                ) == Some(property@),
                Ok(None) => self@ is Object ==> get_property(
                    heap@,
                    self@->Object_0,
                    key@,
                    heap@.len(),
                ) is None,
                Err(_) => true,
            },
    {
        let mut current: GcObject = match self {
            Value::Object(object) => *object,
            _ => {
                return Ok(None);
            },
        };
        let ghost start = current@;
        let mut fuel: usize = heap.len();
        while fuel > 0 && heap.holds(current)
            invariant
                heap.wf(),
                self@ == ValueView::Object(start),
                fuel <= heap@.len(),
                can_read(heap@, start, key@, heap@.len()) == can_read(
                    heap@,
                    current@,
                    key@,
                    fuel as nat,
                ),
                get_property(heap@, start, key@, heap@.len()) == get_property(
                    heap@,
                    current@,
                    key@,
                    fuel as nat,
                ),
            decreases fuel,
        {
            if current.is_borrowed_mut(heap) {
                return Err(BorrowError);
            }
            let object = current.peek(heap);
            assert(heap@[current@].wf());
            match object.get_own_property(key) {
                Some(property) => {
                    return Ok(Some(property.clone()));
                },
                None => {},
            }
            match object.prototype() {
                Value::Object(parent) => {
                    current = *parent;
                    fuel = fuel - 1;
                },
                _ => {
                    return Ok(None);
                },
            }
        }
        Ok(None)
    }

    /// Reads a field of the value, unless a writer holds an object that
    /// has to be asked for it: then the error says so.
    pub fn try_get_field(&self, key: &PropertyKey, heap: &Heap) -> (field: Result<
        Value,
        BorrowError,
    >)
        requires
            heap.wf(),
        ensures
            field is Err <==> !can_read_field(heap@, self@, key@),
            field is Ok ==> field->Ok_0@ == get_field(heap@, self@, key@),
    {
        match self.try_get_property(key, heap) {
            Ok(Some(property)) => Ok(property.value()),
            Ok(None) => Ok(Value::Undefined),
            Err(error) => Err(error),
        }
    }

    /// Reads a field of the value: the value of the data property that
    /// the value has under the key, itself or through its prototype chain.
    /// Where it has none, where the property is an accessor, and where the
    /// value is no object, the field is `undefined`.
    pub fn get_field(&self, key: &PropertyKey, heap: &Heap) -> (field: Value)
        requires
            heap.wf(),
            can_read_field(heap@, self@, key@),
        ensures
            field@ == get_field(heap@, self@, key@),
    {
        match self.get_property(key, heap) {
            Some(property) => property.value(),
            None => Value::Undefined,
        }
    }

    /// Writes a field of the value: gives the object a data property with
    /// every flag set that holds the value. The object must be held by
    /// nobody. A value that is no object of the heap is left alone.
    pub fn set_field(&self, key: PropertyKey, value: Value, heap: &mut Heap)
        requires
            old(heap).wf(),
            self@ matches ValueView::Object(object) ==> 0 <= object < old(heap)@.len() ==> old(
                heap,
            )@[object].unused(),
        ensures
            final(heap).wf(),
            final(heap)@ == match self@ {
                ValueView::Object(object) => if 0 <= object < old(heap)@.len() {
                    old(heap)@.update(
                        object,
                        old(heap)@[object].holding(
                            old(heap)@[object].object.insert(key@, PropertyView::field(value@)),
                        ),
                    )
                } else {
                    old(heap)@
                },
                _ => old(heap)@,
            },
    {
        match self {
            Value::Object(handle) => {
                if heap.holds(*handle) {
                    handle.borrow_mut(heap);
                    assert(heap@[handle@].wf());
                    let object = handle.get_mut(heap);
                    object.insert_field(key, value);
                    handle.release_mut(heap);
                }
            },
            _ => {},
        }
    }
}

} // verus!
