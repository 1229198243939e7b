//! Objects: three property namespaces, a prototype link, and what kind of
//! object it is.

use vstd::prelude::*;
use crate::builtins::function::{Function, FunctionView};
use crate::builtins::property::{Attribute, Property, PropertyKey, PropertyKeyView, PropertyView};
use crate::builtins::symbol::{Symbol, SymbolView};
use crate::builtins::value::{Value, ValueView};
use crate::keyed::{
    ascending, find, lemma_ascending_unique, lemma_put, lemma_put_ascending, lemma_take,
    lemma_take_ascending, lookup, lookup_ascending, put, put_ascending, take, unique_keys, upsert,
    upsert_ascending, views, withdraw,
};

pub mod gcobject;
pub mod iter;

verus! {

/// What the kind of an object is to a contract.
#[verifier::ext_equal]
pub enum ObjectDataView {
    Ordinary,
    Array,
    Error,
    Symbol(SymbolView),
    Function(FunctionView),
}

/// What kind of object an object is, with what that kind holds.
#[derive(Debug, PartialEq, Eq)]
pub enum ObjectData {
    /// An object with properties and nothing more.
    Ordinary,
    /// An array-like object.
    Array,
    /// An error object.
    Error,
    /// An object that wraps a symbol.
    Symbol(Symbol),
    /// An object with a function descriptor.
    Function(Function),
}

impl View for ObjectData {
    type V = ObjectDataView;

    open spec fn view(&self) -> ObjectDataView {
        match self {
            ObjectData::Ordinary => ObjectDataView::Ordinary,
            ObjectData::Array => ObjectDataView::Array,
            ObjectData::Error => ObjectDataView::Error,
            ObjectData::Symbol(symbol) => ObjectDataView::Symbol(symbol@),
            ObjectData::Function(function) => ObjectDataView::Function(function@),
        }
    }
}

/// What an object is to a contract: its kind, its three namespaces, each
/// with its entries in the order of enumeration, and its prototype link.
#[verifier::ext_equal]
pub struct ObjectView {
    pub data: ObjectDataView,
    pub indexed: Seq<(u32, PropertyView)>,
    pub strings: Seq<(Seq<char>, PropertyView)>,
    pub symbols: Seq<(SymbolView, PropertyView)>,
    pub prototype: ValueView,
}

impl ObjectView {
    /// The indexed namespace is ascending, and the other two hold no key
    /// twice.
    pub open spec fn wf(self) -> bool {
        &&& ascending(self.indexed)
        &&& unique_keys(self.strings)
        &&& unique_keys(self.symbols)
    }

    /// The property under a key, in the namespace that the key selects.
    pub open spec fn get(self, key: PropertyKeyView) -> Option<PropertyView> {
        match key {
            PropertyKeyView::String(name) => find(self.strings, name),
            PropertyKeyView::Symbol(symbol) => find(self.symbols, symbol),
            PropertyKeyView::Index(index) => find(self.indexed, index),
        }
    }

    /// The object after a key was given a property: in the indexed
    /// namespace a new key goes where the ascending order puts it, in the
    /// other two it goes to the end; a key that was there keeps its place.
    pub open spec fn insert(self, key: PropertyKeyView, property: PropertyView) -> ObjectView {
        match key {
            PropertyKeyView::String(name) => ObjectView {
                strings: put(self.strings, name, property),
                ..self
            },
            PropertyKeyView::Symbol(symbol) => ObjectView {
                symbols: put(self.symbols, symbol, property),
                ..self
            },
            PropertyKeyView::Index(index) => ObjectView {
                indexed: put_ascending(self.indexed, index, property),
                ..self
            },
        }
    }

    /// The object without a key.
    pub open spec fn remove(self, key: PropertyKeyView) -> ObjectView {
        match key {
            PropertyKeyView::String(name) => ObjectView { strings: take(self.strings, name), ..self },
            PropertyKeyView::Symbol(symbol) => ObjectView {
                symbols: take(self.symbols, symbol),
                ..self
            },
            PropertyKeyView::Index(index) => ObjectView {
                indexed: take(self.indexed, index),
                ..self
            },
        }
    }

    /// The function descriptor of the object, if it has one.
    pub open spec fn function(self) -> Option<FunctionView> {
        match self.data {
            ObjectDataView::Function(function) => Some(function),
            _ => None,
        }
    }

    /// The symbol that the object wraps, if it wraps one.
    pub open spec fn symbol(self) -> Option<SymbolView> {
        match self.data {
            ObjectDataView::Symbol(symbol) => Some(symbol),
            _ => None,
        }
    }

    /// An object of the given kind with the given prototype link and no
    /// property.
    pub open spec fn empty(data: ObjectDataView, prototype: ValueView) -> ObjectView {
        ObjectView {
            data,
            indexed: Seq::empty(),
            strings: Seq::empty(),
            symbols: Seq::empty(),
            prototype,
        }
    }

    /// The object that a cell holds after its object was reclaimed: an
    /// ordinary object without properties and without a prototype.
    pub open spec fn cleared() -> ObjectView {
        ObjectView::empty(ObjectDataView::Ordinary, ValueView::Null)
    }

    /// The object with another prototype link.
    pub open spec fn with_prototype(self, prototype: ValueView) -> ObjectView {
        ObjectView { prototype, ..self }
    }
}

/// What giving a key a property does to a valid object: the object stays
/// valid, the key finds the property, and every other key, of the same
/// namespace or of another, finds what it found before.
pub proof fn lemma_insert(
    object: ObjectView,
    key: PropertyKeyView,
    property: PropertyView,
    other: PropertyKeyView,
)
    requires
        object.wf(),
    ensures
        object.insert(key, property).wf(),
        object.insert(key, property).get(key) == Some(property),
        other != key ==> object.insert(key, property).get(other) == object.get(other),
        object.insert(key, property).data == object.data,
        object.insert(key, property).prototype == object.prototype,
{
    match key {
        PropertyKeyView::String(name) => {
            lemma_put(object.strings, name, property);
            if let PropertyKeyView::String(another) = other {
                if another != name {
                    assert(find(put(object.strings, name, property), another) == find(
                        object.strings,
                        another,
                    ));
                }
            }
        },
        PropertyKeyView::Symbol(symbol) => {
            lemma_put(object.symbols, symbol, property);
            if let PropertyKeyView::Symbol(another) = other {
                if another != symbol {
                    assert(find(put(object.symbols, symbol, property), another) == find(
                        object.symbols,
                        another,
                    ));
                }
            }
        },
        PropertyKeyView::Index(index) => {
            lemma_put_ascending(object.indexed, index, property);
            if let PropertyKeyView::Index(another) = other {
                if another != index {
                    assert(find(put_ascending(object.indexed, index, property), another) == find(
                        object.indexed,
                        another,
                    ));
                }
            }
        },
    }
}

/// What taking a key out does to a valid object: the object stays valid,
/// the key finds nothing, and every other key finds what it found before.
pub proof fn lemma_remove(object: ObjectView, key: PropertyKeyView, other: PropertyKeyView)
    requires
        object.wf(),
    ensures
        object.remove(key).wf(),
        object.remove(key).get(key) is None,
        other != key ==> object.remove(key).get(other) == object.get(other),
{
    match key {
        PropertyKeyView::String(name) => {
            lemma_take(object.strings, name);
            if let PropertyKeyView::String(another) = other {
                if another != name {
                    assert(find(take(object.strings, name), another) == find(
                        object.strings,
                        another,
                    ));
                }
            }
        },
        PropertyKeyView::Symbol(symbol) => {
            lemma_take(object.symbols, symbol);
            if let PropertyKeyView::Symbol(another) = other {
                if another != symbol {
                    assert(find(take(object.symbols, symbol), another) == find(
                        object.symbols,
                        another,
                    ));
                }
            }
        },
        PropertyKeyView::Index(index) => {
            lemma_ascending_unique(object.indexed);
            lemma_take(object.indexed, index);
            lemma_take_ascending(object.indexed, index);
            if let PropertyKeyView::Index(another) = other {
                if another != index {
                    assert(find(take(object.indexed, index), another) == find(
                        object.indexed,
                        another,
                    ));
                }
            }
        },
    }
}

/// The record of an object: its properties, in three namespaces that
/// share no key, its prototype link, and its kind.
#[derive(Debug, PartialEq, Eq)]
pub struct Object {
    data: ObjectData,
    indexed_properties: Vec<(u32, Property)>,
    properties: Vec<(String, Property)>,
    symbol_properties: Vec<(Symbol, Property)>,
    prototype: Value,
}

impl View for Object {
    type V = ObjectView;

    closed spec fn view(&self) -> ObjectView {
        ObjectView {
            data: self.data@,
            indexed: views(self.indexed_properties@),
            strings: views(self.properties@),
            symbols: views(self.symbol_properties@),
            prototype: self.prototype@,
        }
    }
}

impl Default for Object {
    /// An ordinary object with no property, whose prototype link is `null`.
    fn default() -> (object: Self)
        ensures
            object@ == ObjectView::empty(ObjectDataView::Ordinary, ValueView::Null),
            object.wf(),
    {
        Object::with_prototype(Value::Null, ObjectData::Ordinary)
    }
}

impl Object {
    /// Whether the record is valid: the indexed namespace is ascending and
    /// no namespace holds a key twice.
    pub open spec fn wf(&self) -> bool {
        self@.wf()
    }

    /// An object of the given kind with the given prototype link and no
    /// property.
    pub fn with_prototype(prototype: Value, data: ObjectData) -> (object: Self)
        ensures
            object@ == ObjectView::empty(data@, prototype@),
            object.wf(),
    {
        let object = Object {
            data,
            indexed_properties: Vec::new(),
            properties: Vec::new(),
            symbol_properties: Vec::new(),
            prototype,
        };
        assert(object@.indexed =~= Seq::empty());
        assert(object@.strings =~= Seq::empty());
        assert(object@.symbols =~= Seq::empty());
        object
    }

    /// An ordinary object with the given prototype link and no property.
    pub fn create(prototype: Value) -> (object: Self)
        ensures
            object@ == ObjectView::empty(ObjectDataView::Ordinary, prototype@),
            object.wf(),
    {
        Object::with_prototype(prototype, ObjectData::Ordinary)
    }

    /// A function object with the given descriptor and prototype link and
    /// no property.
    pub fn function(function: Function, prototype: Value) -> (object: Self)
        ensures
            object@ == ObjectView::empty(ObjectDataView::Function(function@), prototype@),
            object.wf(),
    {
        Object::with_prototype(prototype, ObjectData::Function(function))
    }

    /// The prototype link.
    pub fn prototype(&self) -> (prototype: &Value)
        ensures
            prototype@ == self@.prototype,
    {
        &self.prototype
    }

    /// Sets the prototype link to the given value, whatever it is.
    pub fn set_prototype(&mut self, prototype: Value)
        ensures
            final(self)@ == old(self)@.with_prototype(prototype@),
    {
        self.prototype = prototype;
    }

    /// The kind of the object.
    pub fn data(&self) -> (data: &ObjectData)
        ensures
            data@ == self@.data,
    {
        &self.data
    }

    /// The function descriptor, if the object has one.
    pub fn as_function(&self) -> (function: Option<&Function>)
        ensures
            match function {
                Some(function) => self@.function() == Some(function@),
                None => self@.function() is None,
            },
    {
        match &self.data {
            ObjectData::Function(function) => Some(function),
            _ => None,
        }
    }

    /// Whether the object has a function descriptor.
    pub fn is_function(&self) -> (function: bool)
        ensures
            function == self@.function() is Some,
    {
        match &self.data {
            ObjectData::Function(_) => true,
            _ => false,
        }
    }

    /// Whether the object has a function descriptor that can be called.
    pub fn is_callable(&self) -> (callable: bool)
        ensures
            callable == match self@.function() {
                Some(function) => function.callable,
                None => false,
            },
    {
        match &self.data {
            ObjectData::Function(function) => function.is_callable(),
            _ => false,
        }
    }

    /// Whether the object has a function descriptor that `new` accepts.
    pub fn is_constructable(&self) -> (constructable: bool)
        ensures
            constructable == match self@.function() {
                Some(function) => function.constructable,
                None => false,
            },
    {
        match &self.data {
            ObjectData::Function(function) => function.is_constructable(),
            _ => false,
        }
    }

    /// The symbol that the object wraps, if it wraps one.
    pub fn as_symbol(&self) -> (symbol: Option<Symbol>)
        ensures
            match symbol {
                Some(symbol) => self@.symbol() == Some(symbol@),
                None => self@.symbol() is None,
            },
    {
        match &self.data {
            ObjectData::Symbol(symbol) => Some(symbol.clone()),
            _ => None,
        }
    }

    /// Whether the object is array-like.
    pub fn is_array(&self) -> (array: bool)
        ensures
            array == (self@.data is Array),
    {
        match &self.data {
            ObjectData::Array => true,
            _ => false,
        }
    }

    /// Whether the object is an error object.
    pub fn is_error(&self) -> (error: bool)
        ensures
            error == (self@.data is Error),
    {
        match &self.data {
            ObjectData::Error => true,
            _ => false,
        }
    }

    /// The entries of the indexed namespace.
    pub(crate) fn indexed_entries(&self) -> (entries: &Vec<(u32, Property)>)
        ensures
            views(entries@) == self@.indexed,
    {
        &self.indexed_properties
    }

    /// The entries of the string namespace.
    pub(crate) fn string_entries(&self) -> (entries: &Vec<(String, Property)>)
        ensures
            views(entries@) == self@.strings,
    {
        &self.properties
    }

    /// The entries of the symbol namespace.
    pub(crate) fn symbol_entries(&self) -> (entries: &Vec<(Symbol, Property)>)
        ensures
            views(entries@) == self@.symbols,
    {
        &self.symbol_properties
    }

    /// Gives a key a property, in the namespace that the key selects, and
    /// returns the property that the key had.
    pub fn insert_property(&mut self, key: PropertyKey, property: Property) -> (previous: Option<
        Property,
    >)
        requires
            old(self).wf(),
        ensures
            final(self).wf(),
            final(self)@ == old(self)@.insert(key@, property@),
            match previous {
                Some(before) => old(self)@.get(key@) == Some(before@),
                None => old(self)@.get(key@) is None,
            },
    {
        match key {
            PropertyKey::String(name) => upsert(&mut self.properties, name, property),
            PropertyKey::Symbol(symbol) => upsert(&mut self.symbol_properties, symbol, property),
            PropertyKey::Index(index) => upsert_ascending(
                &mut self.indexed_properties,
                index,
                property,
            ),
        }
    }

    /// Gives a key a data property that holds the value and has every
    /// flag set, and returns the property that the key had.
    pub fn insert_field(&mut self, key: PropertyKey, value: Value) -> (previous: Option<Property>)
        requires
            old(self).wf(),
        ensures
            final(self).wf(),
            final(self)@ == old(self)@.insert(key@, PropertyView::field(value@)),
            match previous {
                Some(before) => old(self)@.get(key@) == Some(before@),
                None => old(self)@.get(key@) is None,
            },
    {
        self.insert_property(key, Property::data_descriptor(value, Attribute::all()))
    }

    /// The property that the object itself holds under the key.
    pub fn get_own_property(&self, key: &PropertyKey) -> (found: Option<&Property>)
        requires
            self.wf(),
        ensures
            match found {
                Some(property) => self@.get(key@) == Some(property@),
                None => self@.get(key@) is None,
            },
    {
        match key {
            PropertyKey::String(name) => lookup(&self.properties, name),
            PropertyKey::Symbol(symbol) => lookup(&self.symbol_properties, symbol),
            PropertyKey::Index(index) => lookup_ascending(&self.indexed_properties, *index),
        }
    }

    /// Whether the object itself holds a property under the key.
    pub fn has_own_property(&self, key: &PropertyKey) -> (found: bool)
        requires
            self.wf(),
        ensures
            found == self@.get(key@) is Some,
    {
        self.get_own_property(key).is_some()
    }

    /// Takes a key out of its namespace and returns the property that it
    /// had.
    pub fn remove_property(&mut self, key: &PropertyKey) -> (previous: Option<Property>)
        requires
            old(self).wf(),
        ensures
            final(self).wf(),
            final(self)@ == old(self)@.remove(key@),
            match previous {
                Some(before) => old(self)@.get(key@) == Some(before@),
                None => old(self)@.get(key@) is None,
            },
    {
        match key {
            PropertyKey::String(name) => withdraw(&mut self.properties, name),
            PropertyKey::Symbol(symbol) => withdraw(&mut self.symbol_properties, symbol),
            PropertyKey::Index(index) => {
                proof {
                    lemma_ascending_unique(views(self.indexed_properties@));
                    lemma_take_ascending(views(self.indexed_properties@), *index);
                }
                withdraw(&mut self.indexed_properties, index)
            },
        }
    }
}

} // verus!
