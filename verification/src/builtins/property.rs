//! Property keys, attribute flags and property slots.

use vstd::prelude::*;
use crate::builtins::symbol::{Symbol, SymbolView};
use crate::builtins::value::{Value, ValueView};

verus! {

/// What a property key is to a contract: the namespace that it selects and
/// the key's own view in it.
#[verifier::ext_equal]
pub enum PropertyKeyView {
    String(Seq<char>),
    Symbol(SymbolView),
    Index(u32),
}

/// The key of a property. Each variant selects a namespace of its own, so
/// no key belongs to two namespaces.
#[derive(Debug, PartialEq, Eq)]
pub enum PropertyKey {
    String(String),
    Symbol(Symbol),
    Index(u32),
}

impl View for PropertyKey {
    type V = PropertyKeyView;

    open spec fn view(&self) -> PropertyKeyView {
        match self {
            PropertyKey::String(name) => PropertyKeyView::String(name@),
            PropertyKey::Symbol(symbol) => PropertyKeyView::Symbol(symbol@),
            PropertyKey::Index(index) => PropertyKeyView::Index(*index),
        }
    }
}

impl Clone for PropertyKey {
    fn clone(&self) -> (copy: Self)
        ensures
            copy == *self,
    {
        match self {
            PropertyKey::String(name) => PropertyKey::String(name.clone()),
            PropertyKey::Symbol(symbol) => PropertyKey::Symbol(symbol.clone()),
            PropertyKey::Index(index) => PropertyKey::Index(*index),
        }
    }
}

impl PropertyKey {
    /// The string key that holds `name`.
    pub fn string(name: &str) -> (key: Self)
        ensures
            key@ == PropertyKeyView::String(name@),
    {
        PropertyKey::String(name.to_owned())
    }

    /// The key of the indexed namespace for `index`.
    pub fn index(index: u32) -> (key: Self)
        ensures
            key@ == PropertyKeyView::Index(index),
    {
        PropertyKey::Index(index)
    }

    /// The key of the symbol namespace for `symbol`.
    pub fn symbol(symbol: Symbol) -> (key: Self)
        ensures
            key@ == PropertyKeyView::Symbol(symbol@),
    {
        PropertyKey::Symbol(symbol)
    }

    /// Whether two keys are the same key of the same namespace.
    pub fn equals(&self, other: &PropertyKey) -> (same: bool)
        ensures
            same == (self@ == other@),
    {
        match (self, other) {
            (PropertyKey::String(left), PropertyKey::String(right)) => *left == *right,
            (PropertyKey::Symbol(left), PropertyKey::Symbol(right)) => left.equals(right),
            (PropertyKey::Index(left), PropertyKey::Index(right)) => *left == *right,
            _ => false,
        }
    }
}

/// The attribute flags that every property carries.
#[derive(Debug, Clone, Copy, PartialEq, Eq, Structural)]
pub struct Attribute {
    pub writable: bool,
    pub enumerable: bool,
    pub configurable: bool,
}

impl Attribute {
    /// Every flag set.
    pub open spec fn spec_all() -> Attribute {
        Attribute { writable: true, enumerable: true, configurable: true }
    }

    /// No flag set.
    pub open spec fn spec_none() -> Attribute {
        Attribute { writable: false, enumerable: false, configurable: false }
    }

    /// Writable, enumerable and configurable.
    pub fn all() -> (attribute: Self)
        ensures
            attribute == Attribute::spec_all(),
    {
        Attribute { writable: true, enumerable: true, configurable: true }
    }

    /// Neither writable, enumerable nor configurable.
    pub fn none() -> (attribute: Self)
        ensures
            attribute == Attribute::spec_none(),
    {
        Attribute { writable: false, enumerable: false, configurable: false }
    }
}

/// What a property is to a contract.
#[verifier::ext_equal]
pub enum PropertyView {
    Data { value: ValueView, attribute: Attribute },
    Accessor { get: ValueView, set: ValueView, attribute: Attribute },
}

impl PropertyView {
    /// The flags of the property, whichever slot it is.
    pub open spec fn attribute(self) -> Attribute {
        match self {
            PropertyView::Data { attribute, .. } => attribute,
            PropertyView::Accessor { attribute, .. } => attribute,
        }
    }

    /// What reading the property yields without running any code: the
    /// value of a data slot, `undefined` for an accessor slot.
    pub open spec fn value(self) -> ValueView {
        match self {
            PropertyView::Data { value, .. } => value,
            PropertyView::Accessor { .. } => ValueView::Undefined,
        }
    }

    /// The data slot that holds the value and has every flag set.
    pub open spec fn field(value: ValueView) -> PropertyView {
        PropertyView::Data { value, attribute: Attribute::spec_all() }
    }

    /// The data slot that holds the value and has no flag set.
    pub open spec fn fixed(value: ValueView) -> PropertyView {
        PropertyView::Data { value, attribute: Attribute::spec_none() }
    }
}

/// A property: a data slot that holds a value, or an accessor slot that
/// holds a getter and a setter. Either carries its flags.
#[derive(Debug, PartialEq, Eq)]
pub enum Property {
    Data { value: Value, attribute: Attribute },
    Accessor { get: Value, set: Value, attribute: Attribute },
}

impl View for Property {
    type V = PropertyView;

    open spec fn view(&self) -> PropertyView {
        match self {
            Property::Data { value, attribute } => PropertyView::Data {
                value: value@,
                attribute: *attribute,
            },
            Property::Accessor { get, set, attribute } => PropertyView::Accessor {
                get: get@,
                set: set@,
                attribute: *attribute,
            },
        }
    }
}

impl Clone for Property {
    fn clone(&self) -> (copy: Self)
        ensures
            copy == *self,
    {
        match self {
            Property::Data { value, attribute } => Property::Data {
                value: value.clone(),
                attribute: *attribute,
            },
            Property::Accessor { get, set, attribute } => Property::Accessor {
                get: get.clone(),
                set: set.clone(),
                attribute: *attribute,
            },
        }
    }
}

impl Property {
    /// A data slot with the given value and flags.
    pub fn data_descriptor(value: Value, attribute: Attribute) -> (property: Self)
        ensures
            property == (Property::Data { value, attribute }),
    {
        Property::Data { value, attribute }
    }

    /// An accessor slot with the given getter, setter and flags.
    pub fn accessor_descriptor(get: Value, set: Value, attribute: Attribute) -> (property: Self)
        ensures
            property == (Property::Accessor { get, set, attribute }),
    {
        Property::Accessor { get, set, attribute }
    }

    /// Whether this is a data slot.
    pub fn is_data_descriptor(&self) -> (data: bool)
        ensures
            data == (self@ is Data),
    {
        match self {
            Property::Data { .. } => true,
            Property::Accessor { .. } => false,
        }
    }

    /// Whether this is an accessor slot.
    pub fn is_accessor_descriptor(&self) -> (accessor: bool)
        ensures
            accessor == (self@ is Accessor),
    {
        match self {
            Property::Data { .. } => false,
            Property::Accessor { .. } => true,
        }
    }

    /// The flags of the property.
    pub fn attribute(&self) -> (attribute: Attribute)
        ensures
            attribute == self@.attribute(),
    {
        match self {
            Property::Data { attribute, .. } => *attribute,
            Property::Accessor { attribute, .. } => *attribute,
        }
    }

    /// Whether the property shows up in enumeration.
    pub fn enumerable(&self) -> (enumerable: bool)
        ensures
            enumerable == self@.attribute().enumerable,
    {
        self.attribute().enumerable
    }

    /// Whether the property can be written.
    pub fn writable(&self) -> (writable: bool)
        ensures
            writable == self@.attribute().writable,
    {
        self.attribute().writable
    }

    /// Whether the property can be redefined or deleted.
    pub fn configurable(&self) -> (configurable: bool)
        ensures
            configurable == self@.attribute().configurable,
    {
        self.attribute().configurable
    }

    /// The value of a data slot, `undefined` for an accessor slot.
    pub fn value(&self) -> (value: Value)
        ensures
            value@ == self@.value(),
    {
        match self {
            Property::Data { value, .. } => value.clone(),
            Property::Accessor { .. } => Value::Undefined,
        }
    }
}

} // verus!
