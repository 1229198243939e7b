use boa::builtins::function::{Body, Function, FunctionBody, NativeFunction, ThisMode};
use boa::builtins::object::{Object, ObjectData};
use boa::builtins::property::{Attribute, Property, PropertyKey};
use boa::builtins::symbol::Symbol;
use boa::builtins::value::Value;

fn data(number: i32) -> Property {
    Property::data_descriptor(Value::Integer(number), Attribute::all())
}

fn sample() -> Object {
    let mut object = Object::default();
    object.insert_property(PropertyKey::Index(2), data(20));
    object.insert_property(PropertyKey::Index(0), data(0));
    object.insert_property(PropertyKey::string("b"), data(1));
    object.insert_property(PropertyKey::string("a"), data(2));
    object.insert_property(PropertyKey::Symbol(Symbol::new(Some("s".to_string()), 7)), data(3));
    object
}

#[test]
fn combined_pass_goes_indexed_then_string_then_symbol() {
    let object = sample();
    let mut pass = object.iter();
    assert_eq!(pass.len(), 5);
    let mut keys = Vec::new();
    let mut values = Vec::new();
    while let Some((key, property)) = pass.next() {
        keys.push(key);
        values.push(property.value());
    }
    assert_eq!(
        keys,
        vec![
            PropertyKey::Index(0),
            PropertyKey::Index(2),
            PropertyKey::string("b"),
            PropertyKey::string("a"),
            PropertyKey::Symbol(Symbol::new(Some("s".to_string()), 7)),
        ]
    );
    assert_eq!(
        values,
        vec![
            Value::Integer(0),
            Value::Integer(20),
            Value::Integer(1),
            Value::Integer(2),
            Value::Integer(3),
        ]
    );
    assert_eq!(pass.len(), 0);
    assert!(pass.next().is_none());
}

#[test]
fn indexed_keys_come_out_ascending_whatever_the_order_of_insertion() {
    let mut object = Object::default();
    for index in [9u32, 3, 7, 0, 4, 4_000_000_000, 1] {
        object.insert_property(PropertyKey::Index(index), data(index as i32));
    }
    let mut pass = object.index_property_keys();
    assert_eq!(pass.len(), 7);
    assert_eq!(pass.size_hint(), (7, Some(7)));
    let mut keys = Vec::new();
    while let Some(key) = pass.next() {
        keys.push(*key);
    }
    assert_eq!(keys, vec![0, 1, 3, 4, 7, 9, 4_000_000_000]);
}

#[test]
fn string_keys_come_out_in_the_order_in_which_they_came() {
    let mut object = Object::default();
    for name in ["zeta", "alpha", "mid", "beta"] {
        object.insert_property(PropertyKey::string(name), data(1));
    }
    let mut pass = object.string_property_keys();
    let mut keys = Vec::new();
    while let Some(key) = pass.next() {
        keys.push(key.clone());
    }
    assert_eq!(keys, vec!["zeta", "alpha", "mid", "beta"]);
}

#[test]
fn a_key_that_is_given_again_keeps_its_place() {
    let mut object = Object::default();
    assert_eq!(object.insert_property(PropertyKey::string("x"), data(1)), None);
    assert_eq!(object.insert_property(PropertyKey::string("y"), data(2)), None);
    assert_eq!(object.insert_property(PropertyKey::string("x"), data(3)), Some(data(1)));
    assert_eq!(object.insert_property(PropertyKey::Index(5), data(4)), None);
    assert_eq!(object.insert_property(PropertyKey::Index(5), data(5)), Some(data(4)));
    let mut pass = object.string_properties();
    assert_eq!(pass.len(), 2);
    let first = pass.next().unwrap();
    assert_eq!((first.0.as_str(), first.1), ("x", &data(3)));
    let second = pass.next().unwrap();
    assert_eq!((second.0.as_str(), second.1), ("y", &data(2)));
    assert!(pass.next().is_none());
    assert_eq!(object.get_own_property(&PropertyKey::Index(5)), Some(&data(5)));
}

#[test]
fn namespaces_share_no_key() {
    let mut object = Object::default();
    object.insert_property(PropertyKey::Index(1), data(10));
    object.insert_property(PropertyKey::string("1"), data(11));
    object.insert_property(PropertyKey::Symbol(Symbol::new(Some("1".to_string()), 1)), data(12));
    assert_eq!(object.get_own_property(&PropertyKey::Index(1)), Some(&data(10)));
    assert_eq!(object.get_own_property(&PropertyKey::string("1")), Some(&data(11)));
    assert_eq!(
        object.get_own_property(&PropertyKey::Symbol(Symbol::new(Some("1".to_string()), 1))),
        Some(&data(12))
    );
    assert_eq!(object.get_own_property(&PropertyKey::Index(2)), None);
    assert_eq!(
        object.get_own_property(&PropertyKey::Symbol(Symbol::new(Some("1".to_string()), 2))),
        None
    );
    assert_eq!(object.get_own_property(&PropertyKey::Symbol(Symbol::new(None, 1))), None);
    assert!(object.has_own_property(&PropertyKey::Index(1)));
    assert!(!object.has_own_property(&PropertyKey::string("2")));
}

#[test]
fn removing_a_key_keeps_the_order_of_the_others() {
    let mut object = sample();
    assert_eq!(object.remove_property(&PropertyKey::Index(0)), Some(data(0)));
    assert_eq!(object.remove_property(&PropertyKey::Index(0)), None);
    assert_eq!(object.remove_property(&PropertyKey::string("b")), Some(data(1)));
    assert_eq!(object.remove_property(&PropertyKey::string("missing")), None);
    let mut keys = object.keys();
    assert_eq!(keys.len(), 3);
    assert_eq!(keys.next(), Some(PropertyKey::Index(2)));
    assert_eq!(keys.next(), Some(PropertyKey::string("a")));
    assert_eq!(keys.next(), Some(PropertyKey::Symbol(Symbol::new(Some("s".to_string()), 7))));
    assert_eq!(keys.next(), None);
    assert_eq!(keys.next(), None);
    assert_eq!(
        object.remove_property(&PropertyKey::Symbol(Symbol::new(Some("s".to_string()), 7))),
        Some(data(3))
    );
    assert_eq!(object.symbol_properties().len(), 0);
}

#[test]
fn keys_and_values_follow_the_combined_pass() {
    let object = sample();
    let mut values = object.values();
    assert_eq!(values.len(), 5);
    let mut seen = Vec::new();
    while let Some(property) = values.next() {
        seen.push(property.value());
    }
    assert_eq!(
        seen,
        vec![
            Value::Integer(0),
            Value::Integer(20),
            Value::Integer(1),
            Value::Integer(2),
            Value::Integer(3),
        ]
    );
    let mut keys = object.keys();
    assert_eq!(keys.next(), Some(PropertyKey::Index(0)));
    assert_eq!(keys.len(), 4);
    let mut copy = keys.clone();
    assert_eq!(copy.next(), Some(PropertyKey::Index(2)));
    assert_eq!(keys.len(), 4);
    assert_eq!(copy.len(), 3);
}

#[test]
fn passes_over_one_namespace_yield_that_namespace_only() {
    let object = sample();

    let mut indexed = object.index_properties();
    assert_eq!(indexed.size_hint(), (2, Some(2)));
    assert_eq!(indexed.next(), Some((&0, &data(0))));
    assert_eq!(indexed.len(), 1);
    assert_eq!(indexed.next(), Some((&2, &data(20))));
    assert_eq!(indexed.next(), None);
    assert_eq!(indexed.size_hint(), (0, Some(0)));

    let mut indexed_values = object.index_property_values();
    assert_eq!(indexed_values.len(), 2);
    assert_eq!(indexed_values.size_hint(), (2, Some(2)));
    assert_eq!(indexed_values.next(), Some(&data(0)));
    assert_eq!(indexed_values.next(), Some(&data(20)));
    assert_eq!(indexed_values.next(), None);

    let mut strings = object.string_properties();
    assert_eq!(strings.size_hint(), (2, Some(2)));
    assert_eq!(strings.next(), Some((&"b".to_string(), &data(1))));
    assert_eq!(strings.next(), Some((&"a".to_string(), &data(2))));
    assert_eq!(strings.next(), None);

    let mut string_keys = object.string_property_keys();
    assert_eq!(string_keys.size_hint(), (2, Some(2)));
    assert_eq!(string_keys.len(), 2);
    assert_eq!(string_keys.next(), Some(&"b".to_string()));

    let mut string_values = object.string_property_values();
    assert_eq!(string_values.size_hint(), (2, Some(2)));
    assert_eq!(string_values.len(), 2);
    assert_eq!(string_values.next(), Some(&data(1)));
    assert_eq!(string_values.next(), Some(&data(2)));
    assert_eq!(string_values.next(), None);

    let key = Symbol::new(Some("s".to_string()), 7);
    let mut symbols = object.symbol_properties();
    assert_eq!(symbols.size_hint(), (1, Some(1)));
    assert_eq!(symbols.len(), 1);
    assert_eq!(symbols.next(), Some((&key, &data(3))));
    assert_eq!(symbols.next(), None);

    let mut symbol_keys = object.symbol_property_keys();
    assert_eq!(symbol_keys.size_hint(), (1, Some(1)));
    assert_eq!(symbol_keys.len(), 1);
    assert_eq!(symbol_keys.next(), Some(&key));
    assert_eq!(symbol_keys.next(), None);

    let mut symbol_values = object.symbol_property_values();
    assert_eq!(symbol_values.size_hint(), (1, Some(1)));
    assert_eq!(symbol_values.len(), 1);
    assert_eq!(symbol_values.next(), Some(&data(3)));
    assert_eq!(symbol_values.next(), None);
}

#[test]
fn an_empty_object_has_nothing_to_yield() {
    let object = Object::default();
    assert_eq!(object.iter().len(), 0);
    assert!(object.iter().next().is_none());
    assert!(object.keys().next().is_none());
    assert!(object.values().next().is_none());
    assert!(object.index_properties().next().is_none());
    assert!(object.string_properties().next().is_none());
    assert!(object.symbol_properties().next().is_none());
    assert_eq!(object.prototype(), &Value::Null);
}

#[test]
fn properties_are_data_slots_or_accessor_slots() {
    let flags = Attribute { writable: true, enumerable: false, configurable: true };
    let slot = Property::data_descriptor(Value::Integer(5), flags);
    assert!(slot.is_data_descriptor());
    assert!(!slot.is_accessor_descriptor());
    assert_eq!(slot.value(), Value::Integer(5));
    assert_eq!(slot.attribute(), flags);
    assert!(slot.writable());
    assert!(!slot.enumerable());
    assert!(slot.configurable());

    let accessor = Property::accessor_descriptor(Value::Null, Value::Undefined, Attribute::none());
    assert!(accessor.is_accessor_descriptor());
    assert!(!accessor.is_data_descriptor());
    assert_eq!(accessor.value(), Value::Undefined);
    assert_eq!(accessor.attribute(), Attribute::none());
    assert!(!accessor.writable());
    assert!(!accessor.enumerable());
    assert!(!accessor.configurable());
    assert_eq!(
        Attribute::all(),
        Attribute { writable: true, enumerable: true, configurable: true }
    );
    assert_eq!(accessor.clone(), accessor);
}

#[test]
fn insert_field_makes_a_data_property_with_every_flag() {
    let mut object = Object::default();
    object.insert_field(PropertyKey::string("x"), Value::string("y"));
    assert_eq!(
        object.get_own_property(&PropertyKey::string("x")),
        Some(&Property::data_descriptor(Value::String("y".to_string()), Attribute::all()))
    );
}

#[test]
fn keys_are_equal_within_their_namespace_only() {
    assert!(PropertyKey::Index(1).equals(&PropertyKey::index(1)));
    assert!(!PropertyKey::Index(1).equals(&PropertyKey::Index(2)));
    assert!(!PropertyKey::Index(1).equals(&PropertyKey::string("1")));
    assert!(PropertyKey::string("a").equals(&PropertyKey::String("a".to_string())));
    assert!(!PropertyKey::string("a").equals(&PropertyKey::string("b")));
    let symbol = Symbol::new(None, 3);
    assert!(PropertyKey::symbol(symbol.clone()).equals(&PropertyKey::Symbol(symbol.clone())));
    assert!(!PropertyKey::symbol(symbol).equals(&PropertyKey::Symbol(Symbol::new(None, 4))));
    assert_eq!(PropertyKey::string("a").clone(), PropertyKey::string("a"));
}

#[test]
fn an_object_knows_its_kind() {
    let plain = Object::create(Value::Integer(1));
    assert_eq!(plain.prototype(), &Value::Integer(1));
    assert_eq!(plain.data(), &ObjectData::Ordinary);
    assert!(!plain.is_function());
    assert!(!plain.is_callable());
    assert!(!plain.is_constructable());
    assert!(plain.as_function().is_none());
    assert!(plain.as_symbol().is_none());
    assert!(!plain.is_array());
    assert!(!plain.is_error());

    let native = Object::function(Function::builtin(Vec::new(), NativeFunction::Host(3)), Value::Null);
    assert!(native.is_function());
    assert!(native.is_callable());
    assert!(native.is_constructable());
    assert_eq!(native.as_function().unwrap().body(), FunctionBody::BuiltIn(NativeFunction::Host(3)));

    let arrow = Object::function(
        Function::ordinary(Vec::new(), None, Body(1), ThisMode::Lexical),
        Value::Null,
    );
    assert!(arrow.is_callable());
    assert!(!arrow.is_constructable());

    let wrapper = Object::with_prototype(Value::Null, ObjectData::Symbol(Symbol::new(None, 9)));
    assert_eq!(wrapper.as_symbol(), Some(Symbol::new(None, 9)));
    assert!(Object::with_prototype(Value::Null, ObjectData::Array).is_array());
    assert!(Object::with_prototype(Value::Null, ObjectData::Error).is_error());

    let mut relinked = Object::default();
    relinked.set_prototype(Value::string("anything"));
    assert_eq!(relinked.prototype(), &Value::String("anything".to_string()));
}
