use boa::builtins::function::{FunctionBody, NativeFunction};
use boa::builtins::object::gcobject::GcObject;
use boa::builtins::object::{Object, ObjectData};
use boa::builtins::property::{Attribute, Property, PropertyKey};
use boa::builtins::symbol::{Symbol, LENGTH, NAME};
use boa::builtins::value::Value;
use boa::exec::Interpreter;

fn message_of(error: &Value, interpreter: &Interpreter) -> Value {
    error.get_field(&PropertyKey::string("message"), &interpreter.heap)
}

#[test]
fn a_symbol_has_a_description_and_a_hash() {
    let named = Symbol::new(Some("tag".to_string()), 12);
    assert_eq!(named.description(), Some("tag"));
    assert_eq!(named.hash(), 12);
    let bare = Symbol::new(None, 0);
    assert_eq!(bare.description(), None);
    assert_eq!(bare.hash(), 0);
    assert!(named.equals(&named.clone()));
    assert!(!named.equals(&Symbol::new(Some("tag".to_string()), 13)));
    assert!(!named.equals(&Symbol::new(Some("tug".to_string()), 12)));
    assert!(!named.equals(&Symbol::new(None, 12)));
    assert!(bare.equals(&Symbol::new(None, 0)));
}

#[test]
fn the_symbol_function_gives_every_symbol_a_hash_of_its_own() {
    let mut interpreter = Interpreter::new();
    let first = Symbol::call(Some("a".to_string()), &mut interpreter);
    let second = Symbol::call(Some("a".to_string()), &mut interpreter);
    let third = Symbol::call(None, &mut interpreter);
    assert_eq!(first, Ok(Value::Symbol(Symbol::new(Some("a".to_string()), 0))));
    assert_eq!(second, Ok(Value::Symbol(Symbol::new(Some("a".to_string()), 1))));
    assert_eq!(third, Ok(Value::Symbol(Symbol::new(None, 2))));
    assert_ne!(first, second);
    assert_eq!(interpreter.generate_hash(), 3);
    assert_eq!(interpreter.generate_hash(), 4);
}

#[test]
fn the_description_comes_from_the_first_argument_unless_it_is_undefined() {
    assert_eq!(Symbol::description_argument(&[]), None);
    assert_eq!(Symbol::description_argument(&[Value::Undefined]), None);
    assert_eq!(Symbol::description_argument(&[Value::Undefined, Value::Integer(1)]), None);
    assert_eq!(Symbol::description_argument(&[Value::Null]), Some(&Value::Null));
    assert_eq!(
        Symbol::description_argument(&[Value::Integer(4), Value::Integer(5)]),
        Some(&Value::Integer(4))
    );
}

#[test]
fn to_string_shows_the_description_in_brackets() {
    let mut interpreter = Interpreter::new();
    let named = Value::Symbol(Symbol::new(Some("Hello".to_string()), 1));
    assert_eq!(
        Symbol::to_string(&named, &[], &mut interpreter),
        Ok(Value::String("Symbol(Hello)".to_string()))
    );
    let bare = Value::Symbol(Symbol::new(None, 2));
    assert_eq!(
        Symbol::to_string(&bare, &[], &mut interpreter),
        Ok(Value::String("Symbol()".to_string()))
    );
    assert_eq!(interpreter.heap.len(), 1);
}

#[test]
fn to_string_reads_through_an_object_that_wraps_a_symbol() {
    let mut interpreter = Interpreter::new();
    let symbol = Symbol::new(Some("boxed".to_string()), 5);
    let wrapper = GcObject::new(
        Object::with_prototype(Value::Null, ObjectData::Symbol(symbol.clone())),
        &mut interpreter.heap,
    );
    assert_eq!(
        Symbol::this_symbol_value(&Value::Object(wrapper), &mut interpreter),
        Ok(symbol)
    );
    assert_eq!(
        Symbol::to_string(&Value::Object(wrapper), &[], &mut interpreter),
        Ok(Value::String("Symbol(boxed)".to_string()))
    );
}

#[test]
fn a_value_that_stands_for_no_symbol_throws_a_type_error() {
    let mut interpreter = Interpreter::new();
    let plain = GcObject::new(Object::default(), &mut interpreter.heap);
    for value in [
        Value::Undefined,
        Value::Null,
        Value::Boolean(true),
        Value::Integer(3),
        Value::String("Symbol()".to_string()),
        Value::Object(plain),
    ] {
        let before = interpreter.heap.len();
        let thrown = Symbol::this_symbol_value(&value, &mut interpreter).unwrap_err();
        assert_eq!(interpreter.heap.len(), before + 1);
        assert_eq!(
            message_of(&thrown, &interpreter),
            Value::String("'this' is not a Symbol".to_string())
        );
        let thrown = Symbol::to_string(&value, &[], &mut interpreter).unwrap_err();
        assert_eq!(
            message_of(&thrown, &interpreter),
            Value::String("'this' is not a Symbol".to_string())
        );
    }
}

#[test]
fn init_makes_the_symbol_function_with_the_well_known_symbols() {
    let mut interpreter = Interpreter::new();
    let (name, symbol) = Symbol::init(&mut interpreter);
    assert_eq!(name, "Symbol");
    assert_eq!(name, NAME);
    assert_eq!(LENGTH, 0);
    assert_eq!(interpreter.heap.len(), 4);
    assert_eq!(interpreter.generate_hash(), 13);

    let names = [
        "asyncIterator",
        "hasInstance",
        "isConcatSpreadable",
        "iterator",
        "match",
        "matchAll",
        "replace",
        "search",
        "species",
        "split",
        "toPrimitive",
        "toStringTag",
        "unscopables",
    ];
    for (place, name) in names.iter().enumerate() {
        assert_eq!(
            symbol.get_field(&PropertyKey::string(name), &interpreter.heap),
            Value::Symbol(Symbol::new(Some(format!("Symbol.{}", name)), place as u32))
        );
    }

    let constructor = symbol.as_object().unwrap();
    constructor.borrow(&mut interpreter.heap);
    {
        let record = constructor.get(&interpreter.heap);
        let function = record.as_function().unwrap();
        assert_eq!(function.body(), FunctionBody::BuiltIn(NativeFunction::Symbol));
        assert!(function.is_callable());
        assert!(!function.is_constructable());
        assert_eq!(function.params().len(), 0);
        assert_eq!(record.prototype(), &Value::Undefined);
        assert_eq!(
            record.get_own_property(&PropertyKey::string("length")),
            Some(&Property::data_descriptor(Value::Integer(0), Attribute::none()))
        );
        assert_eq!(
            record.get_own_property(&PropertyKey::string("name")),
            Some(&Property::data_descriptor(Value::String("Symbol".to_string()), Attribute::none()))
        );
        let mut keys = record.string_property_keys();
        assert_eq!(keys.len(), 16);
        assert_eq!(keys.next().map(|key| key.as_str()), Some("length"));
        assert_eq!(keys.next().map(|key| key.as_str()), Some("name"));
        assert_eq!(keys.next().map(|key| key.as_str()), Some("prototype"));
        assert_eq!(keys.next().map(|key| key.as_str()), Some("asyncIterator"));
    }
    constructor.release(&mut interpreter.heap);

    let prototype = symbol.get_field(&PropertyKey::string("prototype"), &interpreter.heap);
    assert!(prototype.is_object());
    assert_eq!(prototype.get_field(&PropertyKey::string("constructor"), &interpreter.heap), symbol);
    let method = prototype.get_field(&PropertyKey::string("toString"), &interpreter.heap);
    let method_object = method.as_object().unwrap();
    method_object.borrow(&mut interpreter.heap);
    assert_eq!(
        method_object.get(&interpreter.heap).as_function().unwrap().body(),
        FunctionBody::BuiltIn(NativeFunction::SymbolToString)
    );
    method_object.release(&mut interpreter.heap);
    assert_eq!(
        method.get_field(&PropertyKey::string("length"), &interpreter.heap),
        Value::Integer(0)
    );
}

#[test]
fn init_takes_the_prototype_links_from_the_global_object() {
    let mut interpreter = Interpreter::new();
    let object_prototype = Value::new_object(None, &mut interpreter.heap);
    let function_prototype = Value::new_object(None, &mut interpreter.heap);
    let object_constructor = Value::new_object(None, &mut interpreter.heap);
    let function_constructor = Value::new_object(None, &mut interpreter.heap);
    object_constructor.set_field(
        PropertyKey::string("prototype"),
        object_prototype.clone(),
        &mut interpreter.heap,
    );
    function_constructor.set_field(
        PropertyKey::string("prototype"),
        function_prototype.clone(),
        &mut interpreter.heap,
    );
    let global = interpreter.global().clone();
    global.set_field(PropertyKey::string("Object"), object_constructor, &mut interpreter.heap);
    global.set_field(PropertyKey::string("Function"), function_constructor, &mut interpreter.heap);

    let (_, symbol) = Symbol::init(&mut interpreter);
    let prototype = symbol.get_field(&PropertyKey::string("prototype"), &interpreter.heap);
    let method = prototype.get_field(&PropertyKey::string("toString"), &interpreter.heap);
    for (value, link) in [
        (&prototype, &object_prototype),
        (&method, &function_prototype),
        (&symbol, &function_prototype),
    ] {
        let handle = value.as_object().unwrap();
        handle.borrow(&mut interpreter.heap);
        assert_eq!(handle.get(&interpreter.heap).prototype(), link);
        handle.release(&mut interpreter.heap);
    }
}
