use boa::builtins::function::{Body, FormalParameter, Function, ThisMode};
use boa::builtins::object::gcobject::GcObject;
use boa::builtins::object::Object;
use boa::builtins::property::{Attribute, Property, PropertyKey};
use boa::builtins::symbol::Symbol;
use boa::builtins::value::Value;
use boa::collector::{collect, Node};
use boa::environment::{new_function_environment, BindingStatus};
use boa::exec::Interpreter;

fn object_with(interpreter: &mut Interpreter, fields: &[(&str, Value)]) -> GcObject {
    let mut record = Object::default();
    for (name, value) in fields {
        record.insert_field(PropertyKey::string(name), value.clone());
    }
    GcObject::new(record, &mut interpreter.heap)
}

fn record_of(object: GcObject, interpreter: &mut Interpreter) -> Object {
    object.borrow(&mut interpreter.heap);
    let record = object.get(&interpreter.heap);
    let mut copy = Object::with_prototype(record.prototype().clone(), {
        match record.as_function() {
            Some(function) => boa::builtins::object::ObjectData::Function(function.clone()),
            None => boa::builtins::object::ObjectData::Ordinary,
        }
    });
    let mut pass = record.iter();
    while let Some((key, property)) = pass.next() {
        copy.insert_property(key, property.clone());
    }
    object.release(&mut interpreter.heap);
    copy
}

fn is_cleared(object: GcObject, interpreter: &mut Interpreter) -> bool {
    record_of(object, interpreter) == Object::default()
}

fn link(from: GcObject, name: &str, to: Value, interpreter: &mut Interpreter) {
    Value::Object(from).set_field(PropertyKey::string(name), to, &mut interpreter.heap);
}

#[test]
fn what_the_global_object_reaches_is_kept() {
    let mut interpreter = Interpreter::new();
    let leaf = object_with(&mut interpreter, &[("n", Value::Integer(1))]);
    let middle = object_with(&mut interpreter, &[("leaf", Value::Object(leaf))]);
    let global = interpreter.global().as_object().unwrap();
    link(global, "middle", Value::Object(middle), &mut interpreter);
    let lost = object_with(&mut interpreter, &[("n", Value::Integer(2))]);
    let objects = interpreter.heap.len();

    collect(&mut interpreter, &[]);

    assert_eq!(interpreter.heap.len(), objects);
    assert!(!is_cleared(leaf, &mut interpreter));
    assert!(!is_cleared(middle, &mut interpreter));
    assert!(is_cleared(lost, &mut interpreter));
    assert_eq!(
        Value::Object(middle).get_field(&PropertyKey::string("leaf"), &interpreter.heap),
        Value::Object(leaf)
    );
    assert_eq!(
        Value::Object(leaf).get_field(&PropertyKey::string("n"), &interpreter.heap),
        Value::Integer(1)
    );
    assert_eq!(
        interpreter.global().get_field(&PropertyKey::string("middle"), &interpreter.heap),
        Value::Object(middle)
    );
}

#[test]
fn a_circle_that_nothing_reaches_is_reclaimed() {
    let mut interpreter = Interpreter::new();
    let first = object_with(&mut interpreter, &[]);
    let second = object_with(&mut interpreter, &[("first", Value::Object(first))]);
    link(first, "second", Value::Object(second), &mut interpreter);
    let kept_first = object_with(&mut interpreter, &[]);
    let kept_second = object_with(&mut interpreter, &[("first", Value::Object(kept_first))]);
    link(kept_first, "second", Value::Object(kept_second), &mut interpreter);

    collect(&mut interpreter, &[kept_second]);

    assert!(is_cleared(first, &mut interpreter));
    assert!(is_cleared(second, &mut interpreter));
    assert!(!is_cleared(kept_first, &mut interpreter));
    assert!(!is_cleared(kept_second, &mut interpreter));
    assert_eq!(
        Value::Object(kept_first).get_field(&PropertyKey::string("second"), &interpreter.heap),
        Value::Object(kept_second)
    );
}

#[test]
fn every_kind_of_reference_keeps_its_target() {
    let mut interpreter = Interpreter::new();
    let by_prototype = object_with(&mut interpreter, &[("p", Value::Integer(1))]);
    let by_index = object_with(&mut interpreter, &[("i", Value::Integer(2))]);
    let by_symbol = object_with(&mut interpreter, &[("s", Value::Integer(3))]);
    let by_getter = object_with(&mut interpreter, &[("g", Value::Integer(4))]);
    let by_setter = object_with(&mut interpreter, &[("t", Value::Integer(5))]);
    let mut record = Object::create(Value::Object(by_prototype));
    record.insert_field(PropertyKey::Index(7), Value::Object(by_index));
    record.insert_field(
        PropertyKey::Symbol(Symbol::new(None, 1)),
        Value::Object(by_symbol),
    );
    record.insert_property(
        PropertyKey::string("computed"),
        Property::accessor_descriptor(
            Value::Object(by_getter),
            Value::Object(by_setter),
            Attribute::all(),
        ),
    );
    let root = GcObject::new(record, &mut interpreter.heap);
    let lost = object_with(&mut interpreter, &[("x", Value::Object(root))]);

    collect(&mut interpreter, &[root]);

    for kept in [by_prototype, by_index, by_symbol, by_getter, by_setter, root] {
        assert!(!is_cleared(kept, &mut interpreter));
    }
    assert!(is_cleared(lost, &mut interpreter));
}

#[test]
fn an_object_that_somebody_holds_is_a_root() {
    let mut interpreter = Interpreter::new();
    let target = object_with(&mut interpreter, &[("n", Value::Integer(1))]);
    let read = object_with(&mut interpreter, &[("target", Value::Object(target))]);
    let written = object_with(&mut interpreter, &[("n", Value::Integer(2))]);
    let free = object_with(&mut interpreter, &[("n", Value::Integer(3))]);
    read.borrow(&mut interpreter.heap);
    written.borrow_mut(&mut interpreter.heap);

    collect(&mut interpreter, &[]);

    assert_eq!(read.readers(&interpreter.heap), 1);
    assert!(written.is_borrowed_mut(&interpreter.heap));
    read.release(&mut interpreter.heap);
    written.release_mut(&mut interpreter.heap);
    assert!(!is_cleared(read, &mut interpreter));
    assert!(!is_cleared(written, &mut interpreter));
    assert!(!is_cleared(target, &mut interpreter));
    assert!(is_cleared(free, &mut interpreter));

    collect(&mut interpreter, &[]);
    assert!(is_cleared(read, &mut interpreter));
    assert!(is_cleared(target, &mut interpreter));
    assert!(is_cleared(written, &mut interpreter));
}

#[test]
fn the_frame_of_a_call_is_reclaimed_once_the_call_is_over() {
    let mut interpreter = Interpreter::new();
    let function = Function::ordinary(
        vec![FormalParameter::new("x", false), FormalParameter::new("rest", true)],
        None,
        Body(1),
        ThisMode::NonLexical,
    );
    let callee = GcObject::new(Object::function(function, Value::Null), &mut interpreter.heap);
    let argument = object_with(&mut interpreter, &[("n", Value::Integer(1))]);
    let receiver = object_with(&mut interpreter, &[("n", Value::Integer(2))]);
    let body = callee
        .call(&Value::Object(receiver), &[Value::Object(argument), Value::Integer(5)], &mut interpreter)
        .unwrap();
    let frame = interpreter.realm.environment.get_current_environment().unwrap();
    let arguments = interpreter.realm.environment.record(frame).get_binding_value("arguments").unwrap();
    let rest = interpreter.realm.environment.record(frame).get_binding_value("rest").unwrap();

    collect(&mut interpreter, &[]);

    {
        let record = interpreter.realm.environment.record(frame);
        assert_eq!(record.get_binding_value("x"), Some(Value::Object(argument)));
        assert_eq!(record.get_binding_value("arguments"), Some(arguments.clone()));
        assert_eq!(record.get_this_binding(), Value::Object(receiver));
    }
    for kept in [callee, argument, receiver, arguments.as_object().unwrap(), rest.as_object().unwrap()] {
        assert!(!is_cleared(kept, &mut interpreter));
    }

    callee.end_call(body, Ok(Value::Undefined), &mut interpreter).unwrap();
    collect(&mut interpreter, &[callee]);

    {
        let record = interpreter.realm.environment.record(frame);
        assert_eq!(record.get_binding_value("x"), None);
        assert!(!record.has_binding("arguments"));
        assert_eq!(record.get_this_binding(), Value::Undefined);
        assert_eq!(record.outer_env(), None);
        assert_eq!(record.function(), callee);
    }
    assert!(!is_cleared(callee, &mut interpreter));
    for lost in [argument, receiver, arguments.as_object().unwrap(), rest.as_object().unwrap()] {
        assert!(is_cleared(lost, &mut interpreter));
    }
    assert_eq!(interpreter.realm.environment.len(), 1);
    assert_eq!(interpreter.realm.environment.depth(), 0);
}

#[test]
fn a_frame_that_a_function_captured_is_kept_with_what_it_binds() {
    let mut interpreter = Interpreter::new();
    let owner = object_with(&mut interpreter, &[("n", Value::Integer(0))]);
    let outer = new_function_environment(
        owner,
        None,
        None,
        BindingStatus::Lexical,
        &mut interpreter.realm.environment,
    );
    let home = new_function_environment(
        owner,
        Some(Value::Integer(1)),
        Some(outer),
        BindingStatus::Uninitialized,
        &mut interpreter.realm.environment,
    );
    let other = new_function_environment(
        owner,
        None,
        None,
        BindingStatus::Lexical,
        &mut interpreter.realm.environment,
    );
    let captured = object_with(&mut interpreter, &[("n", Value::Integer(1))]);
    let outside = object_with(&mut interpreter, &[("n", Value::Integer(2))]);
    let elsewhere = object_with(&mut interpreter, &[("n", Value::Integer(3))]);
    for (frame, name, value) in
        [(home, "captured", captured), (outer, "outside", outside), (other, "elsewhere", elsewhere)]
    {
        let record = interpreter.realm.environment.record_mut(frame);
        record.create_mutable_binding(name.to_string(), false);
        record.initialize_binding(name, Value::Object(value));
    }
    let closure = Function::ordinary(Vec::new(), Some(home), Body(2), ThisMode::Lexical);
    let closure = GcObject::new(Object::function(closure, Value::Null), &mut interpreter.heap);

    collect(&mut interpreter, &[closure]);

    let frames = &interpreter.realm.environment;
    assert_eq!(frames.record(home).get_binding_value("captured"), Some(Value::Object(captured)));
    assert_eq!(frames.record(home).outer_env(), Some(outer));
    assert_eq!(frames.record(outer).get_binding_value("outside"), Some(Value::Object(outside)));
    assert_eq!(frames.record(other).get_binding_value("elsewhere"), None);
    assert!(!is_cleared(captured, &mut interpreter));
    assert!(!is_cleared(outside, &mut interpreter));
    assert!(!is_cleared(owner, &mut interpreter));
    assert!(is_cleared(elsewhere, &mut interpreter));
}

#[test]
fn collecting_changes_nothing_else() {
    let mut interpreter = Interpreter::new();
    let symbol = Symbol::call(None, &mut interpreter).unwrap();
    let kept = object_with(&mut interpreter, &[("s", symbol.clone())]);
    let global = interpreter.global().clone();
    collect(&mut interpreter, &[kept, kept]);
    assert_eq!(interpreter.global(), &global);
    assert_eq!(interpreter.generate_hash(), 1);
    assert_eq!(Value::Object(kept).get_field(&PropertyKey::string("s"), &interpreter.heap), symbol);
    collect(&mut interpreter, &[kept]);
    assert!(!is_cleared(kept, &mut interpreter));
    assert_eq!(Node::Object(kept), Node::Object(kept));
}

#[test]
fn a_handle_keeps_its_place_after_a_collection() {
    let mut interpreter = Interpreter::new();
    let lost = object_with(&mut interpreter, &[("n", Value::Integer(1))]);
    collect(&mut interpreter, &[]);
    let made = object_with(&mut interpreter, &[("n", Value::Integer(2))]);
    assert_ne!(lost, made);
    assert!(is_cleared(lost, &mut interpreter));
    assert!(!is_cleared(made, &mut interpreter));
    assert_eq!(lost.index() + 1, made.index());
    assert_eq!(interpreter.heap.handle(lost.index()), Some(lost));
    assert_eq!(interpreter.heap.handle(made.index() + 1), None);
}
