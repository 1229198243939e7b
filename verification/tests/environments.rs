use boa::builtins::object::gcobject::GcObject;
use boa::builtins::object::Object;
use boa::builtins::property::PropertyKey;
use boa::builtins::value::Value;
use boa::environment::{
    new_function_environment, BindingStatus, FunctionEnvironmentRecord, LexicalEnvironment,
};
use boa::exec::{Interpreter, SymbolCount};

fn frame() -> FunctionEnvironmentRecord {
    let mut interpreter = Interpreter::new();
    let function = GcObject::new(Object::default(), &mut interpreter.heap);
    FunctionEnvironmentRecord::new(function, None, None, BindingStatus::Uninitialized)
}

#[test]
fn a_declared_name_has_no_value_until_it_is_initialized() {
    let mut record = frame();
    assert!(!record.has_binding("x"));
    assert_eq!(record.get_binding_value("x"), None);
    record.create_mutable_binding("x".to_string(), false);
    assert!(record.has_binding("x"));
    assert_eq!(record.get_binding_value("x"), None);
    record.initialize_binding("x", Value::Integer(1));
    assert_eq!(record.get_binding_value("x"), Some(Value::Integer(1)));
    record.initialize_binding("y", Value::Integer(2));
    assert!(!record.has_binding("y"));
    assert_eq!(record.get_binding_value("y"), None);
}

#[test]
fn assignment_needs_a_binding() {
    let mut record = frame();
    assert!(!record.set_mutable_binding("x", Value::Integer(1)));
    assert!(!record.has_binding("x"));
    record.create_mutable_binding("x".to_string(), true);
    assert!(record.set_mutable_binding("x", Value::Integer(2)));
    assert_eq!(record.get_binding_value("x"), Some(Value::Integer(2)));
    assert!(record.set_mutable_binding("x", Value::Integer(3)));
    assert_eq!(record.get_binding_value("x"), Some(Value::Integer(3)));
}

#[test]
fn declaring_a_name_again_binds_it_anew() {
    let mut record = frame();
    record.create_mutable_binding("x".to_string(), false);
    record.initialize_binding("x", Value::Integer(1));
    record.create_mutable_binding("x".to_string(), false);
    assert!(record.has_binding("x"));
    assert_eq!(record.get_binding_value("x"), None);
}

#[test]
fn this_is_set_once_where_the_frame_has_one() {
    let mut record = frame();
    assert!(record.has_this_binding());
    assert_eq!(record.this_binding_status(), BindingStatus::Uninitialized);
    assert_eq!(record.get_this_binding(), Value::Undefined);
    assert!(record.bind_this_value(Value::Integer(1)));
    assert_eq!(record.this_binding_status(), BindingStatus::Initialized);
    assert_eq!(record.get_this_binding(), Value::Integer(1));
    assert!(!record.bind_this_value(Value::Integer(2)));
    assert_eq!(record.get_this_binding(), Value::Integer(1));

    let mut interpreter = Interpreter::new();
    let function = GcObject::new(Object::default(), &mut interpreter.heap);
    let mut lexical = FunctionEnvironmentRecord::new(function, None, None, BindingStatus::Lexical);
    assert!(!lexical.has_this_binding());
    assert!(!lexical.bind_this_value(Value::Integer(1)));
    assert_eq!(lexical.this_binding_status(), BindingStatus::Lexical);
    assert_eq!(lexical.function(), function);
    assert_eq!(lexical.outer_env(), None);
}

#[test]
fn the_stack_gives_back_the_frames_innermost_first() {
    let mut interpreter = Interpreter::new();
    let function = GcObject::new(Object::default(), &mut interpreter.heap);
    let mut environments = LexicalEnvironment::new();
    assert_eq!(environments.depth(), 0);
    assert_eq!(environments.get_current_environment(), None);
    assert_eq!(environments.pop(), None);
    let first = new_function_environment(
        function,
        Some(Value::Integer(1)),
        None,
        BindingStatus::Uninitialized,
        &mut environments,
    );
    let second = new_function_environment(
        function,
        None,
        Some(first),
        BindingStatus::Lexical,
        &mut environments,
    );
    assert_ne!(first, second);
    assert_eq!(environments.len(), 2);
    assert_eq!(environments.depth(), 0);
    environments.push(first);
    environments.push(second);
    assert_eq!(environments.depth(), 2);
    assert_eq!(environments.get_current_environment(), Some(second));
    assert_eq!(environments.record(second).outer_env(), Some(first));
    assert_eq!(environments.record(first).get_this_binding(), Value::Integer(1));
    assert_eq!(environments.record(first).this_binding_status(), BindingStatus::Uninitialized);
    environments.record_mut(first).create_mutable_binding("n".to_string(), false);
    environments.record_mut(first).initialize_binding("n", Value::Integer(5));
    assert_eq!(environments.record(first).get_binding_value("n"), Some(Value::Integer(5)));
    assert_eq!(environments.record(second).get_binding_value("n"), None);
    assert_eq!(environments.pop(), Some(second));
    assert_eq!(environments.get_current_environment(), Some(first));
    assert_eq!(environments.pop(), Some(first));
    assert_eq!(environments.pop(), None);
    assert_eq!(environments.depth(), 0);
    assert_eq!(environments.len(), 2);
}

#[test]
fn a_new_context_holds_a_global_object_and_nothing_else() {
    let mut interpreter = Interpreter::new();
    assert_eq!(interpreter.heap.len(), 1);
    assert!(interpreter.global().is_object());
    assert_eq!(interpreter.realm.global_obj, interpreter.global().clone());
    assert_eq!(interpreter.realm.environment.depth(), 0);
    assert_eq!(interpreter.realm.environment.len(), 0);
    assert_eq!(interpreter.generate_hash(), 0);
    assert_eq!(interpreter.generate_hash(), 1);
    let global = interpreter.global().as_object().unwrap();
    global.borrow(&mut interpreter.heap);
    assert_eq!(global.get(&interpreter.heap), &Object::default());
    global.release(&mut interpreter.heap);
}

#[test]
fn each_context_counts_its_own_symbols() {
    let mut one = Interpreter::new();
    let mut other = Interpreter::new();
    assert_eq!(one.generate_hash(), 0);
    assert_eq!(one.generate_hash(), 1);
    assert_eq!(other.generate_hash(), 0);
    assert_eq!(one.generate_hash(), 2);
    let mut count = SymbolCount::new();
    assert_eq!(count.generate_hash(), 0);
    assert_eq!(count.generate_hash(), 1);
}

#[test]
fn a_type_error_is_an_error_object_with_name_and_message() {
    let mut interpreter = Interpreter::new();
    let error = interpreter.construct_type_error("wrong kind");
    let handle = error.as_object().unwrap();
    handle.borrow(&mut interpreter.heap);
    {
        let record = handle.get(&interpreter.heap);
        assert!(record.is_error());
        assert_eq!(record.prototype(), &Value::Null);
        assert_eq!(record.iter().len(), 2);
    }
    handle.release(&mut interpreter.heap);
    assert_eq!(
        error.get_field(&PropertyKey::string("name"), &interpreter.heap),
        Value::String("TypeError".to_string())
    );
    assert_eq!(
        error.get_field(&PropertyKey::string("message"), &interpreter.heap),
        Value::String("wrong kind".to_string())
    );
    let thrown = interpreter.throw_type_error("again");
    let thrown = thrown.unwrap_err();
    assert_ne!(thrown, error);
    assert_eq!(
        thrown.get_field(&PropertyKey::string("message"), &interpreter.heap),
        Value::String("again".to_string())
    );
}

#[test]
fn values_know_what_they_are() {
    assert!(Value::undefined().is_undefined());
    assert!(!Value::null().is_undefined());
    assert_eq!(Value::null(), Value::Null);
    assert_eq!(Value::string("s"), Value::String("s".to_string()));
    assert!(!Value::Integer(0).is_object());
    assert_eq!(Value::Integer(0).as_object(), None);
    let mut interpreter = Interpreter::new();
    let handle = GcObject::new(Object::default(), &mut interpreter.heap);
    assert!(Value::object(handle).is_object());
    assert_eq!(Value::object(handle).as_object(), Some(handle));
    assert_eq!(Value::object(handle).clone(), Value::Object(handle));
    let object = Value::new_object(None, &mut interpreter.heap);
    assert_ne!(object, Value::Object(handle));
    object.set_field(PropertyKey::Index(3), Value::Integer(9), &mut interpreter.heap);
    assert_eq!(object.get_field(&PropertyKey::Index(3), &interpreter.heap), Value::Integer(9));
    Value::Integer(1).set_field(PropertyKey::Index(3), Value::Integer(9), &mut interpreter.heap);
    assert_eq!(interpreter.heap.len(), 3);
    assert!(interpreter.heap.holds(handle));
}
