use boa::builtins::function::{
    create_unmapped_arguments_object, Body, FormalParameter, Function, FunctionBody,
    NativeFunction, ThisMode,
};
use boa::builtins::object::gcobject::{BorrowMutError, GcObject};
use boa::builtins::object::{Object, ObjectData};
use boa::builtins::property::{Attribute, Property, PropertyKey};
use boa::builtins::value::Value;
use boa::environment::{new_function_environment, BindingStatus, Environment};
use boa::exec::Interpreter;

fn function_object(
    interpreter: &mut Interpreter,
    params: &[(&str, bool)],
    this_mode: ThisMode,
    captured: Option<Environment>,
) -> GcObject {
    let params = params.iter().map(|(name, rest)| FormalParameter::new(name, *rest)).collect();
    let function = Function::ordinary(params, captured, Body(7), this_mode);
    GcObject::new(Object::function(function, Value::Null), &mut interpreter.heap)
}

fn current(interpreter: &Interpreter) -> Environment {
    interpreter.realm.environment.get_current_environment().unwrap()
}

fn binding(interpreter: &Interpreter, name: &str) -> Option<Value> {
    interpreter.realm.environment.record(current(interpreter)).get_binding_value(name)
}

fn indexed_values(value: &Value, interpreter: &mut Interpreter) -> Vec<Value> {
    let handle = value.as_object().unwrap();
    handle.borrow(&mut interpreter.heap);
    let mut values = Vec::new();
    {
        let record = handle.get(&interpreter.heap);
        let mut expected = 0u32;
        let mut pass = record.index_properties();
        while let Some((index, property)) = pass.next() {
            assert_eq!(*index, expected);
            assert_eq!(property.attribute(), Attribute::all());
            values.push(property.value());
            expected += 1;
        }
    }
    handle.release(&mut interpreter.heap);
    values
}

fn message_of(error: &Value, interpreter: &Interpreter) -> String {
    match error.get_field(&PropertyKey::string("message"), &interpreter.heap) {
        Value::String(text) => text,
        other => panic!("no message: {:?}", other),
    }
}

#[test]
fn calling_an_object_that_is_no_function_throws_not_a_function() {
    let mut interpreter = Interpreter::new();
    let plain = GcObject::new(Object::default(), &mut interpreter.heap);
    let depth = interpreter.realm.environment.depth();
    let thrown = plain.call(&Value::Undefined, &[], &mut interpreter).unwrap_err();
    assert!(message_of(&thrown, &interpreter).contains("not a function"));
    assert_eq!(message_of(&thrown, &interpreter), "not a function");
    assert_eq!(
        thrown.get_field(&PropertyKey::string("name"), &interpreter.heap),
        Value::String("TypeError".to_string())
    );
    assert_eq!(interpreter.realm.environment.depth(), depth);
    assert_eq!(interpreter.realm.environment.len(), 0);
    assert_eq!(plain.readers(&interpreter.heap), 0);
}

#[test]
fn calling_a_function_that_is_not_callable_throws_not_callable() {
    let mut interpreter = Interpreter::new();
    let function = Function::new(
        Vec::new(),
        None,
        FunctionBody::Ordinary(Body(1)),
        ThisMode::NonLexical,
        true,
        false,
    );
    let callee = GcObject::new(Object::function(function, Value::Null), &mut interpreter.heap);
    let thrown = callee.call(&Value::Undefined, &[], &mut interpreter).unwrap_err();
    assert!(message_of(&thrown, &interpreter).contains("not callable"));
    assert_eq!(message_of(&thrown, &interpreter), "function object is not callable");
    assert_eq!(interpreter.realm.environment.depth(), 0);
    assert_eq!(interpreter.realm.environment.len(), 0);
    assert_eq!(callee.readers(&interpreter.heap), 0);
}

#[test]
fn a_host_function_is_handed_to_the_host_and_its_result_comes_back_unchanged() {
    let mut interpreter = Interpreter::new();
    let native = Function::builtin(Vec::new(), NativeFunction::Host(11));
    let callee = GcObject::new(Object::function(native, Value::Null), &mut interpreter.heap);
    let objects = interpreter.heap.len();
    let step = callee.call(&Value::Integer(1), &[Value::Integer(2)], &mut interpreter);
    assert_eq!(step, Ok(FunctionBody::BuiltIn(NativeFunction::Host(11))));
    assert_eq!(interpreter.heap.len(), objects);
    assert_eq!(interpreter.realm.environment.depth(), 0);
    assert_eq!(interpreter.realm.environment.len(), 0);
    assert_eq!(callee.readers(&interpreter.heap), 1);
    let body = step.unwrap();
    assert_eq!(
        callee.end_call(body, Ok(Value::String("done".to_string())), &mut interpreter),
        Ok(Value::String("done".to_string()))
    );
    assert_eq!(callee.readers(&interpreter.heap), 0);

    let body = callee.call(&Value::Undefined, &[], &mut interpreter).unwrap();
    assert_eq!(
        callee.end_call(body, Err(Value::Integer(13)), &mut interpreter),
        Err(Value::Integer(13))
    );
    assert_eq!(interpreter.realm.environment.depth(), 0);
    assert_eq!(callee.readers(&interpreter.heap), 0);
}

#[test]
fn two_parameters_and_no_argument_bind_both_to_undefined() {
    let mut interpreter = Interpreter::new();
    let callee =
        function_object(&mut interpreter, &[("a", false), ("b", false)], ThisMode::NonLexical, None);
    let step = callee.call(&Value::Undefined, &[], &mut interpreter);
    assert_eq!(step, Ok(FunctionBody::Ordinary(Body(7))));
    assert_eq!(binding(&interpreter, "a"), Some(Value::Undefined));
    assert_eq!(binding(&interpreter, "b"), Some(Value::Undefined));
    assert_eq!(binding(&interpreter, "c"), None);
    let arguments = binding(&interpreter, "arguments").unwrap();
    assert_eq!(indexed_values(&arguments, &mut interpreter), Vec::<Value>::new());
    assert_eq!(
        arguments.get_field(&PropertyKey::string("length"), &interpreter.heap),
        Value::Integer(0)
    );
}

#[test]
fn parameters_are_bound_by_position_and_extra_arguments_are_left_out() {
    let mut interpreter = Interpreter::new();
    let callee =
        function_object(&mut interpreter, &[("a", false), ("b", false)], ThisMode::NonLexical, None);
    let args = [Value::Integer(1), Value::string("two"), Value::Boolean(true)];
    callee.call(&Value::Undefined, &args, &mut interpreter).unwrap();
    assert_eq!(binding(&interpreter, "a"), Some(Value::Integer(1)));
    assert_eq!(binding(&interpreter, "b"), Some(Value::String("two".to_string())));
    let arguments = binding(&interpreter, "arguments").unwrap();
    assert_eq!(indexed_values(&arguments, &mut interpreter), args.to_vec());
}

#[test]
fn a_rest_parameter_collects_the_arguments_from_its_place_on() {
    let mut interpreter = Interpreter::new();
    let callee = function_object(
        &mut interpreter,
        &[("a", false), ("b", false), ("rest", true)],
        ThisMode::NonLexical,
        None,
    );
    let args = [
        Value::Integer(0),
        Value::Integer(1),
        Value::Integer(2),
        Value::Integer(3),
        Value::Integer(4),
    ];
    callee.call(&Value::Undefined, &args, &mut interpreter).unwrap();
    assert_eq!(binding(&interpreter, "a"), Some(Value::Integer(0)));
    assert_eq!(binding(&interpreter, "b"), Some(Value::Integer(1)));
    let rest = binding(&interpreter, "rest").unwrap();
    assert_eq!(
        indexed_values(&rest, &mut interpreter),
        vec![Value::Integer(2), Value::Integer(3), Value::Integer(4)]
    );
    assert_eq!(rest.get_field(&PropertyKey::string("length"), &interpreter.heap), Value::Integer(3));
    let handle = rest.as_object().unwrap();
    handle.borrow(&mut interpreter.heap);
    assert!(handle.get(&interpreter.heap).is_array());
    assert_eq!(
        handle.get(&interpreter.heap).get_own_property(&PropertyKey::string("length")),
        Some(&Property::data_descriptor(
            Value::Integer(3),
            Attribute { writable: true, enumerable: false, configurable: false }
        ))
    );
    handle.release(&mut interpreter.heap);
    let arguments = binding(&interpreter, "arguments").unwrap();
    assert_ne!(arguments, rest);
    assert_eq!(indexed_values(&arguments, &mut interpreter), args.to_vec());
}

#[test]
fn a_rest_parameter_is_empty_where_the_arguments_do_not_reach_it() {
    for count in 0..3usize {
        let mut interpreter = Interpreter::new();
        let callee = function_object(
            &mut interpreter,
            &[("a", false), ("b", false), ("rest", true)],
            ThisMode::NonLexical,
            None,
        );
        let args: Vec<Value> = (0..count).map(|number| Value::Integer(number as i32)).collect();
        callee.call(&Value::Undefined, &args, &mut interpreter).unwrap();
        let rest = binding(&interpreter, "rest").unwrap();
        assert_eq!(indexed_values(&rest, &mut interpreter), Vec::<Value>::new());
        assert_eq!(
            rest.get_field(&PropertyKey::string("length"), &interpreter.heap),
            Value::Integer(0)
        );
        assert_eq!(
            binding(&interpreter, "a"),
            Some(args.get(0).cloned().unwrap_or(Value::Undefined))
        );
        assert_eq!(
            binding(&interpreter, "b"),
            Some(args.get(1).cloned().unwrap_or(Value::Undefined))
        );
    }
}

#[test]
fn binding_stops_at_the_rest_parameter() {
    let mut interpreter = Interpreter::new();
    let callee = function_object(
        &mut interpreter,
        &[("rest", true), ("after", false)],
        ThisMode::NonLexical,
        None,
    );
    callee.call(&Value::Undefined, &[Value::Integer(1), Value::Integer(2)], &mut interpreter).unwrap();
    let rest = binding(&interpreter, "rest").unwrap();
    assert_eq!(
        indexed_values(&rest, &mut interpreter),
        vec![Value::Integer(1), Value::Integer(2)]
    );
    assert_eq!(binding(&interpreter, "after"), None);
    assert!(!interpreter.realm.environment.record(current(&interpreter)).has_binding("after"));
}

#[test]
fn a_function_without_parameters_still_gets_its_arguments() {
    let mut interpreter = Interpreter::new();
    let callee = function_object(&mut interpreter, &[], ThisMode::NonLexical, None);
    let args = [Value::Integer(1), Value::Integer(2), Value::Integer(3)];
    callee.call(&Value::Undefined, &args, &mut interpreter).unwrap();
    let arguments = binding(&interpreter, "arguments").unwrap();
    assert_eq!(
        indexed_values(&arguments, &mut interpreter),
        vec![Value::Integer(1), Value::Integer(2), Value::Integer(3)]
    );
    assert_eq!(
        arguments.get_field(&PropertyKey::string("length"), &interpreter.heap),
        Value::Integer(3)
    );
    let handle = arguments.as_object().unwrap();
    handle.borrow(&mut interpreter.heap);
    assert_eq!(handle.get(&interpreter.heap).data(), &ObjectData::Ordinary);
    assert_eq!(handle.get(&interpreter.heap).prototype(), &Value::Null);
    assert_eq!(handle.get(&interpreter.heap).iter().len(), 4);
    handle.release(&mut interpreter.heap);
}

#[test]
fn assigning_to_a_parameter_does_not_reach_the_arguments_object() {
    let mut interpreter = Interpreter::new();
    let callee = function_object(&mut interpreter, &[("a", false)], ThisMode::NonLexical, None);
    callee.call(&Value::Undefined, &[Value::Integer(1)], &mut interpreter).unwrap();
    let frame = current(&interpreter);
    let assigned =
        interpreter.realm.environment.record_mut(frame).set_mutable_binding("a", Value::Integer(99));
    assert!(assigned);
    assert_eq!(binding(&interpreter, "a"), Some(Value::Integer(99)));
    let arguments = binding(&interpreter, "arguments").unwrap();
    assert_eq!(indexed_values(&arguments, &mut interpreter), vec![Value::Integer(1)]);
}

#[test]
fn the_arguments_object_is_a_snapshot() {
    let mut interpreter = Interpreter::new();
    let mut args = vec![Value::Integer(1), Value::string("x")];
    let arguments = create_unmapped_arguments_object(&args, &mut interpreter.heap);
    args[0] = Value::Integer(5);
    assert_eq!(
        indexed_values(&arguments, &mut interpreter),
        vec![Value::Integer(1), Value::String("x".to_string())]
    );
}

#[test]
fn a_body_that_throws_leaves_the_stack_as_deep_as_before_the_call() {
    let mut interpreter = Interpreter::new();
    let outer = new_function_environment(
        GcObject::new(Object::default(), &mut interpreter.heap),
        None,
        None,
        BindingStatus::Lexical,
        &mut interpreter.realm.environment,
    );
    interpreter.realm.environment.push(outer);
    let callee = function_object(&mut interpreter, &[("x", false)], ThisMode::NonLexical, None);
    let before = interpreter.realm.environment.depth();
    assert_eq!(before, 1);

    let body = callee.call(&Value::Undefined, &[Value::Integer(1)], &mut interpreter).unwrap();
    assert_eq!(interpreter.realm.environment.depth(), before + 1);
    let thrown = Err(Value::String("boom".to_string()));
    assert_eq!(
        callee.end_call(body, thrown, &mut interpreter),
        Err(Value::String("boom".to_string()))
    );
    assert_eq!(interpreter.realm.environment.depth(), before);
    assert_eq!(interpreter.realm.environment.get_current_environment(), Some(outer));

    let body = callee.call(&Value::Undefined, &[], &mut interpreter).unwrap();
    assert_eq!(callee.end_call(body, Ok(Value::Integer(3)), &mut interpreter), Ok(Value::Integer(3)));
    assert_eq!(interpreter.realm.environment.depth(), before);
    assert_eq!(interpreter.realm.environment.get_current_environment(), Some(outer));
}

#[test]
fn nested_calls_unwind_frame_by_frame() {
    let mut interpreter = Interpreter::new();
    let outer = function_object(&mut interpreter, &[], ThisMode::NonLexical, None);
    let inner = function_object(&mut interpreter, &[], ThisMode::NonLexical, None);
    let outer_body = outer.call(&Value::Undefined, &[], &mut interpreter).unwrap();
    let outer_frame = current(&interpreter);
    let inner_body = inner.call(&Value::Undefined, &[], &mut interpreter).unwrap();
    assert_eq!(interpreter.realm.environment.depth(), 2);
    assert_ne!(current(&interpreter), outer_frame);
    let thrown = inner.end_call(inner_body, Err(Value::Integer(1)), &mut interpreter);
    assert_eq!(interpreter.realm.environment.depth(), 1);
    assert_eq!(current(&interpreter), outer_frame);
    assert_eq!(outer.end_call(outer_body, thrown, &mut interpreter), Err(Value::Integer(1)));
    assert_eq!(interpreter.realm.environment.depth(), 0);
    assert_eq!(interpreter.realm.environment.len(), 2);
}

#[test]
fn each_call_makes_one_frame_inside_the_captured_one() {
    let mut interpreter = Interpreter::new();
    let home = new_function_environment(
        GcObject::new(Object::default(), &mut interpreter.heap),
        None,
        None,
        BindingStatus::Lexical,
        &mut interpreter.realm.environment,
    );
    let callee = function_object(&mut interpreter, &[], ThisMode::NonLexical, Some(home));
    assert_eq!(interpreter.realm.environment.len(), 1);
    let receiver = Value::String("receiver".to_string());
    let body = callee.call(&receiver, &[], &mut interpreter).unwrap();
    assert_eq!(interpreter.realm.environment.len(), 2);
    let frame = current(&interpreter);
    {
        let record = interpreter.realm.environment.record(frame);
        assert_eq!(record.outer_env(), Some(home));
        assert_eq!(record.function(), callee);
        assert!(record.has_this_binding());
        assert_eq!(record.this_binding_status(), BindingStatus::Uninitialized);
        assert_eq!(record.get_this_binding(), receiver);
    }
    callee.end_call(body, Ok(Value::Undefined), &mut interpreter).unwrap();
    let body = callee.call(&receiver, &[], &mut interpreter).unwrap();
    assert_eq!(interpreter.realm.environment.len(), 3);
    assert_ne!(current(&interpreter), frame);
    assert_eq!(interpreter.realm.environment.record(current(&interpreter)).outer_env(), Some(home));
    callee.end_call(body, Ok(Value::Undefined), &mut interpreter).unwrap();
    callee.borrow(&mut interpreter.heap);
    assert_eq!(
        callee.get(&interpreter.heap).as_function().unwrap().environment(),
        Some(home)
    );
    callee.release(&mut interpreter.heap);
}

#[test]
fn a_function_with_lexical_this_gets_no_this() {
    let mut interpreter = Interpreter::new();
    let arrow = function_object(&mut interpreter, &[("x", false)], ThisMode::Lexical, None);
    arrow.call(&Value::Integer(5), &[Value::Integer(6)], &mut interpreter).unwrap();
    let record = interpreter.realm.environment.record(current(&interpreter));
    assert!(!record.has_this_binding());
    assert_eq!(record.this_binding_status(), BindingStatus::Lexical);
    assert_eq!(record.get_this_binding(), Value::Undefined);
    assert_eq!(record.get_binding_value("x"), Some(Value::Integer(6)));
    assert!(record.get_binding_value("arguments").is_some());
}

#[test]
fn the_callee_cannot_be_borrowed_by_a_writer_while_it_is_called() {
    let mut interpreter = Interpreter::new();
    let callee = function_object(&mut interpreter, &[], ThisMode::NonLexical, None);
    let body = callee.call(&Value::Undefined, &[], &mut interpreter).unwrap();
    assert_eq!(callee.try_borrow_mut(&mut interpreter.heap), Err(BorrowMutError));
    let again = callee.call(&Value::Undefined, &[], &mut interpreter).unwrap();
    assert_eq!(callee.readers(&interpreter.heap), 2);
    callee.end_call(again, Ok(Value::Undefined), &mut interpreter).unwrap();
    assert_eq!(callee.try_borrow_mut(&mut interpreter.heap), Err(BorrowMutError));
    callee.end_call(body, Ok(Value::Undefined), &mut interpreter).unwrap();
    assert_eq!(callee.try_borrow_mut(&mut interpreter.heap), Ok(()));
}

#[test]
fn a_later_parameter_of_the_same_name_wins() {
    let mut interpreter = Interpreter::new();
    let callee =
        function_object(&mut interpreter, &[("a", false), ("a", false)], ThisMode::NonLexical, None);
    callee.call(&Value::Undefined, &[Value::Integer(1), Value::Integer(2)], &mut interpreter).unwrap();
    assert_eq!(binding(&interpreter, "a"), Some(Value::Integer(2)));
}
