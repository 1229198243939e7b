//! Function descriptors: what makes an object callable.

use vstd::prelude::*;
use crate::builtins::object::gcobject::{CellView, GcObject, Heap};
use crate::builtins::object::{Object, ObjectData, ObjectDataView, ObjectView};
use crate::builtins::property::{Attribute, Property, PropertyKey, PropertyKeyView, PropertyView};
use crate::builtins::value::{value_views, Value, ValueView};
use crate::environment::{
    environment_view, lemma_declare_initialize, BindingView, Environment, LexicalEnvironment,
};
use crate::exec::Interpreter;
use crate::keyed::{
    find, has_key, key_index, lemma_ascending_unique, lemma_find_at, lemma_put,
    lemma_put_ascending_last, put, unique_keys,
};

verus! {

/// How a function comes by its `this`.
#[derive(Debug, Clone, Copy, PartialEq, Eq, Structural)]
pub enum ThisMode {
    /// The function has no `this` of its own and uses that of the scope
    /// around it.
    Lexical,
    /// The function receives its `this` with each call.
    NonLexical,
}

/// A function that the host implements. The engine never runs one itself:
/// it tells the host which one to run.
#[derive(Debug, Clone, Copy, PartialEq, Eq, Structural)]
pub enum NativeFunction {
    /// The `Symbol` function.
    Symbol,
    /// `Symbol.prototype.toString`.
    SymbolToString,
    /// A function of the host, by the number that the host gave it.
    Host(u32),
}

/// The statements of an interpreted function, by the number under which
/// the evaluator keeps them.
#[derive(Debug, Clone, Copy, PartialEq, Eq, Structural)]
pub struct Body(pub u32);

/// What runs when a function is called.
#[derive(Debug, Clone, Copy, PartialEq, Eq, Structural)]
pub enum FunctionBody {
    BuiltIn(NativeFunction),
    Ordinary(Body),
}

/// A declared parameter of an interpreted function.
#[derive(Debug, PartialEq, Eq)]
pub struct FormalParameter {
    pub name: String,
    pub is_rest_param: bool,
}

/// What a declared parameter is to a contract.
#[verifier::ext_equal]
pub struct FormalParameterView {
    pub name: Seq<char>,
    pub is_rest_param: bool,
}

impl View for FormalParameter {
    type V = FormalParameterView;

    open spec fn view(&self) -> FormalParameterView {
        FormalParameterView { name: self.name@, is_rest_param: self.is_rest_param }
    }
}

/// What a list of declared parameters is to a contract.
pub open spec fn parameter_views(params: Seq<FormalParameter>) -> Seq<FormalParameterView> {
    Seq::new(params.len(), |i: int| params[i]@)
}

impl Clone for FormalParameter {
    fn clone(&self) -> (copy: Self)
        ensures
            copy == *self,
    {
        FormalParameter { name: self.name.clone(), is_rest_param: self.is_rest_param }
    }
}

impl FormalParameter {
    /// The parameter with the given name.
    pub fn new(name: &str, is_rest_param: bool) -> (parameter: Self)
        ensures
            parameter@ == (FormalParameterView { name: name@, is_rest_param }),
    {
        FormalParameter { name: name.to_owned(), is_rest_param }
    }

    /// The name that the parameter binds.
    pub fn name(&self) -> (name: &str)
        ensures
            name@ == self@.name,
    {
        self.name.as_str()
    }

    /// Whether the parameter collects the arguments that are left.
    pub fn is_rest_param(&self) -> (rest: bool)
        ensures
            rest == self@.is_rest_param,
    {
        self.is_rest_param
    }
}

/// What a function descriptor is to a contract.
#[verifier::ext_equal]
pub struct FunctionView {
    pub body: FunctionBody,
    pub params: Seq<FormalParameterView>,
    pub this_mode: ThisMode,
    pub environment: Option<int>,
    pub callable: bool,
    pub constructable: bool,
    pub strict: bool,
}

/// The function descriptor of an object. The environment that it captured
/// is fixed when the descriptor is made: nothing here changes it.
#[derive(Debug, PartialEq, Eq)]
pub struct Function {
    body: FunctionBody,
    params: Vec<FormalParameter>,
    this_mode: ThisMode,
    environment: Option<Environment>,
    callable: bool,
    constructable: bool,
    strict: bool,
}

impl View for Function {
    type V = FunctionView;

    closed spec fn view(&self) -> FunctionView {
        FunctionView {
            body: self.body,
            params: parameter_views(self.params@),
            this_mode: self.this_mode,
            environment: environment_view(self.environment),
            callable: self.callable,
            constructable: self.constructable,
            strict: self.strict,
        }
    }
}

impl Clone for Function {
    fn clone(&self) -> (copy: Self)
        ensures
            copy@ == self@,
    {
        let copy = Function {
            body: self.body,
            params: self.params.clone(),
            this_mode: self.this_mode,
            environment: self.environment,
            callable: self.callable,
            constructable: self.constructable,
            strict: self.strict,
        };
        assert(parameter_views(copy.params@) =~= parameter_views(self.params@));
        copy
    }
}

impl Function {
    /// A function descriptor with every part given.
    pub fn new(
        params: Vec<FormalParameter>,
        environment: Option<Environment>,
        body: FunctionBody,
        this_mode: ThisMode,
        constructable: bool,
        callable: bool,
    ) -> (function: Self)
        ensures
            function@ == (FunctionView {
                body,
                params: parameter_views(params@),
                this_mode,
                environment: environment_view(environment),
                callable,
                constructable,
                strict: false,
            }),
    {
        Function { body, params, this_mode, environment, callable, constructable, strict: false }
    }

    /// An interpreted function: callable, and constructable unless its
    /// `this` is lexical.
    pub fn ordinary(
        params: Vec<FormalParameter>,
        environment: Option<Environment>,
        body: Body,
        this_mode: ThisMode,
    ) -> (function: Self)
        ensures
            function@ == (FunctionView {
                body: FunctionBody::Ordinary(body),
                params: parameter_views(params@),
                this_mode,
                environment: environment_view(environment),
                callable: true,
                constructable: this_mode == ThisMode::NonLexical,
                strict: false,
            }),
    {
        let constructable = match this_mode {
            ThisMode::Lexical => false,
            ThisMode::NonLexical => true,
        };
        Function {
            body: FunctionBody::Ordinary(body),
            params,
            this_mode,
            environment,
            callable: true,
            constructable,
            strict: false,
        }
    }

    /// A function of the host: callable and constructable, with no
    /// environment.
    pub fn builtin(params: Vec<FormalParameter>, body: NativeFunction) -> (function: Self)
        ensures
            function@ == (FunctionView {
                body: FunctionBody::BuiltIn(body),
                params: parameter_views(params@),
                this_mode: ThisMode::NonLexical,
                environment: None,
                callable: true,
                constructable: true,
                strict: false,
            }),
    {
        Function {
            body: FunctionBody::BuiltIn(body),
            params,
            this_mode: ThisMode::NonLexical,
            environment: None,
            callable: true,
            constructable: true,
            strict: false,
        }
    }

    /// The same descriptor in strict mode, or out of it.
    pub fn with_strict(self, strict: bool) -> (function: Self)
        ensures
            function@ == (FunctionView { strict, ..self@ }),
    {
        Function { strict, ..self }
    }

    /// What runs when the function is called.
    pub fn body(&self) -> (body: FunctionBody)
        ensures
            body == self@.body,
    {
        self.body
    }

    /// The declared parameters, in order.
    pub fn params(&self) -> (params: &Vec<FormalParameter>)
        ensures
            parameter_views(params@) == self@.params,
    {
        &self.params
    }

    /// How the function comes by its `this`.
    pub fn this_mode(&self) -> (this_mode: ThisMode)
        ensures
            this_mode == self@.this_mode,
    {
        self.this_mode
    }

    /// The environment that the function captured when it was made.
    pub fn environment(&self) -> (environment: Option<Environment>)
        ensures
            environment_view(environment) == self@.environment,
    {
        self.environment
    }

    /// Whether the function can be called.
    pub fn is_callable(&self) -> (callable: bool)
        ensures
            callable == self@.callable,
    {
        self.callable
    }

    /// Whether the function can be the callee of `new`.
    pub fn is_constructable(&self) -> (constructable: bool)
        ensures
            constructable == self@.constructable,
    {
        self.constructable
    }

    /// Whether the function is in strict mode.
    pub fn is_strict(&self) -> (strict: bool)
        ensures
            strict == self@.strict,
    {
        self.strict
    }
}

/// The indexed namespace that holds the values under the indices from 0 on,
/// each as a data property with every flag set.
pub open spec fn indexed_fields(values: Seq<ValueView>) -> Seq<(u32, PropertyView)> {
    Seq::new(values.len(), |i: int| (i as u32, PropertyView::field(values[i])))
}

/// The `length` property of a list of `len` values: writable, and neither
/// enumerable nor configurable.
pub open spec fn length_property(len: nat) -> PropertyView {
    PropertyView::Data {
        value: ValueView::Integer(len as i32),
        attribute: Attribute { writable: true, enumerable: false, configurable: false },
    }
}

/// The object that holds a list of values: each value under its index,
/// and their number under `length`.
pub open spec fn list_object(data: ObjectDataView, values: Seq<ValueView>) -> ObjectView {
    ObjectView {
        data,
        indexed: indexed_fields(values),
        strings: seq![("length"@, length_property(values.len()))],
        symbols: Seq::empty(),
        prototype: ValueView::Null,
    }
}

/// The arguments object of a call: an ordinary object that holds the
/// arguments as they were when the call was made. It shares nothing with
/// the parameters.
pub open spec fn arguments_object(args: Seq<ValueView>) -> ObjectView {
    list_object(ObjectDataView::Ordinary, args)
}

/// The array that a rest parameter is bound to.
pub open spec fn array_object(values: Seq<ValueView>) -> ObjectView {
    list_object(ObjectDataView::Array, values)
}

/// The values from place `from` on; none where `from` is past the end.
pub open spec fn values_from(values: Seq<ValueView>, from: int) -> Seq<ValueView> {
    if 0 <= from < values.len() {
        values.subrange(from, values.len() as int)
    } else {
        Seq::empty()
    }
}

/// Makes the object that holds the values from place `from` on.
fn create_list_object(data: ObjectData, values: &[Value], from: usize) -> (object: Object)
    requires
        values.len() <= i32::MAX,
    ensures
        object.wf(),
        object@ == list_object(data@, values_from(value_views(values@), from as int)),
{
    let ghost all = value_views(values@);
    let ghost list = values_from(all, from as int);
    let ghost kind = data@;
    let len = values.len();
    let count: usize = if from < len {
        len - from
    } else {
        0
    };
    assert(count == list.len());
    let mut object = Object::with_prototype(Value::Null, data);
    object.insert_property(
        PropertyKey::string("length"),
        Property::data_descriptor(
            Value::Integer(count as i32),
            Attribute { writable: true, enumerable: false, configurable: false },
        ),
    );
    assert(object@.strings =~= seq![("length"@, length_property(list.len()))]);
    let mut index: usize = 0;
    while index < count
        invariant
            index <= count,
            count == list.len(),
            count <= i32::MAX,
            count == 0 || from + count == values.len(),
            all == value_views(values@),
            list == values_from(all, from as int),
            object.wf(),
            object@ == (ObjectView {
                indexed: indexed_fields(list.subrange(0, index as int)),
                ..list_object(kind, list)
            }),
        decreases count - index,
    {
        let ghost before = indexed_fields(list.subrange(0, index as int));
        let value = values[from + index].clone();
        assert(value@ == list[index as int]);
        proof {
            lemma_put_ascending_last(before, index as u32, PropertyView::field(value@));
        }
        object.insert_property(
            PropertyKey::Index(index as u32),
            Property::data_descriptor(value, Attribute::all()),
        );
        assert(object@.indexed =~= indexed_fields(list.subrange(0, index + 1)));
        index += 1;
    }
    assert(list.subrange(0, count as int) =~= list);
    object
}

/// Makes the arguments object of a call in the heap: an object that holds
/// the arguments as they are now, each under its index, and their number
/// under `length`. Later changes to the parameters do not reach it.
pub fn create_unmapped_arguments_object(arguments_list: &[Value], heap: &mut Heap) -> (arguments:
    Value)
    requires
        old(heap).wf(),
        arguments_list.len() <= i32::MAX,
    ensures
        final(heap).wf(),
        final(heap)@ == old(heap)@.push(
            CellView::fresh(arguments_object(value_views(arguments_list@))),
        ),
        arguments@ == ValueView::Object(old(heap)@.len() as int),
{
    let object = create_list_object(ObjectData::Ordinary, arguments_list, 0);
    assert(values_from(value_views(arguments_list@), 0) =~= value_views(arguments_list@));
    Value::Object(GcObject::new(object, heap))
}

/// Whether the parameters before place `k` are all plain and the one at
/// `k`, if there is one, is a rest parameter.
pub open spec fn is_rest_index(params: Seq<FormalParameterView>, k: int) -> bool {
    &&& 0 <= k <= params.len()
    &&& forall|j: int| 0 <= j < k ==> !(#[trigger] params[j]).is_rest_param
    &&& k < params.len() ==> params[k].is_rest_param
}

/// The number of parameters that are bound by position: those before the
/// first rest parameter, or all of them where there is none.
pub open spec fn positional_count(params: Seq<FormalParameterView>) -> int {
    choose|k: int| is_rest_index(params, k)
}

/// Whether the parameters hold a rest parameter.
pub open spec fn has_rest(params: Seq<FormalParameterView>) -> bool {
    positional_count(params) < params.len()
}

/// The argument at a place, or `undefined` where the arguments do not
/// reach so far.
pub open spec fn argument_or_undefined(args: Seq<ValueView>, i: int) -> ValueView {
    if 0 <= i < args.len() {
        args[i]
    } else {
        ValueView::Undefined
    }
}

/// The bindings after the first `n` parameters were bound by position,
/// each to the argument at its place.
pub open spec fn bind_positional(
    bindings: Seq<(Seq<char>, BindingView)>,
    params: Seq<FormalParameterView>,
    args: Seq<ValueView>,
    n: int,
) -> Seq<(Seq<char>, BindingView)>
    decreases n,
{
    if n <= 0 {
        bindings
    } else {
        put(
            bind_positional(bindings, params, args, n - 1),
            params[n - 1].name,
            BindingView::holding(argument_or_undefined(args, n - 1)),
        )
    }
}

/// The values that the rest parameter collects: the arguments from its
/// place on, none where the arguments do not reach so far.
pub open spec fn rest_values(params: Seq<FormalParameterView>, args: Seq<ValueView>) -> Seq<
    ValueView,
> {
    values_from(args, positional_count(params))
}

/// The bindings of the frame of a call: the parameters before the rest
/// parameter by position, the rest parameter to its array, and then
/// `arguments` to the arguments object. `first_cell` is the place of the
/// first object that the call allocates.
pub open spec fn call_bindings(
    params: Seq<FormalParameterView>,
    args: Seq<ValueView>,
    first_cell: int,
) -> Seq<(Seq<char>, BindingView)> {
    let k = positional_count(params);
    let positional = bind_positional(Seq::empty(), params, args, k);
    if has_rest(params) {
        put(
            put(positional, params[k].name, BindingView::holding(ValueView::Object(first_cell))),
            "arguments"@,
            BindingView::holding(ValueView::Object(first_cell + 1)),
        )
    } else {
        put(positional, "arguments"@, BindingView::holding(ValueView::Object(first_cell)))
    }
}

/// The heap after a call has allocated its objects: the array of the rest
/// parameter, where there is one, and then the arguments object.
pub open spec fn call_heap(
    heap: Seq<CellView>,
    params: Seq<FormalParameterView>,
    args: Seq<ValueView>,
) -> Seq<CellView> {
    if has_rest(params) {
        heap.push(CellView::fresh(array_object(rest_values(params, args)))).push(
            CellView::fresh(arguments_object(args)),
        )
    } else {
        heap.push(CellView::fresh(arguments_object(args)))
    }
}

/// Every list of parameters has a place where the rest parameter stands or
/// the list ends.
pub proof fn lemma_rest_index_exists(params: Seq<FormalParameterView>)
    ensures
        is_rest_index(params, positional_count(params)),
        0 <= positional_count(params) <= params.len(),
    decreases params.len(),
{
    if params.len() == 0 {
        assert(is_rest_index(params, 0));
    } else {
        let front = params.drop_last();
        lemma_rest_index_exists(front);
        let k = positional_count(front);
        assert(is_rest_index(front, k));
        if k < front.len() {
            assert(front[k] == params[k]);
            assert forall|j: int| 0 <= j < k implies !(#[trigger] params[j]).is_rest_param by {
                assert(front[j] == params[j]);
            }
            assert(is_rest_index(params, k));
        } else if params[k].is_rest_param {
            assert forall|j: int| 0 <= j < k implies !(#[trigger] params[j]).is_rest_param by {
                assert(front[j] == params[j]);
            }
            assert(is_rest_index(params, k));
        } else {
            assert forall|j: int| 0 <= j < k + 1 implies !(#[trigger] params[j]).is_rest_param by {
                if j < k {
                    assert(front[j] == params[j]);
                }
            }
            assert(is_rest_index(params, k + 1));
        }
    }
}

/// The first rest parameter has one place only.
pub proof fn lemma_rest_index(params: Seq<FormalParameterView>, k: int)
    requires
        is_rest_index(params, k),
    ensures
        positional_count(params) == k,
{
    let chosen = positional_count(params);
    assert(is_rest_index(params, chosen));
    if chosen < k {
        assert(!params[chosen].is_rest_param);
    }
    if k < chosen {
        assert(!params[k].is_rest_param);
    }
}

/// The parameters that are bound have names of their own: no two of them
/// share a name, and none is called `arguments`.
pub open spec fn distinct_names(params: Seq<FormalParameterView>) -> bool {
    &&& forall|a: int, b: int|
        0 <= a < b < params.len() && b <= positional_count(params) ==> (#[trigger] params[a]).name
            != (#[trigger] params[b]).name
    &&& forall|a: int|
        0 <= a < params.len() && a <= positional_count(params) ==> (#[trigger] params[a]).name
            != "arguments"@
}

/// What binding the first `n` parameters by position comes to, where they
/// have names of their own: each is bound to the argument at its place,
/// `undefined` where the arguments do not reach so far, and no other name
/// is bound.
pub proof fn lemma_bind_positional(
    params: Seq<FormalParameterView>,
    args: Seq<ValueView>,
    n: int,
)
    requires
        0 <= n <= params.len(),
        forall|a: int, b: int|
            0 <= a < b < n ==> (#[trigger] params[a]).name != (#[trigger] params[b]).name,
    ensures
        unique_keys(bind_positional(Seq::empty(), params, args, n)),
        forall|i: int|
            0 <= i < n ==> find(
                bind_positional(Seq::empty(), params, args, n),
                (#[trigger] params[i]).name,
            ) == Some(BindingView::holding(argument_or_undefined(args, i))),
        forall|name: Seq<char>|
            (forall|j: int| 0 <= j < n ==> (#[trigger] params[j]).name != name) ==> #[trigger] find(
                bind_positional(Seq::empty(), params, args, n),
                name,
            ) is None,
    decreases n,
{
    let empty = Seq::<(Seq<char>, BindingView)>::empty();
    if n > 0 {
        lemma_bind_positional(params, args, n - 1);
        let before = bind_positional(empty, params, args, n - 1);
        let name = params[n - 1].name;
        let value = BindingView::holding(argument_or_undefined(args, n - 1));
        lemma_put(before, name, value);
        let after = bind_positional(empty, params, args, n);
        assert(after == put(before, name, value));
        assert forall|i: int| 0 <= i < n implies find(after, (#[trigger] params[i]).name) == Some(
            BindingView::holding(argument_or_undefined(args, i)),
        ) by {
            if i < n - 1 {
                assert(params[i].name != params[n - 1].name);
                assert(find(after, params[i].name) == find(before, params[i].name));
            }
        }
        assert forall|other: Seq<char>|
            (forall|j: int| 0 <= j < n ==> (#[trigger] params[j]).name != other) implies #[trigger] find(
            after,
            other,
        ) is None by {
            assert(params[n - 1].name != other);
            assert(find(after, other) == find(before, other));
            assert(forall|j: int| 0 <= j < n - 1 ==> (#[trigger] params[j]).name != other);
        }
    } else {
        assert forall|name: Seq<char>| #[trigger] find(empty, name) is None by {
            if has_key(empty, name) {
                let i = key_index(empty, name);
                assert(0 <= i < empty.len());
            }
        }
    }
}

/// However many parameters are bound by position, no name is bound twice.
pub proof fn lemma_bind_positional_unique(
    params: Seq<FormalParameterView>,
    args: Seq<ValueView>,
    n: int,
)
    ensures
        unique_keys(bind_positional(Seq::empty(), params, args, n)),
    decreases n,
{
    if n > 0 {
        lemma_bind_positional_unique(params, args, n - 1);
        lemma_put(
            bind_positional(Seq::empty(), params, args, n - 1),
            params[n - 1].name,
            BindingView::holding(argument_or_undefined(args, n - 1)),
        );
    }
}

/// Every call binds `arguments`, whatever its parameters are: to a new
/// object that holds all the arguments of the call, each under its index.
/// It is the newest object of the heap, and the call changes no object
/// that was there before.
pub proof fn lemma_call_binds_arguments(
    heap: Seq<CellView>,
    params: Seq<FormalParameterView>,
    args: Seq<ValueView>,
)
    ensures
        ({
            let first_cell = heap.len() as int;
            let bindings = call_bindings(params, args, first_cell);
            let cells = call_heap(heap, params, args);
            let arguments_cell = if has_rest(params) {
                first_cell + 1
            } else {
                first_cell
            };
            &&& unique_keys(bindings)
            &&& find(bindings, "arguments"@) == Some(
                BindingView::holding(ValueView::Object(arguments_cell)),
            )
            &&& cells[arguments_cell] == CellView::fresh(arguments_object(args))
            &&& cells.len() == arguments_cell + 1
            &&& forall|i: int| 0 <= i < heap.len() ==> cells[i] == heap[i]
        }),
{
    let k = positional_count(params);
    let first_cell = heap.len() as int;
    let positional = bind_positional(Seq::empty(), params, args, k);
    lemma_bind_positional_unique(params, args, k);
    if has_rest(params) {
        let rest = BindingView::holding(ValueView::Object(first_cell));
        lemma_put(positional, params[k].name, rest);
        lemma_put(
            put(positional, params[k].name, rest),
            "arguments"@,
            BindingView::holding(ValueView::Object(first_cell + 1)),
        );
    } else {
        lemma_put(positional, "arguments"@, BindingView::holding(ValueView::Object(first_cell)));
    }
}

/// How a call binds its parameters.
///
/// Where the parameters have names of their own, the frame of a call
/// binds each parameter before the rest parameter to the argument at its
/// place, and to `undefined` where the arguments do not reach so far. A
/// rest parameter is bound to a new array that holds the arguments from
/// its place on, none where the arguments do not reach so far.
pub proof fn lemma_call_binds_parameters(
    heap: Seq<CellView>,
    params: Seq<FormalParameterView>,
    args: Seq<ValueView>,
)
    requires
        distinct_names(params),
    ensures
        ({
            let k = positional_count(params);
            let first_cell = heap.len() as int;
            let bindings = call_bindings(params, args, first_cell);
            let cells = call_heap(heap, params, args);
            &&& forall|i: int|
                0 <= i < k ==> find(bindings, (#[trigger] params[i]).name) == Some(
                    BindingView::holding(argument_or_undefined(args, i)),
                )
            &&& has_rest(params) ==> find(bindings, params[k].name) == Some(
                BindingView::holding(ValueView::Object(first_cell)),
            ) && cells[first_cell] == CellView::fresh(array_object(values_from(args, k)))
        }),
{
    lemma_rest_index_exists(params);
    let k = positional_count(params);
    let first_cell = heap.len() as int;
    let positional = bind_positional(Seq::empty(), params, args, k);
    lemma_bind_positional(params, args, k);
    let bindings = call_bindings(params, args, first_cell);
    if has_rest(params) {
        let rest = BindingView::holding(ValueView::Object(first_cell));
        let with_rest = put(positional, params[k].name, rest);
        lemma_put(positional, params[k].name, rest);
        lemma_put(with_rest, "arguments"@, BindingView::holding(ValueView::Object(first_cell + 1)));
        assert(params[k].name != "arguments"@);
        assert forall|i: int| 0 <= i < k implies find(bindings, (#[trigger] params[i]).name) == Some(
            BindingView::holding(argument_or_undefined(args, i)),
        ) by {
            assert(params[i].name != params[k].name);
            assert(params[i].name != "arguments"@);
            assert(find(with_rest, params[i].name) == find(positional, params[i].name));
            assert(find(bindings, params[i].name) == find(with_rest, params[i].name));
        }
        assert(find(bindings, params[k].name) == find(with_rest, params[k].name));
    } else {
        lemma_put(positional, "arguments"@, BindingView::holding(ValueView::Object(first_cell)));
        assert forall|i: int| 0 <= i < k implies find(bindings, (#[trigger] params[i]).name) == Some(
            BindingView::holding(argument_or_undefined(args, i)),
        ) by {
            assert(params[i].name != "arguments"@);
            assert(find(bindings, params[i].name) == find(positional, params[i].name));
        }
    }
}

/// The arguments object holds the arguments as they were when the call was
/// made: under each index the argument of that place, as a data property,
/// and nothing else in the indexed namespace.
pub proof fn lemma_arguments_object(args: Seq<ValueView>)
    requires
        args.len() <= i32::MAX,
    ensures
        arguments_object(args).wf(),
        arguments_object(args).indexed.len() == args.len(),
        forall|i: int|
            0 <= i < args.len() ==> (#[trigger] arguments_object(args).indexed[i]) == (
                i as u32,
                PropertyView::field(args[i]),
            ),
        forall|i: int|
            0 <= i < args.len() ==> #[trigger] find(arguments_object(args).indexed, i as u32)
                == Some(PropertyView::field(args[i])),
{
    let object = arguments_object(args);
    assert forall|i: int, j: int| 0 <= i < j < object.indexed.len() implies (
    #[trigger] object.indexed[i]).0 < (#[trigger] object.indexed[j]).0 by {}
    lemma_ascending_unique(object.indexed);
    assert forall|i: int| 0 <= i < args.len() implies #[trigger] find(object.indexed, i as u32)
        == Some(PropertyView::field(args[i])) by {
        lemma_find_at(object.indexed, i);
    }
}

impl Function {
    /// Binds a parameter to a value in a frame: declares the name and
    /// initializes it.
    pub fn add_arguments_to_environment(
        param: &FormalParameter,
        value: Value,
        local_env: Environment,
        environments: &mut LexicalEnvironment,
    )
        requires
            old(environments).wf(),
            old(environments).contains(local_env),
        ensures
            final(environments).wf(),
            final(environments)@ == old(environments)@.updated(
                local_env@,
                old(environments)@.records[local_env@].bind(param@.name, value@),
            ),
    {
        proof {
            lemma_declare_initialize(environments@.records[local_env@], param@.name, value@);
        }
        let frame = environments.record_mut(local_env);
        frame.create_mutable_binding(param.name.clone(), false);
        frame.initialize_binding(param.name(), value);
    }

    /// Binds a rest parameter in a frame: makes an array of the arguments
    /// from place `index` on, none where the arguments do not reach so
    /// far, and binds the parameter to it.
    pub fn add_rest_param(
        param: &FormalParameter,
        index: usize,
        args_list: &[Value],
        interpreter: &mut Interpreter,
        local_env: Environment,
    )
        requires
            old(interpreter).wf(),
            old(interpreter).realm.environment.contains(local_env),
            args_list.len() <= i32::MAX,
        ensures
            final(interpreter).wf(),
            final(interpreter)@ == old(interpreter)@.allocated(
                array_object(values_from(value_views(args_list@), index as int)),
            ).with_environment(
                old(interpreter)@.environment.updated(
                    local_env@,
                    old(interpreter)@.environment.records[local_env@].bind(
                        param@.name,
                        ValueView::Object(old(interpreter)@.heap.len() as int),
                    ),
                ),
            ),
    {
        let object = create_list_object(ObjectData::Array, args_list, index);
        let array = Value::Object(GcObject::new(object, &mut interpreter.heap));
        Function::add_arguments_to_environment(
            param,
            array,
            local_env,
            &mut interpreter.realm.environment,
        );
    }
}

/// The descriptor of a host function with the given flags: it has no
/// parameters and no environment.
pub open spec fn native_function(native: NativeFunction, constructable: bool, callable: bool) -> FunctionView {
    FunctionView {
        body: FunctionBody::BuiltIn(native),
        params: Seq::empty(),
        this_mode: ThisMode::NonLexical,
        environment: None,
        callable,
        constructable,
        strict: false,
    }
}

/// The object of a host function that is a method: it can be called and
/// constructed, and holds the number of its parameters under `length`.
pub open spec fn builtin_object(native: NativeFunction, length: usize, prototype: ValueView) -> ObjectView {
    ObjectView::empty(
        ObjectDataView::Function(native_function(native, true, true)),
        prototype,
    ).insert(
        PropertyKeyView::String("length"@),
        PropertyView::field(ValueView::Integer(length as i32)),
    )
}

/// The object of a host function that is a constructor, before it is tied
/// to its prototype object: it holds the number of its parameters under
/// `length` and its name under `name`, neither of which can be changed.
pub open spec fn constructor_object(
    name: Seq<char>,
    length: usize,
    native: NativeFunction,
    constructable: bool,
    callable: bool,
    prototype: ValueView,
) -> ObjectView {
    ObjectView::empty(
        ObjectDataView::Function(native_function(native, constructable, callable)),
        prototype,
    ).insert(
        PropertyKeyView::String("length"@),
        PropertyView::fixed(ValueView::Integer(length as i32)),
    ).insert(PropertyKeyView::String("name"@), PropertyView::fixed(ValueView::String(name)))
}

/// The heap after a method was made for an object: the function object is
/// the newest object, and the parent holds it under the name.
pub open spec fn with_builtin_fn(
    heap: Seq<CellView>,
    native: NativeFunction,
    name: Seq<char>,
    parent: int,
    length: usize,
    prototype: ValueView,
) -> Seq<CellView> {
    let made = heap.push(CellView::fresh(builtin_object(native, length, prototype)));
    made.update(
        parent,
        made[parent].holding(
            made[parent].object.insert(
                PropertyKeyView::String(name),
                PropertyView::field(ValueView::Object(heap.len() as int)),
            ),
        ),
    )
}

/// The heap after a constructor was made: the function object is the
/// newest object, the prototype object holds it under `constructor`, and
/// it holds the prototype object under `prototype`.
pub open spec fn with_constructor_fn(
    heap: Seq<CellView>,
    name: Seq<char>,
    length: usize,
    native: NativeFunction,
    prototype_object: int,
    constructable: bool,
    callable: bool,
    prototype: ValueView,
) -> Seq<CellView> {
    let constructor = heap.len() as int;
    let made = heap.push(
        CellView::fresh(
            constructor_object(name, length, native, constructable, callable, prototype).insert(
                PropertyKeyView::String("prototype"@),
                PropertyView::field(ValueView::Object(prototype_object)),
            ),
        ),
    );
    made.update(
        prototype_object,
        made[prototype_object].holding(
            made[prototype_object].object.insert(
                PropertyKeyView::String("constructor"@),
                PropertyView::field(ValueView::Object(constructor)),
            ),
        ),
    )
}

/// Makes a method for the object `parent`: a function object for the host
/// function `function`, with `function_prototype` as its prototype link,
/// which the parent then holds under `name`.
pub fn make_builtin_fn(
    function: NativeFunction,
    name: &str,
    parent: &Value,
    length: usize,
    function_prototype: Value,
    heap: &mut Heap,
)
    requires
        old(heap).wf(),
        parent@ is Object,
        0 <= parent@->Object_0 < old(heap)@.len(),
        old(heap)@[parent@->Object_0].unused(),
        length <= i32::MAX,
    ensures
        final(heap).wf(),
        final(heap)@ == with_builtin_fn(
            old(heap)@,
            function,
            name@,
            parent@->Object_0,
            length,
            function_prototype@,
        ),
{
    let descriptor = Function::builtin(Vec::new(), function);
    assert(descriptor@.params =~= Seq::empty());
    let mut object = Object::function(descriptor, function_prototype);
    object.insert_field(PropertyKey::string("length"), Value::Integer(length as i32));
    let made = Value::Object(GcObject::new(object, heap));
    parent.set_field(PropertyKey::string(name), made, heap);
}

/// Makes a constructor: a function object for the host function `body`
/// with the given flags, with `function_prototype` as its prototype link.
/// It is tied to its prototype object: that one holds it under
/// `constructor`, and it holds that one under `prototype`.
pub fn make_constructor_fn(
    name: &str,
    length: usize,
    body: NativeFunction,
    prototype: &Value,
    function_prototype: Value,
    constructable: bool,
    callable: bool,
    heap: &mut Heap,
) -> (constructor: Value)
    requires
        old(heap).wf(),
        prototype@ is Object,
        0 <= prototype@->Object_0 < old(heap)@.len(),
        old(heap)@[prototype@->Object_0].unused(),
        length <= i32::MAX,
    ensures
        final(heap).wf(),
        constructor@ == ValueView::Object(old(heap)@.len() as int),
        final(heap)@ == with_constructor_fn(
            old(heap)@,
            name@,
            length,
            body,
            prototype@->Object_0,
            constructable,
            callable,
            function_prototype@,
        ),
{
    let descriptor = Function::new(
        Vec::new(),
        None,
        FunctionBody::BuiltIn(body),
        ThisMode::NonLexical,
        constructable,
        callable,
    );
    assert(descriptor@.params =~= Seq::empty());
    let mut object = Object::function(descriptor, function_prototype);
    object.insert_property(
        PropertyKey::string("length"),
        Property::data_descriptor(Value::Integer(length as i32), Attribute::none()),
    );
    object.insert_property(
        PropertyKey::string("name"),
        Property::data_descriptor(Value::string(name), Attribute::none()),
    );
    object.insert_field(PropertyKey::string("prototype"), prototype.clone());
    let constructor = Value::Object(GcObject::new(object, heap));
    prototype.set_field(PropertyKey::string("constructor"), constructor.clone(), heap);
    constructor
}

} // verus!
