//! The `new` expression: how an object is constructed.

use vstd::prelude::*;
use crate::builtins::function::{lemma_rest_index_exists, FunctionBody};
use crate::builtins::object::gcobject::{construct_outcome, constructed, GcObject};
use crate::builtins::object::{Object, ObjectDataView, ObjectView};
use crate::builtins::property::{PropertyKey, PropertyKeyView};
use crate::builtins::value::{
    can_read_field, get_field, result_view, value_views, ResultValue, Value, ValueView,
};
use crate::exec::{Interpreter, InterpreterView};

verus! {

/// The name of the property of a function that holds the prototype of the
/// objects that the function constructs.
pub const PROTOTYPE: &'static str = "prototype";

/// What a step of a `new` expression is to a contract.
#[verifier::ext_equal]
pub enum NewStepView {
    Construct { callee: int, this: ValueView, body: FunctionBody },
    Done(Result<ValueView, ValueView>),
}

/// How a `new` expression goes on after its first step.
#[derive(Debug, PartialEq, Eq)]
pub enum NewStep {
    /// The callee has started to construct the receiver `this`: the host
    /// runs `body` and ends the construction with
    /// [`GcObject::end_construct`], which says what the expression
    /// evaluates to.
    Construct { callee: GcObject, this: Value, body: FunctionBody },
    /// The expression is over: it evaluates to the value, or throws.
    Done(ResultValue),
}

impl View for NewStep {
    type V = NewStepView;

    open spec fn view(&self) -> NewStepView {
        match self {
            NewStep::Construct { callee, this, body } => NewStepView::Construct {
                callee: callee@,
                this: this@,
                body: *body,
            },
            NewStep::Done(result) => NewStepView::Done(result_view(*result)),
        }
    }
}

/// What the first step of a `new` expression comes to.
///
/// A new object is allocated: it is empty, and its prototype link is what
/// the callee holds under `prototype`, whatever that is. Where the callee
/// is an object, it starts to construct the new object. Where it is not,
/// the expression evaluates to `undefined`.
pub open spec fn new_outcome(ctx: InterpreterView, callee: ValueView, args: Seq<ValueView>) -> (
    InterpreterView,
    NewStepView,
) {
    let this = ValueView::Object(ctx.heap.len() as int);
    let linked = ctx.allocated(
        ObjectView::empty(
            ObjectDataView::Ordinary,
            get_field(ctx.heap, callee, PropertyKeyView::String(PROTOTYPE@)),
        ),
    );
    match callee {
        ValueView::Object(function) => {
            let (after, started) = construct_outcome(linked, function, this, args);
            (
                after,
                match started {
                    Ok(body) => NewStepView::Construct { callee: function, this, body },
                    Err(thrown) => NewStepView::Done(Err(thrown)),
                },
            )
        },
        _ => (linked, NewStepView::Done(Ok(ValueView::Undefined))),
    }
}

/// A `new` expression whose callee and arguments have been evaluated, the
/// arguments from left to right.
#[derive(Debug, PartialEq, Eq)]
pub struct New {
    pub callee: Value,
    pub args: Vec<Value>,
}

impl New {
    /// The expression `new callee(args...)`.
    pub fn new(callee: Value, args: Vec<Value>) -> (expression: Self)
        ensures
            expression.callee == callee,
            expression.args == args,
    {
        New { callee, args }
    }

    /// Takes the first step of the expression: allocates the object,
    /// links it to the prototype of the callee, and lets the callee start
    /// to construct it.
    pub fn run(&self, interpreter: &mut Interpreter) -> (step: NewStep)
        requires
            old(interpreter).wf(),
            self.args.len() <= i32::MAX,
            can_read_field(
                old(interpreter)@.heap,
                self.callee@,
                PropertyKeyView::String(PROTOTYPE@),
            ),
            self.callee@ matches ValueView::Object(function) ==> {
                &&& 0 <= function < old(interpreter)@.heap.len()
                &&& !old(interpreter)@.heap[function].writing
                &&& old(interpreter)@.heap[function].readers < usize::MAX
            },
        ensures
            final(interpreter).wf(),
            (final(interpreter)@, step@) == new_outcome(
                old(interpreter)@,
                self.callee@,
                value_views(self.args@),
            ),
    {
        let prototype = self.callee.get_field(&PropertyKey::string(PROTOTYPE), &interpreter.heap);
        let this = Value::Object(GcObject::new(Object::create(prototype), &mut interpreter.heap));
        match &self.callee {
            Value::Object(function) => {
                match function.construct(&this, self.args.as_slice(), interpreter) {
                    Ok(body) => NewStep::Construct { callee: *function, this, body },
                    Err(thrown) => NewStep::Done(Err(thrown)),
                }
            },
            _ => NewStep::Done(Ok(Value::undefined())),
        }
    }
}

/// What `new` makes of a function that it accepts.
///
/// The receiver is a new object whose prototype link is what the callee
/// holds under `prototype`, and it keeps that link while the callee starts
/// to construct it. The expression then evaluates to the object that the
/// body returns, if it returns one, and to the receiver if it returns
/// anything else.
pub proof fn lemma_new_links_prototype(
    ctx: InterpreterView,
    function: int,
    args: Seq<ValueView>,
    returned: ValueView,
)
    requires
        0 <= function < ctx.heap.len(),
        ctx.heap[function].object.function() is Some,
        ctx.heap[function].object.function()->0.constructable,
    ensures
        ({
            let (after, step) = new_outcome(ctx, ValueView::Object(function), args);
            let receiver = ctx.heap.len() as int;
            let prototype = get_field(
                ctx.heap,
                ValueView::Object(function),
                PropertyKeyView::String(PROTOTYPE@),
            );
            &&& step == NewStepView::Construct {
                callee: function,
                this: ValueView::Object(receiver),
                body: ctx.heap[function].object.function()->0.body,
            }
            &&& after.heap[receiver].object == ObjectView::empty(
                ObjectDataView::Ordinary,
                prototype,
            )
            &&& returned is Object ==> constructed(ValueView::Object(receiver), Ok(returned)) == Ok::<
                ValueView,
                ValueView,
            >(returned)
            &&& !(returned is Object) ==> constructed(ValueView::Object(receiver), Ok(returned))
                == Ok::<ValueView, ValueView>(ValueView::Object(receiver))
        }),
{
    lemma_rest_index_exists(
        ctx.heap[function].object.function()->0.params,
    );
}

/// Where the callee of `new` is no object, the expression evaluates to
/// `undefined`; the object that was allocated for it stays in the heap.
pub proof fn lemma_new_of_no_object(ctx: InterpreterView, callee: ValueView, args: Seq<ValueView>)
    requires
        !(callee is Object),
    ensures
        new_outcome(ctx, callee, args).1 == NewStepView::Done(Ok(ValueView::Undefined)),
        new_outcome(ctx, callee, args).0 == ctx.allocated(
            ObjectView::empty(ObjectDataView::Ordinary, ValueView::Undefined),
        ),
{
}

} // verus!
