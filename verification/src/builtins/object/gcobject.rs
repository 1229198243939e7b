//! Heap cells: handles to objects, with borrows that are checked as the
//! program runs.
//!
//! A heap owns its objects, each in a cell of its own. A handle names a
//! cell. A cell records how it is borrowed: by any number of readers, or by
//! one writer, never both. Whoever wants to read or change an object takes
//! a borrow first and releases it afterwards; a borrow that cannot be had
//! is refused, and nothing is changed.

use vstd::prelude::*;
use crate::builtins::function::{
    bind_positional, call_bindings, call_heap, create_unmapped_arguments_object, is_rest_index,
    lemma_rest_index, parameter_views, FormalParameter, FormalParameterView, Function,
    FunctionBody, ThisMode,
};
use crate::builtins::object::{Object, ObjectView};
use crate::builtins::property::{PropertyKeyView, PropertyView};
use crate::builtins::value::{result_view, value_views, ResultValue, Value, ValueView};
use crate::environment::{
    environment_view, lemma_declare_initialize, new_function_environment, BindingStatus,
    Environment, FunctionEnvironmentView,
};
use crate::exec::{lemma_type_error, Interpreter, InterpreterView};

verus! {

/// An error returned by [`GcObject::try_borrow`]: the object is borrowed by
/// a writer.
#[derive(Debug, Clone, Copy, PartialEq, Eq, PartialOrd, Ord, Hash)]
pub struct BorrowError;

impl BorrowError {
    /// The message of the error.
    pub fn to_string(&self) -> (message: String)
        ensures
            message@ == "Object already mutably borrowed"@,
    {
        "Object already mutably borrowed".to_owned()
    }
}

/// An error returned by [`GcObject::try_borrow_mut`]: the object is
/// borrowed already.
#[derive(Debug, Clone, Copy, PartialEq, Eq, PartialOrd, Ord, Hash)]
pub struct BorrowMutError;

impl BorrowMutError {
    /// The message of the error.
    pub fn to_string(&self) -> (message: String)
        ensures
            message@ == "Object already borrowed"@,
    {
        "Object already borrowed".to_owned()
    }
}

/// What a cell is to a contract: the object that it holds and how it is
/// borrowed.
#[verifier::ext_equal]
pub struct CellView {
    pub object: ObjectView,
    pub readers: nat,
    pub writing: bool,
}

impl CellView {
    /// The object is valid, and the cell is not borrowed by a writer and
    /// by readers at once.
    pub open spec fn wf(self) -> bool {
        &&& self.object.wf()
        &&& !(self.writing && self.readers > 0)
    }

    /// A cell that holds the object and is not borrowed.
    pub open spec fn fresh(object: ObjectView) -> CellView {
        CellView { object, readers: 0, writing: false }
    }

    /// Nobody borrows the cell.
    pub open spec fn unused(self) -> bool {
        !self.writing && self.readers == 0
    }

    /// The cell with one reader more.
    pub open spec fn shared(self) -> CellView {
        CellView { readers: self.readers + 1, ..self }
    }

    /// The cell with one reader less.
    pub open spec fn unshared(self) -> CellView {
        CellView { readers: (self.readers - 1) as nat, ..self }
    }

    /// The cell borrowed by a writer.
    pub open spec fn exclusive(self) -> CellView {
        CellView { writing: true, ..self }
    }

    /// The cell given back by its writer.
    pub open spec fn unexclusive(self) -> CellView {
        CellView { writing: false, ..self }
    }

    /// The cell with another object in it.
    pub open spec fn holding(self, object: ObjectView) -> CellView {
        CellView { object, ..self }
    }
}

#[derive(Debug)]
struct Cell {
    object: Object,
    readers: usize,
    writing: bool,
}

/// The heap: the cells of all the objects that were allocated in it.
#[derive(Debug)]
pub struct Heap {
    cells: Vec<Cell>,
}

impl View for Heap {
    type V = Seq<CellView>;

    closed spec fn view(&self) -> Seq<CellView> {
        Seq::new(
            self.cells@.len(),
            |i: int|
                CellView {
                    object: self.cells@[i].object@,
                    readers: self.cells@[i].readers as nat,
                    writing: self.cells@[i].writing,
                },
        )
    }
}

/// A handle to an object of a heap. Copies of a handle name the same
/// object, and two handles are equal when they do, whatever the objects
/// hold.
#[derive(Debug, Clone, Copy, PartialEq, Eq, Structural)]
pub struct GcObject {
    index: usize,
}

impl View for GcObject {
    type V = int;

    closed spec fn view(&self) -> int {
        self.index as int
    }
}

impl Heap {
    /// Every cell of the heap is valid.
    pub open spec fn wf(&self) -> bool {
        forall|i: int| 0 <= i < self@.len() ==> (#[trigger] self@[i]).wf()
    }

    /// The handle names a cell of this heap.
    pub open spec fn contains(&self, object: GcObject) -> bool {
        0 <= object@ < self@.len()
    }

    /// A heap without objects.
    pub fn new() -> (heap: Self)
        ensures
            heap@.len() == 0,
            heap.wf(),
    {
        Heap { cells: Vec::new() }
    }

    /// Whether the handle names a cell of this heap.
    pub fn holds(&self, object: GcObject) -> (held: bool)
        ensures
            held == self.contains(object),
    {
        object.index < self.cells.len()
    }

    /// Whether somebody holds an object of the heap as a writer.
    pub fn has_writer(&self) -> (held: bool)
        ensures
            held == exists|i: int| 0 <= i < self@.len() && (#[trigger] self@[i]).writing,
    {
        let mut i: usize = 0;
        while i < self.cells.len()
            invariant
                i <= self.cells.len(),
                forall|j: int| 0 <= j < i ==> !(#[trigger] self@[j]).writing,
            decreases self.cells.len() - i,
        {
            if self.cells[i].writing {
                assert(self@[i as int].writing);
                return true;
            }
            i += 1;
        }
        false
    }

    /// The handle of the cell at a place of the heap, if the heap reaches
    /// so far.
    pub fn handle(&self, index: usize) -> (handle: Option<GcObject>)
        ensures
            match handle {
                Some(handle) => handle@ == index && self.contains(handle),
                None => index >= self@.len(),
            },
    {
        if index < self.cells.len() {
            Some(GcObject { index })
        } else {
            None
        }
    }

    /// Puts an empty object into a cell that nobody holds, in place of the
    /// object that it held.
    pub(crate) fn reset(&mut self, object: GcObject)
        requires
            old(self).wf(),
            old(self).contains(object),
            old(self)@[object@].unused(),
        ensures
            final(self).wf(),
            final(self)@ == old(self)@.update(object@, CellView::fresh(ObjectView::cleared())),
    {
        self.cells[object.index].object = Object::default();
        assert(self@ =~= old(self)@.update(object@, CellView::fresh(ObjectView::cleared())));
    }

    /// The number of objects of the heap.
    pub fn len(&self) -> (len: usize)
        ensures
            len == self@.len(),
    {
        self.cells.len()
    }
}

impl GcObject {
    /// Puts the object into a new cell of the heap and returns the handle
    /// to it. The handle is equal to no handle that the heap gave before.
    pub fn new(object: Object, heap: &mut Heap) -> (handle: Self)
        requires
            old(heap).wf(),
            object.wf(),
        ensures
            final(heap).wf(),
            handle@ == old(heap)@.len(),
            final(heap)@ == old(heap)@.push(CellView::fresh(object@)),
    {
        let index = heap.cells.len();
        heap.cells.push(Cell { object, readers: 0, writing: false });
        assert(heap@ =~= old(heap)@.push(CellView::fresh(object@)));
        GcObject { index }
    }

    /// The place of the cell in its heap.
    pub fn index(&self) -> (index: usize)
        ensures
            index == self@,
    {
        self.index
    }

    /// Whether nobody holds the object.
    pub fn is_unused(&self, heap: &Heap) -> (unused: bool)
        requires
            heap.contains(*self),
        ensures
            unused == heap@[self@].unused(),
    {
        !heap.cells[self.index].writing && heap.cells[self.index].readers == 0
    }

    /// Checks if the two handles name the same object.
    pub fn equals(lhs: &Self, rhs: &Self) -> (same: bool)
        ensures
            same == (lhs@ == rhs@),
            same == (*lhs == *rhs),
    {
        lhs.index == rhs.index
    }

    /// Borrows the object for a reader. The caller has made sure that no
    /// writer holds it.
    pub fn borrow(&self, heap: &mut Heap)
        requires
            old(heap).wf(),
            old(heap).contains(*self),
            !old(heap)@[self@].writing,
            old(heap)@[self@].readers < usize::MAX,
        ensures
            final(heap).wf(),
            final(heap)@ == old(heap)@.update(self@, old(heap)@[self@].shared()),
    {
        let readers = heap.cells[self.index].readers;
        heap.cells[self.index].readers = readers + 1;
        assert(heap@ =~= old(heap)@.update(self@, old(heap)@[self@].shared()));
    }

    /// Borrows the object for a writer. The caller has made sure that
    /// nobody holds it.
    pub fn borrow_mut(&self, heap: &mut Heap)
        requires
            old(heap).wf(),
            old(heap).contains(*self),
            old(heap)@[self@].unused(),
        ensures
            final(heap).wf(),
            final(heap)@ == old(heap)@.update(self@, old(heap)@[self@].exclusive()),
    {
        heap.cells[self.index].writing = true;
        assert(heap@ =~= old(heap)@.update(self@, old(heap)@[self@].exclusive()));
    }

    /// Borrows the object for a reader, unless a writer holds it: then
    /// nothing changes and the error says so.
    pub fn try_borrow(&self, heap: &mut Heap) -> (outcome: Result<(), BorrowError>)
        requires
            old(heap).wf(),
            old(heap).contains(*self),
            old(heap)@[self@].readers < usize::MAX,
        ensures
            final(heap).wf(),
            outcome is Err <==> old(heap)@[self@].writing,
            final(heap)@ == try_borrow_spec(old(heap)@, self@),
    {
        if heap.cells[self.index].writing {
            Err(BorrowError)
        } else {
            self.borrow(heap);
            Ok(())
        }
    }

    /// Borrows the object for a writer, unless somebody holds it: then
    /// nothing changes and the error says so.
    pub fn try_borrow_mut(&self, heap: &mut Heap) -> (outcome: Result<(), BorrowMutError>)
        requires
            old(heap).wf(),
            old(heap).contains(*self),
        ensures
            final(heap).wf(),
            outcome is Err <==> !old(heap)@[self@].unused(),
            final(heap)@ == try_borrow_mut_spec(old(heap)@, self@),
    {
        if heap.cells[self.index].writing || heap.cells[self.index].readers > 0 {
            Err(BorrowMutError)
        } else {
            self.borrow_mut(heap);
            Ok(())
        }
    }

    /// Gives back the borrow of one reader.
    pub fn release(&self, heap: &mut Heap)
        requires
            old(heap).wf(),
            old(heap).contains(*self),
            old(heap)@[self@].readers > 0,
        ensures
            final(heap).wf(),
            final(heap)@ == old(heap)@.update(self@, old(heap)@[self@].unshared()),
    {
        let readers = heap.cells[self.index].readers;
        heap.cells[self.index].readers = readers - 1;
        assert(heap@ =~= old(heap)@.update(self@, old(heap)@[self@].unshared()));
    }

    /// Gives back the borrow of the writer.
    pub fn release_mut(&self, heap: &mut Heap)
        requires
            old(heap).wf(),
            old(heap).contains(*self),
            old(heap)@[self@].writing,
        ensures
            final(heap).wf(),
            final(heap)@ == old(heap)@.update(self@, old(heap)@[self@].unexclusive()),
    {
        heap.cells[self.index].writing = false;
        assert(heap@ =~= old(heap)@.update(self@, old(heap)@[self@].unexclusive()));
    }

    /// Whether a writer holds the object.
    pub fn is_borrowed_mut(&self, heap: &Heap) -> (writing: bool)
        requires
            heap.contains(*self),
        ensures
            writing == heap@[self@].writing,
    {
        heap.cells[self.index].writing
    }

    /// The number of readers that hold the object.
    pub fn readers(&self, heap: &Heap) -> (readers: usize)
        requires
            heap.contains(*self),
        ensures
            readers == heap@[self@].readers,
    {
        heap.cells[self.index].readers
    }

    /// The object of the cell, for whoever holds it: one of its readers,
    /// or its writer.
    pub fn get<'a>(&self, heap: &'a Heap) -> (object: &'a Object)
        requires
            heap.contains(*self),
            heap@[self@].readers > 0 || heap@[self@].writing,
        ensures
            object@ == heap@[self@].object,
    {
        &heap.cells[self.index].object
    }

    /// The object of the cell, for its writer. What the writer makes of
    /// the object is what the cell holds afterwards.
    pub fn get_mut<'a>(&self, heap: &'a mut Heap) -> (object: &'a mut Object)
        requires
            old(heap).contains(*self),
            old(heap)@[self@].writing,
        ensures
            object@ == old(heap)@[self@].object,
            final(heap)@ == old(heap)@.update(self@, old(heap)@[self@].holding(final(object)@)),
    {
        &mut heap.cells[self.index].object
    }

    /// The object of the cell, for the engine's own short reads.
    pub(crate) fn peek<'a>(&self, heap: &'a Heap) -> (object: &'a Object)
        requires
            heap.contains(*self),
        ensures
            object@ == heap@[self@].object,
    {
        &heap.cells[self.index].object
    }
}

/// The cells after an attempt to borrow cell `i` for a reader: one reader
/// more, unless a writer holds the cell.
pub open spec fn try_borrow_spec(cells: Seq<CellView>, i: int) -> Seq<CellView> {
    if cells[i].writing {
        cells
    } else {
        cells.update(i, cells[i].shared())
    }
}

/// The cells after an attempt to borrow cell `i` for a writer: held by the
/// writer, unless somebody holds the cell.
pub open spec fn try_borrow_mut_spec(cells: Seq<CellView>, i: int) -> Seq<CellView> {
    if cells[i].unused() {
        cells.update(i, cells[i].exclusive())
    } else {
        cells
    }
}

/// The cells after `n` attempts in a row to borrow cell `i` for a reader.
pub open spec fn try_borrow_times(cells: Seq<CellView>, i: int, n: nat) -> Seq<CellView>
    decreases n,
{
    if n == 0 {
        cells
    } else {
        try_borrow_spec(try_borrow_times(cells, i, (n - 1) as nat), i)
    }
}

/// Handles are equal exactly when they name the same cell, whatever the
/// cells hold: two objects that were allocated one after the other have
/// different handles, even where the objects are alike, and each handle
/// finds its own object.
pub proof fn lemma_identity(cells: Seq<CellView>, first: ObjectView, second: ObjectView)
    ensures
        ({
            let a = cells.len() as int;
            let after_first = cells.push(CellView::fresh(first));
            let b = after_first.len() as int;
            let after_second = after_first.push(CellView::fresh(second));
            &&& a != b
            &&& after_second[a].object == first
            &&& after_second[b].object == second
        }),
{
}

/// Equal handles name the same cell, and handles that name the same cell
/// are equal.
pub proof fn lemma_equal_handles(lhs: GcObject, rhs: GcObject)
    ensures
        (lhs == rhs) <==> (lhs@ == rhs@),
{
}

/// While a writer holds a cell, every attempt to borrow it fails and
/// changes nothing; once the writer has given it back, it can be borrowed
/// again.
pub proof fn lemma_writer_excludes(cells: Seq<CellView>, i: int)
    requires
        0 <= i < cells.len(),
        cells[i].unused(),
    ensures
        ({
            let held = try_borrow_mut_spec(cells, i);
            let released = held.update(i, held[i].unexclusive());
            &&& held[i].writing
            &&& try_borrow_spec(held, i) == held
            &&& try_borrow_mut_spec(held, i) == held
            &&& released == cells
            &&& try_borrow_spec(released, i)[i].readers == 1
            &&& try_borrow_mut_spec(released, i)[i].writing
        }),
{
    let held = try_borrow_mut_spec(cells, i);
    let released = held.update(i, held[i].unexclusive());
    assert(released =~= cells);
}

/// Any number of readers can hold a cell at once: where no writer holds
/// it, `n` attempts in a row all succeed, and the cell then has `n`
/// readers more. While a reader holds it, no writer can have it.
pub proof fn lemma_readers_share(cells: Seq<CellView>, i: int, n: nat)
    requires
        0 <= i < cells.len(),
        !cells[i].writing,
    ensures
        try_borrow_times(cells, i, n) == cells.update(
            i,
            CellView { readers: cells[i].readers + n, ..cells[i] },
        ),
        n > 0 ==> try_borrow_mut_spec(try_borrow_times(cells, i, n), i) == try_borrow_times(
            cells,
            i,
            n,
        ),
    decreases n,
{
    if n == 0 {
        assert(cells =~= cells.update(i, CellView { readers: cells[i].readers + 0, ..cells[i] }));
    } else {
        lemma_readers_share(cells, i, (n - 1) as nat);
        let before = try_borrow_times(cells, i, (n - 1) as nat);
        assert(try_borrow_spec(before, i) =~= cells.update(
            i,
            CellView { readers: cells[i].readers + n, ..cells[i] },
        ));
    }
}

/// The frame that a call makes: for the function object `callee`, around
/// it the frame that the function captured. A function whose `this` is
/// lexical gets no `this`; any other gets the receiver, not yet set.
pub open spec fn call_frame(
    callee: int,
    params: Seq<FormalParameterView>,
    this_mode: ThisMode,
    captured: Option<int>,
    this: ValueView,
    args: Seq<ValueView>,
    first_cell: int,
) -> FunctionEnvironmentView {
    FunctionEnvironmentView::fresh(
        callee,
        match this_mode {
            ThisMode::Lexical => None,
            ThisMode::NonLexical => Some(this),
        },
        captured,
        match this_mode {
            ThisMode::Lexical => BindingStatus::Lexical,
            ThisMode::NonLexical => BindingStatus::Uninitialized,
        },
    ).with_bindings(call_bindings(params, args, first_cell))
}

impl InterpreterView {
    /// The context after a reader borrowed an object.
    pub open spec fn borrowed(self, object: int) -> InterpreterView {
        self.with_heap(self.heap.update(object, self.heap[object].shared()))
    }

    /// The context after the frame of a call was made, filled and
    /// entered: one frame more, the new one on top of the stack, and in
    /// the heap the objects that the call allocated.
    pub open spec fn entered_call(
        self,
        callee: int,
        params: Seq<FormalParameterView>,
        this_mode: ThisMode,
        captured: Option<int>,
        this: ValueView,
        args: Seq<ValueView>,
    ) -> InterpreterView {
        InterpreterView {
            heap: call_heap(self.heap, params, args),
            environment: self.environment.added(
                call_frame(callee, params, this_mode, captured, this, args, self.heap.len() as int),
            ).entered(self.environment.records.len() as int),
            ..self
        }
    }

    /// The context after a call has ended: the borrow of the callee is
    /// given back, and the frame of an interpreted function is left.
    pub open spec fn returned(self, callee: int, body: FunctionBody) -> InterpreterView {
        InterpreterView {
            heap: self.heap.update(callee, self.heap[callee].unshared()),
            environment: match body {
                FunctionBody::Ordinary(_) => self.environment.left(),
                FunctionBody::BuiltIn(_) => self.environment,
            },
            ..self
        }
    }
}

/// What the start of a call comes to: the context afterwards, and either
/// the body that the host must run or the error that is thrown.
///
/// An object without a function descriptor throws a type error, and so
/// does a function that cannot be called; neither changes anything else.
/// A host function changes nothing but the borrow of the callee. An
/// interpreted function gets its frame, which is entered.
pub open spec fn call_outcome(
    ctx: InterpreterView,
    callee: int,
    this: ValueView,
    args: Seq<ValueView>,
) -> (InterpreterView, Result<FunctionBody, ValueView>) {
    match ctx.heap[callee].object.function() {
        None => (ctx.raised("not a function"@), Err(ValueView::Object(ctx.heap.len() as int))),
        Some(function) => if !function.callable {
            (
                ctx.raised("function object is not callable"@),
                Err(ValueView::Object(ctx.heap.len() as int)),
            )
        } else {
            match function.body {
                FunctionBody::BuiltIn(_) => (ctx.borrowed(callee), Ok(function.body)),
                FunctionBody::Ordinary(_) => (
                    ctx.entered_call(
                        callee,
                        function.params,
                        function.this_mode,
                        function.environment,
                        this,
                        args,
                    ).borrowed(callee),
                    Ok(function.body),
                ),
            }
        }
    }
}

/// What the start of a construction comes to. It differs from a call in
/// what it asks of the function: that `new` accepts it.
pub open spec fn construct_outcome(
    ctx: InterpreterView,
    callee: int,
    this: ValueView,
    args: Seq<ValueView>,
) -> (InterpreterView, Result<FunctionBody, ValueView>) {
    match ctx.heap[callee].object.function() {
        None => (ctx.raised("not a function"@), Err(ValueView::Object(ctx.heap.len() as int))),
        Some(function) => if !function.constructable {
            (ctx.raised("not a constructor"@), Err(ValueView::Object(ctx.heap.len() as int)))
        } else {
            match function.body {
                FunctionBody::BuiltIn(_) => (ctx.borrowed(callee), Ok(function.body)),
                FunctionBody::Ordinary(_) => (
                    ctx.entered_call(
                        callee,
                        function.params,
                        function.this_mode,
                        function.environment,
                        this,
                        args,
                    ).borrowed(callee),
                    Ok(function.body),
                ),
            }
        }
    }
}

/// What a construction evaluates to, given the receiver and what the body
/// gave back: the object that the body returned, if it returned one; the
/// receiver, if it returned anything else; what it threw, if it threw.
pub open spec fn constructed(this: ValueView, result: Result<ValueView, ValueView>) -> Result<
    ValueView,
    ValueView,
> {
    match result {
        Ok(ValueView::Object(object)) => Ok(ValueView::Object(object)),
        Ok(_) => Ok(this),
        Err(thrown) => Err(thrown),
    }
}

impl GcObject {
    /// Makes the frame of a call of this function object, binds the
    /// parameters and `arguments` in it, and enters it.
    fn enter(
        &self,
        this: &Value,
        args: &[Value],
        ctx: &mut Interpreter,
        params: &Vec<FormalParameter>,
        this_mode: ThisMode,
        captured: Option<Environment>,
    )
        requires
            old(ctx).wf(),
            args.len() <= i32::MAX,
        ensures
            final(ctx).wf(),
            final(ctx)@ == old(ctx)@.entered_call(
                self@,
                parameter_views(params@),
                this_mode,
                environment_view(captured),
                this@,
                value_views(args@),
            ),
    {
        let ghost before = ctx@;
        let ghost formals = parameter_views(params@);
        let ghost actuals = value_views(args@);
        let ghost first_cell = before.heap.len() as int;
        let ghost place = before.environment.records.len() as int;
        let ghost blank = call_frame(
            self@,
            formals,
            this_mode,
            environment_view(captured),
            this@,
            actuals,
            first_cell,
        ).with_bindings(Seq::empty());
        let local_env = match this_mode {
            ThisMode::Lexical => new_function_environment(
                *self,
                None,
                captured,
                BindingStatus::Lexical,
                &mut ctx.realm.environment,
            ),
            ThisMode::NonLexical => new_function_environment(
                *self,
                Some(this.clone()),
                captured,
                BindingStatus::Uninitialized,
                &mut ctx.realm.environment,
            ),
        };
        assert(ctx@.environment.records[place] == blank);
        let mut i: usize = 0;
        while i < params.len() && !params[i].is_rest_param()
            invariant
                i <= params.len(),
                ctx.wf(),
                before.wf(),
                local_env@ == place,
                place == before.environment.records.len(),
                formals == parameter_views(params@),
                actuals == value_views(args@),
                forall|j: int| 0 <= j < i ==> !(#[trigger] formals[j]).is_rest_param,
                ctx@ == before.with_environment(
                    before.environment.added(
                        blank.with_bindings(bind_positional(Seq::empty(), formals, actuals, i as int)),
                    ),
                ),
            decreases params.len() - i,
        {
            let value = if i < args.len() {
                args[i].clone()
            } else {
                Value::undefined()
            };
            assert(formals[i as int] == params@[i as int]@);
            Function::add_arguments_to_environment(
                &params[i],
                value,
                local_env,
                &mut ctx.realm.environment,
            );
            i += 1;
        }
        proof {
            if i < params.len() {
                assert(formals[i as int] == params@[i as int]@);
            }
            assert(is_rest_index(formals, i as int));
            lemma_rest_index(formals, i as int);
        }
        if i < params.len() {
            Function::add_rest_param(&params[i], i, args, ctx, local_env);
        }
        let arguments_obj = create_unmapped_arguments_object(args, &mut ctx.heap);
        proof {
            lemma_declare_initialize(
                ctx@.environment.records[place],
                "arguments"@,
                arguments_obj@,
            );
        }
        let frame = ctx.realm.environment.record_mut(local_env);
        frame.create_mutable_binding("arguments".to_owned(), false);
        frame.initialize_binding("arguments", arguments_obj);
        ctx.realm.environment.push(local_env);
        assert(ctx@.environment.stack == before.environment.stack.push(place));
        assert(ctx@.environment.records =~= before.environment.records.push(
            call_frame(
                self@,
                formals,
                this_mode,
                environment_view(captured),
                this@,
                actuals,
                first_cell,
            ),
        ));
    }

    /// Starts a call of this object with the receiver `this` and the
    /// arguments `args`.
    ///
    /// Where the object is a function that can be called, the call goes on
    /// outside: the result names the body that the host must run, a
    /// function of its own or the statements of an interpreted function,
    /// and the host hands what came of it to [`GcObject::end_call`]. For
    /// an interpreted function the frame of the call has been made and
    /// entered: its parameters are bound to the arguments by position,
    /// `undefined` where the arguments run out, a rest parameter to an
    /// array of the arguments that are left, and `arguments` to an object
    /// that holds them all. From here to the end of the call the object is
    /// borrowed by a reader.
    ///
    /// Where the object is no function, or a function that cannot be
    /// called, a type error is thrown.
    pub fn call(&self, this: &Value, args: &[Value], ctx: &mut Interpreter) -> (step: Result<
        FunctionBody,
        Value,
    >)
        requires
            old(ctx).wf(),
            old(ctx).heap.contains(*self),
            !old(ctx)@.heap[self@].writing,
            old(ctx)@.heap[self@].readers < usize::MAX,
            args.len() <= i32::MAX,
        ensures
            final(ctx).wf(),
            (
                final(ctx)@,
                match step {
                    Ok(body) => Ok(body),
                    Err(thrown) => Err(thrown@),
                },
            ) == call_outcome(old(ctx)@, self@, this@, value_views(args@)),
    {
        let function = match self.peek(&ctx.heap).as_function() {
            Some(function) => Some(function.clone()),
            None => None,
        };
        match function {
            None => Err(ctx.construct_type_error("not a function")),
            Some(function) => {
                if !function.is_callable() {
                    return Err(ctx.construct_type_error("function object is not callable"));
                }
                match function.body() {
                    FunctionBody::BuiltIn(native) => {
                        self.borrow(&mut ctx.heap);
                        Ok(FunctionBody::BuiltIn(native))
                    },
                    FunctionBody::Ordinary(body) => {
                        self.enter(
                            this,
                            args,
                            ctx,
                            function.params(),
                            function.this_mode(),
                            function.environment(),
                        );
                        self.borrow(&mut ctx.heap);
                        Ok(FunctionBody::Ordinary(body))
                    },
                }
            },
        }
    }

    /// Ends a call that [`GcObject::call`] started, once the host has run
    /// the body: gives back the borrow of the function object and, for an
    /// interpreted function, leaves the frame of the call. Whatever the
    /// body gave back, a value or what it threw, is returned as it is.
    pub fn end_call(&self, body: FunctionBody, result: ResultValue, ctx: &mut Interpreter) -> (outcome:
        ResultValue)
        requires
            old(ctx).wf(),
            old(ctx).heap.contains(*self),
            old(ctx)@.heap[self@].readers > 0,
        ensures
            final(ctx).wf(),
            outcome == result,
            final(ctx)@ == old(ctx)@.returned(self@, body),
    {
        match body {
            FunctionBody::Ordinary(_) => {
                ctx.realm.environment.pop();
            },
            FunctionBody::BuiltIn(_) => {},
        }
        self.release(&mut ctx.heap);
        result
    }

    /// Starts the construction of `this` by this object: as a call, but
    /// the object must be a function that `new` accepts. The host hands
    /// what came of the body to [`GcObject::end_construct`].
    pub fn construct(&self, this: &Value, args: &[Value], ctx: &mut Interpreter) -> (step: Result<
        FunctionBody,
        Value,
    >)
        requires
            old(ctx).wf(),
            old(ctx).heap.contains(*self),
            !old(ctx)@.heap[self@].writing,
            old(ctx)@.heap[self@].readers < usize::MAX,
            args.len() <= i32::MAX,
        ensures
            final(ctx).wf(),
            (
                final(ctx)@,
                match step {
                    Ok(body) => Ok(body),
                    Err(thrown) => Err(thrown@),
                },
            ) == construct_outcome(old(ctx)@, self@, this@, value_views(args@)),
    {
        let function = match self.peek(&ctx.heap).as_function() {
            Some(function) => Some(function.clone()),
            None => None,
        };
        match function {
            None => Err(ctx.construct_type_error("not a function")),
            Some(function) => {
                if !function.is_constructable() {
                    return Err(ctx.construct_type_error("not a constructor"));
                }
                match function.body() {
                    FunctionBody::BuiltIn(native) => {
                        self.borrow(&mut ctx.heap);
                        Ok(FunctionBody::BuiltIn(native))
                    },
                    FunctionBody::Ordinary(body) => {
                        self.enter(
                            this,
                            args,
                            ctx,
                            function.params(),
                            function.this_mode(),
                            function.environment(),
                        );
                        self.borrow(&mut ctx.heap);
                        Ok(FunctionBody::Ordinary(body))
                    },
                }
            },
        }
    }

    /// Ends a construction that [`GcObject::construct`] started, once the
    /// host has run the body: ends the call, and says what the
    /// construction evaluates to. That is the object that the body
    /// returned, if it returned one, and the receiver `this` otherwise;
    /// what the body threw is thrown on.
    pub fn end_construct(
        &self,
        body: FunctionBody,
        this: &Value,
        result: ResultValue,
        ctx: &mut Interpreter,
    ) -> (outcome: ResultValue)
        requires
            old(ctx).wf(),
            old(ctx).heap.contains(*self),
            old(ctx)@.heap[self@].readers > 0,
        ensures
            final(ctx).wf(),
            result_view(outcome) == constructed(this@, result_view(result)),
            final(ctx)@ == old(ctx)@.returned(self@, body),
    {
        match self.end_call(body, result, ctx) {
            Ok(Value::Object(object)) => Ok(Value::Object(object)),
            Ok(_) => Ok(this.clone()),
            Err(thrown) => Err(thrown),
        }
    }
}

/// Whether a text holds another one somewhere in it.
pub open spec fn contains_text(text: Seq<char>, part: Seq<char>) -> bool {
    exists|i: int|
        0 <= i && i + part.len() <= text.len() && #[trigger] text.subrange(
            i,
            i + part.len() as int,
        ) == part
}

/// A call of an object that has no function descriptor fails: it throws a
/// type error whose message is `not a function`, and changes nothing but
/// the heap, which holds the error object as its newest object.
pub proof fn lemma_call_of_no_function(
    ctx: InterpreterView,
    callee: int,
    this: ValueView,
    args: Seq<ValueView>,
)
    requires
        0 <= callee < ctx.heap.len(),
        ctx.heap[callee].object.function() is None,
    ensures
        ({
            let (after, step) = call_outcome(ctx, callee, this, args);
            let thrown = ctx.heap.len() as int;
            &&& step == Err::<FunctionBody, ValueView>(ValueView::Object(thrown))
            &&& after == ctx.with_heap(ctx.heap.push(after.heap[thrown]))
            &&& after.heap[thrown].object.data is Error
            &&& after.heap[thrown].object.get(PropertyKeyView::String("message"@)) == Some(
                PropertyView::field(ValueView::String("not a function"@)),
            )
            &&& contains_text("not a function"@, "not a function"@)
        }),
{
    lemma_type_error("not a function"@);
    assert("not a function"@.subrange(0, 0 + "not a function"@.len() as int) =~= "not a function"@);
}

/// A call of a function whose callable flag is not set fails: it throws a
/// type error whose message is `function object is not callable`, and
/// changes nothing but the heap, which holds the error object as its
/// newest object.
pub proof fn lemma_call_of_uncallable(
    ctx: InterpreterView,
    callee: int,
    this: ValueView,
    args: Seq<ValueView>,
)
    requires
        0 <= callee < ctx.heap.len(),
        ctx.heap[callee].object.function() is Some,
        !ctx.heap[callee].object.function()->0.callable,
    ensures
        ({
            let (after, step) = call_outcome(ctx, callee, this, args);
            let thrown = ctx.heap.len() as int;
            &&& step == Err::<FunctionBody, ValueView>(ValueView::Object(thrown))
            &&& after == ctx.with_heap(ctx.heap.push(after.heap[thrown]))
            &&& after.heap[thrown].object.data is Error
            &&& after.heap[thrown].object.get(PropertyKeyView::String("message"@)) == Some(
                PropertyView::field(ValueView::String("function object is not callable"@)),
            )
            &&& contains_text("function object is not callable"@, "not callable"@)
        }),
{
    lemma_type_error("function object is not callable"@);
    reveal_strlit("function object is not callable");
    reveal_strlit("not callable");
    assert("function object is not callable"@.subrange(19, 19 + "not callable"@.len() as int)
        =~= "not callable"@);
}

/// A call of an interpreted function makes one frame: the frame lies in
/// the frame that the function captured, it is the only new frame, and it
/// is the one that is entered.
pub proof fn lemma_call_makes_one_frame(
    ctx: InterpreterView,
    callee: int,
    this: ValueView,
    args: Seq<ValueView>,
)
    requires
        0 <= callee < ctx.heap.len(),
        ctx.heap[callee].object.function() is Some,
        ctx.heap[callee].object.function()->0.callable,
        ctx.heap[callee].object.function()->0.body is Ordinary,
    ensures
        ({
            let (after, step) = call_outcome(ctx, callee, this, args);
            let function = ctx.heap[callee].object.function()->0;
            let frame = ctx.environment.records.len() as int;
            &&& step == Ok::<FunctionBody, ValueView>(function.body)
            &&& after.environment.records == ctx.environment.records.push(
                after.environment.records[frame],
            )
            &&& after.environment.records[frame].outer_env == function.environment
            &&& after.environment.records[frame].function == callee
            &&& after.environment.stack == ctx.environment.stack.push(frame)
            &&& function.this_mode == ThisMode::Lexical ==> after.environment.records[frame].this_binding_status
                == BindingStatus::Lexical
            &&& function.this_mode == ThisMode::NonLexical ==> after.environment.records[frame].this_binding_status
                == BindingStatus::Uninitialized && after.environment.records[frame].this_value
                == this
        }),
{
}

/// A call leaves the stack of frames as it found it, however the body
/// ends.
///
/// Take a call of a function that can be called, and let the body leave
/// the stack as deep as it was when the body began. Then the end of the
/// call brings the stack back to the depth that it had before the call,
/// whether the body returned a value or threw one; and where the body left
/// the stack as it was, the stack is what it was before the call.
pub proof fn lemma_call_restores_stack(
    ctx: InterpreterView,
    callee: int,
    this: ValueView,
    args: Seq<ValueView>,
    during: InterpreterView,
    result: Result<ValueView, ValueView>,
)
    requires
        0 <= callee < ctx.heap.len(),
        ctx.heap[callee].object.function() is Some,
        ctx.heap[callee].object.function()->0.callable,
        during.environment.stack.len() == call_outcome(
            ctx,
            callee,
            this,
            args,
        ).0.environment.stack.len(),
    ensures
        ({
            let (entered, step) = call_outcome(ctx, callee, this, args);
            &&& step is Ok
            &&& during.returned(callee, step->Ok_0).environment.stack.len()
                == ctx.environment.stack.len()
            &&& during.environment.stack == entered.environment.stack ==> during.returned(
                callee,
                step->Ok_0,
            ).environment.stack == ctx.environment.stack
        }),
{
    let (entered, step) = call_outcome(ctx, callee, this, args);
    let function = ctx.heap[callee].object.function()->0;
    match function.body {
        FunctionBody::Ordinary(_) => {
            let frame = ctx.environment.records.len() as int;
            assert(entered.environment.stack == ctx.environment.stack.push(frame));
            if during.environment.stack == entered.environment.stack {
                assert(during.environment.stack.drop_last() =~= ctx.environment.stack);
            }
        },
        FunctionBody::BuiltIn(_) => {},
    }
}

/// While a call lasts, nobody can borrow the function object as a writer:
/// the call holds it as a reader until its end.
pub proof fn lemma_call_holds_callee(
    ctx: InterpreterView,
    callee: int,
    this: ValueView,
    args: Seq<ValueView>,
)
    requires
        0 <= callee < ctx.heap.len(),
        !ctx.heap[callee].writing,
        ctx.heap[callee].object.function() is Some,
        ctx.heap[callee].object.function()->0.callable,
    ensures
        ({
            let entered = call_outcome(ctx, callee, this, args).0;
            &&& entered.heap[callee].readers == ctx.heap[callee].readers + 1
            &&& entered.heap[callee].object == ctx.heap[callee].object
            &&& try_borrow_mut_spec(entered.heap, callee) == entered.heap
        }),
{
}

/// An assignment to a parameter after the call has begun does not reach
/// the arguments object: the frame changes, the heap does not.
pub proof fn lemma_arguments_are_unmapped(
    ctx: InterpreterView,
    frame: int,
    name: Seq<char>,
    value: ValueView,
)
    requires
        0 <= frame < ctx.environment.records.len(),
    ensures
        ctx.with_environment(
            ctx.environment.updated(frame, ctx.environment.records[frame].assign(name, value)),
        ).heap == ctx.heap,
{
}

} // verus!
