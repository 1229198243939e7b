//! Scope frames and the stack of the frames that are active.
//!
//! A frame binds names to values and points to the frame around it. Frames
//! are kept for good, each under a handle, since a function that was made
//! inside a frame goes on using it. The stack holds the handles of the
//! frames that are active, the innermost one last.

use vstd::prelude::*;
use crate::builtins::object::gcobject::GcObject;
use crate::builtins::value::{Value, ValueView};
use crate::keyed::{
    find, has_key, key_index, lemma_find_at, lemma_put, lookup, put, unique_keys, upsert, views,
};

verus! {

/// A handle to a scope frame.
#[derive(Debug, Clone, Copy, PartialEq, Eq, Structural)]
pub struct Environment {
    index: usize,
}

impl View for Environment {
    type V = int;

    closed spec fn view(&self) -> int {
        self.index as int
    }
}

impl Environment {
    /// The place of the frame among the frames that were made.
    pub fn index(&self) -> (index: usize)
        ensures
            index == self@,
    {
        self.index
    }
}

/// What an optional frame handle is to a contract.
pub open spec fn environment_view(environment: Option<Environment>) -> Option<int> {
    match environment {
        Some(handle) => Some(handle@),
        None => None,
    }
}

/// Whether a frame has a `this`, and whether it has been set.
#[derive(Debug, Clone, Copy, PartialEq, Eq, Structural)]
pub enum BindingStatus {
    /// The frame has no `this` of its own.
    Lexical,
    /// The `this` of the frame has been set.
    Initialized,
    /// The frame has a `this` that has not been set yet.
    Uninitialized,
}

/// What a binding is to a contract.
#[verifier::ext_equal]
pub struct BindingView {
    pub value: Option<ValueView>,
    pub mutable: bool,
    pub can_delete: bool,
}

impl BindingView {
    /// A mutable binding that has no value yet.
    pub open spec fn declared(can_delete: bool) -> BindingView {
        BindingView { value: None, mutable: true, can_delete }
    }

    /// A mutable binding that cannot be deleted and holds the value.
    pub open spec fn holding(value: ValueView) -> BindingView {
        BindingView { value: Some(value), mutable: true, can_delete: false }
    }
}

/// What a name is bound to: a value once the binding is initialized, and
/// the flags of the binding.
#[derive(Debug, PartialEq, Eq)]
pub struct Binding {
    pub value: Option<Value>,
    pub mutable: bool,
    pub can_delete: bool,
}

impl View for Binding {
    type V = BindingView;

    open spec fn view(&self) -> BindingView {
        BindingView {
            value: match self.value {
                Some(value) => Some(value@),
                None => None,
            },
            mutable: self.mutable,
            can_delete: self.can_delete,
        }
    }
}

/// What a scope frame is to a contract.
#[verifier::ext_equal]
pub struct FunctionEnvironmentView {
    /// The bindings, in the order in which their names first came.
    pub bindings: Seq<(Seq<char>, BindingView)>,
    /// The function object whose call made the frame.
    pub function: int,
    pub this_value: ValueView,
    pub this_binding_status: BindingStatus,
    /// The frame around this one.
    pub outer_env: Option<int>,
}

impl FunctionEnvironmentView {
    /// No name is bound twice.
    pub open spec fn wf(self) -> bool {
        unique_keys(self.bindings)
    }

    /// A frame without bindings.
    pub open spec fn fresh(
        function: int,
        this: Option<ValueView>,
        outer_env: Option<int>,
        this_binding_status: BindingStatus,
    ) -> FunctionEnvironmentView {
        FunctionEnvironmentView {
            bindings: Seq::empty(),
            function,
            this_value: match this {
                Some(value) => value,
                None => ValueView::Undefined,
            },
            this_binding_status,
            outer_env,
        }
    }

    /// The frame with other bindings.
    pub open spec fn with_bindings(
        self,
        bindings: Seq<(Seq<char>, BindingView)>,
    ) -> FunctionEnvironmentView {
        FunctionEnvironmentView { bindings, ..self }
    }

    /// The frame after it was reclaimed: it binds nothing, holds no
    /// `this` and lies in no frame.
    pub open spec fn cleared(self) -> FunctionEnvironmentView {
        FunctionEnvironmentView {
            bindings: Seq::empty(),
            this_value: ValueView::Undefined,
            outer_env: None,
            ..self
        }
    }

    /// The frame after the name was declared: the name is bound, mutably
    /// and without a value, whatever it was bound to before.
    pub open spec fn declare(self, name: Seq<char>, can_delete: bool) -> FunctionEnvironmentView {
        self.with_bindings(put(self.bindings, name, BindingView::declared(can_delete)))
    }

    /// The frame after the binding of the name was given the value: a
    /// name that is not bound stays so.
    pub open spec fn initialize(self, name: Seq<char>, value: ValueView) -> FunctionEnvironmentView {
        match find(self.bindings, name) {
            Some(binding) => self.with_bindings(
                put(self.bindings, name, BindingView { value: Some(value), ..binding }),
            ),
            None => self,
        }
    }

    /// The frame after an assignment to the name: only a mutable binding
    /// takes the value.
    pub open spec fn assign(self, name: Seq<char>, value: ValueView) -> FunctionEnvironmentView {
        match find(self.bindings, name) {
            Some(binding) => if binding.mutable {
                self.with_bindings(
                    put(self.bindings, name, BindingView { value: Some(value), ..binding }),
                )
            } else {
                self
            },
            None => self,
        }
    }

    /// The frame after the name was bound to the value in one step.
    pub open spec fn bind(self, name: Seq<char>, value: ValueView) -> FunctionEnvironmentView {
        self.with_bindings(put(self.bindings, name, BindingView::holding(value)))
    }

    /// The value that the name is bound to, once it has one.
    pub open spec fn value_of(self, name: Seq<char>) -> Option<ValueView> {
        match find(self.bindings, name) {
            Some(binding) => binding.value,
            None => None,
        }
    }
}

/// Declaring a name and then initializing it binds it in one step.
pub proof fn lemma_declare_initialize(
    frame: FunctionEnvironmentView,
    name: Seq<char>,
    value: ValueView,
)
    requires
        frame.wf(),
    ensures
        frame.declare(name, false).initialize(name, value) == frame.bind(name, value),
        frame.bind(name, value).wf(),
        frame.bind(name, value).value_of(name) == Some(value),
        forall|other: Seq<char>|
            other != name ==> #[trigger] frame.bind(name, value).value_of(other) == frame.value_of(
                other,
            ),
{
    let declared = put(frame.bindings, name, BindingView::declared(false));
    lemma_put(frame.bindings, name, BindingView::declared(false));
    lemma_put(frame.bindings, name, BindingView::holding(value));
    lemma_put(declared, name, BindingView::holding(value));
    assert(put(declared, name, BindingView::holding(value)) =~= put(
        frame.bindings,
        name,
        BindingView::holding(value),
    )) by {
        if has_key(frame.bindings, name) {
            let i = key_index(frame.bindings, name);
            assert(0 <= i < frame.bindings.len() && frame.bindings[i].0 == name);
            assert(declared[i].0 == name);
            lemma_find_at(declared, i);
        } else {
            let n = frame.bindings.len() as int;
            assert(declared[n].0 == name);
            lemma_find_at(declared, n);
        }
    }
    assert forall|other: Seq<char>| other != name implies #[trigger] frame.bind(
        name,
        value,
    ).value_of(other) == frame.value_of(other) by {
        assert(find(put(frame.bindings, name, BindingView::holding(value)), other) == find(
            frame.bindings,
            other,
        ));
    }
}

/// A scope frame of a function call.
#[derive(Debug, PartialEq, Eq)]
pub struct FunctionEnvironmentRecord {
    env_rec: Vec<(String, Binding)>,
    function: GcObject,
    this_binding_status: BindingStatus,
    outer_env: Option<Environment>,
    this_value: Value,
}

impl View for FunctionEnvironmentRecord {
    type V = FunctionEnvironmentView;

    closed spec fn view(&self) -> FunctionEnvironmentView {
        FunctionEnvironmentView {
            bindings: views(self.env_rec@),
            function: self.function@,
            this_value: self.this_value@,
            this_binding_status: self.this_binding_status,
            outer_env: environment_view(self.outer_env),
        }
    }
}

impl FunctionEnvironmentRecord {
    /// Whether the frame is valid: no name is bound twice.
    pub open spec fn wf(&self) -> bool {
        self@.wf()
    }

    /// A frame without bindings for a call of `function`. It holds the
    /// `this` that is given, or `undefined`, in the state that is given.
    pub fn new(
        function: GcObject,
        this: Option<Value>,
        outer: Option<Environment>,
        binding_status: BindingStatus,
    ) -> (frame: Self)
        ensures
            frame.wf(),
            frame@ == FunctionEnvironmentView::fresh(
                function@,
                match this {
                    Some(value) => Some(value@),
                    None => None,
                },
                environment_view(outer),
                binding_status,
            ),
    {
        let this_value = match this {
            Some(value) => value,
            None => Value::Undefined,
        };
        let frame = FunctionEnvironmentRecord {
            env_rec: Vec::new(),
            function,
            this_binding_status: binding_status,
            outer_env: outer,
            this_value,
        };
        assert(frame@.bindings =~= Seq::empty());
        frame
    }

    /// The bindings of the frame.
    pub(crate) fn bindings(&self) -> (bindings: &Vec<(String, Binding)>)
        ensures
            views(bindings@) == self@.bindings,
    {
        &self.env_rec
    }

    /// The `this` that the frame holds, to read it.
    pub(crate) fn this_value(&self) -> (this: &Value)
        ensures
            this@ == self@.this_value,
    {
        &self.this_value
    }

    /// Forgets what the frame binds, its `this` and the frame around it.
    pub(crate) fn clear(&mut self)
        ensures
            final(self).wf(),
            final(self)@ == old(self)@.cleared(),
    {
        self.env_rec = Vec::new();
        self.this_value = Value::Undefined;
        self.outer_env = None;
        assert(self@.bindings =~= Seq::empty());
    }

    /// Whether the name is bound.
    pub fn has_binding(&self, name: &str) -> (bound: bool)
        requires
            self.wf(),
        ensures
            bound == find(self@.bindings, name@) is Some,
    {
        let key = name.to_owned();
        lookup(&self.env_rec, &key).is_some()
    }

    /// Declares a name: binds it, mutably and without a value. A name that
    /// was bound is bound anew.
    pub fn create_mutable_binding(&mut self, name: String, deletion: bool)
        requires
            old(self).wf(),
        ensures
            final(self).wf(),
            final(self)@ == old(self)@.declare(name@, deletion),
    {
        upsert(&mut self.env_rec, name, Binding { value: None, mutable: true, can_delete: deletion });
    }

    /// Gives the binding of a name its value. A name that is not bound
    /// stays so.
    pub fn initialize_binding(&mut self, name: &str, value: Value)
        requires
            old(self).wf(),
        ensures
            final(self).wf(),
            final(self)@ == old(self)@.initialize(name@, value@),
    {
        let key = name.to_owned();
        let flags = match lookup(&self.env_rec, &key) {
            Some(binding) => Some((binding.mutable, binding.can_delete)),
            None => None,
        };
        if let Some((mutable, can_delete)) = flags {
            upsert(&mut self.env_rec, key, Binding { value: Some(value), mutable, can_delete });
        }
    }

    /// Assigns to a name. Returns whether the name had a mutable binding:
    /// where it had none, nothing changes.
    pub fn set_mutable_binding(&mut self, name: &str, value: Value) -> (assigned: bool)
        requires
            old(self).wf(),
        ensures
            final(self).wf(),
            final(self)@ == old(self)@.assign(name@, value@),
            assigned == match find(old(self)@.bindings, name@) {
                Some(binding) => binding.mutable,
                None => false,
            },
    {
        let key = name.to_owned();
        let flags = match lookup(&self.env_rec, &key) {
            Some(binding) => Some((binding.mutable, binding.can_delete)),
            None => None,
        };
        match flags {
            Some((true, can_delete)) => {
                upsert(
                    &mut self.env_rec,
                    key,
                    Binding { value: Some(value), mutable: true, can_delete },
                );
                true
            },
            _ => false,
        }
    }

    /// The value that a name is bound to, once it has one.
    pub fn get_binding_value(&self, name: &str) -> (value: Option<Value>)
        requires
            self.wf(),
        ensures
            match value {
                Some(value) => self@.value_of(name@) == Some(value@),
                None => self@.value_of(name@) is None,
            },
    {
        let key = name.to_owned();
        match lookup(&self.env_rec, &key) {
            Some(binding) => match &binding.value {
                Some(value) => Some(value.clone()),
                None => None,
            },
            None => None,
        }
    }

    /// Whether the frame has a `this` of its own.
    pub fn has_this_binding(&self) -> (has: bool)
        ensures
            has == (self@.this_binding_status != BindingStatus::Lexical),
    {
        match self.this_binding_status {
            BindingStatus::Lexical => false,
            _ => true,
        }
    }

    /// The state of the frame's `this`.
    pub fn this_binding_status(&self) -> (status: BindingStatus)
        ensures
            status == self@.this_binding_status,
    {
        self.this_binding_status
    }

    /// The `this` that the frame holds.
    pub fn get_this_binding(&self) -> (this: Value)
        ensures
            this@ == self@.this_value,
    {
        self.this_value.clone()
    }

    /// Sets the `this` of the frame, where the frame has one that has not
    /// been set. Returns whether it did.
    pub fn bind_this_value(&mut self, value: Value) -> (bound: bool)
        ensures
            bound == (old(self)@.this_binding_status == BindingStatus::Uninitialized),
            final(self)@ == if bound {
                FunctionEnvironmentView {
                    this_value: value@,
                    this_binding_status: BindingStatus::Initialized,
                    ..old(self)@
                }
            } else {
                old(self)@
            },
    {
        match self.this_binding_status {
            BindingStatus::Uninitialized => {
                self.this_value = value;
                self.this_binding_status = BindingStatus::Initialized;
                true
            },
            _ => false,
        }
    }

    /// The function object whose call made the frame.
    pub fn function(&self) -> (function: GcObject)
        ensures
            function@ == self@.function,
    {
        self.function
    }

    /// The frame around this one.
    pub fn outer_env(&self) -> (outer: Option<Environment>)
        ensures
            environment_view(outer) == self@.outer_env,
    {
        self.outer_env
    }
}

/// What the frames and their stack are to a contract.
#[verifier::ext_equal]
pub struct LexicalEnvironmentView {
    /// Every frame that was made, by the place of its handle.
    pub records: Seq<FunctionEnvironmentView>,
    /// The frames that are active, the innermost one last.
    pub stack: Seq<int>,
}

impl LexicalEnvironmentView {
    /// Every frame is valid.
    pub open spec fn wf(self) -> bool {
        forall|i: int| 0 <= i < self.records.len() ==> (#[trigger] self.records[i]).wf()
    }

    /// The frames and the stack after a frame was entered.
    pub open spec fn entered(self, environment: int) -> LexicalEnvironmentView {
        LexicalEnvironmentView { stack: self.stack.push(environment), ..self }
    }

    /// The frames and the stack after the innermost frame was left.
    pub open spec fn left(self) -> LexicalEnvironmentView {
        if self.stack.len() > 0 {
            LexicalEnvironmentView { stack: self.stack.drop_last(), ..self }
        } else {
            self
        }
    }

    /// The frames and the stack after a frame was made.
    pub open spec fn added(self, frame: FunctionEnvironmentView) -> LexicalEnvironmentView {
        LexicalEnvironmentView { records: self.records.push(frame), ..self }
    }

    /// The frames and the stack after a frame was changed.
    pub open spec fn updated(self, environment: int, frame: FunctionEnvironmentView) -> LexicalEnvironmentView {
        LexicalEnvironmentView { records: self.records.update(environment, frame), ..self }
    }
}

/// The frames that were made and the stack of those that are active.
#[derive(Debug, PartialEq, Eq)]
pub struct LexicalEnvironment {
    records: Vec<FunctionEnvironmentRecord>,
    environment_stack: Vec<Environment>,
}

impl View for LexicalEnvironment {
    type V = LexicalEnvironmentView;

    closed spec fn view(&self) -> LexicalEnvironmentView {
        LexicalEnvironmentView {
            records: Seq::new(self.records@.len(), |i: int| self.records@[i]@),
            stack: Seq::new(self.environment_stack@.len(), |i: int| self.environment_stack@[i]@),
        }
    }
}

impl LexicalEnvironment {
    /// Whether every frame is valid.
    pub open spec fn wf(&self) -> bool {
        self@.wf()
    }

    /// The handle names a frame that was made here.
    pub open spec fn contains(&self, environment: Environment) -> bool {
        0 <= environment@ < self@.records.len()
    }

    /// No frames and an empty stack.
    pub fn new() -> (environments: Self)
        ensures
            environments.wf(),
            environments@.records.len() == 0,
            environments@.stack.len() == 0,
    {
        LexicalEnvironment { records: Vec::new(), environment_stack: Vec::new() }
    }

    /// Enters a frame: puts it on the stack.
    pub fn push(&mut self, environment: Environment)
        ensures
            final(self)@ == old(self)@.entered(environment@),
    {
        self.environment_stack.push(environment);
        assert(self@.stack =~= old(self)@.stack.push(environment@));
        assert(self@.records =~= old(self)@.records);
    }

    /// Leaves the innermost frame: takes it off the stack and returns it.
    /// An empty stack stays empty.
    pub fn pop(&mut self) -> (environment: Option<Environment>)
        ensures
            final(self)@ == old(self)@.left(),
            match environment {
                Some(handle) => old(self)@.stack.len() > 0 && handle@ == old(self)@.stack.last(),
                None => old(self)@.stack.len() == 0,
            },
    {
        let environment = self.environment_stack.pop();
        assert(self@.records =~= old(self)@.records);
        assert(self@.stack =~= old(self)@.left().stack);
        environment
    }

    /// The number of frames that are active.
    pub fn depth(&self) -> (depth: usize)
        ensures
            depth == self@.stack.len(),
    {
        self.environment_stack.len()
    }

    /// The number of frames that were made.
    pub fn len(&self) -> (len: usize)
        ensures
            len == self@.records.len(),
    {
        self.records.len()
    }

    /// The handle of the frame at a place, if so many frames were made.
    pub fn handle(&self, index: usize) -> (handle: Option<Environment>)
        ensures
            match handle {
                Some(handle) => handle@ == index && self.contains(handle),
                None => index >= self@.records.len(),
            },
    {
        if index < self.records.len() {
            Some(Environment { index })
        } else {
            None
        }
    }

    /// The active frame at a depth of the stack, the outermost one at
    /// depth 0.
    pub fn active(&self, depth: usize) -> (environment: Option<Environment>)
        ensures
            match environment {
                Some(handle) => depth < self@.stack.len() && handle@ == self@.stack[depth as int],
                None => depth >= self@.stack.len(),
            },
    {
        if depth < self.environment_stack.len() {
            Some(self.environment_stack[depth])
        } else {
            None
        }
    }

    /// The innermost active frame.
    pub fn get_current_environment(&self) -> (environment: Option<Environment>)
        ensures
            match environment {
                Some(handle) => self@.stack.len() > 0 && handle@ == self@.stack.last(),
                None => self@.stack.len() == 0,
            },
    {
        let depth = self.environment_stack.len();
        if depth > 0 {
            Some(self.environment_stack[depth - 1])
        } else {
            None
        }
    }

    /// The frame of a handle, to read it.
    pub fn record(&self, environment: Environment) -> (frame: &FunctionEnvironmentRecord)
        requires
            self.contains(environment),
        ensures
            frame@ == self@.records[environment@],
    {
        &self.records[environment.index]
    }

    /// The frame of a handle, to change it. What the caller makes of the
    /// frame is what is kept.
    pub fn record_mut(&mut self, environment: Environment) -> (frame: &mut FunctionEnvironmentRecord)
        requires
            old(self).contains(environment),
        ensures
            frame@ == old(self)@.records[environment@],
            final(self)@ == old(self)@.updated(environment@, final(frame)@),
    {
        &mut self.records[environment.index]
    }
}

/// Makes a frame without bindings for a call of the function `f`, around
/// which lies the frame `outer`, and returns its handle. The frame is not
/// entered.
pub fn new_function_environment(
    f: GcObject,
    this: Option<Value>,
    outer: Option<Environment>,
    binding_status: BindingStatus,
    environments: &mut LexicalEnvironment,
) -> (environment: Environment)
    requires
        old(environments).wf(),
    ensures
        final(environments).wf(),
        environment@ == old(environments)@.records.len(),
        final(environments)@ == old(environments)@.added(
            FunctionEnvironmentView::fresh(
                f@,
                match this {
                    Some(value) => Some(value@),
                    None => None,
                },
                environment_view(outer),
                binding_status,
            ),
        ),
{
    let index = environments.records.len();
    let frame = FunctionEnvironmentRecord::new(f, this, outer, binding_status);
    environments.records.push(frame);
    assert(environments@.records =~= old(environments)@.records.push(frame@));
    assert(environments@.stack =~= old(environments)@.stack);
    Environment { index }
}

} // verus!
