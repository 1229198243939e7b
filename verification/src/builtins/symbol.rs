//! The `Symbol` primitive: a description and an identity.

use vstd::prelude::*;
use vstd::string::StringExecFns;
use crate::builtins::function::{
    make_builtin_fn, make_constructor_fn, with_builtin_fn, with_constructor_fn, NativeFunction,
};
use crate::builtins::object::gcobject::CellView;
use crate::builtins::object::{ObjectDataView, ObjectView};
use crate::builtins::property::{PropertyKey, PropertyKeyView, PropertyView};
use crate::builtins::value::{intrinsic_prototype, no_writer, ResultValue, Value, ValueView};
use crate::exec::{Interpreter, InterpreterView};
use crate::keyed::NamespaceKey;

verus! {

/// What a symbol is to a contract: its description and its hash.
pub type SymbolView = (Option<Seq<char>>, u32);

/// A symbol: an optional description and the hash that makes it unique.
#[derive(Debug, PartialEq, Eq, PartialOrd, Ord, Hash)]
pub struct Symbol(Option<String>, u32);

impl View for Symbol {
    type V = SymbolView;

    closed spec fn view(&self) -> SymbolView {
        (
            match self.0 {
                Some(text) => Some(text@),
                None => None,
            },
            self.1,
        )
    }
}

impl Clone for Symbol {
    fn clone(&self) -> (copy: Self)
        ensures
            copy == *self,
    {
        let description = match &self.0 {
            Some(text) => Some(text.clone()),
            None => None,
        };
        Symbol(description, self.1)
    }
}

impl NamespaceKey for Symbol {
    fn same_key(&self, other: &Symbol) -> (same: bool) {
        self.equals(other)
    }
}

/// The name of the `Symbol` function.
pub const NAME: &'static str = "Symbol";

/// The number of parameters of the `Symbol` function.
pub const LENGTH: usize = 0;

/// The names of the well-known symbols, in the order in which they are
/// made.
pub open spec fn well_known_names() -> Seq<Seq<char>> {
    seq![
        "asyncIterator"@,
        "hasInstance"@,
        "isConcatSpreadable"@,
        "iterator"@,
        "match"@,
        "matchAll"@,
        "replace"@,
        "search"@,
        "species"@,
        "split"@,
        "toPrimitive"@,
        "toStringTag"@,
        "unscopables"@,
    ]
}

/// The context after a well-known symbol was made for the object
/// `target`: the symbol has the next hash and the description
/// `Symbol.` and its name, and the target holds it under its name.
pub open spec fn with_well_known(ctx: InterpreterView, target: int, name: Seq<char>) -> InterpreterView {
    InterpreterView {
        symbol_count: (ctx.symbol_count + 1) as u32,
        heap: ctx.heap.update(
            target,
            ctx.heap[target].holding(
                ctx.heap[target].object.insert(
                    PropertyKeyView::String(name),
                    PropertyView::field(
                        ValueView::Symbol((Some("Symbol."@ + name), ctx.symbol_count)),
                    ),
                ),
            ),
        ),
        ..ctx
    }
}

/// The context after the first `n` well-known symbols were made for the
/// object `target`.
pub open spec fn with_well_known_symbols(ctx: InterpreterView, target: int, n: nat) -> InterpreterView
    decreases n,
{
    if n == 0 {
        ctx
    } else {
        with_well_known(
            with_well_known_symbols(ctx, target, (n - 1) as nat),
            target,
            well_known_names()[n - 1],
        )
    }
}

/// The context after `Symbol` was set up. Three objects are new: the
/// prototype object of the symbols, which holds the method `toString` and
/// the constructor; the function object of `toString`; and the function
/// object of `Symbol`, which can be called but not constructed and holds
/// the prototype object and the well-known symbols, each under its name.
/// The prototype links of the three are those that the global object
/// provided before.
pub open spec fn symbol_init(ctx: InterpreterView) -> InterpreterView {
    let prototype = ctx.heap.len() as int;
    let function_prototype = intrinsic_prototype(ctx.heap, ctx.global, "Function"@);
    let started = ctx.heap.push(
        CellView::fresh(
            ObjectView::empty(
                ObjectDataView::Ordinary,
                intrinsic_prototype(ctx.heap, ctx.global, "Object"@),
            ),
        ),
    );
    let with_method = with_builtin_fn(
        started,
        NativeFunction::SymbolToString,
        "toString"@,
        prototype,
        0,
        function_prototype,
    );
    let with_constructor = with_constructor_fn(
        with_method,
        NAME@,
        LENGTH,
        NativeFunction::Symbol,
        prototype,
        false,
        true,
        function_prototype,
    );
    with_well_known_symbols(ctx.with_heap(with_constructor), prototype + 2, 13)
}

impl Symbol {
    /// Makes the symbol with the given description and hash.
    pub fn new(description: Option<String>, hash: u32) -> (symbol: Self)
        ensures
            symbol@ == (
                match description {
                    Some(text) => Some(text@),
                    None => None,
                },
                hash,
            ),
    {
        Symbol(description, hash)
    }

    /// Returns the `Symbol`s description.
    pub fn description(&self) -> (description: Option<&str>)
        ensures
            match description {
                Some(text) => self@.0 == Some(text@),
                None => self@.0 is None,
            },
    {
        match &self.0 {
            Some(text) => Some(text.as_str()),
            None => None,
        }
    }

    /// Returns the `Symbol`s hash.
    pub fn hash(&self) -> (hash: u32)
        ensures
            hash == self@.1,
    {
        self.1
    }

    /// Whether two symbols are the same symbol: same description, same hash.
    pub fn equals(&self, other: &Symbol) -> (same: bool)
        ensures
            same == (self@ == other@),
    {
        if self.1 != other.1 {
            return false;
        }
        match (&self.0, &other.0) {
            (Some(left), Some(right)) => *left == *right,
            (None, None) => true,
            _ => false,
        }
    }

    /// Makes a well-known symbol and stores it on `target` under `name`.
    fn well_known(target: &Value, name: &str, interpreter: &mut Interpreter)
        requires
            old(interpreter).wf(),
            old(interpreter)@.symbol_count < u32::MAX,
            target@ is Object,
            0 <= target@->Object_0 < old(interpreter)@.heap.len(),
            old(interpreter)@.heap[target@->Object_0].unused(),
        ensures
            final(interpreter).wf(),
            final(interpreter)@ == with_well_known(old(interpreter)@, target@->Object_0, name@),
    {
        let hash = interpreter.generate_hash();
        let mut description = "Symbol.".to_owned();
        description.append(name);
        let symbol = Symbol(Some(description), hash);
        target.set_field(PropertyKey::string(name), Value::symbol(symbol), &mut interpreter.heap);
    }

    /// Initialise the `Symbol` object on the global object: makes the
    /// function `Symbol` with its prototype object and the well-known
    /// symbols, and returns it with its name. Nobody may hold an object as
    /// a writer meanwhile.
    pub fn init(interpreter: &mut Interpreter) -> (made: (&'static str, Value))
        requires
            old(interpreter).wf(),
            no_writer(old(interpreter)@.heap),
            old(interpreter)@.symbol_count + 13 <= u32::MAX,
        ensures
            final(interpreter).wf(),
            made.0@ == NAME@,
            made.1@ == ValueView::Object(old(interpreter)@.heap.len() as int + 2),
            final(interpreter)@ == symbol_init(old(interpreter)@),
    {
        let ghost before = interpreter@;
        let ghost target = before.heap.len() as int + 2;
        let global = interpreter.global().clone();
        let function_prototype = Value::intrinsic_prototype(&global, "Function", &interpreter.heap);
        let prototype = Value::new_object(Some(&global), &mut interpreter.heap);
        make_builtin_fn(
            NativeFunction::SymbolToString,
            "toString",
            &prototype,
            0,
            function_prototype.clone(),
            &mut interpreter.heap,
        );
        let symbol_object = make_constructor_fn(
            NAME,
            LENGTH,
            NativeFunction::Symbol,
            &prototype,
            function_prototype,
            false,
            true,
            &mut interpreter.heap,
        );
        let ghost made = interpreter@;
        assert(interpreter@ == with_well_known_symbols(made, target, 0));
        Symbol::well_known(&symbol_object, "asyncIterator", interpreter);
        assert(interpreter@ == with_well_known_symbols(made, target, 1));
        Symbol::well_known(&symbol_object, "hasInstance", interpreter);
        assert(interpreter@ == with_well_known_symbols(made, target, 2));
        Symbol::well_known(&symbol_object, "isConcatSpreadable", interpreter);
        assert(interpreter@ == with_well_known_symbols(made, target, 3));
        Symbol::well_known(&symbol_object, "iterator", interpreter);
        assert(interpreter@ == with_well_known_symbols(made, target, 4));
        Symbol::well_known(&symbol_object, "match", interpreter);
        assert(interpreter@ == with_well_known_symbols(made, target, 5));
        Symbol::well_known(&symbol_object, "matchAll", interpreter);
        assert(interpreter@ == with_well_known_symbols(made, target, 6));
        Symbol::well_known(&symbol_object, "replace", interpreter);
        assert(interpreter@ == with_well_known_symbols(made, target, 7));
        Symbol::well_known(&symbol_object, "search", interpreter);
        assert(interpreter@ == with_well_known_symbols(made, target, 8));
        Symbol::well_known(&symbol_object, "species", interpreter);
        assert(interpreter@ == with_well_known_symbols(made, target, 9));
        Symbol::well_known(&symbol_object, "split", interpreter);
        assert(interpreter@ == with_well_known_symbols(made, target, 10));
        Symbol::well_known(&symbol_object, "toPrimitive", interpreter);
        assert(interpreter@ == with_well_known_symbols(made, target, 11));
        Symbol::well_known(&symbol_object, "toStringTag", interpreter);
        assert(interpreter@ == with_well_known_symbols(made, target, 12));
        Symbol::well_known(&symbol_object, "unscopables", interpreter);
        assert(interpreter@ == with_well_known_symbols(made, target, 13));
        (NAME, symbol_object)
    }

    /// The argument that the `Symbol` function turns into the description
    /// of the new symbol: the first one, unless it is missing or
    /// `undefined`. The host coerces it to a string, which may throw, and
    /// hands the string to [`Symbol::call`].
    pub fn description_argument(args: &[Value]) -> (argument: Option<&Value>)
        ensures
            match argument {
                Some(value) => args@.len() > 0 && *value == args@[0] && !(args@[0]@ is Undefined),
                None => args@.len() == 0 || args@[0]@ is Undefined,
            },
    {
        if args.len() > 0 && !args[0].is_undefined() {
            Some(&args[0])
        } else {
            None
        }
    }

    /// The `Symbol` function: makes a symbol with the given description
    /// and with a hash that no other symbol of the context has.
    pub fn call(description: Option<String>, ctx: &mut Interpreter) -> (result: ResultValue)
        requires
            old(ctx)@.symbol_count < u32::MAX,
        ensures
            result is Ok,
            result->Ok_0@ == ValueView::Symbol(
                (
                    match description {
                        Some(text) => Some(text@),
                        None => None,
                    },
                    old(ctx)@.symbol_count,
                ),
            ),
            final(ctx)@ == (InterpreterView {
                symbol_count: (old(ctx)@.symbol_count + 1) as u32,
                ..old(ctx)@
            }),
    {
        let hash = ctx.generate_hash();
        Ok(Value::symbol(Symbol(description, hash)))
    }

    /// The symbol that `value` stands for: the value itself where it is a
    /// symbol, the wrapped symbol where it is an object that wraps one.
    /// For any other value a type error is thrown.
    pub fn this_symbol_value(value: &Value, ctx: &mut Interpreter) -> (result: Result<
        Symbol,
        Value,
    >)
        requires
            old(ctx).wf(),
            value@ matches ValueView::Object(object) ==> 0 <= object < old(ctx)@.heap.len()
                ==> !old(ctx)@.heap[object].writing,
        ensures
            final(ctx).wf(),
            match this_symbol(old(ctx)@.heap, value@) {
                Some(symbol) => result is Ok && result->Ok_0@ == symbol && final(ctx)@ == old(
                    ctx,
                )@,
                None => result is Err && result->Err_0@ == ValueView::Object(
                    old(ctx)@.heap.len() as int,
                ) && final(ctx)@ == old(ctx)@.raised("'this' is not a Symbol"@),
            },
    {
        match value {
            Value::Symbol(symbol) => {
                return Ok(symbol.clone());
            },
            Value::Object(object) => {
                if ctx.heap.holds(*object) {
                    if let Some(symbol) = object.peek(&ctx.heap).as_symbol() {
                        return Ok(symbol);
                    }
                }
            },
            _ => {},
        }
        Err(ctx.construct_type_error("'this' is not a Symbol"))
    }

    /// `Symbol.prototype.toString()`: the string `Symbol(description)`
    /// for the symbol that `this` stands for, with nothing between the
    /// brackets where the symbol has no description. Where `this` stands
    /// for no symbol, a type error is thrown.
    pub fn to_string(this: &Value, _args: &[Value], ctx: &mut Interpreter) -> (result: ResultValue)
        requires
            old(ctx).wf(),
            this@ matches ValueView::Object(object) ==> 0 <= object < old(ctx)@.heap.len()
                ==> !old(ctx)@.heap[object].writing,
        ensures
            final(ctx).wf(),
            match this_symbol(old(ctx)@.heap, this@) {
                Some(symbol) => result is Ok && result->Ok_0@ == ValueView::String(
                    symbol_string(symbol),
                ) && final(ctx)@ == old(ctx)@,
                None => result is Err && result->Err_0@ == ValueView::Object(
                    old(ctx)@.heap.len() as int,
                ) && final(ctx)@ == old(ctx)@.raised("'this' is not a Symbol"@),
            },
    {
        let symbol = match Symbol::this_symbol_value(this, ctx) {
            Ok(symbol) => symbol,
            Err(thrown) => {
                return Err(thrown);
            },
        };
        let mut text = "Symbol(".to_owned();
        match symbol.description() {
            Some(description) => {
                text.append(description);
            },
            None => {
                assert(text@ + Seq::<char>::empty() =~= text@);
            },
        }
        text.append(")");
        Ok(Value::String(text))
    }
}

/// The symbol that a value stands for: the value itself where it is a
/// symbol, the wrapped symbol where it is an object of the heap that
/// wraps one.
pub open spec fn this_symbol(heap: Seq<CellView>, value: ValueView) -> Option<SymbolView> {
    match value {
        ValueView::Symbol(symbol) => Some(symbol),
        ValueView::Object(object) => if 0 <= object < heap.len() {
            heap[object].object.symbol()
        } else {
            None
        },
        _ => None,
    }
}

/// The string that a symbol is shown as: `Symbol(description)`.
pub open spec fn symbol_string(symbol: SymbolView) -> Seq<char> {
    "Symbol("@ + match symbol.0 {
        Some(description) => description,
        None => Seq::empty(),
    } + ")"@
}

} // verus!
