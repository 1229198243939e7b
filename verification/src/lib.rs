//! The runtime kernel of a small ECMAScript engine.
//!
//! * [`builtins::object::gcobject`]: the heap and its cells, whose borrows
//!   are checked as the program runs, and the protocol by which functions
//!   are called and objects are constructed.
//! * [`builtins::object`]: objects with their three property namespaces,
//!   and the passes over their properties in the order of enumeration.
//! * [`builtins`]: values, properties, function descriptors, and `Symbol`.
//! * [`environment`]: scope frames and the stack of the active ones.
//! * [`exec`]: the context of execution, and the `new` expression.
//! * [`collector`]: the reclaiming of what nothing can reach any more.
//! * [`syntax`]: the lexing of number literals.
//!
//! The kernel runs no code of the language itself. A call is started and
//! ended here; what lies between, to run a function of the host or the
//! statements of an interpreted function, is the host's part.

pub mod builtins;
pub mod collector;
pub mod environment;
pub mod exec;
pub mod keyed;
pub mod realm;
pub mod syntax;
