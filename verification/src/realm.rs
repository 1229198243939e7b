//! The realm: the global object and the scope frames.

use vstd::prelude::*;
use crate::builtins::value::Value;
use crate::environment::LexicalEnvironment;

verus! {

/// What the code of one engine shares: its global object, and its scope
/// frames with their stack.
#[derive(Debug, PartialEq, Eq)]
pub struct Realm {
    pub global_obj: Value,
    pub environment: LexicalEnvironment,
}

} // verus!
