//! A bytecode VM for dynamic-tracing probe programs.
//!
//! A probe is a guarded action attached to a function entry or exit site: a
//! source text is lexed and parsed into an AST, compiled to compact
//! stack-based bytecode over a deduplicated constant pool, serialized to a
//! stable wire format, and executed by a stack VM that reaches the host
//! through a [`dispatcher::Dispatcher`].
//!
//! The VM core is language-agnostic: everything host-specific (variables,
//! attributes, items, calls, capture delivery) goes through the dispatcher.

use vstd::prelude::*;

pub mod ast;
pub mod compiler;
pub mod constant_pool;
pub mod dispatcher;
pub mod error;
pub mod executor;
pub mod floats;
pub mod lexer;
pub mod opcodes;
pub mod parser;
pub mod program;
pub mod text;
pub mod value;
pub mod wire;

pub use constant_pool::Constant;
pub use constant_pool::ConstantPool;
pub use dispatcher::BinaryOp;
pub use dispatcher::ComparisonOp;
pub use dispatcher::Dispatcher;
pub use executor::Executor;
pub use opcodes::Opcode;
pub use program::FnTarget;
pub use program::Probe;
pub use program::ProbeSpec;
pub use program::Program;
pub use value::Value;

verus! {

/// Current bytecode format version.
pub const BYTECODE_VERSION: u32 = 1;

} // verus!
