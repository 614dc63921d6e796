//! A WebAssembly execution engine.
//!
//! The engine turns the output of a pluggable code-generation capability into
//! runnable instances: it places compiled function bodies into an append-only
//! code memory arena that is published (made executable) exactly once per
//! batch, canonicalizes function signatures into small indices, caches one
//! calling-convention trampoline per distinct signature, links a module's
//! imports against caller-supplied definitions, and serializes compiled
//! artifacts behind a fixed magic header so that a headless engine (one with
//! no code generator attached) can still instantiate them.

use vstd::prelude::*;

pub mod arena;
pub mod capi;
pub mod codec;
pub mod engine;
pub mod imports;
pub mod instance;
pub mod interp;
pub mod module;
pub mod registry;
pub mod types;

verus! {

/// Failure of `validate` or `compile`.
#[derive(Debug)]
pub enum CompileError {
    /// The bytecode was rejected by the code-generation capability.
    Validate(String),
    /// The code-generation capability failed internally, or the engine is
    /// headless and cannot compile at all.
    Codegen(String),
    /// Memory for the compiled code could not be allocated.
    Resource(String),
}

/// Failure of `instantiate`.
#[derive(Debug)]
pub enum InstantiationError {
    /// An import could not be resolved, or its type disagreed with the
    /// declaration.
    Link(String),
    /// The start function trapped.
    Start(Trap),
    /// Instance storage exceeded the engine's tunables.
    Resource(String),
}

/// Failure of `serialize`.
#[derive(Debug)]
pub enum SerializeError {
    Incompatible(String),
}

/// Failure of `deserialize`.
#[derive(Debug)]
pub enum DeserializeError {
    /// The magic header did not match, or the artifact was structurally
    /// malformed.
    Incompatible(String),
    /// Executable memory for the artifact's code could not be allocated.
    Resource(String),
}

/// Failure of a host-initiated call into an instance's export.
#[derive(Debug, Clone, Copy, PartialEq, Eq, Structural)]
pub enum RuntimeError {
    /// No export carries the requested name.
    ExportNotFound,
    /// The export exists but is not a function.
    NotAFunction,
    /// No trampoline is cached for the function's signature, so the
    /// host/guest boundary cannot be crossed.
    MissingTrampoline,
    /// The guest code trapped.
    Trap(Trap),
}

/// Abrupt termination of guest code, caught at the host/guest boundary and
/// returned as a value, never allowed to take the host process down.
#[derive(Debug, Clone, Copy, PartialEq, Eq, Structural)]
pub enum Trap {
    /// An `unreachable` instruction was executed.
    Unreachable,
    /// The interpretation budget ran out (runaway recursion).
    OutOfFuel,
    /// An operand index pointed outside the frame's locals.
    BadLocal,
    /// A global index pointed outside the instance's globals.
    BadGlobal,
    /// A function index pointed outside the instance's functions.
    BadFunction,
    /// An operand had the wrong type, or the operand stack was exhausted.
    TypeMismatch,
    /// An undefined opcode, or a truncated immediate.
    BadOpcode,
    /// Signed division by zero or overflowing signed division.
    DivisionError,
    /// A function body's address pointed at arena memory that was never
    /// published as executable.
    CodeNotExecutable,
}

} // verus!
