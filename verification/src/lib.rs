//! A type-directed binary encoding for log events: a value appends the
//! identifier of its shape and then its data to a bounded sink, and a
//! composite writes a discriminant byte and lets its payload do the same.
pub mod format;
pub mod formatter;
pub mod framing;
pub mod impls;
pub mod laws;
pub mod symbols;
pub mod wire;

pub use format::Format;
pub use formatter::{Formatter, Scalar, SinkFull};
pub use symbols::{Interner, SymbolTable};
