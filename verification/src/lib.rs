//! In-process boundary around the Nickel evaluator: evaluate source text and
//! hand the result back either as JSON text or as a compact, self-describing
//! binary encoding, with a per-boundary error slot for diagnostics.

pub mod boundary;
pub mod decode;
pub mod encode;
pub mod value;

pub use boundary::Boundary;
pub use boundary::NativeBuffer;
pub use value::Value;
