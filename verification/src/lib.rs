//! A decoder for the pickle format of CPython, protocols 0 to 5.
//!
//! A stream is a program for a small stack machine. [`Unpickler`] runs that machine on
//! the bytes of a stream and hands back the [`Value`] that the stream builds: a tree
//! that stands for itself, with no reference to the runtime that wrote the stream.
//!
//! The decoder reads from memory and holds doubles as their bit patterns. A float that
//! a stream writes as text is handed out to the caller, who parses it and hands its bits
//! back ([`Decoding::NeedsFloat`], [`Unpickler::resume`]).
//!
//! The modules:
//! - [`value`], [`wrappers`], [`error`]: what is decoded, and what can go wrong;
//! - [`opcodes`], [`machine`], [`convert`]: the stack machine and the post-processor, as
//!   a mathematical model;
//! - [`pickle`]: the decoder, proved to do what the model says;
//! - [`numbers`], [`text`], [`bigint`]: the payloads of the opcodes;
//! - [`laws`], [`links`]: what holds of every stream.

pub mod bigint;
pub mod convert;
pub mod error;
pub mod laws;
pub mod links;
pub mod machine;
pub mod numbers;
pub mod opcodes;
pub mod pickle;
pub mod text;
pub mod value;
pub mod wrappers;

pub use crate::error::{Error, ErrorCode};
pub use crate::pickle::{Decoding, Progress, Unpickler, UnpicklerOptions};
pub use crate::value::{Global, MemoId, Value};
pub use crate::wrappers::{F64Wrapper, HashMapWrapper, HashSetWrapper};
