//! Request handling for a managed key-value table: decoding invocation
//! payloads, the client side of the backing engine's protocol, and the
//! executor that turns a command into a typed outcome.
//!
//! Nothing here performs I/O. Each handler is a state machine that names the
//! next call to make against the backing engine and takes the engine's
//! reply; whoever owns the connection runs the loop.
//!
//! - [`request`] reads a command from a payload.
//! - [`store`] is the table store client: the creation of a table and the
//!   reading of one, each as a state machine over the calls of [`engine`].
//! - [`executor`] takes an invocation from its payload to its terminal state
//!   and to the response.
//! - [`memory`] is an engine that keeps its tables in memory, and [`invoke`]
//!   runs whole invocations against it.
//! - [`model`], [`record`], [`projection`] and [`text`] hold the data that
//!   the others speak of.

pub mod engine;
pub mod executor;
pub mod invoke;
pub mod memory;
pub mod model;
pub mod projection;
pub mod record;
pub mod request;
pub mod store;
pub mod text;
