//! What every command rests on: errors, plans, the resolver interface, the
//! lock and the context of an invocation.

pub mod context;
pub mod errors;
pub mod lock;
pub mod resolver;
pub mod transaction;
