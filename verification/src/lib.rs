//! The transactional core of a package manager for RPM-based systems: the
//! error taxonomy, the plan with its size accounting, the resolver, the staged
//! executor, the repository catalog, the installed database and the protocol
//! of the exclusive process lock.
//!
//! The library decides and computes; it touches neither files nor the
//! network. Its callers read what is on the machine, hand it over as plain
//! values, and carry out what the library asks for.

pub mod backend;
pub mod config;
pub mod engine;
pub mod text;
