//! The backends; there is one, for RPM-based systems.

pub mod fedora;
