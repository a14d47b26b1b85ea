//! Template-placeholder engine: finds the active (unescaped) braces of a
//! message string by run-length parity, rewrites every real placeholder into
//! a positional marker, binds the extracted expressions to field identifiers,
//! and reports the fields of a group that no template references.

pub mod binder;
pub mod formatter;
pub mod helpers;
pub mod laws;
pub mod scanner;
pub mod validator;
